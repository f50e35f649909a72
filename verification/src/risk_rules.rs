//! Which rules a node of the exposure graph raises risks under.
use vstd::prelude::*;
use crate::graph::{degree, EdgeV, NodeKind, NodeV};
use crate::risk::{
    admin_subdomain_risks, attr_or_empty, hub_risks, inconsistent_tls_risks, node_risks, plaintext_risks,
    surface_risks, tls_flag, RiskV,
};
use crate::text::{contains, ieq, lower};

verus! {

/// Some risk of `rs` follows rule `id`.
pub open spec fn has_rule(rs: Seq<RiskV>, id: Seq<char>) -> bool {
    exists|k: int| 0 <= k < rs.len() && (#[trigger] rs[k]).rule_id == id
}

/// The rule of the one risk of `rs`, when it holds one.
spec fn only_rule(rs: Seq<RiskV>, id: Seq<char>) -> bool {
    rs.len() > 0 && rs[0].rule_id == id
}

proof fn lemma_has_rule_concat(a: Seq<RiskV>, b: Seq<RiskV>, id: Seq<char>)
    ensures
        has_rule(a + b, id) <==> has_rule(a, id) || has_rule(b, id),
{
    if has_rule(a + b, id) {
        let k = choose|k: int| 0 <= k < (a + b).len() && (#[trigger] (a + b)[k]).rule_id == id;
        if k < a.len() {
            assert(a[k] == (a + b)[k]);
        } else {
            assert(b[k - a.len()] == (a + b)[k]);
        }
    }
    if has_rule(a, id) {
        let k = choose|k: int| 0 <= k < a.len() && (#[trigger] a[k]).rule_id == id;
        assert((a + b)[k] == a[k]);
    }
    if has_rule(b, id) {
        let k = choose|k: int| 0 <= k < b.len() && (#[trigger] b[k]).rule_id == id;
        assert((a + b)[a.len() + k] == b[k]);
    }
}

proof fn lemma_has_rule_short(rs: Seq<RiskV>, id: Seq<char>)
    requires
        rs.len() <= 1,
    ensures
        has_rule(rs, id) <==> only_rule(rs, id),
{
    if only_rule(rs, id) {
        assert(rs[0].rule_id == id);
    }
}

proof fn lemma_rule_parts(n: NodeV, es: Seq<EdgeV>, id: Seq<char>)
    ensures
        has_rule(node_risks(n, es), id) <==> only_rule(plaintext_risks(n), id) || only_rule(surface_risks(n, es), id)
            || only_rule(inconsistent_tls_risks(n), id) || only_rule(admin_subdomain_risks(n), id) || only_rule(
            hub_risks(n, es),
            id,
        ),
{
    let p = plaintext_risks(n);
    let su = surface_risks(n, es);
    let t = inconsistent_tls_risks(n);
    let ad = admin_subdomain_risks(n);
    let h = hub_risks(n, es);
    lemma_has_rule_concat(p, su, id);
    lemma_has_rule_concat(p + su, t, id);
    lemma_has_rule_concat(p + su + t, ad, id);
    lemma_has_rule_concat(p + su + t + ad, h, id);
    lemma_has_rule_short(p, id);
    lemma_has_rule_short(su, id);
    lemma_has_rule_short(t, id);
    lemma_has_rule_short(ad, id);
    lemma_has_rule_short(h, id);
}

proof fn lemma_rule_names_distinct()
    ensures
        "plaintext-http-service"@ != "admin-surface-exposed"@,
        "plaintext-http-service"@ != "https-without-tls-flag"@,
        "plaintext-http-service"@ != "admin-subdomain-exposed"@,
        "plaintext-http-service"@ != "high-degree-hub"@,
        "admin-surface-exposed"@ != "https-without-tls-flag"@,
        "admin-surface-exposed"@ != "admin-subdomain-exposed"@,
        "admin-surface-exposed"@ != "high-degree-hub"@,
        "https-without-tls-flag"@ != "admin-subdomain-exposed"@,
        "https-without-tls-flag"@ != "high-degree-hub"@,
        "admin-subdomain-exposed"@ != "high-degree-hub"@,
{
    reveal_strlit("plaintext-http-service");
    reveal_strlit("admin-surface-exposed");
    reveal_strlit("https-without-tls-flag");
    reveal_strlit("admin-subdomain-exposed");
    reveal_strlit("high-degree-hub");
    assert("plaintext-http-service"@.len() == 22);
    assert("admin-surface-exposed"@.len() == 21);
    assert("https-without-tls-flag"@.len() == 22);
    assert("admin-subdomain-exposed"@.len() == 23);
    assert("high-degree-hub"@.len() == 15);
    assert("plaintext-http-service"@[0] != "https-without-tls-flag"@[0]);
}

proof fn lemma_rule_plaintext(n: NodeV, es: Seq<EdgeV>)
    ensures
        has_rule(node_risks(n, es), "plaintext-http-service"@) <==> n.kind == NodeKind::Service && ieq(attr_or_empty(n.attributes, "scheme"@), "http"@),
{
    lemma_rule_names_distinct();
    let id = "plaintext-http-service"@;
    lemma_rule_parts(n, es, id);
    let cond = n.kind == NodeKind::Service && ieq(attr_or_empty(n.attributes, "scheme"@), "http"@);
    assert(only_rule(plaintext_risks(n), id) <==> cond);
    assert(!only_rule(surface_risks(n, es), id));
    assert(!only_rule(inconsistent_tls_risks(n), id));
    assert(!only_rule(admin_subdomain_risks(n), id));
    assert(!only_rule(hub_risks(n, es), id));
}

proof fn lemma_rule_surface(n: NodeV, es: Seq<EdgeV>)
    ensures
        has_rule(node_risks(n, es), "admin-surface-exposed"@) <==> n.kind == NodeKind::Service && contains(lower(n.label), "admin"@),
{
    lemma_rule_names_distinct();
    lemma_rule_parts(n, es, "admin-surface-exposed"@);
}

proof fn lemma_rule_tls(n: NodeV, es: Seq<EdgeV>)
    ensures
        has_rule(node_risks(n, es), "https-without-tls-flag"@) <==> n.kind == NodeKind::Service && !tls_flag(n.attributes) && ieq(attr_or_empty(n.attributes, "scheme"@), "https"@),
{
    lemma_rule_names_distinct();
    lemma_rule_parts(n, es, "https-without-tls-flag"@);
}

proof fn lemma_rule_admin_subdomain(n: NodeV, es: Seq<EdgeV>)
    ensures
        has_rule(node_risks(n, es), "admin-subdomain-exposed"@) <==> n.kind == NodeKind::Subdomain && contains(lower(n.label), "admin"@),
{
    lemma_rule_names_distinct();
    lemma_rule_parts(n, es, "admin-subdomain-exposed"@);
}

proof fn lemma_rule_hub(n: NodeV, es: Seq<EdgeV>)
    ensures
        has_rule(node_risks(n, es), "high-degree-hub"@) <==> degree(es, n.node_id) >= 8 && (n.kind == NodeKind::Service || n.kind == NodeKind::Subdomain),
{
    lemma_rule_names_distinct();
    lemma_rule_parts(n, es, "high-degree-hub"@);
}

/// Which rules a node raises a risk under, each exactly when its condition
/// holds: plain HTTP on a service (`scheme` is `http` in any ASCII case); an
/// administrative service (its label holds `admin` in any ASCII case); a
/// service on HTTPS whose `tls_enabled` is not `true`; an administrative
/// subdomain; a service or subdomain with eight or more edge ends.
pub proof fn law_node_risk_rules(n: NodeV, es: Seq<EdgeV>)
    ensures
        has_rule(node_risks(n, es), "plaintext-http-service"@) <==> n.kind == NodeKind::Service && ieq(
            attr_or_empty(n.attributes, "scheme"@),
            "http"@,
        ),
        has_rule(node_risks(n, es), "admin-surface-exposed"@) <==> n.kind == NodeKind::Service && contains(
            lower(n.label),
            "admin"@,
        ),
        has_rule(node_risks(n, es), "https-without-tls-flag"@) <==> n.kind == NodeKind::Service && !tls_flag(
            n.attributes,
        ) && ieq(attr_or_empty(n.attributes, "scheme"@), "https"@),
        has_rule(node_risks(n, es), "admin-subdomain-exposed"@) <==> n.kind == NodeKind::Subdomain && contains(
            lower(n.label),
            "admin"@,
        ),
        has_rule(node_risks(n, es), "high-degree-hub"@) <==> degree(es, n.node_id) >= 8 && (n.kind
            == NodeKind::Service || n.kind == NodeKind::Subdomain),
{
    lemma_rule_plaintext(n, es);
    lemma_rule_surface(n, es);
    lemma_rule_tls(n, es);
    lemma_rule_admin_subdomain(n, es);
    lemma_rule_hub(n, es);
}

} // verus!
