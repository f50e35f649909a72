//! Risk reports: the rules that turn the exposure graph, the drift timeline
//! and the risk episodes into prioritized risks.
use vstd::prelude::*;
use crate::correlation::{episode_state_name, kind_name, EpisodeCollection, EpisodeV, RiskEpisode};
use crate::graph::{
    attrs_view, degree, edges_view, key_index, node_kind_name, nodes_view, AttrsV, EdgeV,
    ExposureGraph, GraphEdge, GraphNode, NodeKind, NodeV,
};
use crate::order::{lemma_insert_pos_lt_first, lemma_sort_by_lt_step, seq_lt, sort_by_lt, str_less};
use crate::text::{
    contains, contains_lit, decimal, decimal_text, ieq, lemma_strings_view_push, lower, lower_chars,
    owned, push_str, str_eq, strings_view, trim,
};
use crate::timeline::{ResourceAggregate, TimelineReport};

verus! {

#[derive(Debug, Clone, Copy, PartialEq, Eq, Structural)]
pub enum RiskSeverity {
    Low,
    Medium,
    High,
    Critical,
}

pub open spec fn risk_rank(s: RiskSeverity) -> int {
    match s {
        RiskSeverity::Low => 0,
        RiskSeverity::Medium => 1,
        RiskSeverity::High => 2,
        RiskSeverity::Critical => 3,
    }
}

pub open spec fn risk_severity_name(s: RiskSeverity) -> Seq<char> {
    match s {
        RiskSeverity::Low => "LOW"@,
        RiskSeverity::Medium => "MEDIUM"@,
        RiskSeverity::High => "HIGH"@,
        RiskSeverity::Critical => "CRITICAL"@,
    }
}

impl RiskSeverity {
    pub fn as_str(&self) -> (r: &'static str)
        ensures
            r@ == risk_severity_name(*self),
    {
        match self {
            RiskSeverity::Low => "LOW",
            RiskSeverity::Medium => "MEDIUM",
            RiskSeverity::High => "HIGH",
            RiskSeverity::Critical => "CRITICAL",
        }
    }

    pub fn to_string(&self) -> (r: String)
        ensures
            r@ == risk_severity_name(*self),
    {
        owned(self.as_str())
    }

    fn rank(&self) -> (r: u8)
        ensures
            r == risk_rank(*self),
    {
        match self {
            RiskSeverity::Low => 0,
            RiskSeverity::Medium => 1,
            RiskSeverity::High => 2,
            RiskSeverity::Critical => 3,
        }
    }
}

/// One risk: the rule that found it, on what, how bad, and what to do.
#[derive(Debug, Clone)]
pub struct RiskItem {
    pub rule_id: String,
    pub title: String,
    pub severity: RiskSeverity,
    pub score: u32,
    pub resource: String,
    pub kind: String,
    pub description: String,
    pub recommendation: String,
    pub evidence: Vec<String>,
}

pub struct RiskV {
    pub rule_id: Seq<char>,
    pub title: Seq<char>,
    pub severity: RiskSeverity,
    pub score: u32,
    pub resource: Seq<char>,
    pub kind: Seq<char>,
    pub description: Seq<char>,
    pub recommendation: Seq<char>,
    pub evidence: Seq<Seq<char>>,
}

impl View for RiskItem {
    type V = RiskV;

    open spec fn view(&self) -> RiskV {
        RiskV {
            rule_id: self.rule_id@,
            title: self.title@,
            severity: self.severity,
            score: self.score,
            resource: self.resource@,
            kind: self.kind@,
            description: self.description@,
            recommendation: self.recommendation@,
            evidence: strings_view(self.evidence@),
        }
    }
}

pub open spec fn risks_view(v: Seq<RiskItem>) -> Seq<RiskV> {
    Seq::new(v.len(), |i: int| v[i]@)
}

/// The risks of a target, highest first.
#[derive(Debug, Clone)]
pub struct RiskReport {
    pub target: String,
    pub generated_at: i64,
    pub total_risks: usize,
    pub critical: usize,
    pub high: usize,
    pub medium: usize,
    pub low: usize,
    pub total_score: u32,
    pub top_risks: Vec<RiskItem>,
    pub risks: Vec<RiskItem>,
}

pub open spec fn risk_of(
    rule_id: Seq<char>,
    title: Seq<char>,
    severity: RiskSeverity,
    score: u32,
    resource: Seq<char>,
    kind: Seq<char>,
    description: Seq<char>,
    recommendation: Seq<char>,
    evidence: Seq<Seq<char>>,
) -> RiskV {
    RiskV { rule_id, title, severity, score, resource, kind, description, recommendation, evidence }
}

/// Whether a label looks administrative.
pub open spec fn admin_label(label: Seq<char>) -> bool {
    contains(lower(label), "admin"@)
}

/// The value of attribute `k`, or empty.
pub open spec fn attr_or_empty(a: AttrsV, k: Seq<char>) -> Seq<char> {
    match key_index(a, k) {
        Some(i) => a[i].1,
        None => Seq::empty(),
    }
}

/// Whether attribute `tls_enabled` reads `true`, in any case.
pub open spec fn tls_flag(a: AttrsV) -> bool {
    match key_index(a, "tls_enabled"@) {
        Some(i) => ieq(a[i].1, "true"@),
        None => false,
    }
}

/// `key=value` when the value holds something besides whitespace.
pub open spec fn kv_if_present(key: Seq<char>, value: Seq<char>) -> Seq<Seq<char>> {
    if trim(value).len() == 0 {
        Seq::empty()
    } else {
        seq![key + "="@ + value]
    }
}

pub open spec fn bool_word(b: bool) -> Seq<char> {
    if b {
        "true"@
    } else {
        "false"@
    }
}

pub open spec fn plaintext_risks(n: NodeV) -> Seq<RiskV> {
    let a = n.attributes;
    let scheme = attr_or_empty(a, "scheme"@);
    let admin = admin_label(n.label);
    if n.kind == NodeKind::Service && ieq(scheme, "http"@) {
        seq![
            risk_of(
                "plaintext-http-service"@,
                "Servicio HTTP expuesto sin cifrado"@,
                if admin { RiskSeverity::Critical } else { RiskSeverity::High },
                if admin { 95u32 } else { 70u32 },
                n.label,
                "service"@,
                "El servicio "@ + n.label + " está expuesto sobre HTTP sin TLS."@,
                "Migrar el servicio a HTTPS o retirar la exposición pública."@,
                seq!["scheme="@ + scheme, "status="@ + attr_or_empty(a, "status"@)] + kv_if_present(
                    "provider"@,
                    attr_or_empty(a, "provider"@),
                ) + kv_if_present("title"@, attr_or_empty(a, "title"@)),
            ),
        ]
    } else {
        Seq::empty()
    }
}

pub open spec fn surface_risks(n: NodeV, es: Seq<EdgeV>) -> Seq<RiskV> {
    let tls = tls_flag(n.attributes);
    if n.kind == NodeKind::Service && admin_label(n.label) {
        seq![
            risk_of(
                "admin-surface-exposed"@,
                "Superficie administrativa expuesta"@,
                if tls { RiskSeverity::High } else { RiskSeverity::Critical },
                if tls { 85u32 } else { 100u32 },
                n.label,
                "service"@,
                "El servicio "@ + n.label + " presenta patrón administrativo y está expuesto."@,
                "Restringir acceso, validar autenticación fuerte y limitar exposición."@,
                seq!["pattern=admin"@, "tls_enabled="@ + bool_word(tls), "degree="@ + decimal(degree(es, n.node_id))],
            ),
        ]
    } else {
        Seq::empty()
    }
}

pub open spec fn inconsistent_tls_risks(n: NodeV) -> Seq<RiskV> {
    if n.kind == NodeKind::Service && !tls_flag(n.attributes) && ieq(attr_or_empty(n.attributes, "scheme"@), "https"@) {
        seq![
            risk_of(
                "https-without-tls-flag"@,
                "Servicio HTTPS con señal inconsistente de TLS"@,
                RiskSeverity::Medium,
                40,
                n.label,
                "service"@,
                "El servicio "@ + n.label + " usa esquema HTTPS pero tls_enabled=false."@,
                "Validar la detección HTTP/TLS y revisar la configuración del servicio."@,
                seq!["scheme=https"@, "tls_enabled=false"@],
            ),
        ]
    } else {
        Seq::empty()
    }
}

pub open spec fn admin_subdomain_risks(n: NodeV) -> Seq<RiskV> {
    if n.kind == NodeKind::Subdomain && admin_label(n.label) {
        seq![
            risk_of(
                "admin-subdomain-exposed"@,
                "Subdominio administrativo detectado"@,
                RiskSeverity::High,
                65,
                n.label,
                "subdomain"@,
                "El subdominio "@ + n.label + " parece pertenecer a una superficie administrativa."@,
                "Validar si el subdominio debe seguir expuesto y confirmar ownership."@,
                seq!["pattern=admin"@],
            ),
        ]
    } else {
        Seq::empty()
    }
}

pub open spec fn hub_risks(n: NodeV, es: Seq<EdgeV>) -> Seq<RiskV> {
    let d = degree(es, n.node_id);
    if d >= 8 && (n.kind == NodeKind::Service || n.kind == NodeKind::Subdomain) {
        seq![
            risk_of(
                "high-degree-hub"@,
                "Nodo hub con alta conectividad"@,
                RiskSeverity::Medium,
                35,
                n.label,
                node_kind_name(n.kind),
                "El nodo "@ + n.label + " concentra relaciones en el grafo (degree="@ + decimal(d) + ")."@,
                "Revisar primero este nodo durante análisis de impacto y remediación."@,
                seq!["degree="@ + decimal(d)],
            ),
        ]
    } else {
        Seq::empty()
    }
}

/// The risks one node raises, in the order of the rules: plaintext HTTP, an
/// administrative service, HTTPS without TLS, an administrative subdomain,
/// a hub of eight or more edge ends.
pub open spec fn node_risks(n: NodeV, es: Seq<EdgeV>) -> Seq<RiskV> {
    plaintext_risks(n) + surface_risks(n, es) + inconsistent_tls_risks(n) + admin_subdomain_risks(n)
        + hub_risks(n, es)
}

/// The risks of every node, in the order of the nodes.
pub open spec fn graph_risks(ns: Seq<NodeV>, es: Seq<EdgeV>) -> Seq<RiskV>
    decreases ns.len(),
{
    if ns.len() == 0 {
        Seq::empty()
    } else {
        graph_risks(ns.drop_last(), es) + node_risks(ns.last(), es)
    }
}

/// The risk of a resource that concentrates score in the timeline.
pub open spec fn hotspot_risk(r: Seq<char>, occurrences: usize, total: u32) -> RiskV {
    risk_of(
        "hotspot-resource"@,
        "Recurso hotspot con score acumulado alto"@,
        if total >= 140 { RiskSeverity::High } else { RiskSeverity::Medium },
        if total <= 160 { total } else { 160u32 },
        r,
        "resource"@,
        "El recurso "@ + r + " acumula score "@ + decimal(total as nat) + " en el timeline."@,
        "Analizar historial del recurso y validar si requiere hardening específico."@,
        seq!["occurrences="@ + decimal(occurrences as nat), "total_score="@ + decimal(total as nat)],
    )
}

/// The hotspot risks of the first `n` top resources.
pub open spec fn hotspot_risks(tops: Seq<ResourceAggregate>) -> Seq<RiskV>
    decreases tops.len(),
{
    if tops.len() == 0 {
        Seq::empty()
    } else {
        let t = tops.last();
        hotspot_risks(tops.drop_last()) + if t.total_score >= 80 {
            seq![hotspot_risk(t.resource@, t.occurrences, t.total_score)]
        } else {
            Seq::empty()
        }
    }
}

pub open spec fn first_n<T>(s: Seq<T>, n: int) -> Seq<T> {
    if s.len() > n {
        s.take(n)
    } else {
        s
    }
}

/// The risks the timeline raises: persistent critical drift, then the
/// hotspots among its first three top resources.
pub open spec fn timeline_risks(target: Seq<char>, t: TimelineReport) -> Seq<RiskV> {
    let e = t.executive;
    let persistent = if e.critical_findings > 0 && e.persistent_findings > 0 {
        seq![
            risk_of(
                "persistent-critical-drift"@,
                "Drift crítico persistente"@,
                RiskSeverity::Critical,
                110,
                target,
                "target"@,
                "Existen hallazgos críticos persistentes en el timeline del target."@,
                "Priorizar remediación estructural de los recursos reincidentes."@,
                seq![
                    "critical_findings="@ + decimal(e.critical_findings as nat),
                    "persistent_findings="@ + decimal(e.persistent_findings as nat),
                    "total_score="@ + decimal(e.total_score as nat),
                ],
            ),
        ]
    } else {
        Seq::empty()
    };
    persistent + hotspot_risks(first_n(e.top_resources@, 3))
}

/// The risk an episode raises.
pub open spec fn episode_risk(e: RiskEpisode) -> RiskV {
    risk_of(
        "high-risk-episode"@,
        "Episodio de riesgo relevante"@,
        if e.score >= 180 {
            RiskSeverity::Critical
        } else if e.score >= 120 {
            RiskSeverity::High
        } else {
            RiskSeverity::Medium
        },
        e.score,
        e.title@,
        "episode"@,
        "El episodio '"@ + e.title@ + "' refleja un evento compuesto de riesgo sobre "@ + decimal(
            e.resource_count as nat,
        ) + " recursos."@,
        "Revisar el episodio completo y coordinar remediación sobre los recursos asociados."@,
        seq![
            "episode_kind="@ + kind_name(e.kind),
            "state="@ + episode_state_name(e.state),
            "resource_count="@ + decimal(e.resource_count as nat),
        ],
    )
}

/// Every candidate risk, in the order the rules produce them.
pub open spec fn risk_candidates(
    target: Seq<char>,
    timeline: Option<TimelineReport>,
    episodes: Option<EpisodeCollection>,
    ns: Seq<NodeV>,
    es: Seq<EdgeV>,
) -> Seq<RiskV> {
    let g = graph_risks(ns, es);
    let t = match timeline {
        Some(tl) => timeline_risks(target, tl),
        None => Seq::empty(),
    };
    let e = match episodes {
        Some(c) => {
            let eps = first_n(c.episodes@, 5);
            Seq::new(eps.len(), |i: int| episode_risk(eps[i]))
        },
        None => Seq::empty(),
    };
    g + t + e
}

/// The key under which a risk is reported once: `rule_id|resource`.
pub open spec fn risk_key(r: RiskV) -> Seq<char> {
    r.rule_id + "|"@ + r.resource
}

/// The candidates without those whose key an earlier one had.
pub open spec fn dedup_risks(rs: Seq<RiskV>) -> Seq<RiskV>
    decreases rs.len(),
{
    if rs.len() == 0 {
        Seq::empty()
    } else {
        let d = dedup_risks(rs.drop_last());
        if exists|i: int| 0 <= i < d.len() && risk_key(d[i]) == risk_key(rs.last()) {
            d
        } else {
            d.push(rs.last())
        }
    }
}

/// Higher score first, then higher severity, then by resource, then by rule.
pub open spec fn risk_before(a: RiskV, b: RiskV) -> bool {
    a.score > b.score || (a.score == b.score && (risk_rank(a.severity) > risk_rank(b.severity) || (
    a.severity == b.severity && (seq_lt(a.resource, b.resource) || (a.resource == b.resource
        && seq_lt(a.rule_id, b.rule_id))))))
}

pub open spec fn risk_order() -> spec_fn(RiskV, RiskV) -> bool {
    |a: RiskV, b: RiskV| risk_before(a, b)
}

pub open spec fn count_severity(rs: Seq<RiskV>, s: RiskSeverity) -> nat
    decreases rs.len(),
{
    if rs.len() == 0 {
        0
    } else {
        count_severity(rs.drop_last(), s) + if rs.last().severity == s {
            1nat
        } else {
            0nat
        }
    }
}

pub open spec fn risk_total(rs: Seq<RiskV>) -> nat
    decreases rs.len(),
{
    if rs.len() == 0 {
        0
    } else {
        risk_total(rs.drop_last()) + rs.last().score as nat
    }
}

pub proof fn lemma_risks_view_push(v: Seq<RiskItem>, x: RiskItem)
    ensures
        risks_view(v.push(x)) == risks_view(v).push(x@),
{
    assert(risks_view(v.push(x)) =~= risks_view(v).push(x@));
}

fn risk_item(
    rule_id: &str,
    title: &str,
    severity: RiskSeverity,
    score: u32,
    resource: String,
    kind: String,
    description: String,
    recommendation: &str,
    evidence: Vec<String>,
) -> (r: RiskItem)
    ensures
        r@ == risk_of(rule_id@, title@, severity, score, resource@, kind@, description@, recommendation@, strings_view(evidence@)),
{
    RiskItem {
        rule_id: owned(rule_id),
        title: owned(title),
        severity,
        score,
        resource,
        kind,
        description,
        recommendation: owned(recommendation),
        evidence,
    }
}

/// Appends the risks of `more` to `out`.
fn append_risks(out: &mut Vec<RiskItem>, more: Vec<RiskItem>)
    ensures
        risks_view(final(out)@) == risks_view(old(out)@) + risks_view(more@),
{
    let ghost start = risks_view(out@);
    let ghost mv = risks_view(more@);
    let mut rest = more;
    let n = rest.len();
    let mut i: usize = 0;
    assert(start + mv.take(0) =~= start);
    while rest.len() > 0
        invariant
            i + rest@.len() == n,
            n == mv.len(),
            risks_view(rest@) == mv.skip(i as int),
            risks_view(out@) == start + mv.take(i as int),
        decreases rest.len(),
    {
        let ghost old_rest = rest@;
        let x = rest.remove(0);
        assert forall|j: int| 0 <= j < rest@.len() implies #[trigger] risks_view(rest@)[j] == mv.skip(i + 1)[j] by {
            assert(rest@[j] == old_rest[j + 1]);
            assert(risks_view(old_rest)[j + 1] == mv.skip(i as int)[j + 1]);
        }
        assert(mv[i as int] == x@) by {
            assert(mv.skip(i as int)[0] == mv[i as int]);
        }
        proof {
            lemma_risks_view_push(out@, x);
            assert(start + mv.take(i + 1) =~= (start + mv.take(i as int)).push(mv[i as int]));
        }
        out.push(x);
        assert(risks_view(rest@) =~= mv.skip(i + 1));
        i = i + 1;
    }
    assert(mv.take(i as int) =~= mv);
}

/// The value of attribute `k`, or an empty string.
fn attr_value(a: &Vec<(String, String)>, k: &str) -> (r: String)
    ensures
        r@ == attr_or_empty(attrs_view(a@), k@),
{
    match crate::graph::find_key(a, k) {
        Some(i) => a[i].1.clone(),
        None => String::new(),
    }
}

/// Whether a label looks administrative.
pub fn is_admin_label(value: &str) -> (r: bool)
    ensures
        r == admin_label(value@),
{
    let lowered = lower_chars(value);
    contains_lit(&lowered, "admin")
}

/// `key=value` when the value holds something besides whitespace.
pub fn non_empty_kv(key: &str, value: &str) -> (r: Option<String>)
    ensures
        match r {
            Some(s) => kv_if_present(key@, value@) == seq![s@],
            None => kv_if_present(key@, value@) == Seq::<Seq<char>>::empty(),
        },
{
    if crate::text::is_blank(value) {
        None
    } else {
        let mut s = owned(key);
        push_str(&mut s, "=");
        push_str(&mut s, value);
        Some(s)
    }
}

/// Appends the string held by an option.
fn push_some(v: &mut Vec<String>, o: Option<String>, Ghost(want): Ghost<Seq<Seq<char>>>)
    requires
        match o {
            Some(s) => want == seq![s@],
            None => want == Seq::<Seq<char>>::empty(),
        },
    ensures
        strings_view(final(v)@) == strings_view(old(v)@) + want,
{
    match o {
        Some(s) => {
            proof {
                lemma_strings_view_push(v@, s);
            }
            v.push(s);
            assert(strings_view(v@) =~= strings_view(old(v)@) + want);
        },
        None => {
            assert(strings_view(v@) =~= strings_view(old(v)@) + want);
        },
    }
}

fn push_text(v: &mut Vec<String>, s: String)
    ensures
        strings_view(final(v)@) == strings_view(old(v)@).push(s@),
{
    proof {
        lemma_strings_view_push(v@, s);
    }
    v.push(s);
}

/// `prefix` followed by `text`.
fn prefixed(prefix: &str, text: &str) -> (r: String)
    ensures
        r@ == prefix@ + text@,
{
    let mut s = owned(prefix);
    push_str(&mut s, text);
    s
}

/// The risks one node raises.
fn node_risk_items(node: &GraphNode, edges: &Vec<GraphEdge>) -> (r: Vec<RiskItem>)
    requires
        edges@.len() <= usize::MAX / 2,
    ensures
        risks_view(r@) == node_risks(node@, edges_view(edges@)),
{
    let ghost n = node@;
    let ghost a = n.attributes;
    let scheme = attr_value(&node.attributes, "scheme");
    let tls = match crate::graph::find_key(&node.attributes, "tls_enabled") {
        Some(i) => crate::text::eq_ignore_case(node.attributes[i].1.as_str(), "true"),
        None => false,
    };
    assert(tls == tls_flag(a));
    let title = attr_value(&node.attributes, "title");
    let status = attr_value(&node.attributes, "status");
    let provider = attr_value(&node.attributes, "provider");
    let admin = is_admin_label(node.label.as_str());
    let d = crate::graph::edge_degree(edges, node.node_id.as_str());
    let service = match node.kind {
        NodeKind::Service => true,
        _ => false,
    };
    let label = node.label.as_str();
    let mut out: Vec<RiskItem> = Vec::new();
    let http = crate::text::eq_ignore_case(scheme.as_str(), "http");
    if service && http {
        let mut evidence: Vec<String> = Vec::new();
        push_text(&mut evidence, prefixed("scheme=", scheme.as_str()));
        push_text(&mut evidence, prefixed("status=", status.as_str()));
        let pk = non_empty_kv("provider", provider.as_str());
        push_some(&mut evidence, pk, Ghost(kv_if_present("provider"@, provider@)));
        let tk = non_empty_kv("title", title.as_str());
        push_some(&mut evidence, tk, Ghost(kv_if_present("title"@, title@)));
        assert(strings_view(evidence@) =~= seq!["scheme="@ + scheme@, "status="@ + status@] + kv_if_present(
            "provider"@,
            provider@,
        ) + kv_if_present("title"@, title@));
        let mut description = prefixed("El servicio ", label);
        push_str(&mut description, " está expuesto sobre HTTP sin TLS.");
        let item = risk_item(
            "plaintext-http-service",
            "Servicio HTTP expuesto sin cifrado",
            if admin { RiskSeverity::Critical } else { RiskSeverity::High },
            if admin { 95 } else { 70 },
            owned(label),
            owned("service"),
            description,
            "Migrar el servicio a HTTPS o retirar la exposición pública.",
            evidence,
        );
        proof {
            lemma_risks_view_push(out@, item);
            reveal_strlit("scheme=");
            reveal_strlit("status=");
        }
        out.push(item);
    }
    let ghost part1 = risks_view(out@);
    assert(service == (n.kind == NodeKind::Service));
    assert(scheme@ == attr_or_empty(a, "scheme"@));
    assert(http == ieq(attr_or_empty(a, "scheme"@), "http"@));
    assert(part1.len() == plaintext_risks(n).len());
    assert(part1 =~= plaintext_risks(n));
    if service && admin {
        let mut evidence: Vec<String> = Vec::new();
        push_text(&mut evidence, owned("pattern=admin"));
        push_text(&mut evidence, prefixed("tls_enabled=", if tls { "true" } else { "false" }));
        let dt = decimal_text(d as u64);
        push_text(&mut evidence, prefixed("degree=", dt.as_str()));
        assert(strings_view(evidence@) =~= seq!["pattern=admin"@, "tls_enabled="@ + bool_word(tls), "degree="@ + decimal(d as nat)]);
        let mut description = prefixed("El servicio ", label);
        push_str(&mut description, " presenta patrón administrativo y está expuesto.");
        let item = risk_item(
            "admin-surface-exposed",
            "Superficie administrativa expuesta",
            if tls { RiskSeverity::High } else { RiskSeverity::Critical },
            if tls { 85 } else { 100 },
            owned(label),
            owned("service"),
            description,
            "Restringir acceso, validar autenticación fuerte y limitar exposición.",
            evidence,
        );
        proof {
            lemma_risks_view_push(out@, item);
        }
        out.push(item);
    }
    let ghost part2 = risks_view(out@);
    assert(part2 =~= part1 + surface_risks(n, edges_view(edges@)));
    let https = crate::text::eq_ignore_case(scheme.as_str(), "https");
    if service && !tls && https {
        let mut evidence: Vec<String> = Vec::new();
        push_text(&mut evidence, owned("scheme=https"));
        push_text(&mut evidence, owned("tls_enabled=false"));
        assert(strings_view(evidence@) =~= seq!["scheme=https"@, "tls_enabled=false"@]);
        let mut description = prefixed("El servicio ", label);
        push_str(&mut description, " usa esquema HTTPS pero tls_enabled=false.");
        let item = risk_item(
            "https-without-tls-flag",
            "Servicio HTTPS con señal inconsistente de TLS",
            RiskSeverity::Medium,
            40,
            owned(label),
            owned("service"),
            description,
            "Validar la detección HTTP/TLS y revisar la configuración del servicio.",
            evidence,
        );
        proof {
            lemma_risks_view_push(out@, item);
        }
        out.push(item);
    }
    let ghost part3 = risks_view(out@);
    assert(part3 =~= part2 + inconsistent_tls_risks(n));
    let subdomain = match node.kind {
        NodeKind::Subdomain => true,
        _ => false,
    };
    if subdomain && admin {
        let mut evidence: Vec<String> = Vec::new();
        push_text(&mut evidence, owned("pattern=admin"));
        assert(strings_view(evidence@) =~= seq!["pattern=admin"@]);
        let mut description = prefixed("El subdominio ", label);
        push_str(&mut description, " parece pertenecer a una superficie administrativa.");
        let item = risk_item(
            "admin-subdomain-exposed",
            "Subdominio administrativo detectado",
            RiskSeverity::High,
            65,
            owned(label),
            owned("subdomain"),
            description,
            "Validar si el subdominio debe seguir expuesto y confirmar ownership.",
            evidence,
        );
        proof {
            lemma_risks_view_push(out@, item);
        }
        out.push(item);
    }
    let ghost part4 = risks_view(out@);
    assert(part4 =~= part3 + admin_subdomain_risks(n));
    if d >= 8 && (service || subdomain) {
        let dt = decimal_text(d as u64);
        let mut evidence: Vec<String> = Vec::new();
        push_text(&mut evidence, prefixed("degree=", dt.as_str()));
        assert(strings_view(evidence@) =~= seq!["degree="@ + decimal(d as nat)]);
        let mut description = prefixed("El nodo ", label);
        push_str(&mut description, " concentra relaciones en el grafo (degree=");
        push_str(&mut description, dt.as_str());
        push_str(&mut description, ").");
        let item = risk_item(
            "high-degree-hub",
            "Nodo hub con alta conectividad",
            RiskSeverity::Medium,
            35,
            owned(label),
            node.kind.to_string(),
            description,
            "Revisar primero este nodo durante análisis de impacto y remediación.",
            evidence,
        );
        proof {
            lemma_risks_view_push(out@, item);
        }
        out.push(item);
    }
    proof {
        let es = edges_view(edges@);
        assert(risks_view(out@) =~= part4 + hub_risks(n, es));
        assert(risks_view(out@) =~= node_risks(n, es));
    }
    out
}

/// The risks the timeline raises.
fn timeline_risk_items(target: &str, t: &TimelineReport) -> (r: Vec<RiskItem>)
    ensures
        risks_view(r@) == timeline_risks(target@, *t),
{
    let e = &t.executive;
    let mut out: Vec<RiskItem> = Vec::new();
    if e.critical_findings > 0 && e.persistent_findings > 0 {
        let mut evidence: Vec<String> = Vec::new();
        let c = decimal_text(e.critical_findings as u64);
        push_text(&mut evidence, prefixed("critical_findings=", c.as_str()));
        let p = decimal_text(e.persistent_findings as u64);
        push_text(&mut evidence, prefixed("persistent_findings=", p.as_str()));
        let ts = decimal_text(e.total_score as u64);
        push_text(&mut evidence, prefixed("total_score=", ts.as_str()));
        assert(strings_view(evidence@) =~= seq![
            "critical_findings="@ + decimal(e.critical_findings as nat),
            "persistent_findings="@ + decimal(e.persistent_findings as nat),
            "total_score="@ + decimal(e.total_score as nat),
        ]);
        let item = risk_item(
            "persistent-critical-drift",
            "Drift crítico persistente",
            RiskSeverity::Critical,
            110,
            owned(target),
            owned("target"),
            owned("Existen hallazgos críticos persistentes en el timeline del target."),
            "Priorizar remediación estructural de los recursos reincidentes.",
            evidence,
        );
        proof {
            lemma_risks_view_push(out@, item);
        }
        out.push(item);
    }
    let ghost first = risks_view(out@);
    let n: usize = if e.top_resources.len() > 3 {
        3
    } else {
        e.top_resources.len()
    };
    let ghost tops = first_n(e.top_resources@, 3);
    assert(tops =~= e.top_resources@.take(n as int));
    let mut i: usize = 0;
    assert(tops.take(0) =~= Seq::<ResourceAggregate>::empty());
    while i < n
        invariant
            i <= n <= e.top_resources.len(),
            tops == e.top_resources@.take(n as int),
            risks_view(out@) == first + hotspot_risks(tops.take(i as int)),
        decreases n - i,
    {
        let item_ref = &e.top_resources[i];
        assert(tops.take(i + 1).drop_last() =~= tops.take(i as int));
        assert(tops.take(i + 1).last() == *item_ref);
        let ghost before = risks_view(out@);
        if item_ref.total_score >= 80 {
            let total = item_ref.total_score;
            let tt = decimal_text(total as u64);
            let oc = decimal_text(item_ref.occurrences as u64);
            let mut evidence: Vec<String> = Vec::new();
            push_text(&mut evidence, prefixed("occurrences=", oc.as_str()));
            push_text(&mut evidence, prefixed("total_score=", tt.as_str()));
            assert(strings_view(evidence@) =~= seq![
                "occurrences="@ + decimal(item_ref.occurrences as nat),
                "total_score="@ + decimal(total as nat),
            ]);
            let mut description = prefixed("El recurso ", item_ref.resource.as_str());
            push_str(&mut description, " acumula score ");
            push_str(&mut description, tt.as_str());
            push_str(&mut description, " en el timeline.");
            let item = risk_item(
                "hotspot-resource",
                "Recurso hotspot con score acumulado alto",
                if total >= 140 { RiskSeverity::High } else { RiskSeverity::Medium },
                if total <= 160 { total } else { 160 },
                item_ref.resource.clone(),
                owned("resource"),
                description,
                "Analizar historial del recurso y validar si requiere hardening específico.",
                evidence,
            );
            proof {
                lemma_risks_view_push(out@, item);
            }
            out.push(item);
            assert(risks_view(out@) =~= first + hotspot_risks(tops.take(i + 1)));
        } else {
            assert(risks_view(out@) =~= first + hotspot_risks(tops.take(i + 1)));
        }
        i = i + 1;
    }
    assert(tops.take(n as int) =~= tops);
    out
}

/// The risk an episode raises.
fn episode_risk_item(ep: &RiskEpisode) -> (r: RiskItem)
    ensures
        r@ == episode_risk(*ep),
{
    let count = decimal_text(ep.resource_count as u64);
    let mut evidence: Vec<String> = Vec::new();
    push_text(&mut evidence, prefixed("episode_kind=", ep.kind.as_str()));
    push_text(&mut evidence, prefixed("state=", ep.state.as_str()));
    push_text(&mut evidence, prefixed("resource_count=", count.as_str()));
    assert(strings_view(evidence@) =~= seq![
        "episode_kind="@ + kind_name(ep.kind),
        "state="@ + episode_state_name(ep.state),
        "resource_count="@ + decimal(ep.resource_count as nat),
    ]);
    let mut description = prefixed("El episodio '", ep.title.as_str());
    push_str(&mut description, "' refleja un evento compuesto de riesgo sobre ");
    push_str(&mut description, count.as_str());
    push_str(&mut description, " recursos.");
    risk_item(
        "high-risk-episode",
        "Episodio de riesgo relevante",
        if ep.score >= 180 {
            RiskSeverity::Critical
        } else if ep.score >= 120 {
            RiskSeverity::High
        } else {
            RiskSeverity::Medium
        },
        ep.score,
        ep.title.clone(),
        owned("episode"),
        description,
        "Revisar el episodio completo y coordinar remediación sobre los recursos asociados.",
        evidence,
    )
}

/// Every candidate risk, in rule order.
fn collect_candidates(
    target: &str,
    timeline: Option<&TimelineReport>,
    episodes: Option<&EpisodeCollection>,
    graph: &ExposureGraph,
) -> (r: Vec<RiskItem>)
    requires
        graph.edges@.len() <= usize::MAX / 2,
    ensures
        risks_view(r@) == risk_candidates(
            target@,
            match timeline {
                Some(t) => Some(*t),
                None => None,
            },
            match episodes {
                Some(c) => Some(*c),
                None => None,
            },
            nodes_view(graph.nodes@),
            edges_view(graph.edges@),
        ),
{
    let ghost ns = nodes_view(graph.nodes@);
    let ghost es = edges_view(graph.edges@);
    let mut out: Vec<RiskItem> = Vec::new();
    let mut i: usize = 0;
    assert(ns.take(0) =~= Seq::<NodeV>::empty());
    while i < graph.nodes.len()
        invariant
            i <= graph.nodes.len(),
            ns == nodes_view(graph.nodes@),
            es == edges_view(graph.edges@),
            graph.edges@.len() <= usize::MAX / 2,
            risks_view(out@) == graph_risks(ns.take(i as int), es),
        decreases graph.nodes.len() - i,
    {
        assert(ns.take(i + 1).drop_last() =~= ns.take(i as int));
        assert(ns.take(i + 1).last() == graph.nodes@[i as int]@);
        let more = node_risk_items(&graph.nodes[i], &graph.edges);
        append_risks(&mut out, more);
        i = i + 1;
    }
    assert(ns.take(graph.nodes.len() as int) =~= ns);
    let ghost g = risks_view(out@);
    match timeline {
        Some(t) => {
            let more = timeline_risk_items(target, t);
            append_risks(&mut out, more);
        },
        None => {
            assert(risks_view(out@) =~= g + Seq::<RiskV>::empty());
        },
    }
    let ghost gt = risks_view(out@);
    match episodes {
        Some(c) => {
            let n: usize = if c.episodes.len() > 5 {
                5
            } else {
                c.episodes.len()
            };
            let ghost eps = first_n(c.episodes@, 5);
            assert(eps =~= c.episodes@.take(n as int));
            let ghost want = Seq::new(eps.len(), |k: int| episode_risk(eps[k]));
            let mut k: usize = 0;
            assert(gt + want.take(0) =~= gt);
            while k < n
                invariant
                    k <= n <= c.episodes.len(),
                    eps == c.episodes@.take(n as int),
                    want == Seq::new(eps.len(), |k: int| episode_risk(eps[k])),
                    risks_view(out@) == gt + want.take(k as int),
                decreases n - k,
            {
                let item = episode_risk_item(&c.episodes[k]);
                assert(item@ == want[k as int]);
                proof {
                    lemma_risks_view_push(out@, item);
                    assert(gt + want.take(k + 1) =~= (gt + want.take(k as int)).push(want[k as int]));
                }
                out.push(item);
                k = k + 1;
            }
            assert(want.take(n as int) =~= want);
        },
        None => {
            assert(risks_view(out@) =~= gt + Seq::<RiskV>::empty());
        },
    }
    out
}

/// The key `rule_id|resource` of a risk.
fn key_of(r: &RiskItem) -> (k: String)
    ensures
        k@ == risk_key(r@),
{
    let mut k = r.rule_id.clone();
    push_str(&mut k, "|");
    push_str(&mut k, r.resource.as_str());
    k
}

/// The candidates without those whose key an earlier one had.
fn dedup_candidates(cands: Vec<RiskItem>) -> (r: Vec<RiskItem>)
    ensures
        risks_view(r@) == dedup_risks(risks_view(cands@)),
{
    let ghost cv = risks_view(cands@);
    let mut rest = cands;
    let n = rest.len();
    let mut out: Vec<RiskItem> = Vec::new();
    let mut keys: Vec<String> = Vec::new();
    let mut i: usize = 0;
    assert(cv.take(0) =~= Seq::<RiskV>::empty());
    while rest.len() > 0
        invariant
            i + rest@.len() == n,
            n == cv.len(),
            risks_view(rest@) == cv.skip(i as int),
            risks_view(out@) == dedup_risks(cv.take(i as int)),
            keys@.len() == out@.len(),
            forall|j: int| 0 <= j < keys@.len() ==> (#[trigger] keys@[j])@ == risk_key(out@[j]@),
        decreases rest.len(),
    {
        let ghost old_rest = rest@;
        let x = rest.remove(0);
        assert forall|j: int| 0 <= j < rest@.len() implies #[trigger] risks_view(rest@)[j] == cv.skip(i + 1)[j] by {
            assert(rest@[j] == old_rest[j + 1]);
            assert(risks_view(old_rest)[j + 1] == cv.skip(i as int)[j + 1]);
        }
        assert(cv[i as int] == x@) by {
            assert(cv.skip(i as int)[0] == cv[i as int]);
        }
        assert(cv.take(i + 1).drop_last() =~= cv.take(i as int));
        assert(cv.take(i + 1).last() == x@);
        let k = key_of(&x);
        let seen = crate::text::contains_string(keys.as_slice(), k.as_str());
        let ghost d = risks_view(out@);
        proof {
            if seen {
                let j = choose|j: int| 0 <= j < keys@.len() && keys@[j]@ == k@;
                assert(risk_key(d[j]) == risk_key(x@));
            } else {
                assert forall|j: int| 0 <= j < d.len() implies risk_key(d[j]) != risk_key(x@) by {
                    assert(keys@[j]@ == risk_key(out@[j]@));
                }
            }
        }
        if !seen {
            proof {
                lemma_risks_view_push(out@, x);
            }
            out.push(x);
            keys.push(k);
        }
        assert(risks_view(rest@) =~= cv.skip(i + 1));
        i = i + 1;
    }
    assert(cv.take(n as int) =~= cv);
    out
}

/// Whether `a` is ranked before `b` (see `risk_before`).
fn ranks_before(a: &RiskItem, b: &RiskItem) -> (r: bool)
    ensures
        r == risk_before(a@, b@),
{
    if a.score != b.score {
        return a.score > b.score;
    }
    let ra = a.severity.rank();
    let rb = b.severity.rank();
    if ra != rb {
        return ra > rb;
    }
    if str_less(a.resource.as_str(), b.resource.as_str()) {
        return true;
    }
    str_eq(a.resource.as_str(), b.resource.as_str()) && str_less(a.rule_id.as_str(), b.rule_id.as_str())
}

/// The risks sorted by `risk_before`, ties in their order.
fn sort_risks(v: Vec<RiskItem>) -> (r: Vec<RiskItem>)
    ensures
        risks_view(r@) == sort_by_lt(risks_view(v@), risk_order()),
        r@.len() == v@.len(),
{
    let ghost rv = risks_view(v@);
    let mut rest = v;
    let mut out: Vec<RiskItem> = Vec::new();
    let mut i: usize = 0;
    let n = rest.len();
    assert(rv.take(0) =~= Seq::<RiskV>::empty());
    while rest.len() > 0
        invariant
            n == rv.len(),
            i + rest@.len() == n,
            out@.len() == i,
            risks_view(rest@) == rv.skip(i as int),
            risks_view(out@) == sort_by_lt(rv.take(i as int), risk_order()),
        decreases rest.len(),
    {
        let ghost old_rest = rest@;
        let x = rest.remove(0);
        assert forall|j: int| 0 <= j < rest@.len() implies #[trigger] risks_view(rest@)[j] == rv.skip(i + 1)[j] by {
            assert(rest@[j] == old_rest[j + 1]);
            assert(risks_view(old_rest)[j + 1] == rv.skip(i as int)[j + 1]);
        }
        assert(rv[i as int] == x@) by {
            assert(rv.skip(i as int)[0] == rv[i as int]);
        }
        let ghost sorted = risks_view(out@);
        let mut k: usize = 0;
        loop
            invariant
                k <= out.len(),
                sorted == risks_view(out@),
                forall|j: int| 0 <= j < k ==> !risk_before(x@, #[trigger] sorted[j]),
            ensures
                k <= out.len(),
                forall|j: int| 0 <= j < k ==> !risk_before(x@, #[trigger] sorted[j]),
                k < out.len() ==> risk_before(x@, sorted[k as int]),
            decreases out.len() - k,
        {
            if k >= out.len() {
                break;
            }
            assert(sorted[k as int] == out@[k as int]@);
            if ranks_before(&x, &out[k]) {
                break;
            }
            k = k + 1;
        }
        proof {
            lemma_insert_pos_lt_first(sorted, x@, risk_order(), k as int);
            lemma_sort_by_lt_step(rv, i as int, risk_order());
        }
        out.insert(k, x);
        assert(risks_view(out@) =~= sorted.insert(k as int, x@));
        assert(risks_view(rest@) =~= rv.skip(i + 1));
        i = i + 1;
    }
    assert(rv.take(n as int) =~= rv);
    out
}

/// Spec of the risks of a report: the candidates, once per key, ranked.
pub open spec fn ranked_risks(
    target: Seq<char>,
    timeline: Option<TimelineReport>,
    episodes: Option<EpisodeCollection>,
    ns: Seq<NodeV>,
    es: Seq<EdgeV>,
) -> Seq<RiskV> {
    sort_by_lt(dedup_risks(risk_candidates(target, timeline, episodes, ns, es)), risk_order())
}

pub open spec fn opt_timeline(t: Option<&TimelineReport>) -> Option<TimelineReport> {
    match t {
        Some(x) => Some(*x),
        None => None,
    }
}

pub open spec fn opt_episodes(e: Option<&EpisodeCollection>) -> Option<EpisodeCollection> {
    match e {
        Some(x) => Some(*x),
        None => None,
    }
}

proof fn lemma_count_severity_step(rs: Seq<RiskV>, i: int, s: RiskSeverity)
    requires
        0 <= i < rs.len(),
    ensures
        count_severity(rs.take(i + 1), s) == count_severity(rs.take(i), s) + if rs[i].severity == s {
            1nat
        } else {
            0nat
        },
{
    assert(rs.take(i + 1).drop_last() =~= rs.take(i));
}

proof fn lemma_count_severity_bound(rs: Seq<RiskV>, s: RiskSeverity)
    ensures
        count_severity(rs, s) <= rs.len(),
    decreases rs.len(),
{
    if rs.len() > 0 {
        lemma_count_severity_bound(rs.drop_last(), s);
    }
}

proof fn lemma_risk_total_mono(rs: Seq<RiskV>, k: int)
    requires
        0 <= k <= rs.len(),
    ensures
        risk_total(rs.take(k)) <= risk_total(rs),
    decreases rs.len() - k,
{
    if k < rs.len() {
        lemma_risk_total_mono(rs, k + 1);
        assert(rs.take(k + 1).drop_last() =~= rs.take(k));
    } else {
        assert(rs.take(k) =~= rs);
    }
}

/// The risks of a target at time `now`: every rule applied to the graph,
/// the timeline and the first five episodes; each risk once per rule and
/// resource; ranked by score, severity, resource and rule; counted by
/// severity; the first ten as the top risks.
pub fn build_risk_report_at(
    target: &str,
    timeline: Option<&TimelineReport>,
    episodes: Option<&EpisodeCollection>,
    graph: &ExposureGraph,
    now: i64,
) -> (r: RiskReport)
    requires
        graph.edges@.len() <= usize::MAX / 2,
        risk_total(ranked_risks(target@, opt_timeline(timeline), opt_episodes(episodes), nodes_view(graph.nodes@), edges_view(graph.edges@))) <= u32::MAX,
    ensures
        r.target@ == target@,
        r.generated_at == now,
        risks_view(r.risks@) == ranked_risks(target@, opt_timeline(timeline), opt_episodes(episodes), nodes_view(graph.nodes@), edges_view(graph.edges@)),
        r.total_risks == r.risks@.len(),
        r.critical == count_severity(risks_view(r.risks@), RiskSeverity::Critical),
        r.high == count_severity(risks_view(r.risks@), RiskSeverity::High),
        r.medium == count_severity(risks_view(r.risks@), RiskSeverity::Medium),
        r.low == count_severity(risks_view(r.risks@), RiskSeverity::Low),
        r.total_score == risk_total(risks_view(r.risks@)),
        risks_view(r.top_risks@) == first_n(risks_view(r.risks@), 10),
{
    let cands = collect_candidates(target, timeline, episodes, graph);
    let unique = dedup_candidates(cands);
    let risks = sort_risks(unique);
    let ghost rv = risks_view(risks@);
    let mut critical: usize = 0;
    let mut high: usize = 0;
    let mut medium: usize = 0;
    let mut low: usize = 0;
    let mut total: u32 = 0;
    let mut i: usize = 0;
    while i < risks.len()
        invariant
            i <= risks.len(),
            rv == risks_view(risks@),
            risk_total(rv) <= u32::MAX,
            critical == count_severity(rv.take(i as int), RiskSeverity::Critical),
            high == count_severity(rv.take(i as int), RiskSeverity::High),
            medium == count_severity(rv.take(i as int), RiskSeverity::Medium),
            low == count_severity(rv.take(i as int), RiskSeverity::Low),
            total == risk_total(rv.take(i as int)),
        decreases risks.len() - i,
    {
        proof {
            lemma_count_severity_step(rv, i as int, RiskSeverity::Critical);
            lemma_count_severity_step(rv, i as int, RiskSeverity::High);
            lemma_count_severity_step(rv, i as int, RiskSeverity::Medium);
            lemma_count_severity_step(rv, i as int, RiskSeverity::Low);
            lemma_count_severity_bound(rv.take(i as int), RiskSeverity::Critical);
            lemma_count_severity_bound(rv.take(i as int), RiskSeverity::High);
            lemma_count_severity_bound(rv.take(i as int), RiskSeverity::Medium);
            lemma_count_severity_bound(rv.take(i as int), RiskSeverity::Low);
            lemma_risk_total_mono(rv, i + 1);
            assert(rv.take(i + 1).drop_last() =~= rv.take(i as int));
        }
        assert(rv[i as int] == risks@[i as int]@);
        match risks[i].severity {
            RiskSeverity::Critical => critical = critical + 1,
            RiskSeverity::High => high = high + 1,
            RiskSeverity::Medium => medium = medium + 1,
            RiskSeverity::Low => low = low + 1,
        }
        total = total + risks[i].score;
        i = i + 1;
    }
    assert(rv.take(risks.len() as int) =~= rv);
    let mut top: Vec<RiskItem> = Vec::new();
    let n: usize = if risks.len() > 10 {
        10
    } else {
        risks.len()
    };
    let mut k: usize = 0;
    while k < n
        invariant
            k <= n <= risks.len(),
            rv == risks_view(risks@),
            risks_view(top@) == rv.take(k as int),
        decreases n - k,
    {
        let c = clone_risk(&risks[k]);
        proof {
            lemma_risks_view_push(top@, c);
            assert(rv.take(k + 1) =~= rv.take(k as int).push(rv[k as int]));
        }
        top.push(c);
        k = k + 1;
    }
    assert(rv.take(n as int) =~= first_n(rv, 10));
    RiskReport {
        target: owned(target),
        generated_at: now,
        total_risks: risks.len(),
        critical,
        high,
        medium,
        low,
        total_score: total,
        top_risks: top,
        risks,
    }
}

/// The risks of a target, generated now.
pub fn build_risk_report(
    target: &str,
    timeline: Option<&TimelineReport>,
    episodes: Option<&EpisodeCollection>,
    graph: &ExposureGraph,
) -> (r: RiskReport)
    requires
        graph.edges@.len() <= usize::MAX / 2,
        risk_total(ranked_risks(target@, opt_timeline(timeline), opt_episodes(episodes), nodes_view(graph.nodes@), edges_view(graph.edges@))) <= u32::MAX,
    ensures
        r.target@ == target@,
        risks_view(r.risks@) == ranked_risks(target@, opt_timeline(timeline), opt_episodes(episodes), nodes_view(graph.nodes@), edges_view(graph.edges@)),
        r.total_risks == r.risks@.len(),
        r.critical == count_severity(risks_view(r.risks@), RiskSeverity::Critical),
        r.high == count_severity(risks_view(r.risks@), RiskSeverity::High),
        r.medium == count_severity(risks_view(r.risks@), RiskSeverity::Medium),
        r.low == count_severity(risks_view(r.risks@), RiskSeverity::Low),
        r.total_score == risk_total(risks_view(r.risks@)),
        risks_view(r.top_risks@) == first_n(risks_view(r.risks@), 10),
{
    let now = crate::jobs::now_timestamp();
    build_risk_report_at(target, timeline, episodes, graph, now)
}

/// A copy of a risk.
pub fn clone_risk(r: &RiskItem) -> (c: RiskItem)
    ensures
        c@ == r@,
{
    RiskItem {
        rule_id: r.rule_id.clone(),
        title: r.title.clone(),
        severity: r.severity,
        score: r.score,
        resource: r.resource.clone(),
        kind: r.kind.clone(),
        description: r.description.clone(),
        recommendation: r.recommendation.clone(),
        evidence: crate::drift::clone_strings(&r.evidence),
    }
}

} // verus!

verus! {

pub open spec fn risk_key_fn() -> spec_fn(RiskV) -> Seq<char> {
    |r: RiskV| risk_key(r)
}

proof fn lemma_dedup_risks(rs: Seq<RiskV>)
    ensures
        forall|i: int, j: int|
            0 <= i < j < dedup_risks(rs).len() ==> risk_key(#[trigger] dedup_risks(rs)[i]) != risk_key(
                #[trigger] dedup_risks(rs)[j],
            ),
        forall|k: int|
            #![trigger rs[k]]
            0 <= k < rs.len() ==> exists|i: int|
                0 <= i < dedup_risks(rs).len() && risk_key(#[trigger] dedup_risks(rs)[i]) == risk_key(rs[k]),
        forall|i: int| 0 <= i < dedup_risks(rs).len() ==> rs.contains(#[trigger] dedup_risks(rs)[i]),
    decreases rs.len(),
{
    if rs.len() > 0 {
        let p = rs.drop_last();
        lemma_dedup_risks(p);
        let d = dedup_risks(p);
        let x = rs.last();
        assert forall|i: int| 0 <= i < d.len() implies rs.contains(#[trigger] d[i]) by {
            assert(p.contains(d[i]));
            let k = choose|k: int| 0 <= k < p.len() && p[k] == d[i];
            assert(rs[k] == d[i]);
        }
        if exists|i: int| 0 <= i < d.len() && risk_key(d[i]) == risk_key(x) {
            assert forall|k: int| #![trigger rs[k]] 0 <= k < rs.len() implies exists|i: int|
                0 <= i < d.len() && risk_key(#[trigger] d[i]) == risk_key(rs[k]) by {
                if k < rs.len() - 1 {
                    assert(p[k] == rs[k]);
                }
            }
        } else {
            let e = d.push(x);
            assert forall|i: int, j: int| 0 <= i < j < e.len() implies risk_key(#[trigger] e[i]) != risk_key(#[trigger] e[j]) by {
                if j == d.len() {
                    assert(e[i] == d[i]);
                } else {
                    assert(e[i] == d[i] && e[j] == d[j]);
                }
            }
            assert forall|k: int| #![trigger rs[k]] 0 <= k < rs.len() implies exists|i: int|
                0 <= i < e.len() && risk_key(#[trigger] e[i]) == risk_key(rs[k]) by {
                if k < rs.len() - 1 {
                    assert(p[k] == rs[k]);
                    let i = choose|i: int| 0 <= i < d.len() && risk_key(#[trigger] d[i]) == risk_key(p[k]);
                    assert(e[i] == d[i]);
                } else {
                    assert(e[d.len() as int] == x);
                }
            }
            assert forall|i: int| 0 <= i < e.len() implies rs.contains(#[trigger] e[i]) by {
                if i < d.len() {
                    assert(e[i] == d[i]);
                } else {
                    assert(rs[rs.len() - 1] == e[i]);
                }
            }
        }
    }
}

/// Ranking lists each risk once and drops none: no two ranked risks share
/// a rule and a resource, every candidate's rule and resource is ranked,
/// and every ranked risk is a candidate.
pub proof fn law_ranking_lists_each_risk_once(rs: Seq<RiskV>)
    ensures
        forall|i: int, j: int|
            0 <= i < j < sort_by_lt(dedup_risks(rs), risk_order()).len() ==> risk_key(
                #[trigger] sort_by_lt(dedup_risks(rs), risk_order())[i],
            ) != risk_key(#[trigger] sort_by_lt(dedup_risks(rs), risk_order())[j]),
        forall|k: int|
            #![trigger rs[k]]
            0 <= k < rs.len() ==> exists|i: int|
                0 <= i < sort_by_lt(dedup_risks(rs), risk_order()).len() && risk_key(
                    #[trigger] sort_by_lt(dedup_risks(rs), risk_order())[i],
                ) == risk_key(rs[k]),
        forall|i: int|
            0 <= i < sort_by_lt(dedup_risks(rs), risk_order()).len() ==> rs.contains(
                #[trigger] sort_by_lt(dedup_risks(rs), risk_order())[i],
            ),
{
    let d = dedup_risks(rs);
    let s = sort_by_lt(d, risk_order());
    lemma_dedup_risks(rs);
    assert forall|i: int, j: int| 0 <= i < j < d.len() implies (risk_key_fn())(#[trigger] d[i]) != (risk_key_fn())(#[trigger] d[j]) by {}
    crate::order::lemma_sort_by_lt_distinct(d, risk_order(), risk_key_fn());
    crate::order::lemma_sort_by_lt_contains(d, risk_order());
    assert forall|i: int, j: int| 0 <= i < j < s.len() implies risk_key(#[trigger] s[i]) != risk_key(#[trigger] s[j]) by {
        assert((risk_key_fn())(s[i]) != (risk_key_fn())(s[j]));
    }
    assert forall|k: int| #![trigger rs[k]] 0 <= k < rs.len() implies exists|i: int|
        0 <= i < s.len() && risk_key(#[trigger] s[i]) == risk_key(rs[k]) by {
        let i = choose|i: int| 0 <= i < d.len() && risk_key(#[trigger] d[i]) == risk_key(rs[k]);
        assert(d.contains(d[i]));
        assert(s.contains(d[i]));
        let m = choose|m: int| 0 <= m < s.len() && s[m] == d[i];
        assert(risk_key(s[m]) == risk_key(rs[k]));
    }
    assert forall|i: int| 0 <= i < s.len() implies rs.contains(#[trigger] s[i]) by {
        assert(s.contains(s[i]));
        assert(d.contains(s[i]));
        let m = choose|m: int| 0 <= m < d.len() && d[m] == s[i];
        assert(rs.contains(d[m]));
    }
}

} // verus!

verus! {

/// A service reached over plain HTTP (its `scheme` attribute is `http` in any
/// ASCII case) raises a `plaintext-http-service` risk on its label, whether
/// or not it is administrative: `Critical` with 95 points when its label
/// holds `admin` in any ASCII case, `High` with 70 points otherwise.
pub proof fn law_http_service_raises_plaintext_risk(n: NodeV, es: Seq<EdgeV>)
    requires
        n.kind == NodeKind::Service,
        ieq(attr_or_empty(n.attributes, "scheme"@), "http"@),
    ensures
        exists|k: int|
            0 <= k < node_risks(n, es).len() && {
                let r = #[trigger] node_risks(n, es)[k];
                &&& r.rule_id == "plaintext-http-service"@
                &&& r.resource == n.label
                &&& r.severity == if contains(lower(n.label), "admin"@) {
                    RiskSeverity::Critical
                } else {
                    RiskSeverity::High
                }
                &&& r.score == if contains(lower(n.label), "admin"@) { 95u32 } else { 70u32 }
            },
{
    assert(node_risks(n, es)[0] == plaintext_risks(n)[0]);
}

/// Every node's risks are among the candidate risks of the graph.
proof fn lemma_graph_risks_hold_node_risks(ns: Seq<NodeV>, es: Seq<EdgeV>, i: int, k: int)
    requires
        0 <= i < ns.len(),
        0 <= k < node_risks(ns[i], es).len(),
    ensures
        graph_risks(ns, es).contains(node_risks(ns[i], es)[k]),
    decreases ns.len(),
{
    let prev = graph_risks(ns.drop_last(), es);
    let last = node_risks(ns.last(), es);
    if i == ns.len() - 1 {
        assert((prev + last)[prev.len() + k] == last[k]);
    } else {
        assert(ns.drop_last()[i] == ns[i]);
        lemma_graph_risks_hold_node_risks(ns.drop_last(), es, i, k);
        let j = choose|j: int| 0 <= j < prev.len() && prev[j] == node_risks(ns[i], es)[k];
        assert((prev + last)[j] == prev[j]);
    }
}

/// In a risk report, every service of the graph reached over plain HTTP is
/// listed under the `plaintext-http-service` rule with its label, whether or
/// not it is administrative.
pub proof fn law_report_lists_plaintext_services(
    target: Seq<char>,
    timeline: Option<TimelineReport>,
    episodes: Option<EpisodeCollection>,
    ns: Seq<NodeV>,
    es: Seq<EdgeV>,
    i: int,
)
    requires
        0 <= i < ns.len(),
        ns[i].kind == NodeKind::Service,
        ieq(attr_or_empty(ns[i].attributes, "scheme"@), "http"@),
    ensures
        exists|j: int|
            0 <= j < ranked_risks(target, timeline, episodes, ns, es).len() && risk_key(
                #[trigger] ranked_risks(target, timeline, episodes, ns, es)[j],
            ) == "plaintext-http-service"@ + "|"@ + ns[i].label,
{
    law_http_service_raises_plaintext_risk(ns[i], es);
    let nr = node_risks(ns[i], es);
    let k = choose|k: int|
        0 <= k < nr.len() && {
            let r = #[trigger] nr[k];
            &&& r.rule_id == "plaintext-http-service"@
            &&& r.resource == ns[i].label
            &&& r.severity == if contains(lower(ns[i].label), "admin"@) {
                RiskSeverity::Critical
            } else {
                RiskSeverity::High
            }
            &&& r.score == if contains(lower(ns[i].label), "admin"@) { 95u32 } else { 70u32 }
        };
    lemma_graph_risks_hold_node_risks(ns, es, i, k);
    let g = graph_risks(ns, es);
    let cands = risk_candidates(target, timeline, episodes, ns, es);
    let m = choose|m: int| 0 <= m < g.len() && g[m] == nr[k];
    assert(cands[m] == g[m]);
    law_ranking_lists_each_risk_once(cands);
    assert(risk_key(cands[m]) == "plaintext-http-service"@ + "|"@ + ns[i].label);
    let s = sort_by_lt(dedup_risks(cands), risk_order());
    assert(ranked_risks(target, timeline, episodes, ns, es) == s);
    let j = choose|j: int| 0 <= j < s.len() && risk_key(#[trigger] s[j]) == risk_key(cands[m]);
    assert(risk_key(s[j]) == "plaintext-http-service"@ + "|"@ + ns[i].label);
}

} // verus!
