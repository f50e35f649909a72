//! The query engine: which nodes of an exposure graph a parsed query selects,
//! in what order they come back, and what a graph search returns.
use vstd::prelude::*;
use crate::graph::{
    AttrsV, EdgeKind, EdgeV, ExposureGraph, GraphEdge, GraphNode, GraphStats, GraphTopologySummary,
    NodeKind, NodeV, RankedGraphNode, attrs_view, clone_attrs, degree, edge_degree, edge_kind_name,
    edges_view, find_key, key_index, lemma_node_index, node_index, node_kind_name, node_kind_of,
    nodes_view, ranked_view,
};
use crate::order::{lemma_insert_pos_lt_first, lemma_sort_by_lt_step, seq_lt, sort_by_lt, str_less};
use crate::query::{
    ClauseV, Comparator, ExprV, QueryClause, QueryExpr, QueryField, QueryPreset, QueryRequest,
    RequestV, SortDirection, SortField, SortSpec, comparator_symbol, field_name, lemma_and_view,
    opt_view, preset_name, views,
};
use crate::text::{
    contains, contains_vec, eq_lit, lower, lower_chars, owned, parse_usize, parse_usize_str,
    push_str, seq_eq, split_on, split_vec, string_of, strings_view, trim, trim_vec,
};

verus! {

/// How a text compares with a query value: ASCII case is ignored; `=` also
/// accepts one of the comma-separated, trimmed parts of the text; `~` asks
/// for containment; the ordering comparators never hold on text.
pub open spec fn str_matches(left: Seq<char>, right: Seq<char>, c: Comparator) -> bool {
    let l = lower(left);
    let r = lower(right);
    match c {
        Comparator::Eq => l == r || exists|i: int|
            0 <= i < split_on(l, ',').len() && trim(#[trigger] split_on(l, ',')[i]) == r,
        Comparator::Contains => contains(l, r),
        _ => false,
    }
}

/// How two counts compare; `~` never holds on numbers.
pub open spec fn num_matches(l: int, r: int, c: Comparator) -> bool {
    match c {
        Comparator::Eq => l == r,
        Comparator::Gt => l > r,
        Comparator::Gte => l >= r,
        Comparator::Lt => l < r,
        Comparator::Lte => l <= r,
        Comparator::Contains => false,
    }
}

/// Flags compare only for equality.
pub open spec fn bool_matches(l: bool, r: bool, c: Comparator) -> bool {
    match c {
        Comparator::Eq => l == r,
        _ => false,
    }
}

/// The scales on which severities, criticalities and states are ordered.
#[derive(Debug, Clone, Copy, PartialEq, Eq, Structural)]
pub enum Ranker {
    Severity,
    Criticality,
    State,
}

/// The position of a name on a scale, ignoring ASCII case.
pub open spec fn rank_of(k: Ranker, s: Seq<char>) -> Option<usize> {
    let l = lower(s);
    match k {
        Ranker::Severity => if l == "info"@ {
            Some(1usize)
        } else if l == "low"@ {
            Some(2usize)
        } else if l == "medium"@ {
            Some(3usize)
        } else if l == "high"@ {
            Some(4usize)
        } else if l == "critical"@ {
            Some(5usize)
        } else {
            None
        },
        Ranker::Criticality => if l == "low"@ {
            Some(1usize)
        } else if l == "medium"@ {
            Some(2usize)
        } else if l == "high"@ {
            Some(3usize)
        } else if l == "critical"@ {
            Some(4usize)
        } else {
            None
        },
        Ranker::State => if l == "new"@ {
            Some(1usize)
        } else if l == "recurrent"@ {
            Some(2usize)
        } else if l == "persistent"@ {
            Some(3usize)
        } else if l == "suppressed"@ {
            Some(4usize)
        } else if l == "resolved"@ {
            Some(5usize)
        } else {
            None
        },
    }
}

/// Ranked names compare as text for `=` and `~`, and by their rank for the
/// ordering comparators, which fail when either name is off the scale.
pub open spec fn ranked_matches(left: Seq<char>, right: Seq<char>, c: Comparator, k: Ranker) -> bool {
    match c {
        Comparator::Eq | Comparator::Contains => str_matches(left, right, c),
        _ => match (rank_of(k, left), rank_of(k, right)) {
            (Some(a), Some(b)) => num_matches(a as int, b as int, c),
            _ => false,
        },
    }
}

/// `true`, `yes` and `1`, in any ASCII case, are true; anything else is false.
pub open spec fn truthy(s: Seq<char>) -> bool {
    let l = lower(s);
    l == "true"@ || l == "yes"@ || l == "1"@
}

/// The value of attribute `k`.
pub open spec fn attr_get(a: AttrsV, k: Seq<char>) -> Option<Seq<char>> {
    match key_index(a, k) {
        Some(i) => Some(a[i].1),
        None => None,
    }
}

/// The value of `k1`, or failing that of `k2`.
pub open spec fn attr_or_fallback(a: AttrsV, k1: Seq<char>, k2: Seq<char>) -> Option<Seq<char>> {
    match attr_get(a, k1) {
        Some(v) => Some(v),
        None => attr_get(a, k2),
    }
}

pub open spec fn or_empty(o: Option<Seq<char>>) -> Seq<char> {
    match o {
        Some(v) => v,
        None => Seq::empty(),
    }
}

/// The number a text holds, zero when it holds none.
pub open spec fn parsed_or_zero(s: Seq<char>) -> int {
    match parse_usize(s) {
        Some(n) => n as int,
        None => 0,
    }
}

/// Compares a text with a query value, ignoring ASCII case: `=` holds on
/// the whole text or one of its trimmed comma-separated parts, `~` on
/// containment; the ordering comparators never hold.
pub fn compare_string(left: &str, right: &str, c: Comparator) -> (r: bool)
    ensures
        r == str_matches(left@, right@, c),
{
    let l = lower_chars(left);
    let rt = lower_chars(right);
    match c {
        Comparator::Eq => {
            if seq_eq(&l, &rt) {
                return true;
            }
            let parts = split_vec(&l, ',');
            let mut i: usize = 0;
            while i < parts.len()
                invariant
                    i <= parts@.len(),
                    l@ == lower(left@),
                    rt@ == lower(right@),
                    l@ != rt@,
                    c == Comparator::Eq,
                    parts@.len() == split_on(l@, ',').len(),
                    forall|j: int| 0 <= j < parts@.len() ==> #[trigger] parts@[j]@ == split_on(l@, ',')[j],
                    forall|j: int| 0 <= j < i ==> trim(#[trigger] split_on(l@, ',')[j]) != rt@,
                decreases parts.len() - i,
            {
                assert(parts@[i as int]@ == split_on(l@, ',')[i as int]);
                let t = trim_vec(&parts[i]);
                if seq_eq(&t, &rt) {
                    assert(trim(split_on(l@, ',')[i as int]) == lower(right@));
                    return true;
                }
                i = i + 1;
            }
            false
        },
        Comparator::Contains => contains_vec(&l, &rt),
        _ => false,
    }
}

/// Compares two counts with the comparator; `~` never holds.
pub fn compare_number(left: usize, right: usize, c: Comparator) -> (r: bool)
    ensures
        r == num_matches(left as int, right as int, c),
{
    match c {
        Comparator::Eq => left == right,
        Comparator::Gt => left > right,
        Comparator::Gte => left >= right,
        Comparator::Lt => left < right,
        Comparator::Lte => left <= right,
        Comparator::Contains => false,
    }
}

/// Compares two flags: only `=` can hold.
pub fn compare_bool(left: bool, right: bool, c: Comparator) -> (r: bool)
    ensures
        r == bool_matches(left, right, c),
{
    match c {
        Comparator::Eq => left == right,
        _ => false,
    }
}

/// The rank of a name on one of the scales.
pub fn rank(k: Ranker, input: &str) -> (r: Option<usize>)
    ensures
        r == rank_of(k, input@),
{
    let l = lower_chars(input);
    match k {
        Ranker::Severity => {
            if eq_lit(&l, "info") {
                Some(1)
            } else if eq_lit(&l, "low") {
                Some(2)
            } else if eq_lit(&l, "medium") {
                Some(3)
            } else if eq_lit(&l, "high") {
                Some(4)
            } else if eq_lit(&l, "critical") {
                Some(5)
            } else {
                None
            }
        },
        Ranker::Criticality => {
            if eq_lit(&l, "low") {
                Some(1)
            } else if eq_lit(&l, "medium") {
                Some(2)
            } else if eq_lit(&l, "high") {
                Some(3)
            } else if eq_lit(&l, "critical") {
                Some(4)
            } else {
                None
            }
        },
        Ranker::State => {
            if eq_lit(&l, "new") {
                Some(1)
            } else if eq_lit(&l, "recurrent") {
                Some(2)
            } else if eq_lit(&l, "persistent") {
                Some(3)
            } else if eq_lit(&l, "suppressed") {
                Some(4)
            } else if eq_lit(&l, "resolved") {
                Some(5)
            } else {
                None
            }
        },
    }
}

/// Compares a severity, criticality or state name with a query value: as
/// text for `=` and `~`, by rank on its scale for the ordering comparators.
pub fn compare_ranked_string(left: &str, right: &str, c: Comparator, k: Ranker) -> (r: bool)
    ensures
        r == ranked_matches(left@, right@, c, k),
{
    match c {
        Comparator::Eq | Comparator::Contains => compare_string(left, right, c),
        _ => {
            let a = rank(k, left);
            let b = rank(k, right);
            match (a, b) {
                (Some(x), Some(y)) => compare_number(x, y, c),
                _ => false,
            }
        },
    }
}

/// Whether a query value means true: `true`, `yes` or `1` in any ASCII case.
pub fn normalize_bool(input: &str) -> (r: bool)
    ensures
        r == truthy(input@),
{
    let l = lower_chars(input);
    eq_lit(&l, "true") || eq_lit(&l, "yes") || eq_lit(&l, "1")
}

/// The value of attribute `k`, if the node has it.
fn attr_value(a: &Vec<(String, String)>, k: &str) -> (r: Option<String>)
    ensures
        opt_view(r) == attr_get(attrs_view(a@), k@),
{
    match find_key(a, k) {
        Some(i) => {
            assert(attrs_view(a@)[i as int].1 == a@[i as int].1@);
            Some(a[i].1.clone())
        },
        None => None,
    }
}

/// The value of `k1`, or failing that of `k2`.
fn attr_value2(a: &Vec<(String, String)>, k1: &str, k2: &str) -> (r: Option<String>)
    ensures
        opt_view(r) == attr_or_fallback(attrs_view(a@), k1@, k2@),
{
    match attr_value(a, k1) {
        Some(v) => Some(v),
        None => attr_value(a, k2),
    }
}

fn text_or_empty(o: Option<String>) -> (r: String)
    ensures
        r@ == or_empty(opt_view(o)),
{
    match o {
        Some(v) => v,
        None => String::new(),
    }
}

fn number_or_zero(s: &str) -> (r: usize)
    ensures
        r as int == parsed_or_zero(s@),
{
    match parse_usize_str(s) {
        Some(n) => n,
        None => 0,
    }
}

/// An edge from `from` of kind `fingerprints_as` reaches `id`.
pub open spec fn fingerprints(es: Seq<EdgeV>, from: Seq<char>, id: Seq<char>) -> bool {
    exists|k: int|
        0 <= k < es.len() && (#[trigger] es[k]).from == from && es[k].kind == EdgeKind::FingerprintsAs
            && es[k].to == id
}

/// An edge joins `id` and `other`, in either direction.
pub open spec fn adjacent(es: Seq<EdgeV>, id: Seq<char>, other: Seq<char>) -> bool {
    exists|k: int|
        0 <= k < es.len() && (((#[trigger] es[k]).from == id && es[k].to == other) || (es[k].to
            == id && es[k].from == other))
}

/// A service matches on the labels of the technologies it fingerprints as, a
/// technology on its own label, other nodes never.
pub open spec fn technology_matches(ns: Seq<NodeV>, es: Seq<EdgeV>, n: NodeV, v: Seq<char>, c: Comparator) -> bool {
    match n.kind {
        NodeKind::Service => exists|j: int|
            0 <= j < ns.len() && fingerprints(es, n.node_id, (#[trigger] ns[j]).node_id)
                && str_matches(ns[j].label, v, c),
        NodeKind::Technology => str_matches(n.label, v, c),
        _ => false,
    }
}

/// Some neighbour of `id` has a kind that matches.
pub open spec fn neighbor_kind_matches(ns: Seq<NodeV>, es: Seq<EdgeV>, id: Seq<char>, v: Seq<char>, c: Comparator) -> bool {
    exists|j: int|
        0 <= j < ns.len() && adjacent(es, id, (#[trigger] ns[j]).node_id) && str_matches(
            node_kind_name(ns[j].kind),
            v,
            c,
        )
}

/// Some edge at `id` has a kind that matches.
pub open spec fn edge_kind_matches(es: Seq<EdgeV>, id: Seq<char>, v: Seq<char>, c: Comparator) -> bool {
    exists|k: int|
        0 <= k < es.len() && ((#[trigger] es[k]).from == id || es[k].to == id) && str_matches(
            edge_kind_name(es[k].kind),
            v,
            c,
        )
}

/// Some neighbour of `id` has a label that matches.
pub open spec fn connected_to_matches(ns: Seq<NodeV>, es: Seq<EdgeV>, id: Seq<char>, v: Seq<char>, c: Comparator) -> bool {
    exists|j: int|
        0 <= j < ns.len() && adjacent(es, id, (#[trigger] ns[j]).node_id) && str_matches(
            ns[j].label,
            v,
            c,
        )
}

/// One end of `e` is an episode node.
pub open spec fn episode_end(ns: Seq<NodeV>, e: EdgeV) -> bool {
    exists|j: int|
        0 <= j < ns.len() && (#[trigger] ns[j]).kind == NodeKind::Episode && (ns[j].node_id
            == e.from || ns[j].node_id == e.to)
}

/// `id` takes part in an episode: a `participates_in` edge at it has an
/// episode at one of its ends.
pub open spec fn in_episode(ns: Seq<NodeV>, es: Seq<EdgeV>, id: Seq<char>) -> bool {
    exists|k: int|
        0 <= k < es.len() && ((#[trigger] es[k]).from == id || es[k].to == id) && es[k].kind
            == EdgeKind::ParticipatesIn && episode_end(ns, es[k])
}

fn has_fingerprint(edges: &Vec<GraphEdge>, from: &str, id: &str) -> (r: bool)
    ensures
        r == fingerprints(edges_view(edges@), from@, id@),
{
    let ghost es = edges_view(edges@);
    let mut k: usize = 0;
    while k < edges.len()
        invariant
            k <= edges@.len(),
            es == edges_view(edges@),
            forall|j: int|
                0 <= j < k ==> !((#[trigger] es[j]).from == from@ && es[j].kind
                    == EdgeKind::FingerprintsAs && es[j].to == id@),
        decreases edges.len() - k,
    {
        assert(es[k as int] == edges@[k as int]@);
        if str_eq_s(&edges[k].from, from) && edges[k].kind == EdgeKind::FingerprintsAs && str_eq_s(
            &edges[k].to,
            id,
        ) {
            return true;
        }
        k = k + 1;
    }
    false
}

fn is_adjacent(edges: &Vec<GraphEdge>, id: &str, other: &str) -> (r: bool)
    ensures
        r == adjacent(edges_view(edges@), id@, other@),
{
    let ghost es = edges_view(edges@);
    let mut k: usize = 0;
    while k < edges.len()
        invariant
            k <= edges@.len(),
            es == edges_view(edges@),
            forall|j: int|
                0 <= j < k ==> !(((#[trigger] es[j]).from == id@ && es[j].to == other@) || (
                es[j].to == id@ && es[j].from == other@)),
        decreases edges.len() - k,
    {
        assert(es[k as int] == edges@[k as int]@);
        let e = &edges[k];
        if (str_eq_s(&e.from, id) && str_eq_s(&e.to, other)) || (str_eq_s(&e.to, id) && str_eq_s(
            &e.from,
            other,
        )) {
            return true;
        }
        k = k + 1;
    }
    false
}

fn str_eq_s(a: &String, b: &str) -> (r: bool)
    ensures
        r == (a@ == b@),
{
    crate::text::str_eq(a.as_str(), b)
}

/// Whether a node matches a technology value: a service by the labels of
/// the technologies it fingerprints as, a technology by its own label.
fn technology_filter(nodes: &Vec<GraphNode>, edges: &Vec<GraphEdge>, node: &GraphNode, v: &str, c: Comparator) -> (r: bool)
    ensures
        r == technology_matches(nodes_view(nodes@), edges_view(edges@), node@, v@, c),
{
    match node.kind {
        NodeKind::Service => {
            let ghost ns = nodes_view(nodes@);
            let ghost es = edges_view(edges@);
            let mut j: usize = 0;
            while j < nodes.len()
                invariant
                    j <= nodes@.len(),
                    ns == nodes_view(nodes@),
                    es == edges_view(edges@),
                    node.kind == NodeKind::Service,
                    forall|i: int|
                        0 <= i < j ==> !(fingerprints(es, node@.node_id, (#[trigger] ns[i]).node_id)
                            && str_matches(ns[i].label, v@, c)),
                decreases nodes.len() - j,
            {
                assert(ns[j as int] == nodes@[j as int]@);
                if has_fingerprint(edges, node.node_id.as_str(), nodes[j].node_id.as_str())
                    && compare_string(nodes[j].label.as_str(), v, c) {
                    return true;
                }
                j = j + 1;
            }
            false
        },
        NodeKind::Technology => compare_string(node.label.as_str(), v, c),
        _ => false,
    }
}

/// Whether some neighbour of node `id` has a kind that matches the value.
fn neighbor_kind_filter(nodes: &Vec<GraphNode>, edges: &Vec<GraphEdge>, id: &str, v: &str, c: Comparator) -> (r: bool)
    ensures
        r == neighbor_kind_matches(nodes_view(nodes@), edges_view(edges@), id@, v@, c),
{
    let ghost ns = nodes_view(nodes@);
    let ghost es = edges_view(edges@);
    let mut j: usize = 0;
    while j < nodes.len()
        invariant
            j <= nodes@.len(),
            ns == nodes_view(nodes@),
            es == edges_view(edges@),
            forall|i: int|
                0 <= i < j ==> !(adjacent(es, id@, (#[trigger] ns[i]).node_id) && str_matches(
                    node_kind_name(ns[i].kind),
                    v@,
                    c,
                )),
        decreases nodes.len() - j,
    {
        assert(ns[j as int] == nodes@[j as int]@);
        if is_adjacent(edges, id, nodes[j].node_id.as_str()) && compare_string(
            nodes[j].kind.as_str(),
            v,
            c,
        ) {
            return true;
        }
        j = j + 1;
    }
    false
}

/// Whether some neighbour of node `id` has a label that matches the value.
fn connected_to_filter(nodes: &Vec<GraphNode>, edges: &Vec<GraphEdge>, id: &str, v: &str, c: Comparator) -> (r: bool)
    ensures
        r == connected_to_matches(nodes_view(nodes@), edges_view(edges@), id@, v@, c),
{
    let ghost ns = nodes_view(nodes@);
    let ghost es = edges_view(edges@);
    let mut j: usize = 0;
    while j < nodes.len()
        invariant
            j <= nodes@.len(),
            ns == nodes_view(nodes@),
            es == edges_view(edges@),
            forall|i: int|
                0 <= i < j ==> !(adjacent(es, id@, (#[trigger] ns[i]).node_id) && str_matches(
                    ns[i].label,
                    v@,
                    c,
                )),
        decreases nodes.len() - j,
    {
        assert(ns[j as int] == nodes@[j as int]@);
        if is_adjacent(edges, id, nodes[j].node_id.as_str()) && compare_string(
            nodes[j].label.as_str(),
            v,
            c,
        ) {
            return true;
        }
        j = j + 1;
    }
    false
}

/// Whether some edge at node `id` has a kind that matches the value.
fn edge_kind_filter(edges: &Vec<GraphEdge>, id: &str, v: &str, c: Comparator) -> (r: bool)
    ensures
        r == edge_kind_matches(edges_view(edges@), id@, v@, c),
{
    let ghost es = edges_view(edges@);
    let mut k: usize = 0;
    while k < edges.len()
        invariant
            k <= edges@.len(),
            es == edges_view(edges@),
            forall|j: int|
                0 <= j < k ==> !(((#[trigger] es[j]).from == id@ || es[j].to == id@) && str_matches(
                    edge_kind_name(es[j].kind),
                    v@,
                    c,
                )),
        decreases edges.len() - k,
    {
        assert(es[k as int] == edges@[k as int]@);
        if (str_eq_s(&edges[k].from, id) || str_eq_s(&edges[k].to, id)) && compare_string(
            edges[k].kind.as_str(),
            v,
            c,
        ) {
            return true;
        }
        k = k + 1;
    }
    false
}

fn has_episode_end(nodes: &Vec<GraphNode>, e: &GraphEdge) -> (r: bool)
    ensures
        r == episode_end(nodes_view(nodes@), e@),
{
    let ghost ns = nodes_view(nodes@);
    let mut j: usize = 0;
    while j < nodes.len()
        invariant
            j <= nodes@.len(),
            ns == nodes_view(nodes@),
            forall|i: int|
                0 <= i < j ==> !((#[trigger] ns[i]).kind == NodeKind::Episode && (ns[i].node_id
                    == e@.from || ns[i].node_id == e@.to)),
        decreases nodes.len() - j,
    {
        assert(ns[j as int] == nodes@[j as int]@);
        if nodes[j].kind == NodeKind::Episode && (str_eq_s(&nodes[j].node_id, e.from.as_str())
            || str_eq_s(&nodes[j].node_id, e.to.as_str())) {
            return true;
        }
        j = j + 1;
    }
    false
}

/// Whether node `id` takes part in an episode: some `participates_in` edge
/// at it has an episode node at one end.
pub fn node_in_episode(graph: &ExposureGraph, id: &str) -> (r: bool)
    ensures
        r == in_episode(nodes_view(graph.nodes@), edges_view(graph.edges@), id@),
{
    let ghost es = edges_view(graph.edges@);
    let ghost ns = nodes_view(graph.nodes@);
    let mut k: usize = 0;
    while k < graph.edges.len()
        invariant
            k <= graph.edges@.len(),
            es == edges_view(graph.edges@),
            ns == nodes_view(graph.nodes@),
            forall|j: int|
                0 <= j < k ==> !(((#[trigger] es[j]).from == id@ || es[j].to == id@) && es[j].kind
                    == EdgeKind::ParticipatesIn && episode_end(ns, es[j])),
        decreases graph.edges.len() - k,
    {
        assert(es[k as int] == graph.edges@[k as int]@);
        let e = &graph.edges[k];
        if (str_eq_s(&e.from, id) || str_eq_s(&e.to, id)) && e.kind == EdgeKind::ParticipatesIn
            && has_episode_end(&graph.nodes, e) {
            return true;
        }
        k = k + 1;
    }
    false
}

/// A node kind named loosely: singular or plural, any ASCII case.
pub open spec fn kind_loose(l: Seq<char>) -> Option<NodeKind> {
    if l == "target"@ || l == "targets"@ {
        Some(NodeKind::Target)
    } else if l == "subdomain"@ || l == "subdomains"@ {
        Some(NodeKind::Subdomain)
    } else if l == "ip"@ || l == "ips"@ {
        Some(NodeKind::Ip)
    } else if l == "service"@ || l == "services"@ {
        Some(NodeKind::Service)
    } else if l == "technology"@ || l == "technologies"@ || l == "tech"@ {
        Some(NodeKind::Technology)
    } else if l == "episode"@ || l == "episodes"@ {
        Some(NodeKind::Episode)
    } else {
        None
    }
}

/// The node kind a query value names: its exact name, or failing that a
/// loose one.
pub open spec fn kind_value(v: Seq<char>) -> Result<NodeKind, Seq<char>> {
    match node_kind_of(v) {
        Some(k) => Ok(k),
        None => match kind_loose(lower(v)) {
            Some(k) => Ok(k),
            None => Err("node kind no soportado: "@ + lower(v)),
        },
    }
}

/// The node kind a text names, singular or plural in any ASCII case, or an
/// error naming the lowercased text.
pub fn parse_node_kind_loose(input: &str) -> (r: Result<NodeKind, String>)
    ensures
        r is Ok <==> kind_loose(lower(input@)) is Some,
        r matches Ok(k) ==> kind_loose(lower(input@)) == Some(k),
        r matches Err(e) ==> e@ == "node kind no soportado: "@ + lower(input@),
{
    let l = lower_chars(input);
    if eq_lit(&l, "target") || eq_lit(&l, "targets") {
        Ok(NodeKind::Target)
    } else if eq_lit(&l, "subdomain") || eq_lit(&l, "subdomains") {
        Ok(NodeKind::Subdomain)
    } else if eq_lit(&l, "ip") || eq_lit(&l, "ips") {
        Ok(NodeKind::Ip)
    } else if eq_lit(&l, "service") || eq_lit(&l, "services") {
        Ok(NodeKind::Service)
    } else if eq_lit(&l, "technology") || eq_lit(&l, "technologies") || eq_lit(&l, "tech") {
        Ok(NodeKind::Technology)
    } else if eq_lit(&l, "episode") || eq_lit(&l, "episodes") {
        Ok(NodeKind::Episode)
    } else {
        let mut e = owned("node kind no soportado: ");
        let t = string_of(&l);
        push_str(&mut e, t.as_str());
        Err(e)
    }
}

fn kind_of_value(v: &str) -> (r: Result<NodeKind, String>)
    ensures
        r is Ok <==> kind_value(v@) is Ok,
        r matches Ok(k) ==> kind_value(v@) == Ok::<NodeKind, Seq<char>>(k),
        r matches Err(e) ==> kind_value(v@) == Err::<NodeKind, Seq<char>>(e@),
{
    match NodeKind::from_str(v) {
        Ok(k) => Ok(k),
        Err(_) => parse_node_kind_loose(v),
    }
}

/// The instant an RFC 3339 text names, as seconds and nanoseconds since the
/// Unix epoch.
pub uninterp spec fn rfc3339_instant(s: Seq<char>) -> Option<(i64, u32)>;

/// The start, at UTC midnight, of the day a `YYYY-MM-DD` text names, in
/// seconds since the Unix epoch.
pub uninterp spec fn ymd_midnight(s: Seq<char>) -> Option<i64>;

/// `chrono::DateTime::parse_from_rfc3339`, the instant it gives in seconds
/// and nanoseconds since the epoch. Only that this is a function of the
/// text is claimed.
#[verifier::external_body]
pub(crate) fn parse_rfc3339(s: &str) -> (r: Option<(i64, u32)>)
    ensures
        r == rfc3339_instant(s@),
{
    match chrono::DateTime::parse_from_rfc3339(s) {
        Ok(dt) => Some((dt.timestamp(), dt.timestamp_subsec_nanos())),
        Err(_) => None,
    }
}

/// `chrono::NaiveDate::parse_from_str(s, "%Y-%m-%d")`, taken at midnight UTC
/// and given in seconds since the epoch. Only that this is a function of the
/// text is claimed.
#[verifier::external_body]
fn parse_ymd(s: &str) -> (r: Option<i64>)
    ensures
        r == ymd_midnight(s@),
{
    match chrono::NaiveDate::parse_from_str(s, "%Y-%m-%d") {
        Ok(d) => match d.and_hms_opt(0, 0, 0) {
            Some(n) => Some(n.and_utc().timestamp()),
            None => None,
        },
        Err(_) => None,
    }
}

/// The instant a query value names: RFC 3339 first, then a bare date.
pub open spec fn time_of(s: Seq<char>) -> Option<(i64, u32)> {
    match rfc3339_instant(s) {
        Some(t) => Some(t),
        None => match ymd_midnight(s) {
            Some(t) => Some((t, 0u32)),
            None => None,
        },
    }
}

pub open spec fn date_error(v: Seq<char>) -> Seq<char> {
    "fecha inválida: "@ + v + ". Usa RFC3339 o YYYY-MM-DD"@
}

/// How a whole-second time compares with an instant given in seconds and
/// nanoseconds.
pub open spec fn time_matches(t: i64, p: (i64, u32), c: Comparator) -> bool {
    match c {
        Comparator::Eq => t == p.0 && p.1 == 0,
        Comparator::Gt => t > p.0,
        Comparator::Gte => t > p.0 || (t == p.0 && p.1 == 0),
        Comparator::Lt => t < p.0 || (t == p.0 && p.1 > 0),
        Comparator::Lte => t <= p.0,
        Comparator::Contains => false,
    }
}

/// The instant a query value names, as seconds and nanoseconds: an RFC 3339
/// time, or else a bare `YYYY-MM-DD` date at midnight UTC; an error otherwise.
pub fn parse_datetime(input: &str) -> (r: Result<(i64, u32), String>)
    ensures
        r is Ok <==> time_of(input@) is Some,
        r matches Ok(p) ==> time_of(input@) == Some(p),
        r matches Err(e) ==> e@ == date_error(input@),
{
    match parse_rfc3339(input) {
        Some(p) => Ok(p),
        None => match parse_ymd(input) {
            Some(t) => Ok((t, 0)),
            None => {
                let mut e = owned("fecha inválida: ");
                push_str(&mut e, input);
                push_str(&mut e, ". Usa RFC3339 o YYYY-MM-DD");
                Err(e)
            },
        },
    }
}

/// `compare_datetime`, for a node time in whole seconds.
pub fn compare_datetime(left: i64, right: (i64, u32), c: Comparator) -> (r: bool)
    ensures
        r == time_matches(left, right, c),
{
    match c {
        Comparator::Eq => left == right.0 && right.1 == 0,
        Comparator::Gt => left > right.0,
        Comparator::Gte => left > right.0 || (left == right.0 && right.1 == 0),
        Comparator::Lt => left < right.0 || (left == right.0 && right.1 > 0),
        Comparator::Lte => left <= right.0,
        Comparator::Contains => false,
    }
}

/// A time clause: a node without the time never matches; a value that names
/// no instant is an error.
pub open spec fn time_clause(actual: Option<i64>, v: Seq<char>, c: Comparator) -> Result<bool, Seq<char>> {
    match actual {
        None => Ok(false),
        Some(t) => match time_of(v) {
            Some(p) => Ok(time_matches(t, p, c)),
            None => Err(date_error(v)),
        },
    }
}

/// Compares a node's optional time with a query value: a node without the
/// time never matches, and a value that names no instant is an error.
fn compare_datetime_clause(actual: Option<i64>, v: &str, c: Comparator) -> (r: Result<bool, String>)
    ensures
        res_view(r) == time_clause(actual, v@, c),
{
    match actual {
        None => Ok(false),
        Some(t) => match parse_datetime(v) {
            Ok(p) => Ok(compare_datetime(t, p, c)),
            Err(e) => Err(e),
        },
    }
}

/// A count clause: the value must be a number, else `msg` is the error.
pub open spec fn count_clause(actual: int, v: Seq<char>, c: Comparator, msg: Seq<char>) -> Result<bool, Seq<char>> {
    match parse_usize(v) {
        Some(e) => Ok(num_matches(actual, e as int, c)),
        None => Err(msg),
    }
}

fn count_clause_exec(actual: usize, v: &str, c: Comparator, msg: &str) -> (r: Result<bool, String>)
    ensures
        res_view(r) == count_clause(actual as int, v@, c, msg@),
{
    match parse_usize_str(v) {
        Some(e) => Ok(compare_number(actual, e, c)),
        None => Err(owned(msg)),
    }
}

pub open spec fn res_view(r: Result<bool, String>) -> Result<bool, Seq<char>> {
    match r {
        Ok(b) => Ok(b),
        Err(e) => Err(e@),
    }
}

/// What a clause says of node `n`, or the error it raises.
pub open spec fn clause_result(ns: Seq<NodeV>, es: Seq<EdgeV>, n: NodeV, c: ClauseV) -> Result<bool, Seq<char>> {
    let v = c.value;
    let op = c.comparator;
    let a = n.attributes;
    match c.field {
        QueryField::Kind => match kind_value(v) {
            Ok(k) => Ok(str_matches(node_kind_name(n.kind), node_kind_name(k), op)),
            Err(m) => Err(m),
        },
        QueryField::Label => Ok(str_matches(n.label, v, op)),
        QueryField::Technology => Ok(technology_matches(ns, es, n, v, op)),
        QueryField::Degree => count_clause(
            degree(es, n.node_id) as int,
            v,
            op,
            "degree debe ser numérico"@,
        ),
        QueryField::EpisodeKind => Ok(str_matches(or_empty(attr_get(a, "kind"@)), v, op)),
        QueryField::Severity => Ok(
            ranked_matches(
                or_empty(attr_or_fallback(a, "severity"@, "highest_severity"@)),
                v,
                op,
                Ranker::Severity,
            ),
        ),
        QueryField::Criticality => Ok(
            ranked_matches(
                or_empty(attr_or_fallback(a, "criticality"@, "highest_criticality"@)),
                v,
                op,
                Ranker::Criticality,
            ),
        ),
        QueryField::State => Ok(
            ranked_matches(
                or_empty(attr_or_fallback(a, "state"@, "states"@)),
                v,
                op,
                Ranker::State,
            ),
        ),
        QueryField::FirstSeen => time_clause(n.first_seen, v, op),
        QueryField::LastSeen => time_clause(n.last_seen, v, op),
        QueryField::Source => Ok(str_matches(or_empty(attr_get(a, "source"@)), v, op)),
        QueryField::Target => Ok(str_matches(n.target, v, op)),
        QueryField::Title => Ok(str_matches(or_empty(attr_get(a, "title"@)), v, op)),
        QueryField::Provider => Ok(str_matches(or_empty(attr_get(a, "provider"@)), v, op)),
        QueryField::Status => match parse_usize(v) {
            Some(e) => Ok(
                num_matches(parsed_or_zero(or_empty(attr_get(a, "status"@))), e as int, op),
            ),
            None => Ok(str_matches(or_empty(attr_get(a, "status"@)), v, op)),
        },
        QueryField::Scheme => Ok(str_matches(or_empty(attr_get(a, "scheme"@)), v, op)),
        QueryField::TlsEnabled => Ok(
            bool_matches(truthy(or_empty(attr_get(a, "tls_enabled"@))), truthy(v), op),
        ),
        QueryField::Score => count_clause(
            parsed_or_zero(or_empty(attr_or_fallback(a, "score"@, "total_score"@))),
            v,
            op,
            "score debe ser numérico"@,
        ),
        QueryField::ResourceCount => count_clause(
            parsed_or_zero(or_empty(attr_get(a, "resource_count"@))),
            v,
            op,
            "resource_count debe ser numérico"@,
        ),
        QueryField::NeighborKind => Ok(neighbor_kind_matches(ns, es, n.node_id, v, op)),
        QueryField::EdgeKind => Ok(edge_kind_matches(es, n.node_id, v, op)),
        QueryField::ConnectedTo => Ok(connected_to_matches(ns, es, n.node_id, v, op)),
        QueryField::InEpisode => Ok(bool_matches(in_episode(ns, es, n.node_id), truthy(v), op)),
    }
}

/// `matches_clause`: whether `node`, of degree `deg`, meets one clause.
pub fn matches_clause(graph: &ExposureGraph, node: &GraphNode, clause: &QueryClause, deg: usize) -> (r: Result<bool, String>)
    requires
        deg == degree(edges_view(graph.edges@), node@.node_id),
    ensures
        res_view(r) == clause_result(nodes_view(graph.nodes@), edges_view(graph.edges@), node@, clause@),
{
    let v = clause.value.as_str();
    let op = clause.comparator;
    let attrs = &node.attributes;
    match clause.field {
        QueryField::Kind => match kind_of_value(v) {
            Ok(k) => Ok(compare_string(node.kind.as_str(), k.as_str(), op)),
            Err(e) => Err(e),
        },
        QueryField::Label => Ok(compare_string(node.label.as_str(), v, op)),
        QueryField::Technology => Ok(technology_filter(&graph.nodes, &graph.edges, node, v, op)),
        QueryField::Degree => count_clause_exec(deg, v, op, "degree debe ser numérico"),
        QueryField::EpisodeKind => {
            let t = text_or_empty(attr_value(attrs, "kind"));
            Ok(compare_string(t.as_str(), v, op))
        },
        QueryField::Severity => {
            let t = text_or_empty(attr_value2(attrs, "severity", "highest_severity"));
            Ok(compare_ranked_string(t.as_str(), v, op, Ranker::Severity))
        },
        QueryField::Criticality => {
            let t = text_or_empty(attr_value2(attrs, "criticality", "highest_criticality"));
            Ok(compare_ranked_string(t.as_str(), v, op, Ranker::Criticality))
        },
        QueryField::State => {
            let t = text_or_empty(attr_value2(attrs, "state", "states"));
            Ok(compare_ranked_string(t.as_str(), v, op, Ranker::State))
        },
        QueryField::FirstSeen => compare_datetime_clause(node.first_seen, v, op),
        QueryField::LastSeen => compare_datetime_clause(node.last_seen, v, op),
        QueryField::Source => {
            let t = text_or_empty(attr_value(attrs, "source"));
            Ok(compare_string(t.as_str(), v, op))
        },
        QueryField::Target => Ok(compare_string(node.target.as_str(), v, op)),
        QueryField::Title => {
            let t = text_or_empty(attr_value(attrs, "title"));
            Ok(compare_string(t.as_str(), v, op))
        },
        QueryField::Provider => {
            let t = text_or_empty(attr_value(attrs, "provider"));
            Ok(compare_string(t.as_str(), v, op))
        },
        QueryField::Status => {
            let t = text_or_empty(attr_value(attrs, "status"));
            match parse_usize_str(v) {
                Some(e) => Ok(compare_number(number_or_zero(t.as_str()), e, op)),
                None => Ok(compare_string(t.as_str(), v, op)),
            }
        },
        QueryField::Scheme => {
            let t = text_or_empty(attr_value(attrs, "scheme"));
            Ok(compare_string(t.as_str(), v, op))
        },
        QueryField::TlsEnabled => {
            let t = text_or_empty(attr_value(attrs, "tls_enabled"));
            Ok(compare_bool(normalize_bool(t.as_str()), normalize_bool(v), op))
        },
        QueryField::Score => {
            let t = text_or_empty(attr_value2(attrs, "score", "total_score"));
            count_clause_exec(number_or_zero(t.as_str()), v, op, "score debe ser numérico")
        },
        QueryField::ResourceCount => {
            let t = text_or_empty(attr_value(attrs, "resource_count"));
            count_clause_exec(number_or_zero(t.as_str()), v, op, "resource_count debe ser numérico")
        },
        QueryField::NeighborKind => Ok(
            neighbor_kind_filter(&graph.nodes, &graph.edges, node.node_id.as_str(), v, op),
        ),
        QueryField::EdgeKind => Ok(edge_kind_filter(&graph.edges, node.node_id.as_str(), v, op)),
        QueryField::ConnectedTo => Ok(
            connected_to_filter(&graph.nodes, &graph.edges, node.node_id.as_str(), v, op),
        ),
        QueryField::InEpisode => Ok(
            compare_bool(node_in_episode(graph, node.node_id.as_str()), normalize_bool(v), op),
        ),
    }
}

/// What a boolean expression says of node `n`, or the first error it raises:
/// `AND` and `OR` stop at the first item that decides them.
pub open spec fn expr_result(ns: Seq<NodeV>, es: Seq<EdgeV>, n: NodeV, e: ExprV) -> Result<bool, Seq<char>>
    decreases e, 0int,
{
    match e {
        ExprV::Clause(c) => clause_result(ns, es, n, c),
        ExprV::And(items) => all_from(ns, es, n, items, 0),
        ExprV::Or(items) => any_from(ns, es, n, items, 0),
        ExprV::Not(inner) => match expr_result(ns, es, n, *inner) {
            Ok(b) => Ok(!b),
            Err(m) => Err(m),
        },
    }
}

/// `AND` over `items` from index `i` on.
pub open spec fn all_from(ns: Seq<NodeV>, es: Seq<EdgeV>, n: NodeV, items: Seq<ExprV>, i: int) -> Result<bool, Seq<char>>
    decreases items, items.len() - i,
{
    if i < 0 || i >= items.len() {
        Ok(true)
    } else {
        match expr_result(ns, es, n, items[i]) {
            Err(m) => Err(m),
            Ok(false) => Ok(false),
            Ok(true) => all_from(ns, es, n, items, i + 1),
        }
    }
}

/// `OR` over `items` from index `i` on.
pub open spec fn any_from(ns: Seq<NodeV>, es: Seq<EdgeV>, n: NodeV, items: Seq<ExprV>, i: int) -> Result<bool, Seq<char>>
    decreases items, items.len() - i,
{
    if i < 0 || i >= items.len() {
        Ok(false)
    } else {
        match expr_result(ns, es, n, items[i]) {
            Err(m) => Err(m),
            Ok(true) => Ok(true),
            Ok(false) => any_from(ns, es, n, items, i + 1),
        }
    }
}

/// `matches_expr`: whether `node`, of degree `deg`, meets an expression.
pub fn matches_expr(graph: &ExposureGraph, node: &GraphNode, expr: &QueryExpr, deg: usize) -> (r: Result<bool, String>)
    requires
        deg == degree(edges_view(graph.edges@), node@.node_id),
    ensures
        res_view(r) == expr_result(nodes_view(graph.nodes@), edges_view(graph.edges@), node@, expr@),
    decreases expr,
{
    let ghost ns = nodes_view(graph.nodes@);
    let ghost es = edges_view(graph.edges@);
    match expr {
        QueryExpr::Clause(c) => matches_clause(graph, node, c, deg),
        QueryExpr::And(items) => {
            proof {
                lemma_and_view(*items);
            }
            let ghost iv = views(items@);
            let mut i: usize = 0;
            while i < items.len()
                invariant
                    i <= items@.len(),
                    iv == views(items@),
                    ns == nodes_view(graph.nodes@),
                    es == edges_view(graph.edges@),
                    deg == degree(es, node@.node_id),
                    *expr == QueryExpr::And(*items),
                    expr@ == ExprV::And(iv),
                    all_from(ns, es, node@, iv, 0) == all_from(ns, es, node@, iv, i as int),
                decreases items.len() - i,
            {
                assert(iv[i as int] == items@[i as int]@);
                let r = matches_expr(graph, node, &items[i], deg);
                match r {
                    Err(m) => {
                        return Err(m);
                    },
                    Ok(b) => {
                        if !b {
                            return Ok(false);
                        }
                    },
                }
                i = i + 1;
            }
            Ok(true)
        },
        QueryExpr::Or(items) => {
            proof {
                lemma_and_view(*items);
            }
            let ghost iv = views(items@);
            let mut i: usize = 0;
            while i < items.len()
                invariant
                    i <= items@.len(),
                    iv == views(items@),
                    ns == nodes_view(graph.nodes@),
                    es == edges_view(graph.edges@),
                    deg == degree(es, node@.node_id),
                    *expr == QueryExpr::Or(*items),
                    expr@ == ExprV::Or(iv),
                    any_from(ns, es, node@, iv, 0) == any_from(ns, es, node@, iv, i as int),
                decreases items.len() - i,
            {
                assert(iv[i as int] == items@[i as int]@);
                let r = matches_expr(graph, node, &items[i], deg);
                match r {
                    Err(m) => {
                        return Err(m);
                    },
                    Ok(b) => {
                        if b {
                            return Ok(true);
                        }
                    },
                }
                i = i + 1;
            }
            Ok(false)
        },
        QueryExpr::Not(inner) => match matches_expr(graph, node, inner, deg) {
            Ok(b) => Ok(!b),
            Err(m) => Err(m),
        },
    }
}

/// The explanation a matching clause gives.
pub open spec fn clause_reason(c: ClauseV) -> Seq<char> {
    "matched clause: "@ + field_name(c.field) + comparator_symbol(c.comparator) + c.value
}

/// The explanations an expression gives for node `n`: one for each clause
/// that holds (all items of `AND` and `OR` are visited) and one for each
/// `NOT` whose operand fails; or the first error met.
pub open spec fn reasons(ns: Seq<NodeV>, es: Seq<EdgeV>, n: NodeV, e: ExprV) -> Result<Seq<Seq<char>>, Seq<char>>
    decreases e, 0int,
{
    match e {
        ExprV::Clause(c) => match clause_result(ns, es, n, c) {
            Err(m) => Err(m),
            Ok(true) => Ok(seq![clause_reason(c)]),
            Ok(false) => Ok(Seq::empty()),
        },
        ExprV::And(items) => reasons_from(ns, es, n, items, 0),
        ExprV::Or(items) => reasons_from(ns, es, n, items, 0),
        ExprV::Not(inner) => match expr_result(ns, es, n, *inner) {
            Err(m) => Err(m),
            Ok(true) => Ok(Seq::empty()),
            Ok(false) => Ok(seq!["matched NOT clause"@]),
        },
    }
}

/// The explanations of `items` from index `i` on, in order.
pub open spec fn reasons_from(ns: Seq<NodeV>, es: Seq<EdgeV>, n: NodeV, items: Seq<ExprV>, i: int) -> Result<Seq<Seq<char>>, Seq<char>>
    decreases items, items.len() - i,
{
    if i < 0 || i >= items.len() {
        Ok(Seq::empty())
    } else {
        match reasons(ns, es, n, items[i]) {
            Err(m) => Err(m),
            Ok(a) => match reasons_from(ns, es, n, items, i + 1) {
                Err(m) => Err(m),
                Ok(b) => Ok(a + b),
            },
        }
    }
}

/// `acc` put in front of what `r` holds.
pub open spec fn prepend(acc: Seq<Seq<char>>, r: Result<Seq<Seq<char>>, Seq<char>>) -> Result<Seq<Seq<char>>, Seq<char>> {
    match r {
        Ok(b) => Ok(acc + b),
        Err(m) => Err(m),
    }
}

/// `collect_expr_reasons`: appends the explanations of `expr` to `out`.
/// On an error, what `out` holds afterwards is left open.
pub fn collect_expr_reasons(graph: &ExposureGraph, node: &GraphNode, expr: &QueryExpr, deg: usize, out: &mut Vec<String>) -> (r: Result<(), String>)
    requires
        deg == degree(edges_view(graph.edges@), node@.node_id),
    ensures
        r is Ok <==> reasons(nodes_view(graph.nodes@), edges_view(graph.edges@), node@, expr@) is Ok,
        r matches Err(m) ==> reasons(nodes_view(graph.nodes@), edges_view(graph.edges@), node@, expr@) == Err::<Seq<Seq<char>>, Seq<char>>(m@),
        r is Ok ==> Ok::<Seq<Seq<char>>, Seq<char>>(strings_view(final(out)@)) == prepend(strings_view(old(out)@), reasons(nodes_view(graph.nodes@), edges_view(graph.edges@), node@, expr@)),
    decreases expr,
{
    let ghost ns = nodes_view(graph.nodes@);
    let ghost es = edges_view(graph.edges@);
    match expr {
        QueryExpr::Clause(c) => match matches_clause(graph, node, c, deg) {
            Err(m) => Err(m),
            Ok(b) => {
                if b {
                    let mut t = owned("matched clause: ");
                    push_str(&mut t, c.field.as_str());
                    push_str(&mut t, c.comparator.as_str());
                    push_str(&mut t, c.value.as_str());
                    let ghost before = out@;
                    out.push(t);
                    proof {
                        crate::text::lemma_strings_view_push(before, t);
                        assert(strings_view(out@) =~= strings_view(before) + seq![clause_reason(c@)]);
                    }
                } else {
                    assert(strings_view(out@) =~= strings_view(old(out)@) + Seq::<Seq<char>>::empty());
                }
                Ok(())
            },
        },
        QueryExpr::And(items) | QueryExpr::Or(items) => {
            proof {
                lemma_and_view(*items);
            }
            let ghost iv = views(items@);
            assert(reasons(ns, es, node@, expr@) == reasons_from(ns, es, node@, iv, 0));
            let ghost start = strings_view(out@);
            let mut i: usize = 0;
            assert(strings_view(out@) =~= start + Seq::<Seq<char>>::empty());
            while i < items.len()
                invariant
                    i <= items@.len(),
                    iv == views(items@),
                    ns == nodes_view(graph.nodes@),
                    es == edges_view(graph.edges@),
                    deg == degree(es, node@.node_id),
                    reasons(ns, es, node@, expr@) == reasons_from(ns, es, node@, iv, 0),
                    *expr == QueryExpr::And(*items) || *expr == QueryExpr::Or(*items),
                    start == strings_view(old(out)@),
                    reasons_from(ns, es, node@, iv, 0) == prepend(
                        strings_view(out@).skip(start.len() as int),
                        reasons_from(ns, es, node@, iv, i as int),
                    ),
                    strings_view(out@).len() >= start.len(),
                    strings_view(out@).take(start.len() as int) == start,
                decreases items.len() - i,
            {
                assert(iv[i as int] == items@[i as int]@);
                let ghost mid = strings_view(out@);
                let r = collect_expr_reasons(graph, node, &items[i], deg, out);
                match r {
                    Err(m) => {
                        return Err(m);
                    },
                    Ok(()) => {},
                }
                proof {
                    let a = reasons(ns, es, node@, iv[i as int])->Ok_0;
                    assert(strings_view(out@) == mid + a);
                    let acc = mid.skip(start.len() as int);
                    assert(strings_view(out@).skip(start.len() as int) =~= acc + a);
                    assert(strings_view(out@).take(start.len() as int) =~= mid.take(start.len() as int));
                    match reasons_from(ns, es, node@, iv, i + 1) {
                        Ok(b) => {
                            assert(acc + (a + b) =~= (acc + a) + b);
                        },
                        Err(_) => {},
                    }
                }
                i = i + 1;
            }
            proof {
                assert(strings_view(out@) =~= start + strings_view(out@).skip(start.len() as int));
            }
            Ok(())
        },
        QueryExpr::Not(inner) => match matches_expr(graph, node, inner, deg) {
            Err(m) => Err(m),
            Ok(b) => {
                if !b {
                    let t = owned("matched NOT clause");
                    let ghost before = out@;
                    out.push(t);
                    proof {
                        crate::text::lemma_strings_view_push(before, t);
                        assert(strings_view(out@) =~= strings_view(before) + seq!["matched NOT clause"@]);
                    }
                } else {
                    assert(strings_view(out@) =~= strings_view(old(out)@) + Seq::<Seq<char>>::empty());
                }
                Ok(())
            },
        },
    }
}

/// One node a query selected.
#[derive(Debug, Clone)]
pub struct QueryMatch {
    pub node_id: String,
    pub label: String,
    pub kind: NodeKind,
    pub degree: usize,
    pub attributes: Vec<(String, String)>,
    pub explanations: Vec<String>,
}

pub struct MatchV {
    pub node_id: Seq<char>,
    pub label: Seq<char>,
    pub kind: NodeKind,
    pub degree: usize,
    pub attributes: AttrsV,
    pub explanations: Seq<Seq<char>>,
}

impl View for QueryMatch {
    type V = MatchV;

    open spec fn view(&self) -> MatchV {
        MatchV {
            node_id: self.node_id@,
            label: self.label@,
            kind: self.kind,
            degree: self.degree,
            attributes: attrs_view(self.attributes@),
            explanations: strings_view(self.explanations@),
        }
    }
}

pub open spec fn matches_view(v: Seq<QueryMatch>) -> Seq<MatchV> {
    Seq::new(v.len(), |i: int| v[i]@)
}

/// Counts over the matches a query returned. `kind_counts` has one entry per
/// node kind present, in the order of the kinds' names.
#[derive(Debug, Clone, Default)]
pub struct QuerySummary {
    pub total_matches: usize,
    pub returned_matches: usize,
    pub max_degree: usize,
    pub kind_counts: Vec<(String, usize)>,
}

pub struct SummaryV {
    pub total_matches: usize,
    pub returned_matches: usize,
    pub max_degree: usize,
    pub kind_counts: Seq<(Seq<char>, usize)>,
}

pub open spec fn counts_view(v: Seq<(String, usize)>) -> Seq<(Seq<char>, usize)> {
    Seq::new(v.len(), |i: int| (v[i].0@, v[i].1))
}

impl View for QuerySummary {
    type V = SummaryV;

    open spec fn view(&self) -> SummaryV {
        SummaryV {
            total_matches: self.total_matches,
            returned_matches: self.returned_matches,
            max_degree: self.max_degree,
            kind_counts: counts_view(self.kind_counts@),
        }
    }
}

/// What a query returned: one page of the sorted matches, and counts.
#[derive(Debug, Clone)]
pub struct QueryResult {
    pub target: String,
    pub raw_query: String,
    pub matched_nodes: Vec<QueryMatch>,
    pub summary: QuerySummary,
    pub limit: usize,
    pub offset: usize,
    pub sort: Option<SortSpec>,
    pub explain: bool,
}

/// How many matches are of kind `k`.
pub open spec fn kind_count(ms: Seq<MatchV>, k: NodeKind) -> nat
    decreases ms.len(),
{
    if ms.len() == 0 {
        0
    } else {
        kind_count(ms.drop_last(), k) + if ms.last().kind == k {
            1nat
        } else {
            0nat
        }
    }
}

/// The largest degree among the matches, zero when there is none.
pub open spec fn max_match_degree(ms: Seq<MatchV>) -> usize
    decreases ms.len(),
{
    if ms.len() == 0 {
        0
    } else {
        let m = max_match_degree(ms.drop_last());
        if ms.last().degree > m {
            ms.last().degree
        } else {
            m
        }
    }
}

/// `acc` with the count of kind `k` added when it is not zero.
pub open spec fn push_count(acc: Seq<(Seq<char>, usize)>, ms: Seq<MatchV>, k: NodeKind) -> Seq<(Seq<char>, usize)> {
    if kind_count(ms, k) > 0 {
        acc.push((node_kind_name(k), kind_count(ms, k) as usize))
    } else {
        acc
    }
}

/// The count of each node kind present, by kind name in alphabetical order.
pub open spec fn kind_counts_of(ms: Seq<MatchV>) -> Seq<(Seq<char>, usize)> {
    push_count(
        push_count(
            push_count(
                push_count(
                    push_count(push_count(Seq::empty(), ms, NodeKind::Episode), ms, NodeKind::Ip),
                    ms,
                    NodeKind::Service,
                ),
                ms,
                NodeKind::Subdomain,
            ),
            ms,
            NodeKind::Target,
        ),
        ms,
        NodeKind::Technology,
    )
}

/// The summary of the returned matches: the total found, how many were
/// returned, the largest degree among them and how many of each kind.
pub open spec fn summary_of(ms: Seq<MatchV>, total: usize) -> SummaryV {
    SummaryV {
        total_matches: total,
        returned_matches: ms.len() as usize,
        max_degree: max_match_degree(ms),
        kind_counts: kind_counts_of(ms),
    }
}

fn count_kind(ms: &Vec<QueryMatch>, k: NodeKind) -> (r: usize)
    ensures
        r == kind_count(matches_view(ms@), k),
{
    let ghost mv = matches_view(ms@);
    let mut n: usize = 0;
    let mut i: usize = 0;
    while i < ms.len()
        invariant
            i <= ms@.len(),
            mv == matches_view(ms@),
            n == kind_count(mv.take(i as int), k),
            n <= i,
        decreases ms.len() - i,
    {
        assert(mv.take(i + 1).drop_last() =~= mv.take(i as int));
        assert(mv.take(i + 1).last() == ms@[i as int]@);
        if ms[i].kind == k {
            n = n + 1;
        }
        i = i + 1;
    }
    assert(mv.take(ms.len() as int) =~= mv);
    n
}

fn push_count_exec(out: &mut Vec<(String, usize)>, ms: &Vec<QueryMatch>, k: NodeKind)
    ensures
        counts_view(final(out)@) == push_count(counts_view(old(out)@), matches_view(ms@), k),
{
    let n = count_kind(ms, k);
    if n > 0 {
        out.push((k.to_string(), n));
        assert(counts_view(out@) =~= counts_view(old(out)@).push((node_kind_name(k), n)));
    }
}

/// Summarizes the returned matches: the total found, how many were
/// returned, the largest degree among them and how many of each kind.
pub fn summarize_matches(ms: &Vec<QueryMatch>, total: usize) -> (r: QuerySummary)
    ensures
        r@ == summary_of(matches_view(ms@), total),
{
    let ghost mv = matches_view(ms@);
    let mut max_degree: usize = 0;
    let mut i: usize = 0;
    while i < ms.len()
        invariant
            i <= ms@.len(),
            mv == matches_view(ms@),
            max_degree == max_match_degree(mv.take(i as int)),
        decreases ms.len() - i,
    {
        assert(mv.take(i + 1).drop_last() =~= mv.take(i as int));
        assert(mv.take(i + 1).last() == ms@[i as int]@);
        if ms[i].degree > max_degree {
            max_degree = ms[i].degree;
        }
        i = i + 1;
    }
    assert(mv.take(ms.len() as int) =~= mv);
    let mut kind_counts: Vec<(String, usize)> = Vec::new();
    assert(counts_view(kind_counts@) =~= Seq::<(Seq<char>, usize)>::empty());
    push_count_exec(&mut kind_counts, ms, NodeKind::Episode);
    push_count_exec(&mut kind_counts, ms, NodeKind::Ip);
    push_count_exec(&mut kind_counts, ms, NodeKind::Service);
    push_count_exec(&mut kind_counts, ms, NodeKind::Subdomain);
    push_count_exec(&mut kind_counts, ms, NodeKind::Target);
    push_count_exec(&mut kind_counts, ms, NodeKind::Technology);
    QuerySummary { total_matches: total, returned_matches: ms.len(), max_degree, kind_counts }
}

/// Whether a node passes a preset.
pub open spec fn preset_ok(n: NodeV, p: Option<QueryPreset>, deg: int) -> bool {
    match p {
        None => true,
        Some(QueryPreset::Services) => n.kind == NodeKind::Service,
        Some(QueryPreset::Technologies) => n.kind == NodeKind::Technology,
        Some(QueryPreset::Episodes) => n.kind == NodeKind::Episode,
        Some(QueryPreset::Subdomains) => n.kind == NodeKind::Subdomain,
        Some(QueryPreset::Targets) => n.kind == NodeKind::Target,
        Some(QueryPreset::Ips) => n.kind == NodeKind::Ip,
        Some(QueryPreset::HighDegree) => deg >= 3,
    }
}

/// Whether a node passes the preset; without a preset every node does.
pub fn matches_preset(node: &GraphNode, preset: Option<QueryPreset>, deg: usize) -> (r: bool)
    ensures
        r == preset_ok(node@, preset, deg as int),
{
    match preset {
        None => true,
        Some(QueryPreset::Services) => node.kind == NodeKind::Service,
        Some(QueryPreset::Technologies) => node.kind == NodeKind::Technology,
        Some(QueryPreset::Episodes) => node.kind == NodeKind::Episode,
        Some(QueryPreset::Subdomains) => node.kind == NodeKind::Subdomain,
        Some(QueryPreset::Targets) => node.kind == NodeKind::Target,
        Some(QueryPreset::Ips) => node.kind == NodeKind::Ip,
        Some(QueryPreset::HighDegree) => deg >= 3,
    }
}

/// The match a node gives.
pub open spec fn match_of(n: NodeV, deg: int, expl: Seq<Seq<char>>) -> MatchV {
    MatchV {
        node_id: n.node_id,
        label: n.label,
        kind: n.kind,
        degree: deg as usize,
        attributes: n.attributes,
        explanations: expl,
    }
}

/// The explanations of a match: the preset first, then the expression's.
pub open spec fn explanations_of(ns: Seq<NodeV>, es: Seq<EdgeV>, n: NodeV, preset: Option<QueryPreset>, expr: Option<ExprV>) -> Result<Seq<Seq<char>>, Seq<char>> {
    let pre = match preset {
        Some(p) => seq!["preset matched: "@ + preset_name(p)],
        None => Seq::empty(),
    };
    match expr {
        None => Ok(pre),
        Some(e) => prepend(pre, reasons(ns, es, n, e)),
    }
}

/// Why a node matched: the preset line first, then the reasons of the
/// expression, or the error that evaluating the expression gives.
pub fn collect_explanations(graph: &ExposureGraph, node: &GraphNode, request: &QueryRequest, deg: usize) -> (r: Result<Vec<String>, String>)
    requires
        deg == degree(edges_view(graph.edges@), node@.node_id),
    ensures
        r is Ok <==> explanations_of(nodes_view(graph.nodes@), edges_view(graph.edges@), node@, request@.preset, request@.expr) is Ok,
        r matches Ok(v) ==> explanations_of(nodes_view(graph.nodes@), edges_view(graph.edges@), node@, request@.preset, request@.expr) == Ok::<Seq<Seq<char>>, Seq<char>>(strings_view(v@)),
        r matches Err(m) ==> explanations_of(nodes_view(graph.nodes@), edges_view(graph.edges@), node@, request@.preset, request@.expr) == Err::<Seq<Seq<char>>, Seq<char>>(m@),
{
    let mut out: Vec<String> = Vec::new();
    match request.preset {
        Some(p) => {
            let mut t = owned("preset matched: ");
            push_str(&mut t, p.as_str());
            out.push(t);
            assert(strings_view(out@) =~= seq!["preset matched: "@ + preset_name(p)]);
        },
        None => {
            assert(strings_view(out@) =~= Seq::<Seq<char>>::empty());
        },
    }
    match &request.expr {
        Some(e) => {
            match collect_expr_reasons(graph, node, e, deg, &mut out) {
                Err(m) => {
                    return Err(m);
                },
                Ok(()) => {},
            }
        },
        None => {},
    }
    Ok(out)
}

/// What one node contributes to a query: nothing, a match, or an error.
pub open spec fn node_step(ns: Seq<NodeV>, es: Seq<EdgeV>, req: RequestV, n: NodeV) -> Result<Option<MatchV>, Seq<char>> {
    let deg = degree(es, n.node_id) as int;
    if !preset_ok(n, req.preset, deg) {
        Ok(None)
    } else {
        let pass = match req.expr {
            None => Ok(true),
            Some(e) => expr_result(ns, es, n, e),
        };
        match pass {
            Err(m) => Err(m),
            Ok(false) => Ok(None),
            Ok(true) => if req.explain {
                match explanations_of(ns, es, n, req.preset, req.expr) {
                    Err(m) => Err(m),
                    Ok(x) => Ok(Some(match_of(n, deg, x))),
                }
            } else {
                Ok(Some(match_of(n, deg, Seq::empty())))
            },
        }
    }
}

/// The matches of the first `k` nodes, in node order, or the first error.
pub open spec fn selected(ns: Seq<NodeV>, es: Seq<EdgeV>, req: RequestV, k: int) -> Result<Seq<MatchV>, Seq<char>>
    decreases k,
{
    if k <= 0 {
        Ok(Seq::empty())
    } else {
        match selected(ns, es, req, k - 1) {
            Err(m) => Err(m),
            Ok(acc) => match node_step(ns, es, req, ns[k - 1]) {
                Err(m) => Err(m),
                Ok(None) => Ok(acc),
                Ok(Some(x)) => Ok(acc.push(x)),
            },
        }
    }
}

/// Once a node raises an error, the error stands.
proof fn lemma_selected_err(ns: Seq<NodeV>, es: Seq<EdgeV>, req: RequestV, k: int, k2: int)
    requires
        0 < k <= k2,
        selected(ns, es, req, k) is Err,
    ensures
        selected(ns, es, req, k2) == selected(ns, es, req, k),
    decreases k2 - k,
{
    if k2 > k {
        lemma_selected_err(ns, es, req, k, k2 - 1);
    }
}

pub open spec fn step_view(r: Result<Option<QueryMatch>, String>) -> Result<Option<MatchV>, Seq<char>> {
    match r {
        Ok(Some(x)) => Ok(Some(x@)),
        Ok(None) => Ok(None),
        Err(m) => Err(m@),
    }
}

fn node_match(graph: &ExposureGraph, node: &GraphNode, request: &QueryRequest, deg: usize) -> (r: Result<Option<QueryMatch>, String>)
    requires
        deg == degree(edges_view(graph.edges@), node@.node_id),
    ensures
        step_view(r) == node_step(nodes_view(graph.nodes@), edges_view(graph.edges@), request@, node@),
{
    if !matches_preset(node, request.preset, deg) {
        return Ok(None);
    }
    match &request.expr {
        Some(e) => match matches_expr(graph, node, e, deg) {
            Err(m) => {
                return Err(m);
            },
            Ok(b) => {
                if !b {
                    return Ok(None);
                }
            },
        },
        None => {},
    }
    let explanations = if request.explain {
        match collect_explanations(graph, node, request, deg) {
            Err(m) => {
                return Err(m);
            },
            Ok(v) => v,
        }
    } else {
        let v: Vec<String> = Vec::new();
        assert(strings_view(v@) =~= Seq::<Seq<char>>::empty());
        v
    };
    let m = QueryMatch {
        node_id: node.node_id.clone(),
        label: node.label.clone(),
        kind: node.kind,
        degree: deg,
        attributes: clone_attrs(&node.attributes),
        explanations,
    };
    Ok(Some(m))
}

/// `a` against `b`: -1 below, 0 equal, 1 above.
pub open spec fn ord_int(a: int, b: int) -> int {
    if a < b {
        -1
    } else if a == b {
        0
    } else {
        1
    }
}

/// Texts ordered character by character.
pub open spec fn ord_text(a: Seq<char>, b: Seq<char>) -> int {
    if seq_lt(a, b) {
        -1
    } else if a == b {
        0
    } else {
        1
    }
}

/// The place of a node kind in the order the kinds are declared.
pub open spec fn kind_pos(k: NodeKind) -> int {
    match k {
        NodeKind::Target => 0,
        NodeKind::Subdomain => 1,
        NodeKind::Ip => 2,
        NodeKind::Service => 3,
        NodeKind::Technology => 4,
        NodeKind::Episode => 5,
    }
}

/// Optional times: a missing time comes first.
pub open spec fn ord_time(a: Option<i64>, b: Option<i64>) -> int {
    match (a, b) {
        (None, None) => 0,
        (None, Some(_)) => -1,
        (Some(_), None) => 1,
        (Some(x), Some(y)) => ord_int(x as int, y as int),
    }
}

/// The first or last time seen of the first node with identifier `id`.
pub open spec fn node_time(ns: Seq<NodeV>, id: Seq<char>, first: bool) -> Option<i64> {
    match node_index(ns, id) {
        Some(i) => if first {
            ns[i].first_seen
        } else {
            ns[i].last_seen
        },
        None => None,
    }
}

/// The score of a match: `score`, or failing that `total_score`, read as a
/// number; zero when absent or not a number.
pub open spec fn score_key(a: AttrsV) -> int {
    parsed_or_zero(or_empty(attr_or_fallback(a, "score"@, "total_score"@)))
}

/// The rank of the first of two attributes present; zero when neither is,
/// or its value is off the scale.
pub open spec fn rank_key(a: AttrsV, k1: Seq<char>, k2: Seq<char>, r: Ranker) -> int {
    match attr_or_fallback(a, k1, k2) {
        Some(v) => match rank_of(r, v) {
            Some(n) => n as int,
            None => 0,
        },
        None => 0,
    }
}

/// How two matches compare on the field a query sorts by.
pub open spec fn field_order(ns: Seq<NodeV>, f: SortField, a: MatchV, b: MatchV) -> int {
    match f {
        SortField::Degree => ord_int(a.degree as int, b.degree as int),
        SortField::Label => ord_text(a.label, b.label),
        SortField::Kind => ord_int(kind_pos(a.kind), kind_pos(b.kind)),
        SortField::FirstSeen => ord_time(node_time(ns, a.node_id, true), node_time(ns, b.node_id, true)),
        SortField::LastSeen => ord_time(node_time(ns, a.node_id, false), node_time(ns, b.node_id, false)),
        SortField::Score => ord_int(score_key(a.attributes), score_key(b.attributes)),
        SortField::Severity => ord_int(
            rank_key(a.attributes, "severity"@, "highest_severity"@, Ranker::Severity),
            rank_key(b.attributes, "severity"@, "highest_severity"@, Ranker::Severity),
        ),
        SortField::Criticality => ord_int(
            rank_key(a.attributes, "criticality"@, "highest_criticality"@, Ranker::Criticality),
            rank_key(b.attributes, "criticality"@, "highest_criticality"@, Ranker::Criticality),
        ),
    }
}

/// The default order: higher degree first, then kind, label and identifier.
pub open spec fn tie_order(a: MatchV, b: MatchV) -> int {
    let d = ord_int(b.degree as int, a.degree as int);
    if d != 0 {
        d
    } else {
        let k = ord_int(kind_pos(a.kind), kind_pos(b.kind));
        if k != 0 {
            k
        } else {
            let l = ord_text(a.label, b.label);
            if l != 0 {
                l
            } else {
                ord_text(a.node_id, b.node_id)
            }
        }
    }
}

/// The order of a query's matches: the requested field in the requested
/// direction, ties broken by the default order.
pub open spec fn full_order(ns: Seq<NodeV>, sort: Option<SortSpec>, a: MatchV, b: MatchV) -> int {
    match sort {
        None => tie_order(a, b),
        Some(s) => {
            let p = field_order(ns, s.field, a, b);
            let q = if s.direction == SortDirection::Desc {
                -p
            } else {
                p
            };
            if q != 0 {
                q
            } else {
                tie_order(a, b)
            }
        },
    }
}

pub open spec fn match_order(ns: Seq<NodeV>, sort: Option<SortSpec>) -> spec_fn(MatchV, MatchV) -> bool {
    |a: MatchV, b: MatchV| full_order(ns, sort, a, b) < 0
}

fn ord_usize(a: usize, b: usize) -> (r: i8)
    ensures
        r as int == ord_int(a as int, b as int),
{
    if a < b {
        -1
    } else if a == b {
        0
    } else {
        1
    }
}

fn ord_i64(a: i64, b: i64) -> (r: i8)
    ensures
        r as int == ord_int(a as int, b as int),
{
    if a < b {
        -1
    } else if a == b {
        0
    } else {
        1
    }
}

fn ord_str(a: &str, b: &str) -> (r: i8)
    ensures
        r as int == ord_text(a@, b@),
{
    if str_less(a, b) {
        -1
    } else if crate::text::str_eq(a, b) {
        0
    } else {
        1
    }
}

fn kind_position(k: NodeKind) -> (r: usize)
    ensures
        r as int == kind_pos(k),
{
    match k {
        NodeKind::Target => 0,
        NodeKind::Subdomain => 1,
        NodeKind::Ip => 2,
        NodeKind::Service => 3,
        NodeKind::Technology => 4,
        NodeKind::Episode => 5,
    }
}

fn ord_opt_time(a: Option<i64>, b: Option<i64>) -> (r: i8)
    ensures
        r as int == ord_time(a, b),
{
    match (a, b) {
        (None, None) => 0,
        (None, Some(_)) => -1,
        (Some(_), None) => 1,
        (Some(x), Some(y)) => ord_i64(x, y),
    }
}

/// The position of the first node with identifier `id`.
fn find_node(nodes: &Vec<GraphNode>, id: &str) -> (r: Option<usize>)
    ensures
        r is Some <==> node_index(nodes_view(nodes@), id@) is Some,
        r matches Some(i) ==> node_index(nodes_view(nodes@), id@) == Some(i as int) && i < nodes@.len(),
{
    let ghost ns = nodes_view(nodes@);
    proof {
        lemma_node_index(ns, id@);
    }
    let mut i: usize = 0;
    while i < nodes.len()
        invariant
            i <= nodes@.len(),
            ns == nodes_view(nodes@),
            forall|j: int| 0 <= j < i ==> (#[trigger] ns[j]).node_id != id@,
            node_index(ns, id@) matches Some(m) ==> 0 <= m < ns.len() && ns[m].node_id == id@ && forall|j: int| 0 <= j < m ==> (#[trigger] ns[j]).node_id != id@,
            node_index(ns, id@) is None ==> forall|j: int| 0 <= j < ns.len() ==> (#[trigger] ns[j]).node_id != id@,
        decreases nodes.len() - i,
    {
        assert(ns[i as int].node_id == nodes@[i as int].node_id@);
        if str_eq_s(&nodes[i].node_id, id) {
            return Some(i);
        }
        i = i + 1;
    }
    None
}

fn node_time_of(nodes: &Vec<GraphNode>, id: &str, first: bool) -> (r: Option<i64>)
    ensures
        r == node_time(nodes_view(nodes@), id@, first),
{
    match find_node(nodes, id) {
        Some(i) => {
            assert(nodes_view(nodes@)[i as int] == nodes@[i as int]@);
            if first {
                nodes[i].first_seen
            } else {
                nodes[i].last_seen
            }
        },
        None => None,
    }
}

fn score_of(a: &Vec<(String, String)>) -> (r: usize)
    ensures
        r as int == score_key(attrs_view(a@)),
{
    let t = text_or_empty(attr_value2(a, "score", "total_score"));
    number_or_zero(t.as_str())
}

fn rank_of_attrs(a: &Vec<(String, String)>, k1: &str, k2: &str, r: Ranker) -> (n: usize)
    ensures
        n as int == rank_key(attrs_view(a@), k1@, k2@, r),
{
    match attr_value2(a, k1, k2) {
        Some(v) => match rank(r, v.as_str()) {
            Some(x) => x,
            None => 0,
        },
        None => 0,
    }
}

fn field_order_exec(nodes: &Vec<GraphNode>, f: SortField, a: &QueryMatch, b: &QueryMatch) -> (r: i8)
    ensures
        r as int == field_order(nodes_view(nodes@), f, a@, b@),
        -1 <= r <= 1,
{
    match f {
        SortField::Degree => ord_usize(a.degree, b.degree),
        SortField::Label => ord_str(a.label.as_str(), b.label.as_str()),
        SortField::Kind => ord_usize(kind_position(a.kind), kind_position(b.kind)),
        SortField::FirstSeen => ord_opt_time(
            node_time_of(nodes, a.node_id.as_str(), true),
            node_time_of(nodes, b.node_id.as_str(), true),
        ),
        SortField::LastSeen => ord_opt_time(
            node_time_of(nodes, a.node_id.as_str(), false),
            node_time_of(nodes, b.node_id.as_str(), false),
        ),
        SortField::Score => ord_usize(score_of(&a.attributes), score_of(&b.attributes)),
        SortField::Severity => ord_usize(
            rank_of_attrs(&a.attributes, "severity", "highest_severity", Ranker::Severity),
            rank_of_attrs(&b.attributes, "severity", "highest_severity", Ranker::Severity),
        ),
        SortField::Criticality => ord_usize(
            rank_of_attrs(&a.attributes, "criticality", "highest_criticality", Ranker::Criticality),
            rank_of_attrs(&b.attributes, "criticality", "highest_criticality", Ranker::Criticality),
        ),
    }
}

fn tie_order_exec(a: &QueryMatch, b: &QueryMatch) -> (r: i8)
    ensures
        r as int == tie_order(a@, b@),
{
    let d = ord_usize(b.degree, a.degree);
    if d != 0 {
        return d;
    }
    let k = ord_usize(kind_position(a.kind), kind_position(b.kind));
    if k != 0 {
        return k;
    }
    let l = ord_str(a.label.as_str(), b.label.as_str());
    if l != 0 {
        return l;
    }
    ord_str(a.node_id.as_str(), b.node_id.as_str())
}

fn full_order_exec(nodes: &Vec<GraphNode>, sort: Option<SortSpec>, a: &QueryMatch, b: &QueryMatch) -> (r: i8)
    ensures
        r as int == full_order(nodes_view(nodes@), sort, a@, b@),
{
    match sort {
        None => tie_order_exec(a, b),
        Some(s) => {
            let p = field_order_exec(nodes, s.field, a, b);
            let q: i8 = if s.direction == SortDirection::Desc {
                -p
            } else {
                p
            };
            if q != 0 {
                q
            } else {
                tie_order_exec(a, b)
            }
        },
    }
}

/// `sort_matches`: a stable sort in the order the request asks for, or in
/// the default order when it asks for none.
pub fn sort_matches(nodes: &Vec<GraphNode>, sort: Option<SortSpec>, v: Vec<QueryMatch>) -> (r: Vec<QueryMatch>)
    ensures
        matches_view(r@) == sort_by_lt(matches_view(v@), match_order(nodes_view(nodes@), sort)),
        r@.len() == v@.len(),
{
    let ghost mv = matches_view(v@);
    let ghost ns = nodes_view(nodes@);
    let ghost lt = match_order(ns, sort);
    let mut rest = v;
    let mut out: Vec<QueryMatch> = Vec::new();
    let mut i: usize = 0;
    let n = rest.len();
    assert(mv.take(0) =~= Seq::<MatchV>::empty());
    while rest.len() > 0
        invariant
            n == mv.len(),
            ns == nodes_view(nodes@),
            lt == match_order(ns, sort),
            i + rest@.len() == n,
            out@.len() == i,
            matches_view(rest@) == mv.skip(i as int),
            matches_view(out@) == sort_by_lt(mv.take(i as int), lt),
        decreases rest.len(),
    {
        let ghost old_rest = rest@;
        let x = rest.remove(0);
        assert forall|j: int| 0 <= j < rest@.len() implies #[trigger] matches_view(rest@)[j] == mv.skip(i + 1)[j] by {
            assert(rest@[j] == old_rest[j + 1]);
            assert(matches_view(old_rest)[j + 1] == mv.skip(i as int)[j + 1]);
        }
        assert(mv[i as int] == x@) by {
            assert(mv.skip(i as int)[0] == mv[i as int]);
        }
        let ghost sorted = matches_view(out@);
        let mut k: usize = 0;
        loop
            invariant
                k <= out.len(),
                sorted == matches_view(out@),
                ns == nodes_view(nodes@),
                lt == match_order(ns, sort),
                forall|j: int| 0 <= j < k ==> !lt(x@, #[trigger] sorted[j]),
            ensures
                k <= out.len(),
                forall|j: int| 0 <= j < k ==> !lt(x@, #[trigger] sorted[j]),
                k < out.len() ==> lt(x@, sorted[k as int]),
            decreases out.len() - k,
        {
            if k >= out.len() {
                break;
            }
            assert(sorted[k as int] == out@[k as int]@);
            if full_order_exec(nodes, sort, &x, &out[k]) < 0 {
                break;
            }
            k = k + 1;
        }
        proof {
            lemma_insert_pos_lt_first(sorted, x@, lt, k as int);
            lemma_sort_by_lt_step(mv, i as int, lt);
        }
        out.insert(k, x);
        assert(matches_view(out@) =~= sorted.insert(k as int, x@));
        assert(matches_view(rest@) =~= mv.skip(i + 1));
        i = i + 1;
    }
    assert(mv.take(n as int) =~= mv);
    out
}

fn clone_match(m: &QueryMatch) -> (r: QueryMatch)
    ensures
        r@ == m@,
{
    let mut explanations: Vec<String> = Vec::new();
    let mut i: usize = 0;
    while i < m.explanations.len()
        invariant
            i <= m.explanations@.len(),
            strings_view(explanations@) == strings_view(m.explanations@).take(i as int),
        decreases m.explanations.len() - i,
    {
        let ghost before = explanations@;
        explanations.push(m.explanations[i].clone());
        proof {
            crate::text::lemma_strings_view_push(before, m.explanations@[i as int]);
        }
        assert(strings_view(explanations@) =~= strings_view(m.explanations@).take(i + 1));
        i = i + 1;
    }
    assert(strings_view(m.explanations@).take(m.explanations@.len() as int) =~= strings_view(m.explanations@));
    QueryMatch {
        node_id: m.node_id.clone(),
        label: m.label.clone(),
        kind: m.kind,
        degree: m.degree,
        attributes: clone_attrs(&m.attributes),
        explanations,
    }
}

/// `.skip(offset).take(limit)` on the sorted matches.
pub open spec fn page(s: Seq<MatchV>, offset: int, limit: int) -> Seq<MatchV> {
    let o = if offset < s.len() {
        offset
    } else {
        s.len() as int
    };
    let e = if o + limit < s.len() {
        o + limit
    } else {
        s.len() as int
    };
    s.subrange(o, e)
}

/// The copy of `s[from..to]`.
fn copy_range(s: &Vec<QueryMatch>, from: usize, to: usize) -> (r: Vec<QueryMatch>)
    requires
        from <= to <= s@.len(),
    ensures
        matches_view(r@) == matches_view(s@).subrange(from as int, to as int),
{
    let mut r: Vec<QueryMatch> = Vec::new();
    let mut i: usize = from;
    while i < to
        invariant
            from <= i <= to <= s@.len(),
            matches_view(r@) == matches_view(s@).subrange(from as int, i as int),
        decreases to - i,
    {
        let c = clone_match(&s[i]);
        let ghost before = r@;
        r.push(c);
        assert(matches_view(r@) =~= matches_view(before).push(s@[i as int]@));
        assert(matches_view(s@)[i as int] == s@[i as int]@);
        assert(matches_view(r@) =~= matches_view(s@).subrange(from as int, i + 1));
        i = i + 1;
    }
    r
}

/// What a query returns when no node raised an error: the page of the
/// sorted matches `all` that the request's offset and limit select.
pub open spec fn query_result_is(res: QueryResult, target: Seq<char>, req: RequestV, all: Seq<MatchV>) -> bool {
    let total = all.len();
    let offset = if req.offset < total {
        req.offset as int
    } else {
        total as int
    };
    let shown = page(all, req.offset as int, req.limit as int);
    &&& res.target@ == target
    &&& res.raw_query@ == req.raw
    &&& matches_view(res.matched_nodes@) == shown
    &&& res.summary@ == summary_of(shown, total as usize)
    &&& res.limit == req.limit
    &&& res.offset == offset
    &&& res.sort == req.sort
    &&& res.explain == req.explain
}

/// `execute_query`: the nodes that pass the request's preset and expression,
/// each with its degree (and explanations when asked), sorted, then paged.
/// The first error a clause raises on any node is the result instead.
pub fn execute_query(graph: &ExposureGraph, request: &QueryRequest) -> (r: Result<QueryResult, String>)
    requires
        graph.edges@.len() <= usize::MAX / 2,
    ensures
        r is Ok <==> selected(nodes_view(graph.nodes@), edges_view(graph.edges@), request@, graph.nodes@.len() as int) is Ok,
        r matches Err(m) ==> selected(nodes_view(graph.nodes@), edges_view(graph.edges@), request@, graph.nodes@.len() as int) == Err::<Seq<MatchV>, Seq<char>>(m@),
        r matches Ok(res) ==> query_result_is(
            res,
            graph.target@,
            request@,
            sort_by_lt(
                selected(nodes_view(graph.nodes@), edges_view(graph.edges@), request@, graph.nodes@.len() as int)->Ok_0,
                match_order(nodes_view(graph.nodes@), request@.sort),
            ),
        ),
{
    let ghost ns = nodes_view(graph.nodes@);
    let ghost es = edges_view(graph.edges@);
    let mut all: Vec<QueryMatch> = Vec::new();
    assert(matches_view(all@) =~= Seq::<MatchV>::empty());
    let mut i: usize = 0;
    while i < graph.nodes.len()
        invariant
            i <= graph.nodes@.len(),
            ns == nodes_view(graph.nodes@),
            es == edges_view(graph.edges@),
            graph.edges@.len() <= usize::MAX / 2,
            selected(ns, es, request@, i as int) == Ok::<Seq<MatchV>, Seq<char>>(matches_view(all@)),
        decreases graph.nodes.len() - i,
    {
        let node = &graph.nodes[i];
        assert(ns[i as int] == node@);
        let deg = edge_degree(&graph.edges, node.node_id.as_str());
        match node_match(graph, node, request, deg) {
            Err(m) => {
                proof {
                    lemma_selected_err(ns, es, request@, i + 1, graph.nodes@.len() as int);
                }
                return Err(m);
            },
            Ok(None) => {},
            Ok(Some(x)) => {
                let ghost before = all@;
                all.push(x);
                assert(matches_view(all@) =~= matches_view(before).push(x@));
            },
        }
        i = i + 1;
    }
    let sorted = sort_matches(&graph.nodes, request.sort, all);
    let total = sorted.len();
    let offset = if request.offset < total {
        request.offset
    } else {
        total
    };
    let end = if request.limit < total - offset {
        offset + request.limit
    } else {
        total
    };
    let shown = copy_range(&sorted, offset, end);
    let summary = summarize_matches(&shown, total);
    Ok(
        QueryResult {
            target: graph.target.clone(),
            raw_query: request.raw.clone(),
            matched_nodes: shown,
            summary,
            limit: request.limit,
            offset,
            sort: request.sort,
            explain: request.explain,
        },
    )
}

/// The filters of a graph search.
#[derive(Debug, Clone)]
pub struct GraphSearchRequest {
    pub kind: Option<NodeKind>,
    pub label_contains: Option<String>,
    pub min_degree: Option<usize>,
    pub limit: usize,
}

/// Whether a node of degree `deg` passes every filter the search sets.
pub open spec fn search_ok(n: NodeV, deg: int, req: GraphSearchRequest) -> bool {
    &&& (req.kind matches Some(k) ==> n.kind == k)
    &&& (opt_view(req.label_contains) matches Some(l) ==> contains(lower(n.label), lower(l)))
    &&& (req.min_degree matches Some(m) ==> deg >= m)
}

/// The matches of the first `k` nodes that pass a search, in node order.
pub open spec fn search_hits(ns: Seq<NodeV>, es: Seq<EdgeV>, req: GraphSearchRequest, k: int) -> Seq<MatchV>
    decreases k,
{
    if k <= 0 {
        Seq::empty()
    } else {
        let acc = search_hits(ns, es, req, k - 1);
        let n = ns[k - 1];
        let d = degree(es, n.node_id) as int;
        if search_ok(n, d, req) {
            acc.push(match_of(n, d, Seq::empty()))
        } else {
            acc
        }
    }
}

/// `graph_search`: the nodes that pass the filters, in the default order,
/// at most `limit` of them.
pub fn graph_search(graph: &ExposureGraph, request: &GraphSearchRequest) -> (r: QueryResult)
    requires
        graph.edges@.len() <= usize::MAX / 2,
    ensures
        ({
            let all = sort_by_lt(
                search_hits(nodes_view(graph.nodes@), edges_view(graph.edges@), *request, graph.nodes@.len() as int),
                match_order(nodes_view(graph.nodes@), None),
            );
            let kept = if all.len() > request.limit {
                all.take(request.limit as int)
            } else {
                all
            };
            &&& r.target@ == graph.target@
            &&& r.raw_query@ == "graph-search"@
            &&& matches_view(r.matched_nodes@) == kept
            &&& r.summary@ == summary_of(kept, kept.len() as usize)
            &&& r.limit == request.limit
            &&& r.offset == 0
            &&& r.sort is None
            &&& !r.explain
        }),
{
    let ghost ns = nodes_view(graph.nodes@);
    let ghost es = edges_view(graph.edges@);
    let mut hits: Vec<QueryMatch> = Vec::new();
    let needle: Option<Vec<char>> = match &request.label_contains {
        Some(l) => Some(lower_chars(l.as_str())),
        None => None,
    };
    let mut i: usize = 0;
    while i < graph.nodes.len()
        invariant
            i <= graph.nodes@.len(),
            ns == nodes_view(graph.nodes@),
            es == edges_view(graph.edges@),
            graph.edges@.len() <= usize::MAX / 2,
            needle is Some <==> request.label_contains is Some,
            needle matches Some(v) ==> v@ == lower(request.label_contains->Some_0@),
            matches_view(hits@) == search_hits(ns, es, *request, i as int),
        decreases graph.nodes.len() - i,
    {
        let node = &graph.nodes[i];
        assert(ns[i as int] == node@);
        let deg = edge_degree(&graph.edges, node.node_id.as_str());
        let kind_ok = match request.kind {
            Some(k) => node.kind == k,
            None => true,
        };
        let label_ok = match &needle {
            Some(v) => {
                let l = lower_chars(node.label.as_str());
                contains_vec(&l, v)
            },
            None => true,
        };
        let degree_ok = match request.min_degree {
            Some(m) => deg >= m,
            None => true,
        };
        if kind_ok && label_ok && degree_ok {
            let explanations: Vec<String> = Vec::new();
            assert(strings_view(explanations@) =~= Seq::<Seq<char>>::empty());
            let m = QueryMatch {
                node_id: node.node_id.clone(),
                label: node.label.clone(),
                kind: node.kind,
                degree: deg,
                attributes: clone_attrs(&node.attributes),
                explanations,
            };
            let ghost before = hits@;
            hits.push(m);
            assert(matches_view(hits@) =~= matches_view(before).push(m@));
        }
        i = i + 1;
    }
    let sorted = sort_matches(&graph.nodes, None, hits);
    let end = if request.limit < sorted.len() {
        request.limit
    } else {
        sorted.len()
    };
    let kept = copy_range(&sorted, 0, end);
    proof {
        let all = matches_view(sorted@);
        if all.len() > request.limit {
            assert(all.subrange(0, end as int) =~= all.take(request.limit as int));
        } else {
            assert(all.subrange(0, end as int) =~= all);
        }
    }
    let summary = summarize_matches(&kept, kept.len());
    QueryResult {
        target: graph.target.clone(),
        raw_query: owned("graph-search"),
        matched_nodes: kept,
        summary,
        limit: request.limit,
        offset: 0,
        sort: None,
        explain: false,
    }
}

/// Counts, statistics and topology of a graph.
#[derive(Debug, Clone)]
pub struct GraphStatsReport {
    pub target: String,
    pub generated_at: i64,
    pub node_count: usize,
    pub edge_count: usize,
    pub stats: GraphStats,
    pub topology: GraphTopologySummary,
}

fn clone_topology(t: &GraphTopologySummary) -> (r: GraphTopologySummary)
    ensures
        r@ == t@,
{
    let mut ranked: Vec<RankedGraphNode> = Vec::new();
    let mut i: usize = 0;
    while i < t.highest_degree_nodes.len()
        invariant
            i <= t.highest_degree_nodes@.len(),
            ranked_view(ranked@) == ranked_view(t.highest_degree_nodes@).take(i as int),
        decreases t.highest_degree_nodes.len() - i,
    {
        let n = &t.highest_degree_nodes[i];
        let c = RankedGraphNode {
            node_id: n.node_id.clone(),
            label: n.label.clone(),
            kind: n.kind,
            degree: n.degree,
        };
        let ghost before = ranked@;
        ranked.push(c);
        assert(ranked_view(ranked@) =~= ranked_view(before).push(n@));
        assert(ranked_view(t.highest_degree_nodes@)[i as int] == n@);
        assert(ranked_view(ranked@) =~= ranked_view(t.highest_degree_nodes@).take(i + 1));
        i = i + 1;
    }
    assert(ranked_view(t.highest_degree_nodes@).take(t.highest_degree_nodes@.len() as int) =~= ranked_view(t.highest_degree_nodes@));
    GraphTopologySummary {
        connected_nodes: t.connected_nodes,
        isolated_nodes: t.isolated_nodes,
        max_degree: t.max_degree,
        highest_degree_nodes: ranked,
    }
}

/// `build_graph_stats_report`: the graph's own counts, statistics and topology.
pub fn build_graph_stats_report(graph: &ExposureGraph) -> (r: GraphStatsReport)
    ensures
        r.target@ == graph.target@,
        r.generated_at == graph.generated_at,
        r.node_count == graph.node_count,
        r.edge_count == graph.edge_count,
        r.stats == graph.stats,
        r.topology@ == graph.topology@,
{
    GraphStatsReport {
        target: graph.target.clone(),
        generated_at: graph.generated_at,
        node_count: graph.node_count,
        edge_count: graph.edge_count,
        stats: graph.stats,
        topology: clone_topology(&graph.topology),
    }
}

} // verus!

verus! {

/// A page never holds more than `limit` matches, nor more than there are.
pub proof fn law_page_within_limit(s: Seq<MatchV>, offset: int, limit: int)
    requires
        0 <= offset,
        0 <= limit,
    ensures
        page(s, offset, limit).len() <= limit,
        page(s, offset, limit).len() <= s.len(),
{
}

/// Paging in steps of `limit` visits every match once and in order: the
/// page at `offset` followed by the page after it is the page of twice the
/// size at `offset`.
pub proof fn law_pages_follow_each_other(s: Seq<MatchV>, offset: int, limit: int)
    requires
        0 <= offset,
        0 <= limit,
    ensures
        page(s, offset, limit) + page(s, offset + limit, limit) == page(s, offset, 2 * limit),
{
    let n = s.len() as int;
    let o1 = if offset < n { offset } else { n };
    let e1 = if o1 + limit < n { o1 + limit } else { n };
    let e2 = if o1 + 2 * limit < n { o1 + 2 * limit } else { n };
    assert(s.subrange(o1, e1) + s.subrange(e1, e2) =~= s.subrange(o1, e2));
}

} // verus!

verus! {

/// The result of `NOT` applied to a result.
pub open spec fn negated(r: Result<bool, Seq<char>>) -> Result<bool, Seq<char>> {
    match r {
        Ok(b) => Ok(!b),
        Err(m) => Err(m),
    }
}

/// Each expression of `items` under `NOT`.
pub open spec fn negate_all(items: Seq<ExprV>) -> Seq<ExprV> {
    Seq::new(items.len(), |i: int| ExprV::Not(Box::new(items[i])))
}

/// A double `NOT` changes nothing: a node matches `NOT NOT e` exactly when
/// it matches `e`, and fails with the same error.
pub proof fn law_double_negation(ns: Seq<NodeV>, es: Seq<EdgeV>, n: NodeV, e: ExprV)
    ensures
        expr_result(ns, es, n, ExprV::Not(Box::new(ExprV::Not(Box::new(e))))) == expr_result(ns, es, n, e),
{
    let once = ExprV::Not(Box::new(e));
    assert(expr_result(ns, es, n, once) == negated(expr_result(ns, es, n, e)));
    assert(expr_result(ns, es, n, ExprV::Not(Box::new(once))) == negated(expr_result(ns, es, n, once)));
}

proof fn lemma_de_morgan_from(ns: Seq<NodeV>, es: Seq<EdgeV>, n: NodeV, items: Seq<ExprV>, i: int)
    requires
        0 <= i <= items.len(),
    ensures
        negated(all_from(ns, es, n, items, i)) == any_from(ns, es, n, negate_all(items), i),
        negated(any_from(ns, es, n, items, i)) == all_from(ns, es, n, negate_all(items), i),
    decreases items.len() - i,
{
    let nots = negate_all(items);
    if i < items.len() {
        lemma_de_morgan_from(ns, es, n, items, i + 1);
        assert(nots[i] == ExprV::Not(Box::new(items[i])));
        assert(expr_result(ns, es, n, nots[i]) == negated(expr_result(ns, es, n, items[i])));
    }
}

/// De Morgan's laws hold for queries, errors included: `NOT (a AND b ...)`
/// gives what `NOT a OR NOT b ...` gives, and `NOT (a OR b ...)` what
/// `NOT a AND NOT b ...` gives.
pub proof fn law_de_morgan(ns: Seq<NodeV>, es: Seq<EdgeV>, n: NodeV, items: Seq<ExprV>)
    ensures
        expr_result(ns, es, n, ExprV::Not(Box::new(ExprV::And(items)))) == expr_result(
            ns,
            es,
            n,
            ExprV::Or(negate_all(items)),
        ),
        expr_result(ns, es, n, ExprV::Not(Box::new(ExprV::Or(items)))) == expr_result(
            ns,
            es,
            n,
            ExprV::And(negate_all(items)),
        ),
{
    lemma_de_morgan_from(ns, es, n, items, 0);
    assert(expr_result(ns, es, n, ExprV::And(items)) == all_from(ns, es, n, items, 0));
    assert(expr_result(ns, es, n, ExprV::Or(items)) == any_from(ns, es, n, items, 0));
    assert(expr_result(ns, es, n, ExprV::Not(Box::new(ExprV::And(items)))) == negated(
        expr_result(ns, es, n, ExprV::And(items)),
    ));
    assert(expr_result(ns, es, n, ExprV::Not(Box::new(ExprV::Or(items)))) == negated(
        expr_result(ns, es, n, ExprV::Or(items)),
    ));
    assert(expr_result(ns, es, n, ExprV::Or(negate_all(items))) == any_from(ns, es, n, negate_all(items), 0));
    assert(expr_result(ns, es, n, ExprV::And(negate_all(items))) == all_from(ns, es, n, negate_all(items), 0));
}

} // verus!

verus! {

/// The node kind a preset names, if it names one.
pub open spec fn kind_of_preset(p: QueryPreset) -> Option<NodeKind> {
    match p {
        QueryPreset::Services => Some(NodeKind::Service),
        QueryPreset::Technologies => Some(NodeKind::Technology),
        QueryPreset::Episodes => Some(NodeKind::Episode),
        QueryPreset::Subdomains => Some(NodeKind::Subdomain),
        QueryPreset::Targets => Some(NodeKind::Target),
        QueryPreset::Ips => Some(NodeKind::Ip),
        QueryPreset::HighDegree => None,
    }
}

/// Each preset that names a kind passes exactly the nodes of that kind; the
/// high-degree preset passes the nodes with three or more edge ends; without
/// a preset every node passes.
pub proof fn law_presets_select_their_kind(n: NodeV, deg: int)
    ensures
        forall|p: QueryPreset|
            #![trigger preset_ok(n, Some(p), deg)]
            kind_of_preset(p) is Some ==> (preset_ok(n, Some(p), deg) <==> n.kind == kind_of_preset(p)->Some_0),
        preset_ok(n, Some(QueryPreset::Technologies), deg) <==> n.kind == NodeKind::Technology,
        preset_ok(n, Some(QueryPreset::Services), deg) <==> n.kind == NodeKind::Service,
        preset_ok(n, Some(QueryPreset::HighDegree), deg) <==> deg >= 3,
        preset_ok(n, None, deg),
{
}

/// Every match of a query passes its preset: under a preset that names a
/// kind, every match is of that kind.
pub proof fn law_selected_matches_pass_preset(ns: Seq<NodeV>, es: Seq<EdgeV>, req: RequestV, k: int)
    requires
        0 <= k <= ns.len(),
        selected(ns, es, req, k) is Ok,
    ensures
        forall|j: int|
            #![trigger selected(ns, es, req, k)->Ok_0[j]]
            0 <= j < selected(ns, es, req, k)->Ok_0.len() ==> {
                let m = selected(ns, es, req, k)->Ok_0[j];
                &&& (req.preset matches Some(p) && kind_of_preset(p) is Some) ==> m.kind == kind_of_preset(
                    req.preset->Some_0,
                )->Some_0
            },
    decreases k,
{
    if k > 0 {
        law_selected_matches_pass_preset(ns, es, req, k - 1);
        let n = ns[k - 1];
        let deg = degree(es, n.node_id) as int;
        law_presets_select_their_kind(n, deg);
        let acc = selected(ns, es, req, k - 1)->Ok_0;
        let all = selected(ns, es, req, k)->Ok_0;
        assert forall|j: int| #![trigger all[j]] 0 <= j < all.len() implies {
            let m = all[j];
            &&& (req.preset matches Some(p) && kind_of_preset(p) is Some) ==> m.kind == kind_of_preset(
                req.preset->Some_0,
            )->Some_0
        } by {
            if j < acc.len() {
                assert(all[j] == acc[j]);
            } else {
                let st = node_step(ns, es, req, n);
                assert(st matches Ok(Some(x)) && all == acc.push(x));
                let x = st->Ok_0->Some_0;
                assert(all[j] == x);
                assert(preset_ok(n, req.preset, deg));
                assert(x.kind == n.kind);
                if req.preset is Some {
                    assert(preset_ok(n, Some(req.preset->Some_0), deg));
                }
            }
        }
    }
}

/// Every node a query returns passes its preset: under a preset that names a
/// kind, every returned node is of that kind.
pub proof fn law_query_results_pass_preset(res: QueryResult, target: Seq<char>, req: RequestV, ns: Seq<NodeV>, es: Seq<EdgeV>)
    requires
        selected(ns, es, req, ns.len() as int) is Ok,
        query_result_is(
            res,
            target,
            req,
            sort_by_lt(selected(ns, es, req, ns.len() as int)->Ok_0, match_order(ns, req.sort)),
        ),
    ensures
        forall|j: int|
            #![trigger matches_view(res.matched_nodes@)[j]]
            0 <= j < res.matched_nodes@.len() ==> ((req.preset matches Some(p) && kind_of_preset(p) is Some)
                ==> matches_view(res.matched_nodes@)[j].kind == kind_of_preset(req.preset->Some_0)->Some_0),
{
    let sel = selected(ns, es, req, ns.len() as int)->Ok_0;
    let sorted = sort_by_lt(sel, match_order(ns, req.sort));
    law_selected_matches_pass_preset(ns, es, req, ns.len() as int);
    crate::order::lemma_sort_by_lt_contains(sel, match_order(ns, req.sort));
    let shown = page(sorted, req.offset as int, req.limit as int);
    assert forall|j: int|
        #![trigger matches_view(res.matched_nodes@)[j]]
        0 <= j < res.matched_nodes@.len() implies ((req.preset matches Some(p) && kind_of_preset(p) is Some)
            ==> matches_view(res.matched_nodes@)[j].kind == kind_of_preset(req.preset->Some_0)->Some_0) by {
        assert(matches_view(res.matched_nodes@).len() == res.matched_nodes@.len());
        let o = if (req.offset as int) < sorted.len() { req.offset as int } else { sorted.len() as int };
        let e = if o + req.limit < sorted.len() { o + req.limit } else { sorted.len() as int };
        assert(shown == sorted.subrange(o, e));
        assert(matches_view(res.matched_nodes@) == shown);
        assert(0 <= o + j < e);
        assert(shown[j] == sorted[o + j]);
        let x = sorted[o + j];
        assert(sorted.contains(x));
        assert(sel.contains(x));
        let i = choose|i: int| 0 <= i < sel.len() && sel[i] == x;
        assert(sel[i] == x);
    }
}

} // verus!
