//! The exposure graph: targets, subdomains, addresses, services,
//! technologies and episodes, the edges between them, and their statistics.
//! Node and edge identifiers are digests of their kind and name, so adding
//! the same node twice merges it.
use vstd::prelude::*;
use crate::common::HttpService;
use crate::diff::Snapshot;
use crate::drift::AssetType;
use crate::text::decimal;
use crate::ids::{digest_id, stable_hash};
use crate::ip::{ip_literal, is_ip_literal};
use crate::order::{
    insert_pos_lt, lemma_insert_pos_lt_first, lemma_lt_irreflexive, lemma_lt_transitive,
    lemma_sort_by_lt, lemma_sort_by_lt_distinct, lemma_sort_by_lt_sorted, lemma_sort_by_lt_step,
    seq_lt, sort_by_lt, sorted_by, str_less, strict_order,
};
use crate::text::{
    chars_of, contains, contains_lit, owned, push_str, starts_with, starts_with_lit, str_eq,
};

verus! {

#[derive(Debug, Clone, Copy, PartialEq, Eq, Structural)]
pub enum NodeKind {
    Target,
    Subdomain,
    Ip,
    Service,
    Technology,
    Episode,
}

#[derive(Debug, Clone, Copy, PartialEq, Eq, Structural)]
pub enum EdgeKind {
    Contains,
    ResolvesTo,
    Exposes,
    FingerprintsAs,
    ParticipatesIn,
    BelongsTo,
}

pub open spec fn node_kind_name(k: NodeKind) -> Seq<char> {
    match k {
        NodeKind::Target => "Target"@,
        NodeKind::Subdomain => "Subdomain"@,
        NodeKind::Ip => "Ip"@,
        NodeKind::Service => "Service"@,
        NodeKind::Technology => "Technology"@,
        NodeKind::Episode => "Episode"@,
    }
}

pub open spec fn edge_kind_name(k: EdgeKind) -> Seq<char> {
    match k {
        EdgeKind::Contains => "contains"@,
        EdgeKind::ResolvesTo => "resolves_to"@,
        EdgeKind::Exposes => "exposes"@,
        EdgeKind::FingerprintsAs => "fingerprints_as"@,
        EdgeKind::ParticipatesIn => "participates_in"@,
        EdgeKind::BelongsTo => "belongs_to"@,
    }
}

/// The node kind named exactly `s`.
pub open spec fn node_kind_of(s: Seq<char>) -> Option<NodeKind> {
    if s == "Target"@ {
        Some(NodeKind::Target)
    } else if s == "Subdomain"@ {
        Some(NodeKind::Subdomain)
    } else if s == "Ip"@ {
        Some(NodeKind::Ip)
    } else if s == "Service"@ {
        Some(NodeKind::Service)
    } else if s == "Technology"@ {
        Some(NodeKind::Technology)
    } else if s == "Episode"@ {
        Some(NodeKind::Episode)
    } else {
        None
    }
}

/// The edge kind named exactly `s`.
pub open spec fn edge_kind_of(s: Seq<char>) -> Option<EdgeKind> {
    if s == "contains"@ {
        Some(EdgeKind::Contains)
    } else if s == "resolves_to"@ {
        Some(EdgeKind::ResolvesTo)
    } else if s == "exposes"@ {
        Some(EdgeKind::Exposes)
    } else if s == "fingerprints_as"@ {
        Some(EdgeKind::FingerprintsAs)
    } else if s == "participates_in"@ {
        Some(EdgeKind::ParticipatesIn)
    } else if s == "belongs_to"@ {
        Some(EdgeKind::BelongsTo)
    } else {
        None
    }
}

impl NodeKind {
    pub fn as_str(&self) -> (r: &'static str)
        ensures
            r@ == node_kind_name(*self),
    {
        match self {
            NodeKind::Target => "Target",
            NodeKind::Subdomain => "Subdomain",
            NodeKind::Ip => "Ip",
            NodeKind::Service => "Service",
            NodeKind::Technology => "Technology",
            NodeKind::Episode => "Episode",
        }
    }

    pub fn to_string(&self) -> (r: String)
        ensures
            r@ == node_kind_name(*self),
    {
        owned(self.as_str())
    }

    /// Parses the exact name of a node kind.
    pub fn from_str(input: &str) -> (r: Result<NodeKind, String>)
        ensures
            r is Ok <==> node_kind_of(input@) is Some,
            r matches Ok(k) ==> node_kind_of(input@) == Some(k),
            r matches Err(e) ==> e@ == "node kind no soportado: "@ + input@,
    {
        if str_eq(input, "Target") {
            Ok(NodeKind::Target)
        } else if str_eq(input, "Subdomain") {
            Ok(NodeKind::Subdomain)
        } else if str_eq(input, "Ip") {
            Ok(NodeKind::Ip)
        } else if str_eq(input, "Service") {
            Ok(NodeKind::Service)
        } else if str_eq(input, "Technology") {
            Ok(NodeKind::Technology)
        } else if str_eq(input, "Episode") {
            Ok(NodeKind::Episode)
        } else {
            let mut e = owned("node kind no soportado: ");
            push_str(&mut e, input);
            Err(e)
        }
    }
}

impl EdgeKind {
    pub fn as_str(&self) -> (r: &'static str)
        ensures
            r@ == edge_kind_name(*self),
    {
        match self {
            EdgeKind::Contains => "contains",
            EdgeKind::ResolvesTo => "resolves_to",
            EdgeKind::Exposes => "exposes",
            EdgeKind::FingerprintsAs => "fingerprints_as",
            EdgeKind::ParticipatesIn => "participates_in",
            EdgeKind::BelongsTo => "belongs_to",
        }
    }

    pub fn to_string(&self) -> (r: String)
        ensures
            r@ == edge_kind_name(*self),
    {
        owned(self.as_str())
    }

    /// Parses the exact name of an edge kind.
    pub fn from_str(input: &str) -> (r: Result<EdgeKind, String>)
        ensures
            r is Ok <==> edge_kind_of(input@) is Some,
            r matches Ok(k) ==> edge_kind_of(input@) == Some(k),
            r matches Err(e) ==> e@ == "edge kind no soportado: "@ + input@,
    {
        if str_eq(input, "contains") {
            Ok(EdgeKind::Contains)
        } else if str_eq(input, "resolves_to") {
            Ok(EdgeKind::ResolvesTo)
        } else if str_eq(input, "exposes") {
            Ok(EdgeKind::Exposes)
        } else if str_eq(input, "fingerprints_as") {
            Ok(EdgeKind::FingerprintsAs)
        } else if str_eq(input, "participates_in") {
            Ok(EdgeKind::ParticipatesIn)
        } else if str_eq(input, "belongs_to") {
            Ok(EdgeKind::BelongsTo)
        } else {
            let mut e = owned("edge kind no soportado: ");
            push_str(&mut e, input);
            Err(e)
        }
    }
}

/// The kind of node a resource names: an address, a URL, a host, or the target.
pub open spec fn node_kind_of_resource(resource: Seq<char>) -> NodeKind {
    if ip_literal(resource) {
        NodeKind::Ip
    } else if starts_with(resource, "http://"@) || starts_with(resource, "https://"@) {
        NodeKind::Service
    } else if contains(resource, "."@) {
        NodeKind::Subdomain
    } else {
        NodeKind::Target
    }
}

pub fn infer_node_kind_from_resource(resource: &str) -> (k: NodeKind)
    ensures
        k == node_kind_of_resource(resource@),
{
    let v = chars_of(resource);
    if is_ip_literal(&v) {
        NodeKind::Ip
    } else if starts_with_lit(&v, "http://") || starts_with_lit(&v, "https://") {
        NodeKind::Service
    } else if contains_lit(&v, ".") {
        NodeKind::Subdomain
    } else {
        NodeKind::Target
    }
}

/// The node kind of an asset type; an unknown asset is judged by its name.
pub fn infer_node_kind_from_asset_type(asset_type: &AssetType, resource: &str) -> (k: NodeKind)
    ensures
        k == match *asset_type {
            AssetType::Ip => NodeKind::Ip,
            AssetType::Subdomain => NodeKind::Subdomain,
            AssetType::Service => NodeKind::Service,
            AssetType::Unknown => node_kind_of_resource(resource@),
        },
{
    match asset_type {
        AssetType::Ip => NodeKind::Ip,
        AssetType::Subdomain => NodeKind::Subdomain,
        AssetType::Service => NodeKind::Service,
        AssetType::Unknown => infer_node_kind_from_resource(resource),
    }
}

/// The identifier of the node of `kind` named `raw`.
pub open spec fn node_id_of(kind: NodeKind, raw: Seq<char>) -> Seq<char> {
    digest_id("node|"@ + node_kind_name(kind) + "|"@ + raw)
}

/// The identifier of the edge of `kind` from `from` to `to`.
pub open spec fn edge_id_of(from: Seq<char>, to: Seq<char>, kind: EdgeKind) -> Seq<char> {
    digest_id("edge|"@ + from + "|"@ + to + "|"@ + edge_kind_name(kind))
}

pub fn stable_node_id(kind: &NodeKind, raw: &str) -> (r: String)
    ensures
        r@ == node_id_of(*kind, raw@),
{
    let mut s = owned("node|");
    push_str(&mut s, kind.as_str());
    push_str(&mut s, "|");
    push_str(&mut s, raw);
    stable_hash(s.as_str())
}

pub fn stable_edge_id(from: &str, to: &str, kind: &EdgeKind) -> (r: String)
    ensures
        r@ == edge_id_of(from@, to@, *kind),
{
    let mut s = owned("edge|");
    push_str(&mut s, from);
    push_str(&mut s, "|");
    push_str(&mut s, to);
    push_str(&mut s, "|");
    push_str(&mut s, kind.as_str());
    stable_hash(s.as_str())
}

/// A node of the graph. Its attributes are key/value pairs with distinct keys.
#[derive(Debug, Clone)]
pub struct GraphNode {
    pub node_id: String,
    pub kind: NodeKind,
    pub label: String,
    pub target: String,
    pub first_seen: Option<i64>,
    pub last_seen: Option<i64>,
    pub attributes: Vec<(String, String)>,
}

/// An edge of the graph. Its attributes are key/value pairs with distinct keys.
#[derive(Debug, Clone)]
pub struct GraphEdge {
    pub edge_id: String,
    pub from: String,
    pub to: String,
    pub kind: EdgeKind,
    pub target: String,
    pub weight: u32,
    pub first_seen: Option<i64>,
    pub last_seen: Option<i64>,
    pub attributes: Vec<(String, String)>,
}

pub type AttrsV = Seq<(Seq<char>, Seq<char>)>;

pub open spec fn attrs_view(v: Seq<(String, String)>) -> Seq<(Seq<char>, Seq<char>)> {
    Seq::new(v.len(), |i: int| (v[i].0@, v[i].1@))
}

pub struct NodeV {
    pub node_id: Seq<char>,
    pub kind: NodeKind,
    pub label: Seq<char>,
    pub target: Seq<char>,
    pub first_seen: Option<i64>,
    pub last_seen: Option<i64>,
    pub attributes: Seq<(Seq<char>, Seq<char>)>,
}

pub struct EdgeV {
    pub edge_id: Seq<char>,
    pub from: Seq<char>,
    pub to: Seq<char>,
    pub kind: EdgeKind,
    pub target: Seq<char>,
    pub weight: u32,
    pub first_seen: Option<i64>,
    pub last_seen: Option<i64>,
    pub attributes: Seq<(Seq<char>, Seq<char>)>,
}

impl View for GraphNode {
    type V = NodeV;

    open spec fn view(&self) -> NodeV {
        NodeV {
            node_id: self.node_id@,
            kind: self.kind,
            label: self.label@,
            target: self.target@,
            first_seen: self.first_seen,
            last_seen: self.last_seen,
            attributes: attrs_view(self.attributes@),
        }
    }
}

impl View for GraphEdge {
    type V = EdgeV;

    open spec fn view(&self) -> EdgeV {
        EdgeV {
            edge_id: self.edge_id@,
            from: self.from@,
            to: self.to@,
            kind: self.kind,
            target: self.target@,
            weight: self.weight,
            first_seen: self.first_seen,
            last_seen: self.last_seen,
            attributes: attrs_view(self.attributes@),
        }
    }
}

pub open spec fn nodes_view(v: Seq<GraphNode>) -> Seq<NodeV> {
    Seq::new(v.len(), |i: int| v[i]@)
}

pub open spec fn edges_view(v: Seq<GraphEdge>) -> Seq<EdgeV> {
    Seq::new(v.len(), |i: int| v[i]@)
}

/// The earlier of two optional times.
pub open spec fn min_time(a: Option<i64>, b: Option<i64>) -> Option<i64> {
    match (a, b) {
        (Some(x), Some(y)) => Some(if x <= y { x } else { y }),
        (Some(x), None) => Some(x),
        (None, Some(y)) => Some(y),
        (None, None) => None,
    }
}

/// The later of two optional times.
pub open spec fn max_time(a: Option<i64>, b: Option<i64>) -> Option<i64> {
    match (a, b) {
        (Some(x), Some(y)) => Some(if x >= y { x } else { y }),
        (Some(x), None) => Some(x),
        (None, Some(y)) => Some(y),
        (None, None) => None,
    }
}

pub fn min_datetime(a: Option<i64>, b: Option<i64>) -> (r: Option<i64>)
    ensures
        r == min_time(a, b),
{
    match (a, b) {
        (Some(x), Some(y)) => Some(if x <= y { x } else { y }),
        (Some(x), None) => Some(x),
        (None, Some(y)) => Some(y),
        (None, None) => None,
    }
}

pub fn max_datetime(a: Option<i64>, b: Option<i64>) -> (r: Option<i64>)
    ensures
        r == max_time(a, b),
{
    match (a, b) {
        (Some(x), Some(y)) => Some(if x >= y { x } else { y }),
        (Some(x), None) => Some(x),
        (None, Some(y)) => Some(y),
        (None, None) => None,
    }
}

/// The index of the first pair with key `k`.
pub open spec fn key_index(a: AttrsV, k: Seq<char>) -> Option<int>
    decreases a.len(),
{
    if a.len() == 0 {
        None
    } else {
        match key_index(a.drop_last(), k) {
            Some(i) => Some(i),
            None => if a.last().0 == k {
                Some(a.len() - 1)
            } else {
                None
            },
        }
    }
}

/// `BTreeMap::insert`: the value of `k` set to `v`.
pub open spec fn attr_set(a: AttrsV, k: Seq<char>, v: Seq<char>) -> AttrsV {
    match key_index(a, k) {
        Some(i) => a.update(i, (k, v)),
        None => a.push((k, v)),
    }
}

/// `entry(k).or_insert(v)` for each pair of `b`: keys already present keep
/// their value.
pub open spec fn attr_merge(a: AttrsV, b: AttrsV) -> AttrsV
    decreases b.len(),
{
    if b.len() == 0 {
        a
    } else {
        let m = attr_merge(a, b.drop_last());
        if key_index(m, b.last().0) is Some {
            m
        } else {
            m.push(b.last())
        }
    }
}

pub(crate) proof fn lemma_key_index(a: AttrsV, k: Seq<char>)
    ensures
        key_index(a, k) matches Some(i) ==> 0 <= i < a.len() && a[i].0 == k && forall|j: int| 0 <= j < i ==> (#[trigger] a[j]).0 != k,
        key_index(a, k) is None ==> forall|j: int| 0 <= j < a.len() ==> (#[trigger] a[j]).0 != k,
    decreases a.len(),
{
    if a.len() > 0 {
        lemma_key_index(a.drop_last(), k);
        assert forall|j: int| 0 <= j < a.len() - 1 implies a.drop_last()[j] == #[trigger] a[j] by {}
    }
}

/// The position of the pair with key `k`.
pub(crate) fn find_key(a: &Vec<(String, String)>, k: &str) -> (r: Option<usize>)
    ensures
        r is Some <==> key_index(attrs_view(a@), k@) is Some,
        r matches Some(i) ==> key_index(attrs_view(a@), k@) == Some(i as int) && i < a@.len(),
{
    let ghost av = attrs_view(a@);
    proof {
        lemma_key_index(av, k@);
    }
    let mut i: usize = 0;
    while i < a.len()
        invariant
            i <= a.len(),
            av == attrs_view(a@),
            forall|j: int| 0 <= j < i ==> (#[trigger] av[j]).0 != k@,
            key_index(av, k@) matches Some(m) ==> 0 <= m < av.len() && av[m].0 == k@ && forall|j: int| 0 <= j < m ==> (#[trigger] av[j]).0 != k@,
            key_index(av, k@) is None ==> forall|j: int| 0 <= j < av.len() ==> (#[trigger] av[j]).0 != k@,
        decreases a.len() - i,
    {
        assert(av[i as int].0 == a@[i as int].0@);
        if str_eq(a[i].0.as_str(), k) {
            return Some(i);
        }
        i = i + 1;
    }
    None
}

/// Sets the value of `k` to `v`.
pub fn attr_insert(a: &mut Vec<(String, String)>, k: String, v: String)
    ensures
        attrs_view(final(a)@) == attr_set(attrs_view(old(a)@), k@, v@),
{
    match find_key(a, k.as_str()) {
        Some(i) => {
            let _old = a.remove(i);
            a.insert(i, (k, v));
            assert(attrs_view(a@) =~= attr_set(attrs_view(old(a)@), k@, v@));
        },
        None => {
            a.push((k, v));
            assert(attrs_view(a@) =~= attr_set(attrs_view(old(a)@), k@, v@));
        },
    }
}

/// Adds each pair of `b` whose key `a` lacks.
pub fn attr_merge_into(a: &mut Vec<(String, String)>, b: &Vec<(String, String)>)
    ensures
        attrs_view(final(a)@) == attr_merge(attrs_view(old(a)@), attrs_view(b@)),
{
    let ghost start = attrs_view(a@);
    let ghost bv = attrs_view(b@);
    let mut i: usize = 0;
    while i < b.len()
        invariant
            i <= b.len(),
            bv == attrs_view(b@),
            start == attrs_view(old(a)@),
            attrs_view(a@) == attr_merge(start, bv.take(i as int)),
        decreases b.len() - i,
    {
        assert(bv.take(i + 1).drop_last() =~= bv.take(i as int));
        assert(bv.take(i + 1).last() == (b@[i as int].0@, b@[i as int].1@));
        if find_key(a, b[i].0.as_str()).is_none() {
            let pair = (b[i].0.clone(), b[i].1.clone());
            let ghost before = a@;
            a.push(pair);
            assert(attrs_view(a@) =~= attrs_view(before).push((b@[i as int].0@, b@[i as int].1@)));
        }
        i = i + 1;
    }
    assert(bv.take(b.len() as int) =~= bv);
}

/// A copy of the attribute pairs.
pub fn clone_attrs(a: &Vec<(String, String)>) -> (r: Vec<(String, String)>)
    ensures
        attrs_view(r@) == attrs_view(a@),
{
    let mut r: Vec<(String, String)> = Vec::new();
    let mut i: usize = 0;
    while i < a.len()
        invariant
            i <= a.len(),
            attrs_view(r@) == attrs_view(a@).take(i as int),
        decreases a.len() - i,
    {
        let pair = (a[i].0.clone(), a[i].1.clone());
        proof {
            assert(attrs_view(r@.push(pair)) =~= attrs_view(r@).push((pair.0@, pair.1@)));
            assert(attrs_view(a@).take(i + 1) =~= attrs_view(a@).take(i as int).push(attrs_view(a@)[i as int]));
        }
        r.push(pair);
        i = i + 1;
    }
    assert(attrs_view(a@).take(a.len() as int) =~= attrs_view(a@));
    r
}

/// Counts of nodes and edges by kind.
#[derive(Debug, Clone, Copy, Default, PartialEq, Eq, Structural)]
pub struct GraphStats {
    pub targets: usize,
    pub subdomains: usize,
    pub ips: usize,
    pub services: usize,
    pub technologies: usize,
    pub episodes: usize,
    pub contains_edges: usize,
    pub resolves_to_edges: usize,
    pub exposes_edges: usize,
    pub fingerprints_as_edges: usize,
    pub participates_in_edges: usize,
    pub belongs_to_edges: usize,
}

/// A node with its degree.
#[derive(Debug, Clone)]
pub struct RankedGraphNode {
    pub node_id: String,
    pub label: String,
    pub kind: NodeKind,
    pub degree: usize,
}

/// How connected the graph is.
#[derive(Debug, Clone, Default)]
pub struct GraphTopologySummary {
    pub connected_nodes: usize,
    pub isolated_nodes: usize,
    pub max_degree: usize,
    pub highest_degree_nodes: Vec<RankedGraphNode>,
}

/// The exposure graph of a target.
#[derive(Debug, Clone)]
pub struct ExposureGraph {
    pub target: String,
    pub generated_at: i64,
    pub node_count: usize,
    pub edge_count: usize,
    pub nodes: Vec<GraphNode>,
    pub edges: Vec<GraphEdge>,
    pub stats: GraphStats,
    pub topology: GraphTopologySummary,
}

/// The index of the node with identifier `id`, the first if several.
pub open spec fn node_index(ns: Seq<NodeV>, id: Seq<char>) -> Option<int>
    decreases ns.len(),
{
    if ns.len() == 0 {
        None
    } else {
        match node_index(ns.drop_last(), id) {
            Some(i) => Some(i),
            None => if ns.last().node_id == id {
                Some(ns.len() - 1)
            } else {
                None
            },
        }
    }
}

pub open spec fn edge_index(es: Seq<EdgeV>, id: Seq<char>) -> Option<int>
    decreases es.len(),
{
    if es.len() == 0 {
        None
    } else {
        match edge_index(es.drop_last(), id) {
            Some(i) => Some(i),
            None => if es.last().edge_id == id {
                Some(es.len() - 1)
            } else {
                None
            },
        }
    }
}

/// A node seen again: the earliest first sighting, the latest last sighting,
/// and the attributes it lacked.
pub open spec fn merge_node(e: NodeV, n: NodeV) -> NodeV {
    NodeV {
        first_seen: min_time(e.first_seen, n.first_seen),
        last_seen: max_time(e.last_seen, n.last_seen),
        attributes: attr_merge(e.attributes, n.attributes),
        ..e
    }
}

/// An edge seen again: the larger weight, the earliest and latest sightings,
/// and the attributes it lacked.
pub open spec fn merge_edge(e: EdgeV, n: EdgeV) -> EdgeV {
    EdgeV {
        weight: if e.weight >= n.weight {
            e.weight
        } else {
            n.weight
        },
        first_seen: min_time(e.first_seen, n.first_seen),
        last_seen: max_time(e.last_seen, n.last_seen),
        attributes: attr_merge(e.attributes, n.attributes),
        ..e
    }
}

/// Adds a node, or merges it into the node with the same identifier.
pub open spec fn upsert_node_spec(ns: Seq<NodeV>, n: NodeV) -> Seq<NodeV> {
    match node_index(ns, n.node_id) {
        Some(i) => ns.update(i, merge_node(ns[i], n)),
        None => ns.push(n),
    }
}

/// Adds an edge, or merges it into the edge with the same identifier.
pub open spec fn upsert_edge_spec(es: Seq<EdgeV>, e: EdgeV) -> Seq<EdgeV> {
    match edge_index(es, e.edge_id) {
        Some(i) => es.update(i, merge_edge(es[i], e)),
        None => es.push(e),
    }
}

/// The nodes after adding each node of `list` in order.
pub open spec fn fold_nodes(ns: Seq<NodeV>, list: Seq<NodeV>) -> Seq<NodeV>
    decreases list.len(),
{
    if list.len() == 0 {
        ns
    } else {
        upsert_node_spec(fold_nodes(ns, list.drop_last()), list.last())
    }
}

/// The edges after adding each edge of `list` in order.
pub open spec fn fold_edges(es: Seq<EdgeV>, list: Seq<EdgeV>) -> Seq<EdgeV>
    decreases list.len(),
{
    if list.len() == 0 {
        es
    } else {
        upsert_edge_spec(fold_edges(es, list.drop_last()), list.last())
    }
}

pub proof fn lemma_fold_nodes_concat(ns: Seq<NodeV>, a: Seq<NodeV>, b: Seq<NodeV>)
    ensures
        fold_nodes(ns, a + b) == fold_nodes(fold_nodes(ns, a), b),
    decreases b.len(),
{
    if b.len() == 0 {
        assert(a + b =~= a);
    } else {
        lemma_fold_nodes_concat(ns, a, b.drop_last());
        assert((a + b).drop_last() =~= a + b.drop_last());
    }
}

pub proof fn lemma_fold_edges_concat(es: Seq<EdgeV>, a: Seq<EdgeV>, b: Seq<EdgeV>)
    ensures
        fold_edges(es, a + b) == fold_edges(fold_edges(es, a), b),
    decreases b.len(),
{
    if b.len() == 0 {
        assert(a + b =~= a);
    } else {
        lemma_fold_edges_concat(es, a, b.drop_last());
        assert((a + b).drop_last() =~= a + b.drop_last());
    }
}

pub(crate) proof fn lemma_node_index(ns: Seq<NodeV>, id: Seq<char>)
    ensures
        node_index(ns, id) matches Some(i) ==> 0 <= i < ns.len() && ns[i].node_id == id && forall|j: int| 0 <= j < i ==> (#[trigger] ns[j]).node_id != id,
        node_index(ns, id) is None ==> forall|j: int| 0 <= j < ns.len() ==> (#[trigger] ns[j]).node_id != id,
    decreases ns.len(),
{
    if ns.len() > 0 {
        lemma_node_index(ns.drop_last(), id);
        assert forall|j: int| 0 <= j < ns.len() - 1 implies ns.drop_last()[j] == #[trigger] ns[j] by {}
    }
}

proof fn lemma_edge_index(es: Seq<EdgeV>, id: Seq<char>)
    ensures
        edge_index(es, id) matches Some(i) ==> 0 <= i < es.len() && es[i].edge_id == id && forall|j: int| 0 <= j < i ==> (#[trigger] es[j]).edge_id != id,
        edge_index(es, id) is None ==> forall|j: int| 0 <= j < es.len() ==> (#[trigger] es[j]).edge_id != id,
    decreases es.len(),
{
    if es.len() > 0 {
        lemma_edge_index(es.drop_last(), id);
        assert forall|j: int| 0 <= j < es.len() - 1 implies es.drop_last()[j] == #[trigger] es[j] by {}
    }
}

/// How many nodes are of kind `k`.
pub open spec fn count_nodes(ns: Seq<NodeV>, k: NodeKind) -> nat
    decreases ns.len(),
{
    if ns.len() == 0 {
        0
    } else {
        count_nodes(ns.drop_last(), k) + if ns.last().kind == k {
            1nat
        } else {
            0nat
        }
    }
}

/// How many edges are of kind `k`.
pub open spec fn count_edges(es: Seq<EdgeV>, k: EdgeKind) -> nat
    decreases es.len(),
{
    if es.len() == 0 {
        0
    } else {
        count_edges(es.drop_last(), k) + if es.last().kind == k {
            1nat
        } else {
            0nat
        }
    }
}

pub open spec fn stats_of(ns: Seq<NodeV>, es: Seq<EdgeV>) -> GraphStats {
    GraphStats {
        targets: count_nodes(ns, NodeKind::Target) as usize,
        subdomains: count_nodes(ns, NodeKind::Subdomain) as usize,
        ips: count_nodes(ns, NodeKind::Ip) as usize,
        services: count_nodes(ns, NodeKind::Service) as usize,
        technologies: count_nodes(ns, NodeKind::Technology) as usize,
        episodes: count_nodes(ns, NodeKind::Episode) as usize,
        contains_edges: count_edges(es, EdgeKind::Contains) as usize,
        resolves_to_edges: count_edges(es, EdgeKind::ResolvesTo) as usize,
        exposes_edges: count_edges(es, EdgeKind::Exposes) as usize,
        fingerprints_as_edges: count_edges(es, EdgeKind::FingerprintsAs) as usize,
        participates_in_edges: count_edges(es, EdgeKind::ParticipatesIn) as usize,
        belongs_to_edges: count_edges(es, EdgeKind::BelongsTo) as usize,
    }
}

proof fn lemma_count_nodes_step(ns: Seq<NodeV>, i: int, k: NodeKind)
    requires
        0 <= i < ns.len(),
    ensures
        count_nodes(ns.take(i + 1), k) == count_nodes(ns.take(i), k) + if ns[i].kind == k {
            1nat
        } else {
            0nat
        },
        count_nodes(ns.take(i), k) <= i,
    decreases i,
{
    assert(ns.take(i + 1).drop_last() =~= ns.take(i));
    if i > 0 {
        lemma_count_nodes_step(ns, i - 1, k);
    } else {
        assert(ns.take(0).len() == 0);
    }
}

proof fn lemma_count_edges_step(es: Seq<EdgeV>, i: int, k: EdgeKind)
    requires
        0 <= i < es.len(),
    ensures
        count_edges(es.take(i + 1), k) == count_edges(es.take(i), k) + if es[i].kind == k {
            1nat
        } else {
            0nat
        },
        count_edges(es.take(i), k) <= i,
    decreases i,
{
    assert(es.take(i + 1).drop_last() =~= es.take(i));
    if i > 0 {
        lemma_count_edges_step(es, i - 1, k);
    } else {
        assert(es.take(0).len() == 0);
    }
}

/// Counts of nodes and edges by kind.
pub fn compute_stats(nodes: &Vec<GraphNode>, edges: &Vec<GraphEdge>) -> (s: GraphStats)
    ensures
        s == stats_of(nodes_view(nodes@), edges_view(edges@)),
{
    let ghost ns = nodes_view(nodes@);
    let ghost es = edges_view(edges@);
    let mut s = GraphStats {
        targets: 0,
        subdomains: 0,
        ips: 0,
        services: 0,
        technologies: 0,
        episodes: 0,
        contains_edges: 0,
        resolves_to_edges: 0,
        exposes_edges: 0,
        fingerprints_as_edges: 0,
        participates_in_edges: 0,
        belongs_to_edges: 0,
    };
    let mut i: usize = 0;
    while i < nodes.len()
        invariant
            i <= nodes.len(),
            ns == nodes_view(nodes@),
            s.targets == count_nodes(ns.take(i as int), NodeKind::Target),
            s.subdomains == count_nodes(ns.take(i as int), NodeKind::Subdomain),
            s.ips == count_nodes(ns.take(i as int), NodeKind::Ip),
            s.services == count_nodes(ns.take(i as int), NodeKind::Service),
            s.technologies == count_nodes(ns.take(i as int), NodeKind::Technology),
            s.episodes == count_nodes(ns.take(i as int), NodeKind::Episode),
            s.contains_edges == 0,
            s.resolves_to_edges == 0,
            s.exposes_edges == 0,
            s.fingerprints_as_edges == 0,
            s.participates_in_edges == 0,
            s.belongs_to_edges == 0,
        decreases nodes.len() - i,
    {
        proof {
            lemma_count_nodes_step(ns, i as int, NodeKind::Target);
            lemma_count_nodes_step(ns, i as int, NodeKind::Subdomain);
            lemma_count_nodes_step(ns, i as int, NodeKind::Ip);
            lemma_count_nodes_step(ns, i as int, NodeKind::Service);
            lemma_count_nodes_step(ns, i as int, NodeKind::Technology);
            lemma_count_nodes_step(ns, i as int, NodeKind::Episode);
        }
        assert(ns[i as int].kind == nodes@[i as int].kind);
        match nodes[i].kind {
            NodeKind::Target => s.targets = s.targets + 1,
            NodeKind::Subdomain => s.subdomains = s.subdomains + 1,
            NodeKind::Ip => s.ips = s.ips + 1,
            NodeKind::Service => s.services = s.services + 1,
            NodeKind::Technology => s.technologies = s.technologies + 1,
            NodeKind::Episode => s.episodes = s.episodes + 1,
        }
        i = i + 1;
    }
    assert(ns.take(nodes.len() as int) =~= ns);
    let mut k: usize = 0;
    while k < edges.len()
        invariant
            k <= edges.len(),
            es == edges_view(edges@),
            s.targets == count_nodes(ns, NodeKind::Target),
            s.subdomains == count_nodes(ns, NodeKind::Subdomain),
            s.ips == count_nodes(ns, NodeKind::Ip),
            s.services == count_nodes(ns, NodeKind::Service),
            s.technologies == count_nodes(ns, NodeKind::Technology),
            s.episodes == count_nodes(ns, NodeKind::Episode),
            s.contains_edges == count_edges(es.take(k as int), EdgeKind::Contains),
            s.resolves_to_edges == count_edges(es.take(k as int), EdgeKind::ResolvesTo),
            s.exposes_edges == count_edges(es.take(k as int), EdgeKind::Exposes),
            s.fingerprints_as_edges == count_edges(es.take(k as int), EdgeKind::FingerprintsAs),
            s.participates_in_edges == count_edges(es.take(k as int), EdgeKind::ParticipatesIn),
            s.belongs_to_edges == count_edges(es.take(k as int), EdgeKind::BelongsTo),
        decreases edges.len() - k,
    {
        proof {
            lemma_count_edges_step(es, k as int, EdgeKind::Contains);
            lemma_count_edges_step(es, k as int, EdgeKind::ResolvesTo);
            lemma_count_edges_step(es, k as int, EdgeKind::Exposes);
            lemma_count_edges_step(es, k as int, EdgeKind::FingerprintsAs);
            lemma_count_edges_step(es, k as int, EdgeKind::ParticipatesIn);
            lemma_count_edges_step(es, k as int, EdgeKind::BelongsTo);
        }
        assert(es[k as int].kind == edges@[k as int].kind);
        match edges[k].kind {
            EdgeKind::Contains => s.contains_edges = s.contains_edges + 1,
            EdgeKind::ResolvesTo => s.resolves_to_edges = s.resolves_to_edges + 1,
            EdgeKind::Exposes => s.exposes_edges = s.exposes_edges + 1,
            EdgeKind::FingerprintsAs => s.fingerprints_as_edges = s.fingerprints_as_edges + 1,
            EdgeKind::ParticipatesIn => s.participates_in_edges = s.participates_in_edges + 1,
            EdgeKind::BelongsTo => s.belongs_to_edges = s.belongs_to_edges + 1,
        }
        k = k + 1;
    }
    assert(es.take(edges.len() as int) =~= es);
    s
}

/// How many edge ends are at `id`: one for each edge leaving it and one for
/// each edge reaching it.
pub open spec fn degree(es: Seq<EdgeV>, id: Seq<char>) -> nat
    decreases es.len(),
{
    if es.len() == 0 {
        0
    } else {
        degree(es.drop_last(), id) + (if es.last().from == id {
            1nat
        } else {
            0nat
        }) + (if es.last().to == id {
            1nat
        } else {
            0nat
        })
    }
}

/// Every identifier the degree map holds: the nodes' and both ends of each edge.
pub open spec fn all_ids(ns: Seq<NodeV>, es: Seq<EdgeV>) -> Seq<Seq<char>> {
    Seq::new(ns.len(), |i: int| ns[i].node_id) + Seq::new(es.len(), |i: int| es[i].from) + Seq::new(
        es.len(),
        |i: int| es[i].to,
    )
}

/// How many of `ks` have a degree above zero (`positive`) or of zero.
pub open spec fn count_by_degree(ks: Seq<Seq<char>>, es: Seq<EdgeV>, positive: bool) -> nat
    decreases ks.len(),
{
    if ks.len() == 0 {
        0
    } else {
        count_by_degree(ks.drop_last(), es, positive) + if (degree(es, ks.last()) > 0) == positive {
            1nat
        } else {
            0nat
        }
    }
}

/// The largest degree among `ks`, zero when there is none.
pub open spec fn max_degree_of(ks: Seq<Seq<char>>, es: Seq<EdgeV>) -> nat
    decreases ks.len(),
{
    if ks.len() == 0 {
        0
    } else {
        let m = max_degree_of(ks.drop_last(), es);
        let d = degree(es, ks.last());
        if d > m {
            d
        } else {
            m
        }
    }
}

pub struct RankedV {
    pub node_id: Seq<char>,
    pub label: Seq<char>,
    pub kind: NodeKind,
    pub degree: usize,
}

impl View for RankedGraphNode {
    type V = RankedV;

    open spec fn view(&self) -> RankedV {
        RankedV { node_id: self.node_id@, label: self.label@, kind: self.kind, degree: self.degree }
    }
}

pub open spec fn ranked_view(v: Seq<RankedGraphNode>) -> Seq<RankedV> {
    Seq::new(v.len(), |i: int| v[i]@)
}

/// Higher degree first, then by label, then by identifier.
pub open spec fn rank_before(a: RankedV, b: RankedV) -> bool {
    a.degree > b.degree || (a.degree == b.degree && (seq_lt(a.label, b.label) || (a.label == b.label
        && seq_lt(a.node_id, b.node_id))))
}

pub open spec fn rank_order() -> spec_fn(RankedV, RankedV) -> bool {
    |a: RankedV, b: RankedV| rank_before(a, b)
}

/// Each node with its degree, in the order of the nodes.
pub open spec fn ranked_nodes(ns: Seq<NodeV>, es: Seq<EdgeV>) -> Seq<RankedV> {
    Seq::new(
        ns.len(),
        |i: int|
            RankedV {
                node_id: ns[i].node_id,
                label: ns[i].label,
                kind: ns[i].kind,
                degree: degree(es, ns[i].node_id) as usize,
            },
    )
}

/// The five best ranked nodes (fewer when there are fewer nodes).
pub open spec fn top_ranked(ns: Seq<NodeV>, es: Seq<EdgeV>) -> Seq<RankedV> {
    let sorted = sort_by_lt(ranked_nodes(ns, es), rank_order());
    if sorted.len() > 5 {
        sorted.take(5)
    } else {
        sorted
    }
}

pub struct TopologyV {
    pub connected_nodes: usize,
    pub isolated_nodes: usize,
    pub max_degree: usize,
    pub highest_degree_nodes: Seq<RankedV>,
}

impl View for GraphTopologySummary {
    type V = TopologyV;

    open spec fn view(&self) -> TopologyV {
        TopologyV {
            connected_nodes: self.connected_nodes,
            isolated_nodes: self.isolated_nodes,
            max_degree: self.max_degree,
            highest_degree_nodes: ranked_view(self.highest_degree_nodes@),
        }
    }
}

/// Spec of `compute_topology`.
pub open spec fn topology_of(ns: Seq<NodeV>, es: Seq<EdgeV>) -> TopologyV {
    let ks = crate::order::sorted_distinct(all_ids(ns, es));
    TopologyV {
        connected_nodes: count_by_degree(ks, es, true) as usize,
        isolated_nodes: count_by_degree(ks, es, false) as usize,
        max_degree: max_degree_of(ks, es) as usize,
        highest_degree_nodes: top_ranked(ns, es),
    }
}

proof fn lemma_degree_bound(es: Seq<EdgeV>, id: Seq<char>)
    ensures
        degree(es, id) <= 2 * es.len(),
    decreases es.len(),
{
    if es.len() > 0 {
        lemma_degree_bound(es.drop_last(), id);
    }
}

/// The degree of `id`.
pub(crate) fn edge_degree(edges: &Vec<GraphEdge>, id: &str) -> (d: usize)
    requires
        edges@.len() <= usize::MAX / 2,
    ensures
        d == degree(edges_view(edges@), id@),
{
    let ghost es = edges_view(edges@);
    let mut d: usize = 0;
    let mut i: usize = 0;
    while i < edges.len()
        invariant
            i <= edges.len(),
            edges@.len() <= usize::MAX / 2,
            es == edges_view(edges@),
            d == degree(es.take(i as int), id@),
            d <= 2 * i,
        decreases edges.len() - i,
    {
        assert(es.take(i + 1).drop_last() =~= es.take(i as int));
        assert(es.take(i + 1).last() == edges@[i as int]@);
        if str_eq(edges[i].from.as_str(), id) {
            d = d + 1;
        }
        if str_eq(edges[i].to.as_str(), id) {
            d = d + 1;
        }
        i = i + 1;
    }
    assert(es.take(edges.len() as int) =~= es);
    d
}

/// Pushes a string onto a list.
fn push_id(v: &mut Vec<String>, s: String)
    ensures
        crate::text::strings_view(final(v)@) == crate::text::strings_view(old(v)@).push(s@),
{
    proof {
        crate::text::lemma_strings_view_push(v@, s);
    }
    v.push(s);
}

/// Nodes ranked by degree, best first (see `rank_before`), ties in their order.
fn sort_ranked(v: Vec<RankedGraphNode>) -> (r: Vec<RankedGraphNode>)
    ensures
        ranked_view(r@) == sort_by_lt(ranked_view(v@), rank_order()),
{
    let ghost rv = ranked_view(v@);
    let mut rest = v;
    let mut out: Vec<RankedGraphNode> = Vec::new();
    let mut i: usize = 0;
    let n = rest.len();
    assert(rv.take(0) =~= Seq::<RankedV>::empty());
    while rest.len() > 0
        invariant
            n == rv.len(),
            i + rest@.len() == n,
            ranked_view(rest@) == rv.skip(i as int),
            ranked_view(out@) == sort_by_lt(rv.take(i as int), rank_order()),
        decreases rest.len(),
    {
        let ghost old_rest = rest@;
        let x = rest.remove(0);
        assert forall|j: int| 0 <= j < rest@.len() implies #[trigger] ranked_view(rest@)[j] == rv.skip(i + 1)[j] by {
            assert(rest@[j] == old_rest[j + 1]);
            assert(ranked_view(old_rest)[j + 1] == rv.skip(i as int)[j + 1]);
        }
        assert(rv[i as int] == x@) by {
            assert(rv.skip(i as int)[0] == rv[i as int]);
        }
        let ghost sorted = ranked_view(out@);
        let mut k: usize = 0;
        loop
            invariant
                k <= out.len(),
                sorted == ranked_view(out@),
                forall|j: int| 0 <= j < k ==> !rank_before(x@, #[trigger] sorted[j]),
            ensures
                k <= out.len(),
                forall|j: int| 0 <= j < k ==> !rank_before(x@, #[trigger] sorted[j]),
                k < out.len() ==> rank_before(x@, sorted[k as int]),
            decreases out.len() - k,
        {
            if k >= out.len() {
                break;
            }
            assert(sorted[k as int] == out@[k as int]@);
            let y = &out[k];
            let before = x.degree > y.degree || (x.degree == y.degree && (str_less(
                x.label.as_str(),
                y.label.as_str(),
            ) || (str_eq(x.label.as_str(), y.label.as_str()) && str_less(
                x.node_id.as_str(),
                y.node_id.as_str(),
            ))));
            if before {
                break;
            }
            k = k + 1;
        }
        proof {
            lemma_insert_pos_lt_first(sorted, x@, rank_order(), k as int);
            lemma_sort_by_lt_step(rv, i as int, rank_order());
        }
        out.insert(k, x);
        assert(ranked_view(out@) =~= sorted.insert(k as int, x@));
        assert(ranked_view(rest@) =~= rv.skip(i + 1));
        i = i + 1;
    }
    assert(rv.take(n as int) =~= rv);
    out
}

/// How connected the graph is: connected and isolated identifiers, the
/// largest degree, and the five nodes of highest degree.
pub fn compute_topology(nodes: &Vec<GraphNode>, edges: &Vec<GraphEdge>) -> (t: GraphTopologySummary)
    requires
        edges@.len() <= usize::MAX / 2,
    ensures
        t@ == topology_of(nodes_view(nodes@), edges_view(edges@)),
{
    let ghost ns = nodes_view(nodes@);
    let ghost es = edges_view(edges@);
    let mut ids: Vec<String> = Vec::new();
    let mut i: usize = 0;
    let ghost part1 = Seq::new(ns.len(), |i: int| ns[i].node_id);
    let ghost part2 = Seq::new(es.len(), |i: int| es[i].from);
    let ghost part3 = Seq::new(es.len(), |i: int| es[i].to);
    while i < nodes.len()
        invariant
            i <= nodes.len(),
            ns == nodes_view(nodes@),
            part1 == Seq::new(ns.len(), |i: int| ns[i].node_id),
            crate::text::strings_view(ids@) == part1.take(i as int),
        decreases nodes.len() - i,
    {
        push_id(&mut ids, nodes[i].node_id.clone());
        i = i + 1;
        assert(crate::text::strings_view(ids@) =~= part1.take(i as int));
    }
    assert(part1.take(nodes.len() as int) =~= part1);
    let mut k: usize = 0;
    while k < edges.len()
        invariant
            k <= edges.len(),
            es == edges_view(edges@),
            part2 == Seq::new(es.len(), |i: int| es[i].from),
            crate::text::strings_view(ids@) == part1 + part2.take(k as int),
        decreases edges.len() - k,
    {
        push_id(&mut ids, edges[k].from.clone());
        k = k + 1;
        assert(crate::text::strings_view(ids@) =~= part1 + part2.take(k as int));
    }
    assert(part2.take(edges.len() as int) =~= part2);
    let mut k: usize = 0;
    while k < edges.len()
        invariant
            k <= edges.len(),
            es == edges_view(edges@),
            part3 == Seq::new(es.len(), |i: int| es[i].to),
            crate::text::strings_view(ids@) == part1 + part2 + part3.take(k as int),
        decreases edges.len() - k,
    {
        push_id(&mut ids, edges[k].to.clone());
        k = k + 1;
        assert(crate::text::strings_view(ids@) =~= part1 + part2 + part3.take(k as int));
    }
    assert(part3.take(edges.len() as int) =~= part3);
    assert(crate::text::strings_view(ids@) =~= all_ids(ns, es));
    let keys = crate::order::sorted_unique(&ids);
    let ghost ks = crate::text::strings_view(keys@);
    let mut connected: usize = 0;
    let mut isolated: usize = 0;
    let mut max_degree: usize = 0;
    let mut j: usize = 0;
    while j < keys.len()
        invariant
            j <= keys.len(),
            ks == crate::text::strings_view(keys@),
            es == edges_view(edges@),
            edges@.len() <= usize::MAX / 2,
            connected == count_by_degree(ks.take(j as int), es, true),
            isolated == count_by_degree(ks.take(j as int), es, false),
            connected + isolated == j,
            max_degree == max_degree_of(ks.take(j as int), es),
        decreases keys.len() - j,
    {
        assert(ks.take(j + 1).drop_last() =~= ks.take(j as int));
        assert(ks.take(j + 1).last() == keys@[j as int]@);
        let d = edge_degree(edges, keys[j].as_str());
        if d > 0 {
            connected = connected + 1;
        } else {
            isolated = isolated + 1;
        }
        if d > max_degree {
            max_degree = d;
        }
        j = j + 1;
    }
    assert(ks.take(keys.len() as int) =~= ks);
    let mut ranked: Vec<RankedGraphNode> = Vec::new();
    let mut m: usize = 0;
    while m < nodes.len()
        invariant
            m <= nodes.len(),
            ns == nodes_view(nodes@),
            es == edges_view(edges@),
            edges@.len() <= usize::MAX / 2,
            ranked_view(ranked@) == ranked_nodes(ns, es).take(m as int),
        decreases nodes.len() - m,
    {
        let node = &nodes[m];
        let d = edge_degree(edges, node.node_id.as_str());
        let r = RankedGraphNode {
            node_id: node.node_id.clone(),
            label: node.label.clone(),
            kind: node.kind,
            degree: d,
        };
        proof {
            assert(ranked_view(ranked@.push(r)) =~= ranked_view(ranked@).push(r@));
            assert(ranked_nodes(ns, es).take(m + 1) =~= ranked_nodes(ns, es).take(m as int).push(
                ranked_nodes(ns, es)[m as int],
            ));
        }
        ranked.push(r);
        m = m + 1;
    }
    assert(ranked_nodes(ns, es).take(nodes.len() as int) =~= ranked_nodes(ns, es));
    let mut sorted = sort_ranked(ranked);
    let ghost full = ranked_view(sorted@);
    if sorted.len() > 5 {
        sorted.truncate(5);
        assert(ranked_view(sorted@) =~= full.take(5));
    }
    assert(ranked_view(sorted@) == top_ranked(ns, es));
    GraphTopologySummary {
        connected_nodes: connected,
        isolated_nodes: isolated,
        max_degree,
        highest_degree_nodes: sorted,
    }
}

/// Adds a node to a node list, or merges it into the node with its identifier.
pub fn upsert_node(nodes: &mut Vec<GraphNode>, node: GraphNode)
    ensures
        nodes_view(final(nodes)@) == upsert_node_spec(nodes_view(old(nodes)@), node@),
        final(nodes)@.len() <= old(nodes)@.len() + 1,
{
    let ghost ns = nodes_view(nodes@);
    proof {
        lemma_node_index(ns, node@.node_id);
    }
    let mut i: usize = 0;
    while i < nodes.len()
        invariant
            i <= nodes.len(),
            ns == nodes_view(nodes@),
            nodes@ == old(nodes)@,
            forall|j: int| 0 <= j < i ==> (#[trigger] ns[j]).node_id != node@.node_id,
            node_index(ns, node@.node_id) matches Some(m) ==> 0 <= m < ns.len() && ns[m].node_id == node@.node_id && forall|j: int| 0 <= j < m ==> (#[trigger] ns[j]).node_id != node@.node_id,
            node_index(ns, node@.node_id) is None ==> forall|j: int| 0 <= j < ns.len() ==> (#[trigger] ns[j]).node_id != node@.node_id,
        decreases nodes.len() - i,
    {
        assert(ns[i as int].node_id == nodes@[i as int].node_id@);
        if str_eq(nodes[i].node_id.as_str(), node.node_id.as_str()) {
            let e = nodes.remove(i);
            assert(ns[i as int] == e@);
            let mut attributes = e.attributes;
            attr_merge_into(&mut attributes, &node.attributes);
            let merged = GraphNode {
                node_id: e.node_id,
                kind: e.kind,
                label: e.label,
                target: e.target,
                first_seen: min_datetime(e.first_seen, node.first_seen),
                last_seen: max_datetime(e.last_seen, node.last_seen),
                attributes,
            };
            nodes.insert(i, merged);
            assert(node_index(ns, node@.node_id) == Some(i as int));
            assert(nodes_view(nodes@) =~= ns.update(i as int, merge_node(ns[i as int], node@)));
            return;
        }
        i = i + 1;
    }
    let ghost before = nodes@;
    nodes.push(node);
    assert(nodes_view(nodes@) =~= nodes_view(before).push(node@));
}

/// Adds an edge to an edge list, or merges it into the edge with its identifier.
pub fn upsert_edge(edges: &mut Vec<GraphEdge>, edge: GraphEdge)
    ensures
        edges_view(final(edges)@) == upsert_edge_spec(edges_view(old(edges)@), edge@),
        final(edges)@.len() <= old(edges)@.len() + 1,
{
    let ghost es = edges_view(edges@);
    proof {
        lemma_edge_index(es, edge@.edge_id);
    }
    let mut i: usize = 0;
    while i < edges.len()
        invariant
            i <= edges.len(),
            es == edges_view(edges@),
            edges@ == old(edges)@,
            forall|j: int| 0 <= j < i ==> (#[trigger] es[j]).edge_id != edge@.edge_id,
            edge_index(es, edge@.edge_id) matches Some(m) ==> 0 <= m < es.len() && es[m].edge_id == edge@.edge_id && forall|j: int| 0 <= j < m ==> (#[trigger] es[j]).edge_id != edge@.edge_id,
            edge_index(es, edge@.edge_id) is None ==> forall|j: int| 0 <= j < es.len() ==> (#[trigger] es[j]).edge_id != edge@.edge_id,
        decreases edges.len() - i,
    {
        assert(es[i as int].edge_id == edges@[i as int].edge_id@);
        if str_eq(edges[i].edge_id.as_str(), edge.edge_id.as_str()) {
            let e = edges.remove(i);
            assert(es[i as int] == e@);
            let mut attributes = e.attributes;
            attr_merge_into(&mut attributes, &edge.attributes);
            let merged = GraphEdge {
                edge_id: e.edge_id,
                from: e.from,
                to: e.to,
                kind: e.kind,
                target: e.target,
                weight: if e.weight >= edge.weight {
                    e.weight
                } else {
                    edge.weight
                },
                first_seen: min_datetime(e.first_seen, edge.first_seen),
                last_seen: max_datetime(e.last_seen, edge.last_seen),
                attributes,
            };
            edges.insert(i, merged);
            assert(edge_index(es, edge@.edge_id) == Some(i as int));
            assert(edges_view(edges@) =~= es.update(i as int, merge_edge(es[i as int], edge@)));
            return;
        }
        i = i + 1;
    }
    let ghost before = edges@;
    edges.push(edge);
    assert(edges_view(edges@) =~= edges_view(before).push(edge@));
}

pub open spec fn node_order() -> spec_fn(NodeV, NodeV) -> bool {
    |a: NodeV, b: NodeV| seq_lt(a.node_id, b.node_id)
}

pub open spec fn edge_order() -> spec_fn(EdgeV, EdgeV) -> bool {
    |a: EdgeV, b: EdgeV| seq_lt(a.edge_id, b.edge_id)
}

/// Nodes sorted by identifier, ties in their order.
fn sort_nodes(v: Vec<GraphNode>) -> (r: Vec<GraphNode>)
    ensures
        nodes_view(r@) == sort_by_lt(nodes_view(v@), node_order()),
        r@.len() == v@.len(),
{
    let ghost nv = nodes_view(v@);
    let mut rest = v;
    let mut out: Vec<GraphNode> = Vec::new();
    let mut i: usize = 0;
    let n = rest.len();
    assert(nv.take(0) =~= Seq::<NodeV>::empty());
    while rest.len() > 0
        invariant
            n == nv.len(),
            i + rest@.len() == n,
            out@.len() == i,
            nodes_view(rest@) == nv.skip(i as int),
            nodes_view(out@) == sort_by_lt(nv.take(i as int), node_order()),
        decreases rest.len(),
    {
        let ghost old_rest = rest@;
        let x = rest.remove(0);
        assert forall|j: int| 0 <= j < rest@.len() implies #[trigger] nodes_view(rest@)[j] == nv.skip(i + 1)[j] by {
            assert(rest@[j] == old_rest[j + 1]);
            assert(nodes_view(old_rest)[j + 1] == nv.skip(i as int)[j + 1]);
        }
        assert(nv[i as int] == x@) by {
            assert(nv.skip(i as int)[0] == nv[i as int]);
        }
        let ghost sorted = nodes_view(out@);
        let mut k: usize = 0;
        loop
            invariant
                k <= out.len(),
                sorted == nodes_view(out@),
                forall|j: int| 0 <= j < k ==> !seq_lt(x@.node_id, (#[trigger] sorted[j]).node_id),
            ensures
                k <= out.len(),
                forall|j: int| 0 <= j < k ==> !seq_lt(x@.node_id, (#[trigger] sorted[j]).node_id),
                k < out.len() ==> seq_lt(x@.node_id, sorted[k as int].node_id),
            decreases out.len() - k,
        {
            if k >= out.len() {
                break;
            }
            assert(sorted[k as int] == out@[k as int]@);
            if str_less(x.node_id.as_str(), out[k].node_id.as_str()) {
                break;
            }
            k = k + 1;
        }
        proof {
            lemma_insert_pos_lt_first(sorted, x@, node_order(), k as int);
            lemma_sort_by_lt_step(nv, i as int, node_order());
        }
        out.insert(k, x);
        assert(nodes_view(out@) =~= sorted.insert(k as int, x@));
        assert(nodes_view(rest@) =~= nv.skip(i + 1));
        i = i + 1;
    }
    assert(nv.take(n as int) =~= nv);
    out
}

/// Edges sorted by identifier, ties in their order.
fn sort_edges(v: Vec<GraphEdge>) -> (r: Vec<GraphEdge>)
    ensures
        edges_view(r@) == sort_by_lt(edges_view(v@), edge_order()),
        r@.len() == v@.len(),
{
    let ghost ev = edges_view(v@);
    let mut rest = v;
    let mut out: Vec<GraphEdge> = Vec::new();
    let mut i: usize = 0;
    let n = rest.len();
    assert(ev.take(0) =~= Seq::<EdgeV>::empty());
    while rest.len() > 0
        invariant
            n == ev.len(),
            i + rest@.len() == n,
            out@.len() == i,
            edges_view(rest@) == ev.skip(i as int),
            edges_view(out@) == sort_by_lt(ev.take(i as int), edge_order()),
        decreases rest.len(),
    {
        let ghost old_rest = rest@;
        let x = rest.remove(0);
        assert forall|j: int| 0 <= j < rest@.len() implies #[trigger] edges_view(rest@)[j] == ev.skip(i + 1)[j] by {
            assert(rest@[j] == old_rest[j + 1]);
            assert(edges_view(old_rest)[j + 1] == ev.skip(i as int)[j + 1]);
        }
        assert(ev[i as int] == x@) by {
            assert(ev.skip(i as int)[0] == ev[i as int]);
        }
        let ghost sorted = edges_view(out@);
        let mut k: usize = 0;
        loop
            invariant
                k <= out.len(),
                sorted == edges_view(out@),
                forall|j: int| 0 <= j < k ==> !seq_lt(x@.edge_id, (#[trigger] sorted[j]).edge_id),
            ensures
                k <= out.len(),
                forall|j: int| 0 <= j < k ==> !seq_lt(x@.edge_id, (#[trigger] sorted[j]).edge_id),
                k < out.len() ==> seq_lt(x@.edge_id, sorted[k as int].edge_id),
            decreases out.len() - k,
        {
            if k >= out.len() {
                break;
            }
            assert(sorted[k as int] == out@[k as int]@);
            if str_less(x.edge_id.as_str(), out[k].edge_id.as_str()) {
                break;
            }
            k = k + 1;
        }
        proof {
            lemma_insert_pos_lt_first(sorted, x@, edge_order(), k as int);
            lemma_sort_by_lt_step(ev, i as int, edge_order());
        }
        out.insert(k, x);
        assert(edges_view(out@) =~= sorted.insert(k as int, x@));
        assert(edges_view(rest@) =~= ev.skip(i + 1));
        i = i + 1;
    }
    assert(ev.take(n as int) =~= ev);
    out
}

/// Whether the counts, statistics and topology of a graph are those of its
/// nodes and edges, and both lists are sorted by identifier.
pub open spec fn metadata_ok(g: ExposureGraph) -> bool {
    &&& g.node_count == g.nodes@.len()
    &&& g.edge_count == g.edges@.len()
    &&& g.stats == stats_of(nodes_view(g.nodes@), edges_view(g.edges@))
    &&& g.topology@ == topology_of(nodes_view(g.nodes@), edges_view(g.edges@))
}

/// A graph from nodes and edges: both sorted by identifier, with counts,
/// statistics and topology computed.
pub(crate) fn finish_graph(target: String, generated_at: i64, nodes: Vec<GraphNode>, edges: Vec<GraphEdge>) -> (g: ExposureGraph)
    requires
        edges@.len() <= usize::MAX / 2,
    ensures
        g.target@ == target@,
        g.generated_at == generated_at,
        nodes_view(g.nodes@) == sort_by_lt(nodes_view(nodes@), node_order()),
        edges_view(g.edges@) == sort_by_lt(edges_view(edges@), edge_order()),
        metadata_ok(g),
{
    let nodes = sort_nodes(nodes);
    let edges = sort_edges(edges);
    let stats = compute_stats(&nodes, &edges);
    let topology = compute_topology(&nodes, &edges);
    ExposureGraph {
        target,
        generated_at,
        node_count: nodes.len(),
        edge_count: edges.len(),
        nodes,
        edges,
        stats,
        topology,
    }
}

impl ExposureGraph {
    /// Sorts nodes and edges by identifier and recomputes counts, statistics
    /// and topology.
    pub fn recompute_metadata(&mut self)
        requires
            old(self).edges@.len() <= usize::MAX / 2,
        ensures
            final(self).target@ == old(self).target@,
            final(self).generated_at == old(self).generated_at,
            nodes_view(final(self).nodes@) == sort_by_lt(nodes_view(old(self).nodes@), node_order()),
            edges_view(final(self).edges@) == sort_by_lt(edges_view(old(self).edges@), edge_order()),
            metadata_ok(*final(self)),
    {
        let mut nodes: Vec<GraphNode> = Vec::new();
        let mut edges: Vec<GraphEdge> = Vec::new();
        std::mem::swap(&mut nodes, &mut self.nodes);
        std::mem::swap(&mut edges, &mut self.edges);
        let nodes = sort_nodes(nodes);
        let edges = sort_edges(edges);
        self.stats = compute_stats(&nodes, &edges);
        self.topology = compute_topology(&nodes, &edges);
        self.node_count = nodes.len();
        self.edge_count = edges.len();
        self.nodes = nodes;
        self.edges = edges;
    }
}

/// The RFC 3339 text of a Unix timestamp, as chrono writes it for UTC.
pub uninterp spec fn rfc3339(t: i64) -> Seq<char>;

/// `DateTime::<Utc>::from_timestamp(t, 0)` written by `to_rfc3339`; empty
/// when chrono cannot represent the time. Only that the text is a function of
/// the time is claimed.
#[verifier::external_body]
pub(crate) fn rfc3339_text(t: i64) -> (r: String)
    ensures
        r@ == rfc3339(t),
{
    match chrono::DateTime::from_timestamp(t, 0) {
        Some(d) => d.to_rfc3339(),
        None => String::new(),
    }
}

/// One attribute pair.
pub(crate) fn pair(k: &str, v: String) -> (p: (String, String))
    ensures
        p.0@ == k@,
        p.1@ == v@,
{
    (owned(k), v)
}

/// The node of `kind` named `label`, with its identifier derived from both.
pub open spec fn node_named(kind: NodeKind, label: Seq<char>, target: Seq<char>, first_seen: Option<i64>, last_seen: Option<i64>, attributes: AttrsV) -> NodeV {
    NodeV {
        node_id: node_id_of(kind, label),
        kind,
        label,
        target,
        first_seen,
        last_seen,
        attributes,
    }
}

/// The edge of `kind` from `from` to `to`, with weight one and its
/// identifier derived from its ends and kind.
pub open spec fn edge_between(kind: EdgeKind, from: Seq<char>, to: Seq<char>, target: Seq<char>, first_seen: Option<i64>, last_seen: Option<i64>, attributes: AttrsV) -> EdgeV {
    EdgeV {
        edge_id: edge_id_of(from, to, kind),
        from,
        to,
        kind,
        target,
        weight: 1,
        first_seen,
        last_seen,
        attributes,
    }
}

pub(crate) fn make_node(kind: NodeKind, label: &str, target: &str, first_seen: Option<i64>, last_seen: Option<i64>, attributes: Vec<(String, String)>) -> (n: GraphNode)
    ensures
        n@ == node_named(kind, label@, target@, first_seen, last_seen, attrs_view(attributes@)),
{
    GraphNode {
        node_id: stable_node_id(&kind, label),
        kind,
        label: owned(label),
        target: owned(target),
        first_seen,
        last_seen,
        attributes,
    }
}

pub(crate) fn make_edge(kind: EdgeKind, from: &str, to: &str, target: &str, first_seen: Option<i64>, last_seen: Option<i64>, attributes: Vec<(String, String)>) -> (e: GraphEdge)
    ensures
        e@ == edge_between(kind, from@, to@, target@, first_seen, last_seen, attrs_view(attributes@)),
{
    GraphEdge {
        edge_id: stable_edge_id(from, to, &kind),
        from: owned(from),
        to: owned(to),
        kind,
        target: owned(target),
        weight: 1,
        first_seen,
        last_seen,
        attributes,
    }
}

/// The single attribute `source`.
pub open spec fn source_attr(source: Seq<char>) -> AttrsV {
    seq![("source"@, source)]
}

pub(crate) fn source_attrs(source: &str) -> (a: Vec<(String, String)>)
    ensures
        attrs_view(a@) == source_attr(source@),
{
    let mut a: Vec<(String, String)> = Vec::new();
    a.push(pair("source", owned(source)));
    assert(attrs_view(a@) =~= source_attr(source@));
    a
}

/// The graph of a target alone: its target node and nothing else.
pub open spec fn target_node(target: Seq<char>) -> NodeV {
    node_named(NodeKind::Target, target, target, None, None, Seq::empty())
}

impl ExposureGraph {
    /// The graph holding only the target's node, generated at `now`.
    pub fn empty_at(target: &str, now: i64) -> (g: ExposureGraph)
        ensures
            g.target@ == target@,
            g.generated_at == now,
            nodes_view(g.nodes@) == seq![target_node(target@)],
            g.edges@.len() == 0,
            metadata_ok(g),
    {
        let mut nodes: Vec<GraphNode> = Vec::new();
        let attrs: Vec<(String, String)> = Vec::new();
        assert(attrs_view(attrs@) =~= Seq::empty());
        let n = make_node(NodeKind::Target, target, target, None, None, attrs);
        nodes.push(n);
        assert(nodes_view(nodes@) =~= seq![target_node(target@)]);
        let edges: Vec<GraphEdge> = Vec::new();
        assert(edges_view(edges@) =~= Seq::<EdgeV>::empty());
        let g = finish_graph(owned(target), now, nodes, edges);
        proof {
            let one = seq![target_node(target@)];
            assert(one.drop_last() =~= Seq::<NodeV>::empty());
            assert(sort_by_lt(one.drop_last(), node_order()) == Seq::<NodeV>::empty());
            assert(insert_pos_lt(Seq::<NodeV>::empty(), one.last(), node_order()) == 0);
            assert(Seq::<NodeV>::empty().insert(0, one.last()) =~= one);
        }
        g
    }

    /// The graph holding only the target's node, generated now.
    pub fn empty(target: &str) -> (g: ExposureGraph)
        ensures
            g.target@ == target@,
            nodes_view(g.nodes@) == seq![target_node(target@)],
            g.edges@.len() == 0,
            metadata_ok(g),
    {
        let now = crate::jobs::now_timestamp();
        ExposureGraph::empty_at(target, now)
    }

    /// Adds every node and edge of `other`, merging those already present,
    /// keeps the later generation time, and recomputes the metadata.
    pub fn merge(&mut self, other: &ExposureGraph)
        requires
            old(self).edges@.len() + other.edges@.len() <= usize::MAX / 2,
        ensures
            final(self).target@ == old(self).target@,
            final(self).generated_at == if other.generated_at > old(self).generated_at {
                other.generated_at
            } else {
                old(self).generated_at
            },
            nodes_view(final(self).nodes@) == sort_by_lt(
                fold_nodes(nodes_view(old(self).nodes@), nodes_view(other.nodes@)),
                node_order(),
            ),
            edges_view(final(self).edges@) == sort_by_lt(
                fold_edges(edges_view(old(self).edges@), edges_view(other.edges@)),
                edge_order(),
            ),
            metadata_ok(*final(self)),
            distinct_node_ids(nodes_view(old(self).nodes@)) && distinct_edge_ids(edges_view(old(self).edges@))
                ==> ids_ordered(nodes_view(final(self).nodes@), edges_view(final(self).edges@)),
    {
        let ghost start_n = nodes_view(self.nodes@);
        let ghost start_e = edges_view(self.edges@);
        let ghost on = nodes_view(other.nodes@);
        let ghost oe = edges_view(other.edges@);
        let mut i: usize = 0;
        while i < other.nodes.len()
            invariant
                i <= other.nodes.len(),
                on == nodes_view(other.nodes@),
                nodes_view(self.nodes@) == fold_nodes(start_n, on.take(i as int)),
                edges_view(self.edges@) == start_e,
                self.target@ == old(self).target@,
                self.generated_at == old(self).generated_at,
            decreases other.nodes.len() - i,
        {
            let n = clone_node(&other.nodes[i]);
            assert(on.take(i + 1).drop_last() =~= on.take(i as int));
            upsert_node(&mut self.nodes, n);
            i = i + 1;
        }
        assert(on.take(other.nodes.len() as int) =~= on);
        let mut k: usize = 0;
        while k < other.edges.len()
            invariant
                k <= other.edges.len(),
                oe == edges_view(other.edges@),
                start_e.len() + oe.len() <= usize::MAX / 2,
                nodes_view(self.nodes@) == fold_nodes(start_n, on),
                edges_view(self.edges@) == fold_edges(start_e, oe.take(k as int)),
                self.edges@.len() <= start_e.len() + k,
                self.target@ == old(self).target@,
                self.generated_at == old(self).generated_at,
            decreases other.edges.len() - k,
        {
            let e = clone_edge(&other.edges[k]);
            assert(oe.take(k + 1).drop_last() =~= oe.take(k as int));
            upsert_edge(&mut self.edges, e);
            k = k + 1;
        }
        assert(oe.take(other.edges.len() as int) =~= oe);
        if other.generated_at > self.generated_at {
            self.generated_at = other.generated_at;
        }
        self.recompute_metadata();
        proof {
            if distinct_node_ids(start_n) && distinct_edge_ids(start_e) {
                law_folded_ids_ordered(start_n, on, start_e, oe);
            }
        }
    }
}

/// A copy of a node.
pub fn clone_node(n: &GraphNode) -> (r: GraphNode)
    ensures
        r@ == n@,
{
    GraphNode {
        node_id: n.node_id.clone(),
        kind: n.kind,
        label: n.label.clone(),
        target: n.target.clone(),
        first_seen: n.first_seen,
        last_seen: n.last_seen,
        attributes: clone_attrs(&n.attributes),
    }
}

/// A copy of an edge.
pub fn clone_edge(e: &GraphEdge) -> (r: GraphEdge)
    ensures
        r@ == e@,
{
    GraphEdge {
        edge_id: e.edge_id.clone(),
        from: e.from.clone(),
        to: e.to.clone(),
        kind: e.kind,
        target: e.target.clone(),
        weight: e.weight,
        first_seen: e.first_seen,
        last_seen: e.last_seen,
        attributes: clone_attrs(&e.attributes),
    }
}

pub proof fn lemma_fold_edges_len(es: Seq<EdgeV>, list: Seq<EdgeV>)
    ensures
        fold_edges(es, list).len() <= es.len() + list.len(),
    decreases list.len(),
{
    if list.len() > 0 {
        lemma_fold_edges_len(es, list.drop_last());
        let prev = fold_edges(es, list.drop_last());
        lemma_edge_index(prev, list.last().edge_id);
    }
}

/// The target node of a snapshot's graph: seen at the snapshot's time, with
/// its version and time as attributes.
pub open spec fn snapshot_target_node(s: Snapshot) -> NodeV {
    node_named(
        NodeKind::Target,
        s.target@,
        s.target@,
        Some(s.timestamp),
        Some(s.timestamp),
        seq![("snapshot_version"@, decimal(s.snapshot_version as nat)), ("snapshot_timestamp"@, rfc3339(s.timestamp))],
    )
}

/// The subdomains of a snapshot with its target, sorted and distinct.
pub open spec fn known_hosts(s: Snapshot) -> Seq<Seq<char>> {
    crate::order::sorted_distinct(crate::text::strings_view(s.scan.subdomains@).push(s.target@))
}

pub open spec fn sub_node(s: Snapshot, sub: Seq<char>) -> NodeV {
    node_named(
        NodeKind::Subdomain,
        sub,
        s.target@,
        Some(s.timestamp),
        Some(s.timestamp),
        seq![("source"@, "snapshot"@), ("snapshot_timestamp"@, rfc3339(s.timestamp))],
    )
}

pub open spec fn ip_nodes(s: Snapshot) -> Seq<NodeV> {
    let ips = crate::text::strings_view(s.scan.resolved_ips@);
    Seq::new(
        ips.len(),
        |j: int| node_named(NodeKind::Ip, ips[j], s.target@, Some(s.timestamp), Some(s.timestamp), source_attr("snapshot"@)),
    )
}

pub open spec fn resolve_attrs() -> AttrsV {
    seq![
        ("source"@, "snapshot"@),
        ("inferred"@, "true"@),
        ("reason"@, "scan_result_only_has_target_level_resolved_ips"@),
    ]
}

pub open spec fn ip_edges(s: Snapshot, sub: Seq<char>) -> Seq<EdgeV> {
    let ips = crate::text::strings_view(s.scan.resolved_ips@);
    Seq::new(
        ips.len(),
        |j: int|
            edge_between(
                EdgeKind::ResolvesTo,
                node_id_of(NodeKind::Subdomain, sub),
                node_id_of(NodeKind::Ip, ips[j]),
                s.target@,
                Some(s.timestamp),
                Some(s.timestamp),
                resolve_attrs(),
            ),
    )
}

pub open spec fn contains_edge(s: Snapshot, sub: Seq<char>) -> EdgeV {
    edge_between(
        EdgeKind::Contains,
        node_id_of(NodeKind::Target, s.target@),
        node_id_of(NodeKind::Subdomain, sub),
        s.target@,
        Some(s.timestamp),
        Some(s.timestamp),
        source_attr("snapshot"@),
    )
}

/// The nodes added for the hosts: each host, then each resolved address.
pub open spec fn host_nodes(s: Snapshot, hosts: Seq<Seq<char>>) -> Seq<NodeV>
    decreases hosts.len(),
{
    if hosts.len() == 0 {
        Seq::empty()
    } else {
        host_nodes(s, hosts.drop_last()).push(sub_node(s, hosts.last())) + ip_nodes(s)
    }
}

/// The edges added for the hosts: the target contains each host, and each
/// host resolves to each address.
pub open spec fn host_edges(s: Snapshot, hosts: Seq<Seq<char>>) -> Seq<EdgeV>
    decreases hosts.len(),
{
    if hosts.len() == 0 {
        Seq::empty()
    } else {
        host_edges(s, hosts.drop_last()).push(contains_edge(s, hosts.last())) + ip_edges(s, hosts.last())
    }
}

/// The host a service hangs from: its own, or the target when it has none.
pub open spec fn parent_label(s: Snapshot, svc: HttpService) -> Seq<char> {
    if crate::text::trim(svc.host@).len() == 0 {
        s.target@
    } else {
        svc.host@
    }
}

pub open spec fn bool_text(b: bool) -> Seq<char> {
    if b {
        "true"@
    } else {
        "false"@
    }
}

pub open spec fn opt_attr(key: Seq<char>, value: Option<String>) -> AttrsV {
    match value {
        Some(v) => seq![(key, v@)],
        None => Seq::empty(),
    }
}

/// The attributes of a service node.
pub open spec fn service_attrs(svc: HttpService) -> AttrsV {
    seq![
        ("scheme"@, svc.scheme@),
        ("status"@, decimal(svc.status as nat)),
        ("host"@, svc.host@),
        ("tls_enabled"@, bool_text(svc.tls_enabled)),
    ] + opt_attr("server"@, svc.server) + opt_attr("provider"@, svc.provider) + opt_attr(
        "content_type"@,
        svc.content_type,
    ) + opt_attr("title"@, svc.title)
}

pub open spec fn service_part_nodes(s: Snapshot, svc: HttpService) -> Seq<NodeV> {
    let techs = crate::text::strings_view(svc.technologies@);
    seq![
        node_named(NodeKind::Subdomain, parent_label(s, svc), s.target@, Some(s.timestamp), Some(s.timestamp), source_attr("snapshot"@)),
        node_named(NodeKind::Service, svc.url@, s.target@, Some(s.timestamp), Some(s.timestamp), service_attrs(svc)),
    ] + Seq::new(
        techs.len(),
        |j: int| node_named(NodeKind::Technology, techs[j], s.target@, Some(s.timestamp), Some(s.timestamp), source_attr("snapshot"@)),
    )
}

pub open spec fn service_part_edges(s: Snapshot, svc: HttpService) -> Seq<EdgeV> {
    let techs = crate::text::strings_view(svc.technologies@);
    let service_id = node_id_of(NodeKind::Service, svc.url@);
    seq![
        edge_between(EdgeKind::Exposes, node_id_of(NodeKind::Subdomain, parent_label(s, svc)), service_id, s.target@, Some(s.timestamp), Some(s.timestamp), source_attr("snapshot"@)),
    ] + Seq::new(
        techs.len(),
        |j: int| edge_between(EdgeKind::FingerprintsAs, service_id, node_id_of(NodeKind::Technology, techs[j]), s.target@, Some(s.timestamp), Some(s.timestamp), source_attr("snapshot"@)),
    )
}

pub open spec fn services_nodes(s: Snapshot, svcs: Seq<HttpService>) -> Seq<NodeV>
    decreases svcs.len(),
{
    if svcs.len() == 0 {
        Seq::empty()
    } else {
        services_nodes(s, svcs.drop_last()) + service_part_nodes(s, svcs.last())
    }
}

pub open spec fn services_edges(s: Snapshot, svcs: Seq<HttpService>) -> Seq<EdgeV>
    decreases svcs.len(),
{
    if svcs.len() == 0 {
        Seq::empty()
    } else {
        services_edges(s, svcs.drop_last()) + service_part_edges(s, svcs.last())
    }
}

/// Every node a snapshot adds after its target node, in order.
pub open spec fn snapshot_nodes(s: Snapshot) -> Seq<NodeV> {
    host_nodes(s, known_hosts(s)) + services_nodes(s, s.scan.services@)
}

/// Every edge a snapshot adds, in order.
pub open spec fn snapshot_edges(s: Snapshot) -> Seq<EdgeV> {
    host_edges(s, known_hosts(s)) + services_edges(s, s.scan.services@)
}

pub(crate) proof fn lemma_fold_nodes_push(ns: Seq<NodeV>, list: Seq<NodeV>, x: NodeV)
    ensures
        fold_nodes(ns, list.push(x)) == upsert_node_spec(fold_nodes(ns, list), x),
{
    assert(list.push(x).drop_last() =~= list);
}

pub(crate) proof fn lemma_fold_edges_push(es: Seq<EdgeV>, list: Seq<EdgeV>, x: EdgeV)
    ensures
        fold_edges(es, list.push(x)) == upsert_edge_spec(fold_edges(es, list), x),
{
    assert(list.push(x).drop_last() =~= list);
}

/// Adds the nodes and edges of one host: the host, the target's edge to it,
/// and each resolved address with the host's edge to it.
fn add_host(
    s: &Snapshot,
    host: &String,
    ts_text: &String,
    nodes: &mut Vec<GraphNode>,
    edges: &mut Vec<GraphEdge>,
    Ghost(init_n): Ghost<Seq<NodeV>>,
    Ghost(list_n): Ghost<Seq<NodeV>>,
    Ghost(list_e): Ghost<Seq<EdgeV>>,
)
    requires
        ts_text@ == rfc3339(s.timestamp),
        nodes_view(old(nodes)@) == fold_nodes(init_n, list_n),
        edges_view(old(edges)@) == fold_edges(Seq::empty(), list_e),
    ensures
        nodes_view(final(nodes)@) == fold_nodes(init_n, list_n.push(sub_node(*s, host@)) + ip_nodes(*s)),
        edges_view(final(edges)@) == fold_edges(Seq::empty(), list_e.push(contains_edge(*s, host@)) + ip_edges(*s, host@)),
{
    let t = s.target.as_str();
    let ts = s.timestamp;
    let target_id = stable_node_id(&NodeKind::Target, t);
    let host_id = stable_node_id(&NodeKind::Subdomain, host.as_str());
    let mut attrs: Vec<(String, String)> = Vec::new();
    attrs.push(pair("source", owned("snapshot")));
    attrs.push(pair("snapshot_timestamp", ts_text.clone()));
    assert(attrs_view(attrs@) =~= seq![("source"@, "snapshot"@), ("snapshot_timestamp"@, rfc3339(ts))]);
    let n = make_node(NodeKind::Subdomain, host.as_str(), t, Some(ts), Some(ts), attrs);
    proof {
        lemma_fold_nodes_push(init_n, list_n, n@);
    }
    upsert_node(nodes, n);
    let e = make_edge(EdgeKind::Contains, target_id.as_str(), host_id.as_str(), t, Some(ts), Some(ts), source_attrs("snapshot"));
    proof {
        lemma_fold_edges_push(Seq::empty(), list_e, e@);
    }
    upsert_edge(edges, e);
    let ghost ln = list_n.push(sub_node(*s, host@));
    let ghost le = list_e.push(contains_edge(*s, host@));
    let ghost ipn = ip_nodes(*s);
    let ghost ipe = ip_edges(*s, host@);
    let ips = &s.scan.resolved_ips;
    let mut j: usize = 0;
    assert(ln + ipn.take(0) =~= ln);
    assert(le + ipe.take(0) =~= le);
    while j < ips.len()
        invariant
            j <= ips.len(),
            ips == &s.scan.resolved_ips,
            ipn == ip_nodes(*s),
            ipe == ip_edges(*s, host@),
            host_id@ == node_id_of(NodeKind::Subdomain, host@),
            t@ == s.target@,
            ts == s.timestamp,
            nodes_view(nodes@) == fold_nodes(init_n, ln + ipn.take(j as int)),
            edges_view(edges@) == fold_edges(Seq::empty(), le + ipe.take(j as int)),
        decreases ips.len() - j,
    {
        let ip = ips[j].as_str();
        let ip_id = stable_node_id(&NodeKind::Ip, ip);
        let n = make_node(NodeKind::Ip, ip, t, Some(ts), Some(ts), source_attrs("snapshot"));
        assert(crate::text::strings_view(s.scan.resolved_ips@)[j as int] == ip@);
        assert(n@ == ipn[j as int]);
        proof {
            lemma_fold_nodes_push(init_n, ln + ipn.take(j as int), n@);
            assert((ln + ipn.take(j as int)).push(n@) =~= ln + ipn.take(j + 1));
        }
        upsert_node(nodes, n);
        let mut ra: Vec<(String, String)> = Vec::new();
        ra.push(pair("source", owned("snapshot")));
        ra.push(pair("inferred", owned("true")));
        ra.push(pair("reason", owned("scan_result_only_has_target_level_resolved_ips")));
        assert(attrs_view(ra@) =~= resolve_attrs());
        let e = make_edge(EdgeKind::ResolvesTo, host_id.as_str(), ip_id.as_str(), t, Some(ts), Some(ts), ra);
        assert(e@ == ipe[j as int]);
        proof {
            lemma_fold_edges_push(Seq::empty(), le + ipe.take(j as int), e@);
            assert((le + ipe.take(j as int)).push(e@) =~= le + ipe.take(j + 1));
        }
        upsert_edge(edges, e);
        j = j + 1;
    }
    assert(ipn.take(ips.len() as int) =~= ipn);
    assert(ipe.take(ips.len() as int) =~= ipe);
}

/// `a` followed by the optional pair.
fn push_opt_attr(a: &mut Vec<(String, String)>, key: &str, value: &Option<String>)
    ensures
        attrs_view(final(a)@) == attrs_view(old(a)@) + opt_attr(key@, *value),
{
    match value {
        Some(v) => {
            let p = pair(key, v.clone());
            proof {
                assert(attrs_view(a@.push(p)) =~= attrs_view(a@) + opt_attr(key@, *value));
            }
            a.push(p);
        },
        None => {
            assert(attrs_view(a@) =~= attrs_view(a@) + opt_attr(key@, *value));
        },
    }
}

/// Adds the nodes and edges of one service: its host, itself, and each of
/// its technologies, with the edges between them.
fn add_service(
    s: &Snapshot,
    svc: &HttpService,
    nodes: &mut Vec<GraphNode>,
    edges: &mut Vec<GraphEdge>,
    Ghost(init_n): Ghost<Seq<NodeV>>,
    Ghost(list_n): Ghost<Seq<NodeV>>,
    Ghost(list_e): Ghost<Seq<EdgeV>>,
)
    requires
        nodes_view(old(nodes)@) == fold_nodes(init_n, list_n),
        edges_view(old(edges)@) == fold_edges(Seq::empty(), list_e),
    ensures
        nodes_view(final(nodes)@) == fold_nodes(init_n, list_n + service_part_nodes(*s, *svc)),
        edges_view(final(edges)@) == fold_edges(Seq::empty(), list_e + service_part_edges(*s, *svc)),
{
    let t = s.target.as_str();
    let ts = s.timestamp;
    let parent = if crate::text::is_blank(svc.host.as_str()) {
        t
    } else {
        svc.host.as_str()
    };
    assert(parent@ == parent_label(*s, *svc));
    let parent_id = stable_node_id(&NodeKind::Subdomain, parent);
    let pn = make_node(NodeKind::Subdomain, parent, t, Some(ts), Some(ts), source_attrs("snapshot"));
    proof {
        lemma_fold_nodes_push(init_n, list_n, pn@);
    }
    upsert_node(nodes, pn);
    let service_id = stable_node_id(&NodeKind::Service, svc.url.as_str());
    let mut attrs: Vec<(String, String)> = Vec::new();
    attrs.push(pair("scheme", svc.scheme.clone()));
    attrs.push(pair("status", crate::text::decimal_text(svc.status as u64)));
    attrs.push(pair("host", svc.host.clone()));
    attrs.push(pair("tls_enabled", owned(if svc.tls_enabled { "true" } else { "false" })));
    assert(attrs_view(attrs@) =~= seq![
        ("scheme"@, svc.scheme@),
        ("status"@, decimal(svc.status as nat)),
        ("host"@, svc.host@),
        ("tls_enabled"@, bool_text(svc.tls_enabled)),
    ]);
    push_opt_attr(&mut attrs, "server", &svc.server);
    push_opt_attr(&mut attrs, "provider", &svc.provider);
    push_opt_attr(&mut attrs, "content_type", &svc.content_type);
    push_opt_attr(&mut attrs, "title", &svc.title);
    let sn = make_node(NodeKind::Service, svc.url.as_str(), t, Some(ts), Some(ts), attrs);
    proof {
        lemma_fold_nodes_push(init_n, list_n.push(pn@), sn@);
    }
    upsert_node(nodes, sn);
    let e = make_edge(EdgeKind::Exposes, parent_id.as_str(), service_id.as_str(), t, Some(ts), Some(ts), source_attrs("snapshot"));
    proof {
        lemma_fold_edges_push(Seq::empty(), list_e, e@);
    }
    upsert_edge(edges, e);
    let ghost techs = crate::text::strings_view(svc.technologies@);
    let ghost ln = list_n.push(pn@).push(sn@);
    let ghost le = list_e.push(e@);
    let ghost tn = Seq::new(
        techs.len(),
        |j: int| node_named(NodeKind::Technology, techs[j], s.target@, Some(s.timestamp), Some(s.timestamp), source_attr("snapshot"@)),
    );
    let ghost te = Seq::new(
        techs.len(),
        |j: int| edge_between(EdgeKind::FingerprintsAs, service_id@, node_id_of(NodeKind::Technology, techs[j]), s.target@, Some(s.timestamp), Some(s.timestamp), source_attr("snapshot"@)),
    );
    let mut j: usize = 0;
    assert(ln + tn.take(0) =~= ln);
    assert(le + te.take(0) =~= le);
    while j < svc.technologies.len()
        invariant
            j <= svc.technologies.len(),
            techs == crate::text::strings_view(svc.technologies@),
            t@ == s.target@,
            ts == s.timestamp,
            service_id@ == node_id_of(NodeKind::Service, svc.url@),
            tn.len() == techs.len(),
            te.len() == techs.len(),
            forall|k: int| 0 <= k < techs.len() ==> #[trigger] tn[k] == node_named(NodeKind::Technology, techs[k], s.target@, Some(s.timestamp), Some(s.timestamp), source_attr("snapshot"@)),
            forall|k: int| 0 <= k < techs.len() ==> #[trigger] te[k] == edge_between(EdgeKind::FingerprintsAs, service_id@, node_id_of(NodeKind::Technology, techs[k]), s.target@, Some(s.timestamp), Some(s.timestamp), source_attr("snapshot"@)),
            nodes_view(nodes@) == fold_nodes(init_n, ln + tn.take(j as int)),
            edges_view(edges@) == fold_edges(Seq::empty(), le + te.take(j as int)),
        decreases svc.technologies.len() - j,
    {
        let tech = svc.technologies[j].as_str();
        let tech_id = stable_node_id(&NodeKind::Technology, tech);
        let n = make_node(NodeKind::Technology, tech, t, Some(ts), Some(ts), source_attrs("snapshot"));
        assert(techs[j as int] == tech@);
        assert(n@ == tn[j as int]);
        proof {
            lemma_fold_nodes_push(init_n, ln + tn.take(j as int), n@);
            assert((ln + tn.take(j as int)).push(n@) =~= ln + tn.take(j + 1));
        }
        upsert_node(nodes, n);
        let e = make_edge(EdgeKind::FingerprintsAs, service_id.as_str(), tech_id.as_str(), t, Some(ts), Some(ts), source_attrs("snapshot"));
        assert(e@ == te[j as int]);
        proof {
            lemma_fold_edges_push(Seq::empty(), le + te.take(j as int), e@);
            assert((le + te.take(j as int)).push(e@) =~= le + te.take(j + 1));
        }
        upsert_edge(edges, e);
        j = j + 1;
    }
    assert(tn.take(svc.technologies.len() as int) =~= tn);
    assert(te.take(svc.technologies.len() as int) =~= te);
    assert(ln + tn =~= list_n + service_part_nodes(*s, *svc));
    assert(le + te =~= list_e + service_part_edges(*s, *svc));
}

/// The graph of one snapshot at time `now`: its hosts (the target among
/// them), their addresses, its services and their technologies.
pub fn build_graph_from_snapshot_at(snapshot: &Snapshot, now: i64) -> (g: ExposureGraph)
    requires
        snapshot_edges(*snapshot).len() <= usize::MAX / 2,
    ensures
        g.target@ == snapshot.target@,
        g.generated_at == now,
        nodes_view(g.nodes@) == sort_by_lt(
            fold_nodes(seq![snapshot_target_node(*snapshot)], snapshot_nodes(*snapshot)),
            node_order(),
        ),
        edges_view(g.edges@) == sort_by_lt(fold_edges(Seq::empty(), snapshot_edges(*snapshot)), edge_order()),
        metadata_ok(g),
{
    let t = snapshot.target.as_str();
    let ts = snapshot.timestamp;
    let ts_text = rfc3339_text(ts);
    let mut target_attrs: Vec<(String, String)> = Vec::new();
    target_attrs.push(pair("snapshot_version", crate::text::decimal_text(snapshot.snapshot_version as u64)));
    target_attrs.push(pair("snapshot_timestamp", ts_text.clone()));
    assert(attrs_view(target_attrs@) =~= seq![
        ("snapshot_version"@, decimal(snapshot.snapshot_version as nat)),
        ("snapshot_timestamp"@, rfc3339(ts)),
    ]);
    let tn = make_node(NodeKind::Target, t, t, Some(ts), Some(ts), target_attrs);
    let mut nodes: Vec<GraphNode> = Vec::new();
    nodes.push(tn);
    let ghost init_n = seq![snapshot_target_node(*snapshot)];
    assert(nodes_view(nodes@) =~= init_n);
    let mut edges: Vec<GraphEdge> = Vec::new();
    assert(edges_view(edges@) =~= Seq::<EdgeV>::empty());
    let mut all = crate::drift::clone_strings(&snapshot.scan.subdomains);
    let tcopy = snapshot.target.clone();
    proof {
        crate::text::lemma_strings_view_push(all@, tcopy);
    }
    all.push(tcopy);
    let hosts = crate::order::sorted_unique(&all);
    let ghost hs = crate::text::strings_view(hosts@);
    assert(hs == known_hosts(*snapshot));
    let mut k: usize = 0;
    assert(hs.take(0) =~= Seq::<Seq<char>>::empty());
    while k < hosts.len()
        invariant
            k <= hosts.len(),
            hs == crate::text::strings_view(hosts@),
            init_n == seq![snapshot_target_node(*snapshot)],
            ts_text@ == rfc3339(snapshot.timestamp),
            nodes_view(nodes@) == fold_nodes(init_n, host_nodes(*snapshot, hs.take(k as int))),
            edges_view(edges@) == fold_edges(Seq::empty(), host_edges(*snapshot, hs.take(k as int))),
        decreases hosts.len() - k,
    {
        assert(hs.take(k + 1).drop_last() =~= hs.take(k as int));
        assert(hs.take(k + 1).last() == hosts@[k as int]@);
        add_host(
            snapshot,
            &hosts[k],
            &ts_text,
            &mut nodes,
            &mut edges,
            Ghost(init_n),
            Ghost(host_nodes(*snapshot, hs.take(k as int))),
            Ghost(host_edges(*snapshot, hs.take(k as int))),
        );
        k = k + 1;
    }
    assert(hs.take(hosts.len() as int) =~= hs);
    let ghost hn = host_nodes(*snapshot, hs);
    let ghost he = host_edges(*snapshot, hs);
    let ghost svcs = snapshot.scan.services@;
    let mut m: usize = 0;
    assert(svcs.take(0) =~= Seq::<HttpService>::empty());
    assert(hn + services_nodes(*snapshot, svcs.take(0)) =~= hn);
    assert(he + services_edges(*snapshot, svcs.take(0)) =~= he);
    while m < snapshot.scan.services.len()
        invariant
            m <= snapshot.scan.services.len(),
            svcs == snapshot.scan.services@,
            nodes_view(nodes@) == fold_nodes(init_n, hn + services_nodes(*snapshot, svcs.take(m as int))),
            edges_view(edges@) == fold_edges(Seq::empty(), he + services_edges(*snapshot, svcs.take(m as int))),
        decreases snapshot.scan.services.len() - m,
    {
        assert(svcs.take(m + 1).drop_last() =~= svcs.take(m as int));
        assert(svcs.take(m + 1).last() == svcs[m as int]);
        add_service(
            snapshot,
            &snapshot.scan.services[m],
            &mut nodes,
            &mut edges,
            Ghost(init_n),
            Ghost(hn + services_nodes(*snapshot, svcs.take(m as int))),
            Ghost(he + services_edges(*snapshot, svcs.take(m as int))),
        );
        proof {
            assert(hn + services_nodes(*snapshot, svcs.take(m as int)) + service_part_nodes(*snapshot, svcs[m as int])
                =~= hn + services_nodes(*snapshot, svcs.take(m + 1)));
            assert(he + services_edges(*snapshot, svcs.take(m as int)) + service_part_edges(*snapshot, svcs[m as int])
                =~= he + services_edges(*snapshot, svcs.take(m + 1)));
        }
        m = m + 1;
    }
    assert(svcs.take(snapshot.scan.services.len() as int) =~= svcs);
    proof {
        lemma_fold_edges_len(Seq::empty(), snapshot_edges(*snapshot));
    }
    finish_graph(owned(t), now, nodes, edges)
}

/// The graph of one snapshot, generated now.
pub fn build_graph_from_snapshot(snapshot: &Snapshot) -> (g: ExposureGraph)
    requires
        snapshot_edges(*snapshot).len() <= usize::MAX / 2,
    ensures
        g.target@ == snapshot.target@,
        nodes_view(g.nodes@) == sort_by_lt(
            fold_nodes(seq![snapshot_target_node(*snapshot)], snapshot_nodes(*snapshot)),
            node_order(),
        ),
        edges_view(g.edges@) == sort_by_lt(fold_edges(Seq::empty(), snapshot_edges(*snapshot)), edge_order()),
        metadata_ok(g),
        ids_ordered(nodes_view(g.nodes@), edges_view(g.edges@)),
{
    let now = crate::jobs::now_timestamp();
    let g = build_graph_from_snapshot_at(snapshot, now);
    proof {
        law_folded_ids_ordered(
            seq![snapshot_target_node(*snapshot)],
            snapshot_nodes(*snapshot),
            Seq::empty(),
            snapshot_edges(*snapshot),
        );
    }
    g
}

} // verus!

verus! {

/// No two nodes share an identifier.
pub open spec fn distinct_node_ids(ns: Seq<NodeV>) -> bool {
    forall|i: int, j: int| 0 <= i < j < ns.len() ==> (#[trigger] ns[i]).node_id != (#[trigger] ns[j]).node_id
}

/// No two edges share an identifier.
pub open spec fn distinct_edge_ids(es: Seq<EdgeV>) -> bool {
    forall|i: int, j: int| 0 <= i < j < es.len() ==> (#[trigger] es[i]).edge_id != (#[trigger] es[j]).edge_id
}

/// Some node has identifier `id`.
pub open spec fn has_node(ns: Seq<NodeV>, id: Seq<char>) -> bool {
    exists|i: int| 0 <= i < ns.len() && (#[trigger] ns[i]).node_id == id
}

/// Some edge has identifier `id`.
pub open spec fn has_edge(es: Seq<EdgeV>, id: Seq<char>) -> bool {
    exists|i: int| 0 <= i < es.len() && (#[trigger] es[i]).edge_id == id
}

/// Adding a node to a graph whose node identifiers are distinct keeps them
/// distinct, loses no node, adds the node's identifier, and grows the graph
/// by one node exactly when that identifier was new.
pub proof fn law_upsert_node(ns: Seq<NodeV>, n: NodeV)
    requires
        distinct_node_ids(ns),
    ensures
        distinct_node_ids(upsert_node_spec(ns, n)),
        forall|id: Seq<char>| has_node(upsert_node_spec(ns, n), id) <==> (has_node(ns, id) || id == n.node_id),
        upsert_node_spec(ns, n).len() == ns.len() + if has_node(ns, n.node_id) { 0int } else { 1int },
{
    lemma_node_index(ns, n.node_id);
    let r = upsert_node_spec(ns, n);
    match node_index(ns, n.node_id) {
        Some(i) => {
            assert(has_node(ns, n.node_id));
            assert forall|j: int| 0 <= j < r.len() implies (#[trigger] r[j]).node_id == ns[j].node_id by {}
            assert forall|id: Seq<char>| has_node(r, id) <==> (has_node(ns, id) || id == n.node_id) by {
                if has_node(r, id) {
                    let j = choose|j: int| 0 <= j < r.len() && (#[trigger] r[j]).node_id == id;
                    assert(ns[j].node_id == id);
                }
                if has_node(ns, id) {
                    let j = choose|j: int| 0 <= j < ns.len() && (#[trigger] ns[j]).node_id == id;
                    assert(r[j].node_id == id);
                }
                if id == n.node_id {
                    assert(r[i].node_id == id);
                }
            }
        },
        None => {
            assert(!has_node(ns, n.node_id));
            assert forall|a: int, b: int| 0 <= a < b < r.len() implies (#[trigger] r[a]).node_id != (#[trigger] r[b]).node_id by {
                if b == ns.len() {
                    assert(r[a] == ns[a]);
                } else {
                    assert(r[a] == ns[a] && r[b] == ns[b]);
                }
            }
            assert forall|id: Seq<char>| has_node(r, id) <==> (has_node(ns, id) || id == n.node_id) by {
                if has_node(r, id) {
                    let j = choose|j: int| 0 <= j < r.len() && (#[trigger] r[j]).node_id == id;
                    if j < ns.len() {
                        assert(ns[j].node_id == id);
                    }
                }
                if has_node(ns, id) {
                    let j = choose|j: int| 0 <= j < ns.len() && (#[trigger] ns[j]).node_id == id;
                    assert(r[j].node_id == id);
                }
                if id == n.node_id {
                    assert(r[ns.len() as int].node_id == id);
                }
            }
        },
    }
}

/// Adding an edge to a graph whose edge identifiers are distinct keeps them
/// distinct, loses no edge, adds the edge's identifier, and grows the graph
/// by one edge exactly when that identifier was new.
pub proof fn law_upsert_edge(es: Seq<EdgeV>, e: EdgeV)
    requires
        distinct_edge_ids(es),
    ensures
        distinct_edge_ids(upsert_edge_spec(es, e)),
        forall|id: Seq<char>| has_edge(upsert_edge_spec(es, e), id) <==> (has_edge(es, id) || id == e.edge_id),
        upsert_edge_spec(es, e).len() == es.len() + if has_edge(es, e.edge_id) { 0int } else { 1int },
{
    lemma_edge_index(es, e.edge_id);
    let r = upsert_edge_spec(es, e);
    match edge_index(es, e.edge_id) {
        Some(i) => {
            assert(has_edge(es, e.edge_id));
            assert forall|j: int| 0 <= j < r.len() implies (#[trigger] r[j]).edge_id == es[j].edge_id by {}
            assert forall|id: Seq<char>| has_edge(r, id) <==> (has_edge(es, id) || id == e.edge_id) by {
                if has_edge(r, id) {
                    let j = choose|j: int| 0 <= j < r.len() && (#[trigger] r[j]).edge_id == id;
                    assert(es[j].edge_id == id);
                }
                if has_edge(es, id) {
                    let j = choose|j: int| 0 <= j < es.len() && (#[trigger] es[j]).edge_id == id;
                    assert(r[j].edge_id == id);
                }
                if id == e.edge_id {
                    assert(r[i].edge_id == id);
                }
            }
        },
        None => {
            assert(!has_edge(es, e.edge_id));
            assert forall|a: int, b: int| 0 <= a < b < r.len() implies (#[trigger] r[a]).edge_id != (#[trigger] r[b]).edge_id by {
                if b == es.len() {
                    assert(r[a] == es[a]);
                } else {
                    assert(r[a] == es[a] && r[b] == es[b]);
                }
            }
            assert forall|id: Seq<char>| has_edge(r, id) <==> (has_edge(es, id) || id == e.edge_id) by {
                if has_edge(r, id) {
                    let j = choose|j: int| 0 <= j < r.len() && (#[trigger] r[j]).edge_id == id;
                    if j < es.len() {
                        assert(es[j].edge_id == id);
                    }
                }
                if has_edge(es, id) {
                    let j = choose|j: int| 0 <= j < es.len() && (#[trigger] es[j]).edge_id == id;
                    assert(r[j].edge_id == id);
                }
                if id == e.edge_id {
                    assert(r[es.len() as int].edge_id == id);
                }
            }
        },
    }
}

/// Adding a list of nodes keeps node identifiers distinct: the graph holds
/// one node per identifier of its nodes and of the list.
pub proof fn law_fold_nodes(ns: Seq<NodeV>, list: Seq<NodeV>)
    requires
        distinct_node_ids(ns),
    ensures
        distinct_node_ids(fold_nodes(ns, list)),
        forall|id: Seq<char>|
            has_node(fold_nodes(ns, list), id) <==> (has_node(ns, id) || has_node(list, id)),
    decreases list.len(),
{
    if list.len() > 0 {
        let prev = fold_nodes(ns, list.drop_last());
        law_fold_nodes(ns, list.drop_last());
        law_upsert_node(prev, list.last());
        assert forall|id: Seq<char>| has_node(fold_nodes(ns, list), id) <==> (has_node(ns, id) || has_node(list, id)) by {
            if has_node(list.drop_last(), id) {
                let j = choose|j: int| 0 <= j < list.drop_last().len() && (#[trigger] list.drop_last()[j]).node_id == id;
                assert(list[j].node_id == id);
            }
            if has_node(list, id) {
                let j = choose|j: int| 0 <= j < list.len() && (#[trigger] list[j]).node_id == id;
                if j < list.len() - 1 {
                    assert(list.drop_last()[j].node_id == id);
                }
            }
        }
    }
}

/// Adding a list of edges keeps edge identifiers distinct: the graph holds
/// one edge per identifier of its edges and of the list.
pub proof fn law_fold_edges(es: Seq<EdgeV>, list: Seq<EdgeV>)
    requires
        distinct_edge_ids(es),
    ensures
        distinct_edge_ids(fold_edges(es, list)),
        forall|id: Seq<char>|
            has_edge(fold_edges(es, list), id) <==> (has_edge(es, id) || has_edge(list, id)),
    decreases list.len(),
{
    if list.len() > 0 {
        let prev = fold_edges(es, list.drop_last());
        law_fold_edges(es, list.drop_last());
        law_upsert_edge(prev, list.last());
        assert forall|id: Seq<char>| has_edge(fold_edges(es, list), id) <==> (has_edge(es, id) || has_edge(list, id)) by {
            if has_edge(list.drop_last(), id) {
                let j = choose|j: int| 0 <= j < list.drop_last().len() && (#[trigger] list.drop_last()[j]).edge_id == id;
                assert(list[j].edge_id == id);
            }
            if has_edge(list, id) {
                let j = choose|j: int| 0 <= j < list.len() && (#[trigger] list[j]).edge_id == id;
                if j < list.len() - 1 {
                    assert(list.drop_last()[j].edge_id == id);
                }
            }
        }
    }
}

/// Node and edge identifiers are distinct and in increasing order, as every
/// graph that building or merging gives has them.
pub open spec fn ids_ordered(ns: Seq<NodeV>, es: Seq<EdgeV>) -> bool {
    &&& distinct_node_ids(ns)
    &&& sorted_by(ns, node_order())
    &&& distinct_edge_ids(es)
    &&& sorted_by(es, edge_order())
}

proof fn lemma_orders_strict()
    ensures
        strict_order(node_order()),
        strict_order(edge_order()),
{
    assert forall|a: NodeV| !(#[trigger] (node_order())(a, a)) by {
        lemma_lt_irreflexive(a.node_id);
    }
    assert forall|a: NodeV, b: NodeV, c: NodeV|
        #[trigger] (node_order())(a, b) && #[trigger] (node_order())(b, c) implies (node_order())(a, c) by {
        lemma_lt_transitive(a.node_id, b.node_id, c.node_id);
    }
    assert forall|a: EdgeV| !(#[trigger] (edge_order())(a, a)) by {
        lemma_lt_irreflexive(a.edge_id);
    }
    assert forall|a: EdgeV, b: EdgeV, c: EdgeV|
        #[trigger] (edge_order())(a, b) && #[trigger] (edge_order())(b, c) implies (edge_order())(a, c) by {
        lemma_lt_transitive(a.edge_id, b.edge_id, c.edge_id);
    }
}

/// Adding nodes and edges to distinct ones and sorting, as building and
/// merging a graph do, leaves identifiers distinct and in increasing order.
pub proof fn law_folded_ids_ordered(ns: Seq<NodeV>, nlist: Seq<NodeV>, es: Seq<EdgeV>, elist: Seq<EdgeV>)
    requires
        distinct_node_ids(ns),
        distinct_edge_ids(es),
    ensures
        ids_ordered(
            sort_by_lt(fold_nodes(ns, nlist), node_order()),
            sort_by_lt(fold_edges(es, elist), edge_order()),
        ),
{
    lemma_orders_strict();
    law_fold_nodes(ns, nlist);
    law_fold_edges(es, elist);
    let fnodes = fold_nodes(ns, nlist);
    let fedges = fold_edges(es, elist);
    lemma_sort_by_lt(fnodes, node_order());
    lemma_sort_by_lt(fedges, edge_order());
    lemma_sort_by_lt_distinct(fnodes, node_order(), |n: NodeV| n.node_id);
    lemma_sort_by_lt_distinct(fedges, edge_order(), |e: EdgeV| e.edge_id);
    let sn = sort_by_lt(fnodes, node_order());
    let se = sort_by_lt(fedges, edge_order());
    assert forall|i: int, j: int| 0 <= i < j < sn.len() implies (#[trigger] sn[i]).node_id != (#[trigger] sn[j]).node_id by {
        assert((|n: NodeV| n.node_id)(sn[i]) != (|n: NodeV| n.node_id)(sn[j]));
    }
    assert forall|i: int, j: int| 0 <= i < j < se.len() implies (#[trigger] se[i]).edge_id != (#[trigger] se[j]).edge_id by {
        assert((|e: EdgeV| e.edge_id)(se[i]) != (|e: EdgeV| e.edge_id)(se[j]));
    }
}

proof fn lemma_fold_known_nodes(ns: Seq<NodeV>, list: Seq<NodeV>)
    requires
        distinct_node_ids(ns),
        forall|i: int| 0 <= i < list.len() ==> has_node(ns, (#[trigger] list[i]).node_id),
    ensures
        fold_nodes(ns, list).len() == ns.len(),
        forall|j: int| 0 <= j < ns.len() ==> (#[trigger] fold_nodes(ns, list)[j]).node_id == ns[j].node_id,
    decreases list.len(),
{
    if list.len() > 0 {
        let prefix = list.drop_last();
        assert forall|i: int| 0 <= i < prefix.len() implies has_node(ns, (#[trigger] prefix[i]).node_id) by {
            assert(prefix[i] == list[i]);
        }
        lemma_fold_known_nodes(ns, prefix);
        let prev = fold_nodes(ns, prefix);
        let n = list.last();
        assert(has_node(ns, list[list.len() - 1].node_id));
        let k = choose|k: int| 0 <= k < ns.len() && (#[trigger] ns[k]).node_id == n.node_id;
        assert(prev[k].node_id == n.node_id);
        lemma_node_index(prev, n.node_id);
        assert(fold_nodes(ns, list) == upsert_node_spec(prev, n));
    }
}

proof fn lemma_fold_known_edges(es: Seq<EdgeV>, list: Seq<EdgeV>)
    requires
        distinct_edge_ids(es),
        forall|i: int| 0 <= i < list.len() ==> has_edge(es, (#[trigger] list[i]).edge_id),
    ensures
        fold_edges(es, list).len() == es.len(),
        forall|j: int| 0 <= j < es.len() ==> (#[trigger] fold_edges(es, list)[j]).edge_id == es[j].edge_id,
    decreases list.len(),
{
    if list.len() > 0 {
        let prefix = list.drop_last();
        assert forall|i: int| 0 <= i < prefix.len() implies has_edge(es, (#[trigger] prefix[i]).edge_id) by {
            assert(prefix[i] == list[i]);
        }
        lemma_fold_known_edges(es, prefix);
        let prev = fold_edges(es, prefix);
        let e = list.last();
        assert(has_edge(es, list[list.len() - 1].edge_id));
        let k = choose|k: int| 0 <= k < es.len() && (#[trigger] es[k]).edge_id == e.edge_id;
        assert(prev[k].edge_id == e.edge_id);
        lemma_edge_index(prev, e.edge_id);
        assert(fold_edges(es, list) == upsert_edge_spec(prev, e));
    }
}

/// Merging into a graph a graph whose nodes and edges it already has, such
/// as an equal one, adds nothing: the same number of nodes and edges, with
/// the same identifiers in the same order.
pub proof fn law_merge_known_graph_adds_nothing(ns: Seq<NodeV>, es: Seq<EdgeV>, other_ns: Seq<NodeV>, other_es: Seq<EdgeV>)
    requires
        ids_ordered(ns, es),
        forall|i: int| 0 <= i < other_ns.len() ==> has_node(ns, (#[trigger] other_ns[i]).node_id),
        forall|i: int| 0 <= i < other_es.len() ==> has_edge(es, (#[trigger] other_es[i]).edge_id),
    ensures
        sort_by_lt(fold_nodes(ns, other_ns), node_order()).len() == ns.len(),
        forall|j: int|
            0 <= j < ns.len() ==> (#[trigger] sort_by_lt(fold_nodes(ns, other_ns), node_order())[j]).node_id
                == ns[j].node_id,
        sort_by_lt(fold_edges(es, other_es), edge_order()).len() == es.len(),
        forall|j: int|
            0 <= j < es.len() ==> (#[trigger] sort_by_lt(fold_edges(es, other_es), edge_order())[j]).edge_id
                == es[j].edge_id,
{
    lemma_fold_known_nodes(ns, other_ns);
    lemma_fold_known_edges(es, other_es);
    let fnodes = fold_nodes(ns, other_ns);
    let fedges = fold_edges(es, other_es);
    assert(sorted_by(fnodes, node_order())) by {
        assert forall|i: int, j: int| 0 <= i < j < fnodes.len() implies !(node_order())(#[trigger] fnodes[j], #[trigger] fnodes[i]) by {
            assert(fnodes[j].node_id == ns[j].node_id && fnodes[i].node_id == ns[i].node_id);
            assert(!(node_order())(ns[j], ns[i]));
        }
    }
    assert(sorted_by(fedges, edge_order())) by {
        assert forall|i: int, j: int| 0 <= i < j < fedges.len() implies !(edge_order())(#[trigger] fedges[j], #[trigger] fedges[i]) by {
            assert(fedges[j].edge_id == es[j].edge_id && fedges[i].edge_id == es[i].edge_id);
            assert(!(edge_order())(es[j], es[i]));
        }
    }
    lemma_sort_by_lt_sorted(fnodes, node_order());
    lemma_sort_by_lt_sorted(fedges, edge_order());
}

/// A graph merged with an equal graph keeps its node and edge identifiers,
/// in order: the law above applied to the graph's own contents.
pub proof fn law_merge_with_itself_adds_nothing(ns: Seq<NodeV>, es: Seq<EdgeV>)
    requires
        ids_ordered(ns, es),
    ensures
        sort_by_lt(fold_nodes(ns, ns), node_order()).len() == ns.len(),
        forall|j: int|
            0 <= j < ns.len() ==> (#[trigger] sort_by_lt(fold_nodes(ns, ns), node_order())[j]).node_id
                == ns[j].node_id,
        sort_by_lt(fold_edges(es, es), edge_order()).len() == es.len(),
        forall|j: int|
            0 <= j < es.len() ==> (#[trigger] sort_by_lt(fold_edges(es, es), edge_order())[j]).edge_id
                == es[j].edge_id,
{
    assert forall|i: int| 0 <= i < ns.len() implies has_node(ns, (#[trigger] ns[i]).node_id) by {}
    assert forall|i: int| 0 <= i < es.len() implies has_edge(es, (#[trigger] es[i]).edge_id) by {}
    law_merge_known_graph_adds_nothing(ns, es, ns, es);
}

/// Merging the graph of a snapshot with the graph of the same snapshot adds
/// nothing: the merged nodes and edges are as many as before, with the same
/// identifiers in the same order.
pub proof fn law_merge_same_snapshot_adds_nothing(s: Snapshot)
    ensures
        ({
            let ns = sort_by_lt(fold_nodes(seq![snapshot_target_node(s)], snapshot_nodes(s)), node_order());
            let es = sort_by_lt(fold_edges(Seq::empty(), snapshot_edges(s)), edge_order());
            &&& sort_by_lt(fold_nodes(ns, ns), node_order()).len() == ns.len()
            &&& forall|j: int|
                0 <= j < ns.len() ==> (#[trigger] sort_by_lt(fold_nodes(ns, ns), node_order())[j]).node_id
                    == ns[j].node_id
            &&& sort_by_lt(fold_edges(es, es), edge_order()).len() == es.len()
            &&& forall|j: int|
                0 <= j < es.len() ==> (#[trigger] sort_by_lt(fold_edges(es, es), edge_order())[j]).edge_id
                    == es[j].edge_id
        }),
{
    let ns = sort_by_lt(fold_nodes(seq![snapshot_target_node(s)], snapshot_nodes(s)), node_order());
    let es = sort_by_lt(fold_edges(Seq::empty(), snapshot_edges(s)), edge_order());
    law_folded_ids_ordered(seq![snapshot_target_node(s)], snapshot_nodes(s), Seq::empty(), snapshot_edges(s));
    law_merge_with_itself_adds_nothing(ns, es);
}

} // verus!

