//! Exposure graphs built from other analyses: the episodes of a target, and
//! the resources a timeline's findings touch.
use vstd::prelude::*;
use crate::correlation::{episode_state_name, kind_name, EpisodeCollection, EpisodeV, RiskEpisode, episodes_view};
use crate::drift::{
    asset_type_name, criticality_name, finding_state_name, findings_view, severity_name, DriftFinding,
    FindingV,
};
use crate::timeline::{TimelineReport, TimelineTransition};
use crate::graph::{
    AttrsV, EdgeKind, EdgeV, ExposureGraph, GraphEdge, GraphNode, NodeKind, NodeV, attrs_view,
    edge_between, edge_order, edges_view, finish_graph, fold_edges, fold_nodes, infer_node_kind_from_resource,
    lemma_fold_edges_len, lemma_fold_edges_push, lemma_fold_nodes_push, make_edge, make_node,
    max_datetime, max_time, metadata_ok, min_datetime, min_time, node_id_of, node_kind_of_resource,
    node_named, node_order, nodes_view, pair,
    source_attr, source_attrs, stable_node_id, target_node, upsert_edge, upsert_node,
    build_graph_from_snapshot, snapshot_edges, snapshot_nodes, snapshot_target_node,
};
use crate::order::{lemma_sort_by_lt_len, seq_lt, sort_by_lt, sorted_distinct, sorted_unique, str_less};
use crate::diff::Snapshot;
use crate::text::{decimal, decimal_text, lemma_strings_view_push, owned, push_str, str_eq, strings_view};

verus! {

/// The identifier of an episode's node.
pub open spec fn episode_node_id(e: EpisodeV) -> Seq<char> {
    node_id_of(NodeKind::Episode, e.episode_id)
}

/// The attributes of an episode's node.
pub open spec fn episode_attrs(e: EpisodeV) -> AttrsV {
    seq![
        ("episode_id"@, e.episode_id),
        ("kind"@, kind_name(e.kind)),
        ("severity"@, severity_name(e.severity)),
        ("criticality"@, criticality_name(e.criticality)),
        ("state"@, episode_state_name(e.state)),
        ("score"@, decimal(e.score as nat)),
        ("resource_count"@, decimal(e.resource_count as nat)),
    ]
}

/// An episode's node: labelled by its title, seen while the episode lasted.
pub open spec fn episode_node(target: Seq<char>, e: EpisodeV) -> NodeV {
    NodeV {
        node_id: episode_node_id(e),
        kind: NodeKind::Episode,
        label: e.title,
        target,
        first_seen: Some(e.started_at),
        last_seen: Some(e.ended_at),
        attributes: episode_attrs(e),
    }
}

/// The node of a resource an episode touches.
pub open spec fn episode_resource_node(target: Seq<char>, e: EpisodeV, r: Seq<char>) -> NodeV {
    node_named(node_kind_of_resource(r), r, target, Some(e.started_at), Some(e.ended_at), source_attr("episodes"@))
}

/// The edge from the target to an episode.
pub open spec fn episode_contains_edge(target: Seq<char>, e: EpisodeV) -> EdgeV {
    edge_between(
        EdgeKind::Contains,
        node_id_of(NodeKind::Target, target),
        episode_node_id(e),
        target,
        Some(e.started_at),
        Some(e.ended_at),
        source_attr("episodes"@),
    )
}

/// The edge from a resource to the episode it takes part in.
pub open spec fn episode_resource_edge(target: Seq<char>, e: EpisodeV, r: Seq<char>) -> EdgeV {
    edge_between(
        EdgeKind::ParticipatesIn,
        node_id_of(node_kind_of_resource(r), r),
        episode_node_id(e),
        target,
        Some(e.started_at),
        Some(e.ended_at),
        source_attr("episodes"@),
    )
}

/// The nodes one episode adds, in order: its own, then its resources'.
pub open spec fn episode_nodes(target: Seq<char>, e: EpisodeV) -> Seq<NodeV> {
    seq![episode_node(target, e)] + Seq::new(
        e.resources.len(),
        |i: int| episode_resource_node(target, e, e.resources[i]),
    )
}

/// The edges one episode adds, in order: from the target, then from its
/// resources.
pub open spec fn episode_edges(target: Seq<char>, e: EpisodeV) -> Seq<EdgeV> {
    seq![episode_contains_edge(target, e)] + Seq::new(
        e.resources.len(),
        |i: int| episode_resource_edge(target, e, e.resources[i]),
    )
}

/// The nodes a list of episodes adds, in order.
pub open spec fn episodes_nodes(target: Seq<char>, es: Seq<EpisodeV>) -> Seq<NodeV>
    decreases es.len(),
{
    if es.len() == 0 {
        Seq::empty()
    } else {
        episodes_nodes(target, es.drop_last()) + episode_nodes(target, es.last())
    }
}

/// The edges a list of episodes adds, in order.
pub open spec fn episodes_edges(target: Seq<char>, es: Seq<EpisodeV>) -> Seq<EdgeV>
    decreases es.len(),
{
    if es.len() == 0 {
        Seq::empty()
    } else {
        episodes_edges(target, es.drop_last()) + episode_edges(target, es.last())
    }
}

/// Adds one episode's nodes and edges.
fn add_episode(
    target: &str,
    e: &RiskEpisode,
    nodes: &mut Vec<GraphNode>,
    edges: &mut Vec<GraphEdge>,
    Ghost(init_n): Ghost<Seq<NodeV>>,
    Ghost(list_n): Ghost<Seq<NodeV>>,
    Ghost(list_e): Ghost<Seq<EdgeV>>,
)
    requires
        nodes_view(old(nodes)@) == fold_nodes(init_n, list_n),
        edges_view(old(edges)@) == fold_edges(Seq::empty(), list_e),
    ensures
        nodes_view(final(nodes)@) == fold_nodes(init_n, list_n + episode_nodes(target@, e@)),
        edges_view(final(edges)@) == fold_edges(Seq::empty(), list_e + episode_edges(target@, e@)),
{
    let episode_id = stable_node_id(&NodeKind::Episode, e.episode_id.as_str());
    let target_id = stable_node_id(&NodeKind::Target, target);
    let mut attrs: Vec<(String, String)> = Vec::new();
    attrs.push(pair("episode_id", e.episode_id.clone()));
    attrs.push(pair("kind", e.kind.to_string()));
    attrs.push(pair("severity", e.severity.to_string()));
    attrs.push(pair("criticality", e.criticality.to_string()));
    attrs.push(pair("state", owned(e.state.as_str())));
    attrs.push(pair("score", decimal_text(e.score as u64)));
    attrs.push(pair("resource_count", decimal_text(e.resource_count as u64)));
    assert(attrs_view(attrs@) =~= episode_attrs(e@));
    let en = GraphNode {
        node_id: episode_id.clone(),
        kind: NodeKind::Episode,
        label: e.title.clone(),
        target: owned(target),
        first_seen: Some(e.started_at),
        last_seen: Some(e.ended_at),
        attributes: attrs,
    };
    assert(en@ == episode_node(target@, e@));
    proof {
        lemma_fold_nodes_push(init_n, list_n, en@);
    }
    upsert_node(nodes, en);
    let ce = make_edge(
        EdgeKind::Contains,
        target_id.as_str(),
        episode_id.as_str(),
        target,
        Some(e.started_at),
        Some(e.ended_at),
        source_attrs("episodes"),
    );
    proof {
        lemma_fold_edges_push(Seq::empty(), list_e, ce@);
    }
    upsert_edge(edges, ce);
    let ghost ln = list_n.push(episode_node(target@, e@));
    let ghost le = list_e.push(episode_contains_edge(target@, e@));
    let ghost rn = Seq::new(e@.resources.len(), |i: int| episode_resource_node(target@, e@, e@.resources[i]));
    let ghost re = Seq::new(e@.resources.len(), |i: int| episode_resource_edge(target@, e@, e@.resources[i]));
    let mut j: usize = 0;
    assert(rn.take(0) =~= Seq::<NodeV>::empty());
    assert(re.take(0) =~= Seq::<EdgeV>::empty());
    assert(ln + rn.take(0) =~= ln);
    assert(le + re.take(0) =~= le);
    while j < e.resources.len()
        invariant
            j <= e.resources@.len(),
            episode_id@ == episode_node_id(e@),
            rn == Seq::new(e@.resources.len(), |i: int| episode_resource_node(target@, e@, e@.resources[i])),
            re == Seq::new(e@.resources.len(), |i: int| episode_resource_edge(target@, e@, e@.resources[i])),
            e@.resources.len() == e.resources@.len(),
            nodes_view(nodes@) == fold_nodes(init_n, ln + rn.take(j as int)),
            edges_view(edges@) == fold_edges(Seq::empty(), le + re.take(j as int)),
        decreases e.resources.len() - j,
    {
        let r = e.resources[j].as_str();
        assert(e@.resources[j as int] == r@);
        let kind = infer_node_kind_from_resource(r);
        let resource_id = stable_node_id(&kind, r);
        let rnode = make_node(kind, r, target, Some(e.started_at), Some(e.ended_at), source_attrs("episodes"));
        proof {
            lemma_fold_nodes_push(init_n, ln + rn.take(j as int), rnode@);
            assert((ln + rn.take(j as int)).push(rnode@) =~= ln + rn.take(j + 1));
        }
        upsert_node(nodes, rnode);
        let redge = make_edge(
            EdgeKind::ParticipatesIn,
            resource_id.as_str(),
            episode_id.as_str(),
            target,
            Some(e.started_at),
            Some(e.ended_at),
            source_attrs("episodes"),
        );
        proof {
            lemma_fold_edges_push(Seq::empty(), le + re.take(j as int), redge@);
            assert((le + re.take(j as int)).push(redge@) =~= le + re.take(j + 1));
        }
        upsert_edge(edges, redge);
        j = j + 1;
    }
    assert(rn.take(e.resources@.len() as int) =~= rn);
    assert(re.take(e.resources@.len() as int) =~= re);
    assert(ln + rn =~= list_n + episode_nodes(target@, e@));
    assert(le + re =~= list_e + episode_edges(target@, e@));
}

/// The graph of a target's episodes at time `now`: the target, each episode
/// it contains, and the resources taking part in each.
pub fn build_graph_from_episode_collection_at(collection: &EpisodeCollection, now: i64) -> (g: ExposureGraph)
    requires
        episodes_edges(collection.target@, episodes_view(collection.episodes@)).len() <= usize::MAX / 2,
    ensures
        g.target@ == collection.target@,
        g.generated_at == now,
        nodes_view(g.nodes@) == sort_by_lt(
            fold_nodes(
                seq![target_node(collection.target@)],
                episodes_nodes(collection.target@, episodes_view(collection.episodes@)),
            ),
            node_order(),
        ),
        edges_view(g.edges@) == sort_by_lt(
            fold_edges(Seq::empty(), episodes_edges(collection.target@, episodes_view(collection.episodes@))),
            edge_order(),
        ),
        metadata_ok(g),
{
    let t = collection.target.as_str();
    let ghost eps = episodes_view(collection.episodes@);
    let ghost init_n = seq![target_node(t@)];
    let mut nodes: Vec<GraphNode> = Vec::new();
    let attrs: Vec<(String, String)> = Vec::new();
    assert(attrs_view(attrs@) =~= Seq::empty());
    nodes.push(make_node(NodeKind::Target, t, t, None, None, attrs));
    assert(nodes_view(nodes@) =~= fold_nodes(init_n, Seq::empty()));
    let mut edges: Vec<GraphEdge> = Vec::new();
    assert(edges_view(edges@) =~= fold_edges(Seq::empty(), Seq::empty()));
    let mut k: usize = 0;
    assert(eps.take(0) =~= Seq::<EpisodeV>::empty());
    while k < collection.episodes.len()
        invariant
            k <= collection.episodes@.len(),
            eps == episodes_view(collection.episodes@),
            init_n == seq![target_node(t@)],
            nodes_view(nodes@) == fold_nodes(init_n, episodes_nodes(t@, eps.take(k as int))),
            edges_view(edges@) == fold_edges(Seq::empty(), episodes_edges(t@, eps.take(k as int))),
        decreases collection.episodes.len() - k,
    {
        assert(eps.take(k + 1).drop_last() =~= eps.take(k as int));
        assert(eps.take(k + 1).last() == collection.episodes@[k as int]@);
        add_episode(
            t,
            &collection.episodes[k],
            &mut nodes,
            &mut edges,
            Ghost(init_n),
            Ghost(episodes_nodes(t@, eps.take(k as int))),
            Ghost(episodes_edges(t@, eps.take(k as int))),
        );
        k = k + 1;
    }
    assert(eps.take(collection.episodes@.len() as int) =~= eps);
    proof {
        lemma_fold_edges_len(Seq::empty(), episodes_edges(t@, eps));
    }
    finish_graph(owned(t), now, nodes, edges)
}

/// The graph of a target's episodes, generated now.
pub fn build_graph_from_episode_collection(collection: &EpisodeCollection) -> (g: ExposureGraph)
    requires
        episodes_edges(collection.target@, episodes_view(collection.episodes@)).len() <= usize::MAX / 2,
    ensures
        g.target@ == collection.target@,
        nodes_view(g.nodes@) == sort_by_lt(
            fold_nodes(
                seq![target_node(collection.target@)],
                episodes_nodes(collection.target@, episodes_view(collection.episodes@)),
            ),
            node_order(),
        ),
        edges_view(g.edges@) == sort_by_lt(
            fold_edges(Seq::empty(), episodes_edges(collection.target@, episodes_view(collection.episodes@))),
            edge_order(),
        ),
        metadata_ok(g),
{
    let now = crate::jobs::now_timestamp();
    build_graph_from_episode_collection_at(collection, now)
}

/// Each finding of a timeline with the times of its transition, in order.
pub open spec fn timeline_entries(ts: Seq<TimelineTransition>) -> Seq<(FindingV, i64, i64)>
    decreases ts.len(),
{
    if ts.len() == 0 {
        Seq::empty()
    } else {
        let t = ts.last();
        let fs = findings_view(t.report.findings@);
        timeline_entries(ts.drop_last()) + Seq::new(
            fs.len(),
            |i: int| (fs[i], t.older_timestamp, t.newer_timestamp),
        )
    }
}

/// The entries about resource `r`, in order.
pub open spec fn entries_of(es: Seq<(FindingV, i64, i64)>, r: Seq<char>) -> Seq<(FindingV, i64, i64)>
    decreases es.len(),
{
    if es.len() == 0 {
        Seq::empty()
    } else {
        let m = entries_of(es.drop_last(), r);
        if es.last().0.resource == r {
            m.push(es.last())
        } else {
            m
        }
    }
}

pub open spec fn entries_total(es: Seq<(FindingV, i64, i64)>) -> nat
    decreases es.len(),
{
    if es.len() == 0 {
        0
    } else {
        entries_total(es.drop_last()) + es.last().0.score as nat
    }
}

/// The earliest start of the entries' transitions.
pub open spec fn entries_first(es: Seq<(FindingV, i64, i64)>) -> Option<i64>
    decreases es.len(),
{
    if es.len() == 0 {
        None
    } else {
        min_time(entries_first(es.drop_last()), Some(es.last().1))
    }
}

/// The latest end of the entries' transitions.
pub open spec fn entries_last(es: Seq<(FindingV, i64, i64)>) -> Option<i64>
    decreases es.len(),
{
    if es.len() == 0 {
        None
    } else {
        max_time(entries_last(es.drop_last()), Some(es.last().2))
    }
}

/// The larger of two texts in character order; an empty text yields to the other.
pub open spec fn text_max(a: Seq<char>, b: Seq<char>) -> Seq<char> {
    if a.len() == 0 {
        b
    } else if b.len() == 0 {
        a
    } else if seq_lt(b, a) {
        a
    } else {
        b
    }
}

/// The largest severity name among the entries, compared as text.
pub open spec fn entries_max_severity(es: Seq<(FindingV, i64, i64)>) -> Seq<char>
    decreases es.len(),
{
    if es.len() == 0 {
        Seq::empty()
    } else {
        text_max(entries_max_severity(es.drop_last()), severity_name(es.last().0.severity))
    }
}

/// The largest criticality name among the entries, compared as text.
pub open spec fn entries_max_criticality(es: Seq<(FindingV, i64, i64)>) -> Seq<char>
    decreases es.len(),
{
    if es.len() == 0 {
        Seq::empty()
    } else {
        text_max(entries_max_criticality(es.drop_last()), criticality_name(es.last().0.criticality))
    }
}

/// The texts joined with commas.
pub open spec fn join_comma(s: Seq<Seq<char>>) -> Seq<char>
    decreases s.len(),
{
    if s.len() == 0 {
        Seq::empty()
    } else if s.len() == 1 {
        s[0]
    } else {
        join_comma(s.drop_last()) + ","@ + s.last()
    }
}

/// One text per entry: its state, category or asset type name.
pub open spec fn entry_names(es: Seq<(FindingV, i64, i64)>, which: int) -> Seq<Seq<char>> {
    Seq::new(
        es.len(),
        |i: int|
            if which == 0 {
                finding_state_name(es[i].0.state)
            } else if which == 1 {
                es[i].0.category
            } else {
                asset_type_name(es[i].0.asset_type)
            },
    )
}

/// The attributes of the node of a resource: where it comes from, how often
/// it occurs, its total score, the largest severity and criticality names,
/// and its distinct states, categories and asset types, sorted and joined.
pub open spec fn timeline_attrs(er: Seq<(FindingV, i64, i64)>) -> AttrsV {
    seq![
        ("source"@, "timeline"@),
        ("occurrences"@, decimal(er.len())),
        ("total_score"@, decimal(entries_total(er))),
        ("highest_severity"@, entries_max_severity(er)),
        ("highest_criticality"@, entries_max_criticality(er)),
        ("states"@, join_comma(sorted_distinct(entry_names(er, 0)))),
        ("categories"@, join_comma(sorted_distinct(entry_names(er, 1)))),
        ("asset_types"@, join_comma(sorted_distinct(entry_names(er, 2)))),
    ]
}

/// The node of a resource of a timeline.
pub open spec fn timeline_node(target: Seq<char>, es: Seq<(FindingV, i64, i64)>, r: Seq<char>) -> NodeV {
    let er = entries_of(es, r);
    node_named(node_kind_of_resource(r), r, target, entries_first(er), entries_last(er), timeline_attrs(er))
}

/// The edge from the target to a resource of a timeline.
pub open spec fn timeline_edge(target: Seq<char>, es: Seq<(FindingV, i64, i64)>, r: Seq<char>) -> EdgeV {
    let er = entries_of(es, r);
    edge_between(
        EdgeKind::BelongsTo,
        node_id_of(NodeKind::Target, target),
        node_id_of(node_kind_of_resource(r), r),
        target,
        entries_first(er),
        entries_last(er),
        source_attr("timeline"@),
    )
}

/// The distinct resources of a timeline's findings, sorted.
pub open spec fn timeline_resources(es: Seq<(FindingV, i64, i64)>) -> Seq<Seq<char>> {
    sorted_distinct(Seq::new(es.len(), |i: int| es[i].0.resource))
}

pub open spec fn entries_view(v: Seq<(DriftFinding, i64, i64)>) -> Seq<(FindingV, i64, i64)> {
    Seq::new(v.len(), |i: int| (v[i].0@, v[i].1, v[i].2))
}

fn flatten_timeline(report: &TimelineReport) -> (r: Vec<(DriftFinding, i64, i64)>)
    ensures
        entries_view(r@) == timeline_entries(report.transitions@),
{
    let ghost ts = report.transitions@;
    let mut out: Vec<(DriftFinding, i64, i64)> = Vec::new();
    let mut t: usize = 0;
    assert(ts.take(0) =~= Seq::<TimelineTransition>::empty());
    assert(entries_view(out@) =~= Seq::<(FindingV, i64, i64)>::empty());
    while t < report.transitions.len()
        invariant
            t <= ts.len(),
            ts == report.transitions@,
            entries_view(out@) == timeline_entries(ts.take(t as int)),
        decreases report.transitions.len() - t,
    {
        let tr = &report.transitions[t];
        let ghost fs = findings_view(tr.report.findings@);
        let ghost part = Seq::new(fs.len(), |i: int| (fs[i], tr.older_timestamp, tr.newer_timestamp));
        let ghost start = entries_view(out@);
        assert(ts.take(t + 1).drop_last() =~= ts.take(t as int));
        assert(ts.take(t + 1).last() == *tr);
        let mut j: usize = 0;
        assert(start + part.take(0) =~= start);
        while j < tr.report.findings.len()
            invariant
                j <= tr.report.findings@.len(),
                fs == findings_view(tr.report.findings@),
                part == Seq::new(fs.len(), |i: int| (fs[i], tr.older_timestamp, tr.newer_timestamp)),
                entries_view(out@) == start + part.take(j as int),
            decreases tr.report.findings.len() - j,
        {
            let d = tr.report.findings[j].duplicate();
            let ghost before = out@;
            out.push((d, tr.older_timestamp, tr.newer_timestamp));
            assert(entries_view(out@) =~= entries_view(before).push((d@, tr.older_timestamp, tr.newer_timestamp)));
            assert(entries_view(out@) =~= start + part.take(j + 1));
            j = j + 1;
        }
        assert(part.take(tr.report.findings@.len() as int) =~= part);
        t = t + 1;
    }
    assert(ts.take(ts.len() as int) =~= ts);
    out
}

pub(crate) fn join_texts(v: &Vec<String>) -> (r: String)
    ensures
        r@ == join_comma(strings_view(v@)),
{
    let ghost sv = strings_view(v@);
    let mut r = String::new();
    let mut i: usize = 0;
    assert(sv.take(0) =~= Seq::<Seq<char>>::empty());
    while i < v.len()
        invariant
            i <= v@.len(),
            sv == strings_view(v@),
            r@ == join_comma(sv.take(i as int)),
        decreases v.len() - i,
    {
        assert(sv.take(i + 1).drop_last() =~= sv.take(i as int));
        assert(sv.take(i + 1).last() == v@[i as int]@);
        if i > 0 {
            push_str(&mut r, ",");
        } else {
            assert(sv.take(1) =~= seq![v@[0]@]);
        }
        push_str(&mut r, v[i].as_str());
        i = i + 1;
    }
    assert(sv.take(v@.len() as int) =~= sv);
    r
}

fn text_max_exec(a: String, b: String) -> (r: String)
    ensures
        r@ == text_max(a@, b@),
{
    if a.as_str().unicode_len() == 0 {
        b
    } else if b.as_str().unicode_len() == 0 {
        a
    } else if str_less(b.as_str(), a.as_str()) {
        a
    } else {
        b
    }
}

proof fn lemma_entries_step(es: Seq<(FindingV, i64, i64)>, r: Seq<char>, j: int)
    requires
        0 <= j < es.len(),
    ensures
        entries_of(es.take(j + 1), r) == if es[j].0.resource == r {
            entries_of(es.take(j), r).push(es[j])
        } else {
            entries_of(es.take(j), r)
        },
{
    assert(es.take(j + 1).drop_last() =~= es.take(j));
    assert(es.take(j + 1).last() == es[j]);
}

proof fn lemma_entries_push(m: Seq<(FindingV, i64, i64)>, x: (FindingV, i64, i64))
    ensures
        entries_total(m.push(x)) == entries_total(m) + x.0.score,
        entries_first(m.push(x)) == min_time(entries_first(m), Some(x.1)),
        entries_last(m.push(x)) == max_time(entries_last(m), Some(x.2)),
        entries_max_severity(m.push(x)) == text_max(entries_max_severity(m), severity_name(x.0.severity)),
        entries_max_criticality(m.push(x)) == text_max(entries_max_criticality(m), criticality_name(x.0.criticality)),
        entry_names(m.push(x), 0) == entry_names(m, 0).push(finding_state_name(x.0.state)),
        entry_names(m.push(x), 1) == entry_names(m, 1).push(x.0.category),
        entry_names(m.push(x), 2) == entry_names(m, 2).push(asset_type_name(x.0.asset_type)),
{
    assert(m.push(x).drop_last() =~= m);
    assert(entry_names(m.push(x), 0) =~= entry_names(m, 0).push(finding_state_name(x.0.state)));
    assert(entry_names(m.push(x), 1) =~= entry_names(m, 1).push(x.0.category));
    assert(entry_names(m.push(x), 2) =~= entry_names(m, 2).push(asset_type_name(x.0.asset_type)));
}

proof fn lemma_entries_total_bound(es: Seq<(FindingV, i64, i64)>, r: Seq<char>)
    ensures
        entries_total(entries_of(es, r)) <= entries_total(es),
    decreases es.len(),
{
    if es.len() > 0 {
        lemma_entries_total_bound(es.drop_last(), r);
        lemma_entries_push(entries_of(es.drop_last(), r), es.last());
    }
}

proof fn lemma_entries_total_prefix(es: Seq<(FindingV, i64, i64)>, j: int)
    requires
        0 <= j <= es.len(),
    ensures
        entries_total(es.take(j)) <= entries_total(es),
    decreases es.len() - j,
{
    if j < es.len() {
        lemma_entries_total_prefix(es, j + 1);
        assert(es.take(j + 1).drop_last() =~= es.take(j));
    } else {
        assert(es.take(j) =~= es);
    }
}

/// The node and edge of one resource of a timeline.
fn resource_parts(target: &str, entries: &Vec<(DriftFinding, i64, i64)>, r: &String) -> (parts: (GraphNode, GraphEdge))
    requires
        entries_total(entries_view(entries@)) <= u32::MAX,
    ensures
        parts.0@ == timeline_node(target@, entries_view(entries@), r@),
        parts.1@ == timeline_edge(target@, entries_view(entries@), r@),
{
    let ghost es = entries_view(entries@);
    let mut occ: usize = 0;
    let mut tot: u32 = 0;
    let mut first: Option<i64> = None;
    let mut last: Option<i64> = None;
    let mut sev = String::new();
    let mut crit = String::new();
    let mut states: Vec<String> = Vec::new();
    let mut cats: Vec<String> = Vec::new();
    let mut assets: Vec<String> = Vec::new();
    let mut j: usize = 0;
    assert(es.take(0) =~= Seq::<(FindingV, i64, i64)>::empty());
    assert(strings_view(states@) =~= Seq::<Seq<char>>::empty());
    assert(strings_view(cats@) =~= Seq::<Seq<char>>::empty());
    assert(strings_view(assets@) =~= Seq::<Seq<char>>::empty());
    assert(entry_names(Seq::<(FindingV, i64, i64)>::empty(), 0) =~= Seq::<Seq<char>>::empty());
    assert(entry_names(Seq::<(FindingV, i64, i64)>::empty(), 1) =~= Seq::<Seq<char>>::empty());
    assert(entry_names(Seq::<(FindingV, i64, i64)>::empty(), 2) =~= Seq::<Seq<char>>::empty());
    while j < entries.len()
        invariant
            j <= entries@.len(),
            es == entries_view(entries@),
            entries_total(es) <= u32::MAX,
            occ as nat == entries_of(es.take(j as int), r@).len(),
            occ <= j,
            tot as nat == entries_total(entries_of(es.take(j as int), r@)),
            first == entries_first(entries_of(es.take(j as int), r@)),
            last == entries_last(entries_of(es.take(j as int), r@)),
            sev@ == entries_max_severity(entries_of(es.take(j as int), r@)),
            crit@ == entries_max_criticality(entries_of(es.take(j as int), r@)),
            strings_view(states@) == entry_names(entries_of(es.take(j as int), r@), 0),
            strings_view(cats@) == entry_names(entries_of(es.take(j as int), r@), 1),
            strings_view(assets@) == entry_names(entries_of(es.take(j as int), r@), 2),
        decreases entries.len() - j,
    {
        let ghost m = entries_of(es.take(j as int), r@);
        proof {
            lemma_entries_step(es, r@, j as int);
            lemma_entries_push(m, es[j as int]);
            lemma_entries_total_bound(es.take(j + 1), r@);
            lemma_entries_total_prefix(es, j + 1);
        }
        let e = &entries[j];
        assert(es[j as int] == (e.0@, e.1, e.2));
        if str_eq(e.0.resource.as_str(), r.as_str()) {
            occ = occ + 1;
            tot = tot + e.0.score;
            first = min_datetime(first, Some(e.1));
            last = max_datetime(last, Some(e.2));
            sev = text_max_exec(sev, e.0.severity.to_string());
            crit = text_max_exec(crit, e.0.criticality.to_string());
            let s1 = e.0.state.to_string();
            let ghost b1 = states@;
            states.push(s1);
            proof {
                lemma_strings_view_push(b1, s1);
            }
            let s2 = e.0.category.clone();
            let ghost b2 = cats@;
            cats.push(s2);
            proof {
                lemma_strings_view_push(b2, s2);
            }
            let s3 = e.0.asset_type.to_string();
            let ghost b3 = assets@;
            assets.push(s3);
            proof {
                lemma_strings_view_push(b3, s3);
            }
        }
        j = j + 1;
    }
    assert(es.take(entries@.len() as int) =~= es);
    let states_u = sorted_unique(&states);
    let cats_u = sorted_unique(&cats);
    let assets_u = sorted_unique(&assets);
    let mut attrs: Vec<(String, String)> = Vec::new();
    attrs.push(pair("source", owned("timeline")));
    attrs.push(pair("occurrences", decimal_text(occ as u64)));
    attrs.push(pair("total_score", decimal_text(tot as u64)));
    attrs.push(pair("highest_severity", sev));
    attrs.push(pair("highest_criticality", crit));
    attrs.push(pair("states", join_texts(&states_u)));
    attrs.push(pair("categories", join_texts(&cats_u)));
    attrs.push(pair("asset_types", join_texts(&assets_u)));
    assert(attrs_view(attrs@) =~= timeline_attrs(entries_of(es, r@)));
    let kind = infer_node_kind_from_resource(r.as_str());
    let t = target;
    let node = make_node(kind, r.as_str(), t, first, last, attrs);
    let target_id = stable_node_id(&NodeKind::Target, t);
    let node_id = stable_node_id(&kind, r.as_str());
    let edge = make_edge(EdgeKind::BelongsTo, target_id.as_str(), node_id.as_str(), t, first, last, source_attrs("timeline"));
    (node, edge)
}

/// The resources' nodes of a timeline, in resource order.
pub open spec fn timeline_nodes(target: Seq<char>, es: Seq<(FindingV, i64, i64)>) -> Seq<NodeV> {
    let rs = timeline_resources(es);
    Seq::new(rs.len(), |i: int| timeline_node(target, es, rs[i]))
}

/// The edges from the target to the resources of a timeline, in resource order.
pub open spec fn timeline_edges(target: Seq<char>, es: Seq<(FindingV, i64, i64)>) -> Seq<EdgeV> {
    let rs = timeline_resources(es);
    Seq::new(rs.len(), |i: int| timeline_edge(target, es, rs[i]))
}

/// The graph of a timeline at time `now`: the target and one node per
/// resource its findings touch, with what the findings say of it.
pub fn build_graph_from_timeline_at(report: &TimelineReport, now: i64) -> (g: ExposureGraph)
    requires
        entries_total(timeline_entries(report.transitions@)) <= u32::MAX,
        timeline_entries(report.transitions@).len() <= usize::MAX / 2,
    ensures
        g.target@ == report.target@,
        g.generated_at == now,
        nodes_view(g.nodes@) == sort_by_lt(
            fold_nodes(seq![target_node(report.target@)], timeline_nodes(report.target@, timeline_entries(report.transitions@))),
            node_order(),
        ),
        edges_view(g.edges@) == sort_by_lt(
            fold_edges(Seq::empty(), timeline_edges(report.target@, timeline_entries(report.transitions@))),
            edge_order(),
        ),
        metadata_ok(g),
        g.edges@.len() <= timeline_entries(report.transitions@).len(),
{
    let t = report.target.as_str();
    let entries = flatten_timeline(report);
    let ghost es = entries_view(entries@);
    let mut names: Vec<String> = Vec::new();
    let mut i: usize = 0;
    while i < entries.len()
        invariant
            i <= entries@.len(),
            es == entries_view(entries@),
            strings_view(names@) == Seq::new(es.len(), |k: int| es[k].0.resource).take(i as int),
        decreases entries.len() - i,
    {
        let ghost before = names@;
        let n = entries[i].0.resource.clone();
        names.push(n);
        proof {
            lemma_strings_view_push(before, n);
        }
        assert(strings_view(names@) =~= Seq::new(es.len(), |k: int| es[k].0.resource).take(i + 1));
        i = i + 1;
    }
    assert(Seq::new(es.len(), |k: int| es[k].0.resource).take(entries@.len() as int) =~= Seq::new(es.len(), |k: int| es[k].0.resource));
    let resources = sorted_unique(&names);
    let ghost rs = strings_view(resources@);
    let ghost tn = timeline_nodes(t@, es);
    let ghost te = timeline_edges(t@, es);
    let ghost init_n = seq![target_node(t@)];
    let mut nodes: Vec<GraphNode> = Vec::new();
    let attrs: Vec<(String, String)> = Vec::new();
    assert(attrs_view(attrs@) =~= Seq::empty());
    nodes.push(make_node(NodeKind::Target, t, t, None, None, attrs));
    assert(nodes_view(nodes@) =~= fold_nodes(init_n, tn.take(0)));
    let mut edges: Vec<GraphEdge> = Vec::new();
    assert(edges_view(edges@) =~= fold_edges(Seq::empty(), te.take(0)));
    let mut k: usize = 0;
    while k < resources.len()
        invariant
            k <= resources@.len(),
            rs == strings_view(resources@),
            rs == timeline_resources(es),
            es == entries_view(entries@),
            entries_total(es) <= u32::MAX,
            tn == timeline_nodes(t@, es),
            te == timeline_edges(t@, es),
            init_n == seq![target_node(t@)],
            nodes_view(nodes@) == fold_nodes(init_n, tn.take(k as int)),
            edges_view(edges@) == fold_edges(Seq::empty(), te.take(k as int)),
        decreases resources.len() - k,
    {
        let (node, edge) = resource_parts(t, &entries, &resources[k]);
        assert(rs[k as int] == resources@[k as int]@);
        proof {
            lemma_fold_nodes_push(init_n, tn.take(k as int), node@);
            lemma_fold_edges_push(Seq::empty(), te.take(k as int), edge@);
            assert(tn.take(k as int).push(node@) =~= tn.take(k + 1));
            assert(te.take(k as int).push(edge@) =~= te.take(k + 1));
        }
        upsert_node(&mut nodes, node);
        upsert_edge(&mut edges, edge);
        k = k + 1;
    }
    assert(tn.take(resources@.len() as int) =~= tn);
    assert(te.take(resources@.len() as int) =~= te);
    proof {
        lemma_fold_edges_len(Seq::empty(), te);
        crate::order::lemma_sorted_subset_len(rs, Seq::new(es.len(), |k: int| es[k].0.resource));
        lemma_sort_by_lt_len(fold_edges(Seq::empty(), te), edge_order());
    }
    let g = finish_graph(owned(t), now, nodes, edges);
    assert(edges_view(g.edges@).len() == g.edges@.len());
    g
}

/// The graph of a timeline, generated now.
pub fn build_graph_from_timeline(report: &TimelineReport) -> (g: ExposureGraph)
    requires
        entries_total(timeline_entries(report.transitions@)) <= u32::MAX,
        timeline_entries(report.transitions@).len() <= usize::MAX / 2,
    ensures
        g.target@ == report.target@,
        nodes_view(g.nodes@) == sort_by_lt(
            fold_nodes(seq![target_node(report.target@)], timeline_nodes(report.target@, timeline_entries(report.transitions@))),
            node_order(),
        ),
        edges_view(g.edges@) == sort_by_lt(
            fold_edges(Seq::empty(), timeline_edges(report.target@, timeline_entries(report.transitions@))),
            edge_order(),
        ),
        metadata_ok(g),
        g.edges@.len() <= timeline_entries(report.transitions@).len(),
{
    let now = crate::jobs::now_timestamp();
    build_graph_from_timeline_at(report, now)
}

/// The nodes of the graph of one snapshot.
pub open spec fn snapshot_graph_nodes(s: Snapshot) -> Seq<NodeV> {
    sort_by_lt(fold_nodes(seq![snapshot_target_node(s)], snapshot_nodes(s)), node_order())
}

pub open spec fn snapshot_graph_edges(s: Snapshot) -> Seq<EdgeV> {
    sort_by_lt(fold_edges(Seq::empty(), snapshot_edges(s)), edge_order())
}

/// The nodes of the graph of a timeline.
pub open spec fn timeline_graph_nodes(t: TimelineReport) -> Seq<NodeV> {
    sort_by_lt(fold_nodes(seq![target_node(t.target@)], timeline_nodes(t.target@, timeline_entries(t.transitions@))), node_order())
}

pub open spec fn timeline_graph_edges(t: TimelineReport) -> Seq<EdgeV> {
    sort_by_lt(fold_edges(Seq::empty(), timeline_edges(t.target@, timeline_entries(t.transitions@))), edge_order())
}

/// The nodes of the graph of a target's episodes.
pub open spec fn episode_graph_nodes(c: EpisodeCollection) -> Seq<NodeV> {
    sort_by_lt(fold_nodes(seq![target_node(c.target@)], episodes_nodes(c.target@, episodes_view(c.episodes@))), node_order())
}

pub open spec fn episode_graph_edges(c: EpisodeCollection) -> Seq<EdgeV> {
    sort_by_lt(fold_edges(Seq::empty(), episodes_edges(c.target@, episodes_view(c.episodes@))), edge_order())
}

/// The nodes of one graph merged into another, sorted again.
pub open spec fn merged_nodes(ns: Seq<NodeV>, other: Seq<NodeV>) -> Seq<NodeV> {
    sort_by_lt(fold_nodes(ns, other), node_order())
}

pub open spec fn merged_edges(es: Seq<EdgeV>, other: Seq<EdgeV>) -> Seq<EdgeV> {
    sort_by_lt(fold_edges(es, other), edge_order())
}

/// The nodes of the full graph: the target's, merged with those of the
/// snapshot, the timeline and the episodes that are given, in that order.
pub open spec fn full_nodes(target: Seq<char>, s: Option<Snapshot>, t: Option<TimelineReport>, e: Option<EpisodeCollection>) -> Seq<NodeV> {
    let n0 = seq![target_node(target)];
    let n1 = match s {
        Some(x) => merged_nodes(n0, snapshot_graph_nodes(x)),
        None => n0,
    };
    let n2 = match t {
        Some(x) => merged_nodes(n1, timeline_graph_nodes(x)),
        None => n1,
    };
    let n3 = match e {
        Some(x) => merged_nodes(n2, episode_graph_nodes(x)),
        None => n2,
    };
    sort_by_lt(n3, node_order())
}

/// The edges of the full graph, merged in the same order.
pub open spec fn full_edges(s: Option<Snapshot>, t: Option<TimelineReport>, e: Option<EpisodeCollection>) -> Seq<EdgeV> {
    let e0 = Seq::<EdgeV>::empty();
    let e1 = match s {
        Some(x) => merged_edges(e0, snapshot_graph_edges(x)),
        None => e0,
    };
    let e2 = match t {
        Some(x) => merged_edges(e1, timeline_graph_edges(x)),
        None => e1,
    };
    let e3 = match e {
        Some(x) => merged_edges(e2, episode_graph_edges(x)),
        None => e2,
    };
    sort_by_lt(e3, edge_order())
}

/// How many edges the parts of a full graph can add at most.
pub open spec fn full_edge_bound(s: Option<Snapshot>, t: Option<TimelineReport>, e: Option<EpisodeCollection>) -> nat {
    (match s {
        Some(x) => snapshot_edges(x).len(),
        None => 0,
    }) + (match t {
        Some(x) => timeline_entries(x.transitions@).len(),
        None => 0,
    }) + (match e {
        Some(x) => episodes_edges(x.target@, episodes_view(x.episodes@)).len(),
        None => 0,
    })
}

pub open spec fn opt_snapshot(s: Option<&Snapshot>) -> Option<Snapshot> {
    match s {
        Some(x) => Some(*x),
        None => None,
    }
}

pub open spec fn opt_report(t: Option<&TimelineReport>) -> Option<TimelineReport> {
    match t {
        Some(x) => Some(*x),
        None => None,
    }
}

pub open spec fn opt_collection(e: Option<&EpisodeCollection>) -> Option<EpisodeCollection> {
    match e {
        Some(x) => Some(*x),
        None => None,
    }
}

fn merge_snapshot(graph: &mut ExposureGraph, snapshot: Option<&Snapshot>)
    requires
        old(graph).edges@.len() + full_edge_bound(opt_snapshot(snapshot), None, None) <= usize::MAX / 2,
    ensures
        final(graph).target@ == old(graph).target@,
        nodes_view(final(graph).nodes@) == match opt_snapshot(snapshot) {
            Some(x) => merged_nodes(nodes_view(old(graph).nodes@), snapshot_graph_nodes(x)),
            None => nodes_view(old(graph).nodes@),
        },
        edges_view(final(graph).edges@) == match opt_snapshot(snapshot) {
            Some(x) => merged_edges(edges_view(old(graph).edges@), snapshot_graph_edges(x)),
            None => edges_view(old(graph).edges@),
        },
        final(graph).edges@.len() <= old(graph).edges@.len() + full_edge_bound(opt_snapshot(snapshot), None, None),
{
    match snapshot {
        Some(x) => {
            let other = build_graph_from_snapshot(x);
            proof {
                lemma_fold_edges_len(Seq::empty(), snapshot_edges(*x));
                lemma_sort_by_lt_len(fold_edges(Seq::empty(), snapshot_edges(*x)), edge_order());
                assert(edges_view(other.edges@).len() == other.edges@.len());
            }
            let ghost before = edges_view(graph.edges@);
            assert(before.len() == graph.edges@.len());
            graph.merge(&other);
            proof {
                lemma_fold_edges_len(before, snapshot_graph_edges(*x));
                lemma_sort_by_lt_len(fold_edges(before, snapshot_graph_edges(*x)), edge_order());
                assert(edges_view(graph.edges@).len() == graph.edges@.len());
            }
        },
        None => {},
    }
}

fn merge_timeline(graph: &mut ExposureGraph, timeline: Option<&TimelineReport>)
    requires
        old(graph).edges@.len() + full_edge_bound(None, opt_report(timeline), None) <= usize::MAX / 2,
        timeline matches Some(t) ==> entries_total(timeline_entries(t.transitions@)) <= u32::MAX,
    ensures
        final(graph).target@ == old(graph).target@,
        nodes_view(final(graph).nodes@) == match opt_report(timeline) {
            Some(x) => merged_nodes(nodes_view(old(graph).nodes@), timeline_graph_nodes(x)),
            None => nodes_view(old(graph).nodes@),
        },
        edges_view(final(graph).edges@) == match opt_report(timeline) {
            Some(x) => merged_edges(edges_view(old(graph).edges@), timeline_graph_edges(x)),
            None => edges_view(old(graph).edges@),
        },
        final(graph).edges@.len() <= old(graph).edges@.len() + full_edge_bound(None, opt_report(timeline), None),
{
    match timeline {
        Some(x) => {
            let other = build_graph_from_timeline(x);
            proof {
                assert(edges_view(other.edges@).len() == other.edges@.len());
            }
            let ghost before = edges_view(graph.edges@);
            assert(before.len() == graph.edges@.len());
            graph.merge(&other);
            proof {
                lemma_fold_edges_len(before, timeline_graph_edges(*x));
                lemma_sort_by_lt_len(fold_edges(before, timeline_graph_edges(*x)), edge_order());
                assert(edges_view(graph.edges@).len() == graph.edges@.len());
            }
        },
        None => {},
    }
}

fn merge_episodes(graph: &mut ExposureGraph, episodes: Option<&EpisodeCollection>)
    requires
        old(graph).edges@.len() + full_edge_bound(None, None, opt_collection(episodes)) <= usize::MAX / 2,
    ensures
        final(graph).target@ == old(graph).target@,
        nodes_view(final(graph).nodes@) == match opt_collection(episodes) {
            Some(x) => merged_nodes(nodes_view(old(graph).nodes@), episode_graph_nodes(x)),
            None => nodes_view(old(graph).nodes@),
        },
        edges_view(final(graph).edges@) == match opt_collection(episodes) {
            Some(x) => merged_edges(edges_view(old(graph).edges@), episode_graph_edges(x)),
            None => edges_view(old(graph).edges@),
        },
        final(graph).edges@.len() <= old(graph).edges@.len() + full_edge_bound(None, None, opt_collection(episodes)),
{
    match episodes {
        Some(x) => {
            let other = build_graph_from_episode_collection(x);
            proof {
                let ee = episodes_edges(x.target@, episodes_view(x.episodes@));
                lemma_fold_edges_len(Seq::empty(), ee);
                lemma_sort_by_lt_len(fold_edges(Seq::empty(), ee), edge_order());
                assert(edges_view(other.edges@).len() == other.edges@.len());
            }
            let ghost before = edges_view(graph.edges@);
            assert(before.len() == graph.edges@.len());
            graph.merge(&other);
            proof {
                lemma_fold_edges_len(before, episode_graph_edges(*x));
                lemma_sort_by_lt_len(fold_edges(before, episode_graph_edges(*x)), edge_order());
                assert(edges_view(graph.edges@).len() == graph.edges@.len());
            }
        },
        None => {},
    }
}

/// `build_full_graph`: the target's graph merged with the graphs of the
/// latest snapshot, the timeline and the episodes, each when given.
pub fn build_full_graph(
    target: &str,
    latest_snapshot: Option<&Snapshot>,
    timeline: Option<&TimelineReport>,
    episodes: Option<&EpisodeCollection>,
) -> (g: ExposureGraph)
    requires
        full_edge_bound(opt_snapshot(latest_snapshot), opt_report(timeline), opt_collection(episodes)) <= usize::MAX / 2,
        timeline matches Some(t) ==> entries_total(timeline_entries(t.transitions@)) <= u32::MAX,
    ensures
        g.target@ == target@,
        nodes_view(g.nodes@) == full_nodes(target@, opt_snapshot(latest_snapshot), opt_report(timeline), opt_collection(episodes)),
        edges_view(g.edges@) == full_edges(opt_snapshot(latest_snapshot), opt_report(timeline), opt_collection(episodes)),
        metadata_ok(g),
{
    let mut graph = ExposureGraph::empty(target);
    assert(edges_view(graph.edges@) =~= Seq::<EdgeV>::empty());
    merge_snapshot(&mut graph, latest_snapshot);
    merge_timeline(&mut graph, timeline);
    merge_episodes(&mut graph, episodes);
    graph.recompute_metadata();
    graph
}

} // verus!
