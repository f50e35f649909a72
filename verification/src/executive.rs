//! The executive report of a target: the timeline's totals, its most severe
//! findings and hottest resources, an overview of the risk episodes and of
//! the graph, and what to do first.
use vstd::prelude::*;
use crate::correlation::{
    episode_state_name, episodes_view, kind_name, EpisodeCollection, EpisodeState, EpisodeV,
    RiskEpisode,
};
use crate::diff::Snapshot;
use crate::drift::{
    criticality_name, finding_state_name, findings_view, severity_name, DriftFinding, FindingV,
    Severity,
};
use crate::graph::ExposureGraph;
use crate::order::{
    insert_pos_lt, lemma_insert_pos_lt_first, lemma_sort_by_lt_len, lemma_sort_by_lt_step,
    seq_lt, sort_by_lt, str_less,
};
use crate::order::{sorted_distinct, sorted_unique};
use crate::report::score_total;
use crate::text::{
    chars_of, decimal, decimal_text, lemma_strings_view_push, owned, push_str, starts_with,
    starts_with_lit, str_eq, strings_view,
};
use crate::graph::ranked_view;
use crate::risk::{opt_episodes, opt_timeline};
use crate::summary::{graph_view_of, hub_label};
use crate::timeline::{
    aggregate, all_findings, flatten_findings, key_of, key_ref, keys_members, keys_of, TimelineReport,
};

verus! {

/// The headline numbers of the timeline.
#[derive(Debug, Clone)]
pub struct OverviewSection {
    pub total_score: u32,
    pub overall_severity: String,
    pub total_findings: usize,
    pub unique_resources: usize,
    pub critical_findings: usize,
    pub recurring_findings: usize,
    pub persistent_findings: usize,
}

/// A finding as the executive report lists it.
#[derive(Debug, Clone)]
pub struct ExecutiveFinding {
    pub finding_id: String,
    pub title: String,
    pub category: String,
    pub resource: String,
    pub severity: String,
    pub criticality: String,
    pub state: String,
    pub score: u32,
}

/// A resource with the total score, number and categories of its findings.
#[derive(Debug, Clone)]
pub struct ResourceHotspot {
    pub resource: String,
    pub total_score: u32,
    pub occurrences: usize,
    pub categories: Vec<String>,
}

/// An episode as the executive report lists it.
#[derive(Debug, Clone)]
pub struct ExecutiveEpisode {
    pub episode_id: String,
    pub title: String,
    pub kind: String,
    pub severity: String,
    pub criticality: String,
    pub state: String,
    pub score: u32,
    pub resource_count: usize,
}

/// How many episodes, by state and by kind (each list ordered by name),
/// and the five of highest score.
#[derive(Debug, Clone)]
pub struct EpisodeOverview {
    pub total_episodes: usize,
    pub by_state: Vec<(String, usize)>,
    pub by_kind: Vec<(String, usize)>,
    pub top_episodes: Vec<ExecutiveEpisode>,
}

/// The shape of the graph, with its hubs named.
#[derive(Debug, Clone)]
pub struct GraphOverview {
    pub node_count: usize,
    pub edge_count: usize,
    pub connected_nodes: usize,
    pub isolated_nodes: usize,
    pub max_degree: usize,
    pub highest_degree_labels: Vec<String>,
}

/// Everything the executive report of a target says.
#[derive(Debug, Clone)]
pub struct ExecutiveReport {
    pub target: String,
    pub generated_at: i64,
    pub snapshot_count: usize,
    pub latest_snapshot_at: Option<i64>,
    pub policy_applied: bool,
    pub overview: OverviewSection,
    pub top_findings: Vec<ExecutiveFinding>,
    pub hotspots: Vec<ResourceHotspot>,
    pub episodes: EpisodeOverview,
    pub graph: GraphOverview,
    pub recommendations: Vec<String>,
}

/// The overview: the timeline's executive numbers, or zeros and "Info".
pub open spec fn overview_ok(o: OverviewSection, timeline: Option<TimelineReport>) -> bool {
    match timeline {
        Some(t) => {
            let e = t.executive;
            &&& o.total_score == e.total_score
            &&& o.overall_severity@ == severity_name(e.overall_severity)
            &&& o.total_findings == e.total_findings
            &&& o.unique_resources == e.unique_resources
            &&& o.critical_findings == e.critical_findings
            &&& o.recurring_findings == e.recurring_findings
            &&& o.persistent_findings == e.persistent_findings
        },
        None => {
            &&& o.total_score == 0
            &&& o.overall_severity@ == severity_name(Severity::Info)
            &&& o.total_findings == 0
            &&& o.unique_resources == 0
            &&& o.critical_findings == 0
            &&& o.recurring_findings == 0
            &&& o.persistent_findings == 0
        },
    }
}

/// The overview of the timeline, if any.
fn build_overview(timeline: Option<&TimelineReport>) -> (o: OverviewSection)
    ensures
        overview_ok(o, opt_timeline(timeline)),
{
    match timeline {
        Some(t) => {
            let e = &t.executive;
            OverviewSection {
                total_score: e.total_score,
                overall_severity: e.overall_severity.to_string(),
                total_findings: e.total_findings,
                unique_resources: e.unique_resources,
                critical_findings: e.critical_findings,
                recurring_findings: e.recurring_findings,
                persistent_findings: e.persistent_findings,
            }
        },
        None => OverviewSection {
            total_score: 0,
            overall_severity: Severity::Info.to_string(),
            total_findings: 0,
            unique_resources: 0,
            critical_findings: 0,
            recurring_findings: 0,
            persistent_findings: 0,
        },
    }
}

pub struct ExecFindingV {
    pub finding_id: Seq<char>,
    pub title: Seq<char>,
    pub category: Seq<char>,
    pub resource: Seq<char>,
    pub severity: Seq<char>,
    pub criticality: Seq<char>,
    pub state: Seq<char>,
    pub score: u32,
}

impl View for ExecutiveFinding {
    type V = ExecFindingV;

    open spec fn view(&self) -> ExecFindingV {
        ExecFindingV {
            finding_id: self.finding_id@,
            title: self.title@,
            category: self.category@,
            resource: self.resource@,
            severity: self.severity@,
            criticality: self.criticality@,
            state: self.state@,
            score: self.score,
        }
    }
}

pub open spec fn exec_findings_view(v: Seq<ExecutiveFinding>) -> Seq<ExecFindingV> {
    Seq::new(v.len(), |i: int| v[i]@)
}

/// A finding as listed: its names, with its severity, criticality and
/// state by name.
pub open spec fn exec_finding_of(f: FindingV) -> ExecFindingV {
    ExecFindingV {
        finding_id: f.finding_id,
        title: f.title,
        category: f.category,
        resource: f.resource,
        severity: severity_name(f.severity),
        criticality: criticality_name(f.criticality),
        state: finding_state_name(f.state),
        score: f.score,
    }
}

/// Higher score first, then by resource, then by identifier.
pub open spec fn exec_finding_before(a: ExecFindingV, b: ExecFindingV) -> bool {
    a.score > b.score || (a.score == b.score && (seq_lt(a.resource, b.resource) || (a.resource
        == b.resource && seq_lt(a.finding_id, b.finding_id))))
}

pub open spec fn exec_finding_order() -> spec_fn(ExecFindingV, ExecFindingV) -> bool {
    |a: ExecFindingV, b: ExecFindingV| exec_finding_before(a, b)
}

/// The ten most severe findings of a timeline's findings, in that order.
pub open spec fn top_findings_of(fs: Seq<FindingV>) -> Seq<ExecFindingV> {
    let sorted = sort_by_lt(Seq::new(fs.len(), |i: int| exec_finding_of(fs[i])), exec_finding_order());
    if sorted.len() > 10 {
        sorted.take(10)
    } else {
        sorted
    }
}

fn exec_finding(f: &DriftFinding) -> (r: ExecutiveFinding)
    ensures
        r@ == exec_finding_of(f@),
{
    ExecutiveFinding {
        finding_id: f.finding_id.clone(),
        title: f.title.clone(),
        category: f.category.clone(),
        resource: f.resource.clone(),
        severity: f.severity.to_string(),
        criticality: f.criticality.to_string(),
        state: f.state.to_string(),
        score: f.score,
    }
}

fn exec_finding_less(a: &ExecutiveFinding, b: &ExecutiveFinding) -> (r: bool)
    ensures
        r == exec_finding_before(a@, b@),
{
    a.score > b.score || (a.score == b.score && (str_less(a.resource.as_str(), b.resource.as_str())
        || (str_eq(a.resource.as_str(), b.resource.as_str()) && str_less(
        a.finding_id.as_str(),
        b.finding_id.as_str(),
    ))))
}

/// Listed findings sorted, ties in their order.
fn sort_exec_findings(v: Vec<ExecutiveFinding>) -> (r: Vec<ExecutiveFinding>)
    ensures
        exec_findings_view(r@) == sort_by_lt(exec_findings_view(v@), exec_finding_order()),
{
    let ghost fv = exec_findings_view(v@);
    let ghost lt = exec_finding_order();
    let mut rest = v;
    let mut out: Vec<ExecutiveFinding> = Vec::new();
    let mut i: usize = 0;
    let n = rest.len();
    assert(fv.take(0) =~= Seq::<ExecFindingV>::empty());
    while rest.len() > 0
        invariant
            n == fv.len(),
            lt == exec_finding_order(),
            i + rest@.len() == n,
            out@.len() == i,
            exec_findings_view(rest@) == fv.skip(i as int),
            exec_findings_view(out@) == sort_by_lt(fv.take(i as int), lt),
        decreases rest.len(),
    {
        let ghost old_rest = rest@;
        let x = rest.remove(0);
        assert forall|j: int| 0 <= j < rest@.len() implies #[trigger] exec_findings_view(rest@)[j] == fv.skip(i + 1)[j] by {
            assert(rest@[j] == old_rest[j + 1]);
            assert(exec_findings_view(old_rest)[j + 1] == fv.skip(i as int)[j + 1]);
        }
        assert(fv[i as int] == x@) by {
            assert(fv.skip(i as int)[0] == fv[i as int]);
        }
        let ghost sorted = exec_findings_view(out@);
        let mut k: usize = 0;
        loop
            invariant
                k <= out.len(),
                sorted == exec_findings_view(out@),
                lt == exec_finding_order(),
                forall|j: int| 0 <= j < k ==> !lt(x@, #[trigger] sorted[j]),
            ensures
                k <= out.len(),
                forall|j: int| 0 <= j < k ==> !lt(x@, #[trigger] sorted[j]),
                k < out.len() ==> lt(x@, sorted[k as int]),
            decreases out.len() - k,
        {
            if k >= out.len() {
                break;
            }
            assert(sorted[k as int] == out@[k as int]@);
            if exec_finding_less(&x, &out[k]) {
                break;
            }
            k = k + 1;
        }
        proof {
            lemma_insert_pos_lt_first(sorted, x@, lt, k as int);
            lemma_sort_by_lt_step(fv, i as int, lt);
        }
        out.insert(k, x);
        assert(exec_findings_view(out@) =~= sorted.insert(k as int, x@));
        assert(exec_findings_view(rest@) =~= fv.skip(i + 1));
        i = i + 1;
    }
    assert(fv.take(n as int) =~= fv);
    out
}

/// The ten most severe findings of the timeline, if any.
fn build_top_findings(timeline: Option<&TimelineReport>) -> (r: Vec<ExecutiveFinding>)
    ensures
        exec_findings_view(r@) == match timeline {
            Some(t) => top_findings_of(all_findings(t.transitions@)),
            None => Seq::empty(),
        },
{
    match timeline {
        None => {
            let r: Vec<ExecutiveFinding> = Vec::new();
            assert(exec_findings_view(r@) =~= Seq::<ExecFindingV>::empty());
            r
        },
        Some(t) => {
            let flat = flatten_findings(&t.transitions);
            let ghost fs = findings_view(flat@);
            let ghost want = Seq::new(fs.len(), |i: int| exec_finding_of(fs[i]));
            let mut listed: Vec<ExecutiveFinding> = Vec::new();
            let mut i: usize = 0;
            while i < flat.len()
                invariant
                    i <= flat@.len(),
                    fs == findings_view(flat@),
                    want == Seq::new(fs.len(), |i: int| exec_finding_of(fs[i])),
                    exec_findings_view(listed@) == want.take(i as int),
                decreases flat.len() - i,
            {
                let e = exec_finding(&flat[i]);
                assert(fs[i as int] == flat@[i as int]@);
                let ghost before = listed@;
                listed.push(e);
                assert(exec_findings_view(listed@) =~= want.take(i + 1)) by {
                    assert(exec_findings_view(listed@) =~= exec_findings_view(before).push(e@));
                }
                i = i + 1;
            }
            assert(want.take(flat.len() as int) =~= want);
            let mut sorted = sort_exec_findings(listed);
            proof {
                lemma_sort_by_lt_len(want, exec_finding_order());
            }
            if sorted.len() > 10 {
                sorted.truncate(10);
                assert(exec_findings_view(sorted@) =~= sort_by_lt(want, exec_finding_order()).take(10));
            }
            sorted
        },
    }
}

pub struct HotspotV {
    pub resource: Seq<char>,
    pub total_score: nat,
    pub occurrences: nat,
    pub categories: Seq<Seq<char>>,
}

impl View for ResourceHotspot {
    type V = HotspotV;

    open spec fn view(&self) -> HotspotV {
        HotspotV {
            resource: self.resource@,
            total_score: self.total_score as nat,
            occurrences: self.occurrences as nat,
            categories: strings_view(self.categories@),
        }
    }
}

pub open spec fn exec_hotspots_view(v: Seq<ResourceHotspot>) -> Seq<HotspotV> {
    Seq::new(v.len(), |i: int| v[i]@)
}

/// The hotspot of resource `k`: the total score and number of its findings
/// and their distinct categories, sorted.
pub open spec fn hotspot_of(fs: Seq<FindingV>, k: Seq<char>) -> HotspotV {
    let m = keys_members(fs, k, true);
    HotspotV {
        resource: k,
        total_score: score_total(m),
        occurrences: m.len(),
        categories: sorted_distinct(keys_of(m, false)),
    }
}

/// Higher total score first, then more findings, then by resource.
pub open spec fn hotspot_before(a: HotspotV, b: HotspotV) -> bool {
    a.total_score > b.total_score || (a.total_score == b.total_score && (a.occurrences
        > b.occurrences || (a.occurrences == b.occurrences && seq_lt(a.resource, b.resource))))
}

pub open spec fn hotspot_order() -> spec_fn(HotspotV, HotspotV) -> bool {
    |a: HotspotV, b: HotspotV| hotspot_before(a, b)
}

/// One hotspot per distinct resource, sorted; at most ten.
pub open spec fn hotspots_of(fs: Seq<FindingV>) -> Seq<HotspotV> {
    let keys = sorted_distinct(keys_of(fs, true));
    let sorted = sort_by_lt(Seq::new(keys.len(), |i: int| hotspot_of(fs, keys[i])), hotspot_order());
    if sorted.len() > 10 {
        sorted.take(10)
    } else {
        sorted
    }
}

proof fn lemma_members_step(fs: Seq<FindingV>, k: Seq<char>, i: int)
    requires
        0 <= i < fs.len(),
    ensures
        keys_members(fs.take(i + 1), k, true) == if fs[i].resource == k {
            keys_members(fs.take(i), k, true).push(fs[i])
        } else {
            keys_members(fs.take(i), k, true)
        },
{
    assert(fs.take(i + 1).drop_last() =~= fs.take(i));
}

/// The distinct categories of the findings of resource `k`, sorted.
fn hotspot_categories(flat: &Vec<DriftFinding>, k: &String) -> (r: Vec<String>)
    ensures
        strings_view(r@) == sorted_distinct(keys_of(keys_members(findings_view(flat@), k@, true), false)),
{
    let ghost fs = findings_view(flat@);
    let mut cats: Vec<String> = Vec::new();
    let mut i: usize = 0;
    assert(fs.take(0) =~= Seq::<FindingV>::empty());
    assert(strings_view(cats@) =~= keys_of(keys_members(fs.take(0), k@, true), false));
    while i < flat.len()
        invariant
            i <= flat@.len(),
            fs == findings_view(flat@),
            strings_view(cats@) == keys_of(keys_members(fs.take(i as int), k@, true), false),
        decreases flat.len() - i,
    {
        proof {
            lemma_members_step(fs, k@, i as int);
        }
        assert(fs[i as int] == flat@[i as int]@);
        if str_eq(flat[i].resource.as_str(), k.as_str()) {
            let ghost before = cats@;
            let c = flat[i].category.clone();
            cats.push(c);
            proof {
                lemma_strings_view_push(before, c);
            }
            assert(strings_view(cats@) =~= keys_of(keys_members(fs.take(i + 1), k@, true), false));
        }
        i = i + 1;
    }
    assert(fs.take(flat.len() as int) =~= fs);
    sorted_unique(&cats)
}

fn hotspot_less(a: &ResourceHotspot, b: &ResourceHotspot) -> (r: bool)
    ensures
        r == hotspot_before(a@, b@),
{
    a.total_score > b.total_score || (a.total_score == b.total_score && (a.occurrences
        > b.occurrences || (a.occurrences == b.occurrences && str_less(
        a.resource.as_str(),
        b.resource.as_str(),
    ))))
}

/// Hotspots sorted, ties in their order.
fn sort_hotspots(v: Vec<ResourceHotspot>) -> (r: Vec<ResourceHotspot>)
    ensures
        exec_hotspots_view(r@) == sort_by_lt(exec_hotspots_view(v@), hotspot_order()),
{
    let ghost fv = exec_hotspots_view(v@);
    let ghost lt = hotspot_order();
    let mut rest = v;
    let mut out: Vec<ResourceHotspot> = Vec::new();
    let mut i: usize = 0;
    let n = rest.len();
    assert(fv.take(0) =~= Seq::<HotspotV>::empty());
    while rest.len() > 0
        invariant
            n == fv.len(),
            lt == hotspot_order(),
            i + rest@.len() == n,
            out@.len() == i,
            exec_hotspots_view(rest@) == fv.skip(i as int),
            exec_hotspots_view(out@) == sort_by_lt(fv.take(i as int), lt),
        decreases rest.len(),
    {
        let ghost old_rest = rest@;
        let x = rest.remove(0);
        assert forall|j: int| 0 <= j < rest@.len() implies #[trigger] exec_hotspots_view(rest@)[j] == fv.skip(i + 1)[j] by {
            assert(rest@[j] == old_rest[j + 1]);
            assert(exec_hotspots_view(old_rest)[j + 1] == fv.skip(i as int)[j + 1]);
        }
        assert(fv[i as int] == x@) by {
            assert(fv.skip(i as int)[0] == fv[i as int]);
        }
        let ghost sorted = exec_hotspots_view(out@);
        let mut k: usize = 0;
        loop
            invariant
                k <= out.len(),
                sorted == exec_hotspots_view(out@),
                lt == hotspot_order(),
                forall|j: int| 0 <= j < k ==> !lt(x@, #[trigger] sorted[j]),
            ensures
                k <= out.len(),
                forall|j: int| 0 <= j < k ==> !lt(x@, #[trigger] sorted[j]),
                k < out.len() ==> lt(x@, sorted[k as int]),
            decreases out.len() - k,
        {
            if k >= out.len() {
                break;
            }
            assert(sorted[k as int] == out@[k as int]@);
            if hotspot_less(&x, &out[k]) {
                break;
            }
            k = k + 1;
        }
        proof {
            lemma_insert_pos_lt_first(sorted, x@, lt, k as int);
            lemma_sort_by_lt_step(fv, i as int, lt);
        }
        out.insert(k, x);
        assert(exec_hotspots_view(out@) =~= sorted.insert(k as int, x@));
        assert(exec_hotspots_view(rest@) =~= fv.skip(i + 1));
        i = i + 1;
    }
    assert(fv.take(n as int) =~= fv);
    out
}

/// The hotspots of a list of findings.
fn hotspots_from(flat: &Vec<DriftFinding>) -> (r: Vec<ResourceHotspot>)
    requires
        score_total(findings_view(flat@)) <= u32::MAX,
    ensures
        exec_hotspots_view(r@) == hotspots_of(findings_view(flat@)),
{
    let ghost fs = findings_view(flat@);
    let mut all_keys: Vec<String> = Vec::new();
    let mut i: usize = 0;
    while i < flat.len()
        invariant
            i <= flat@.len(),
            fs == findings_view(flat@),
            strings_view(all_keys@) == keys_of(fs, true).take(i as int),
        decreases flat.len() - i,
    {
        let ghost before = all_keys@;
        let kstr = key_ref(&flat[i], true).clone();
        assert(fs[i as int] == flat@[i as int]@);
        all_keys.push(kstr);
        proof {
            lemma_strings_view_push(before, kstr);
        }
        assert(strings_view(all_keys@) =~= keys_of(fs, true).take(i + 1));
        i = i + 1;
    }
    assert(keys_of(fs, true).take(flat.len() as int) =~= keys_of(fs, true));
    let keys = sorted_unique(&all_keys);
    let ghost ks = strings_view(keys@);
    let ghost want = Seq::new(ks.len(), |i: int| hotspot_of(fs, ks[i]));
    let mut items: Vec<ResourceHotspot> = Vec::new();
    let mut i: usize = 0;
    while i < keys.len()
        invariant
            i <= keys@.len(),
            fs == findings_view(flat@),
            score_total(fs) <= u32::MAX,
            ks == strings_view(keys@),
            want == Seq::new(ks.len(), |i: int| hotspot_of(fs, ks[i])),
            exec_hotspots_view(items@) == want.take(i as int),
        decreases keys.len() - i,
    {
        let (resource, occurrences, total_score) = aggregate(flat, &keys[i], true);
        let categories = hotspot_categories(flat, &keys[i]);
        let h = ResourceHotspot { resource, total_score, occurrences, categories };
        assert(ks[i as int] == keys@[i as int]@);
        let ghost before = items@;
        items.push(h);
        assert(exec_hotspots_view(items@) =~= want.take(i + 1)) by {
            assert(exec_hotspots_view(items@) =~= exec_hotspots_view(before).push(h@));
            assert(h@ == hotspot_of(fs, ks[i as int]));
        }
        i = i + 1;
    }
    assert(want.take(keys.len() as int) =~= want);
    let mut sorted = sort_hotspots(items);
    proof {
        lemma_sort_by_lt_len(want, hotspot_order());
    }
    if sorted.len() > 10 {
        sorted.truncate(10);
        assert(exec_hotspots_view(sorted@) =~= sort_by_lt(want, hotspot_order()).take(10));
    }
    sorted
}

/// The hotspots of the timeline, if any.
fn build_hotspots(timeline: Option<&TimelineReport>) -> (r: Vec<ResourceHotspot>)
    requires
        timeline matches Some(t) ==> score_total(all_findings(t.transitions@)) <= u32::MAX,
    ensures
        exec_hotspots_view(r@) == match timeline {
            Some(t) => hotspots_of(all_findings(t.transitions@)),
            None => Seq::empty(),
        },
{
    match timeline {
        None => {
            let r: Vec<ResourceHotspot> = Vec::new();
            assert(exec_hotspots_view(r@) =~= Seq::<HotspotV>::empty());
            r
        },
        Some(t) => {
            let flat = flatten_findings(&t.transitions);
            hotspots_from(&flat)
        },
    }
}

/// How many of `names` are `k`.
pub open spec fn name_count(names: Seq<Seq<char>>, k: Seq<char>) -> nat
    decreases names.len(),
{
    if names.len() == 0 {
        0
    } else {
        name_count(names.drop_last(), k) + if names.last() == k {
            1nat
        } else {
            0nat
        }
    }
}

/// Each distinct name with how often it occurs, ordered by name.
pub open spec fn name_counts(names: Seq<Seq<char>>) -> Seq<(Seq<char>, nat)> {
    let keys = sorted_distinct(names);
    Seq::new(keys.len(), |i: int| (keys[i], name_count(names, keys[i])))
}

pub open spec fn counts_view(v: Seq<(String, usize)>) -> Seq<(Seq<char>, nat)> {
    Seq::new(v.len(), |i: int| (v[i].0@, v[i].1 as nat))
}

proof fn lemma_name_count_step(names: Seq<Seq<char>>, k: Seq<char>, j: int)
    requires
        0 <= j < names.len(),
    ensures
        name_count(names.take(j + 1), k) == name_count(names.take(j), k) + if names[j] == k {
            1nat
        } else {
            0nat
        },
        name_count(names.take(j), k) <= j,
    decreases j,
{
    assert(names.take(j + 1).drop_last() =~= names.take(j));
    if j > 0 {
        lemma_name_count_step(names, k, j - 1);
    } else {
        assert(names.take(0) =~= Seq::<Seq<char>>::empty());
    }
}

/// How often each name occurs, ordered by name (what a `BTreeMap` of
/// counters gives).
fn count_names(names: &Vec<String>) -> (r: Vec<(String, usize)>)
    ensures
        counts_view(r@) == name_counts(strings_view(names@)),
{
    let ghost ns = strings_view(names@);
    let keys = sorted_unique(names);
    let ghost ks = strings_view(keys@);
    let ghost want = Seq::new(ks.len(), |i: int| (ks[i], name_count(ns, ks[i])));
    let mut out: Vec<(String, usize)> = Vec::new();
    let mut i: usize = 0;
    while i < keys.len()
        invariant
            i <= keys@.len(),
            ns == strings_view(names@),
            ks == strings_view(keys@),
            want == Seq::new(ks.len(), |i: int| (ks[i], name_count(ns, ks[i]))),
            counts_view(out@) == want.take(i as int),
        decreases keys.len() - i,
    {
        let k = &keys[i];
        let mut c: usize = 0;
        let mut j: usize = 0;
        assert(ns.take(0) =~= Seq::<Seq<char>>::empty());
        while j < names.len()
            invariant
                j <= names@.len(),
                ns == strings_view(names@),
                c as nat == name_count(ns.take(j as int), k@),
            decreases names.len() - j,
        {
            proof {
                lemma_name_count_step(ns, k@, j as int);
            }
            assert(ns[j as int] == names@[j as int]@);
            if str_eq(names[j].as_str(), k.as_str()) {
                c = c + 1;
            }
            j = j + 1;
        }
        assert(ns.take(names.len() as int) =~= ns);
        assert(ks[i as int] == k@);
        let ghost before = out@;
        out.push((k.clone(), c));
        assert(counts_view(out@) =~= want.take(i + 1)) by {
            assert(counts_view(out@) =~= counts_view(before).push((k@, c as nat)));
        }
        i = i + 1;
    }
    assert(want.take(keys.len() as int) =~= want);
    out
}

pub struct ExecEpisodeV {
    pub episode_id: Seq<char>,
    pub title: Seq<char>,
    pub kind: Seq<char>,
    pub severity: Seq<char>,
    pub criticality: Seq<char>,
    pub state: Seq<char>,
    pub score: u32,
    pub resource_count: usize,
}

impl View for ExecutiveEpisode {
    type V = ExecEpisodeV;

    open spec fn view(&self) -> ExecEpisodeV {
        ExecEpisodeV {
            episode_id: self.episode_id@,
            title: self.title@,
            kind: self.kind@,
            severity: self.severity@,
            criticality: self.criticality@,
            state: self.state@,
            score: self.score,
            resource_count: self.resource_count,
        }
    }
}

pub open spec fn exec_episodes_view(v: Seq<ExecutiveEpisode>) -> Seq<ExecEpisodeV> {
    Seq::new(v.len(), |i: int| v[i]@)
}

/// An episode as listed: its names, with its kind, severity, criticality
/// and state by name.
pub open spec fn exec_episode_of(e: EpisodeV) -> ExecEpisodeV {
    ExecEpisodeV {
        episode_id: e.episode_id,
        title: e.title,
        kind: kind_name(e.kind),
        severity: severity_name(e.severity),
        criticality: criticality_name(e.criticality),
        state: episode_state_name(e.state),
        score: e.score,
        resource_count: e.resource_count,
    }
}

/// Higher score first, then by title, then by identifier.
pub open spec fn exec_episode_before(a: ExecEpisodeV, b: ExecEpisodeV) -> bool {
    a.score > b.score || (a.score == b.score && (seq_lt(a.title, b.title) || (a.title == b.title
        && seq_lt(a.episode_id, b.episode_id))))
}

pub open spec fn exec_episode_order() -> spec_fn(ExecEpisodeV, ExecEpisodeV) -> bool {
    |a: ExecEpisodeV, b: ExecEpisodeV| exec_episode_before(a, b)
}

/// The five episodes of highest score, in that order.
pub open spec fn top_episodes_of(es: Seq<EpisodeV>) -> Seq<ExecEpisodeV> {
    let sorted = sort_by_lt(Seq::new(es.len(), |i: int| exec_episode_of(es[i])), exec_episode_order());
    if sorted.len() > 5 {
        sorted.take(5)
    } else {
        sorted
    }
}

pub open spec fn state_names(es: Seq<EpisodeV>) -> Seq<Seq<char>> {
    Seq::new(es.len(), |i: int| episode_state_name(es[i].state))
}

pub open spec fn kind_names(es: Seq<EpisodeV>) -> Seq<Seq<char>> {
    Seq::new(es.len(), |i: int| kind_name(es[i].kind))
}

/// The episode overview: the collection's count, its episodes counted by
/// state and by kind, and its five of highest score; all empty without a
/// collection.
pub open spec fn episode_overview_ok(o: EpisodeOverview, episodes: Option<EpisodeCollection>) -> bool {
    match episodes {
        Some(c) => {
            let es = episodes_view(c.episodes@);
            &&& o.total_episodes == c.episode_count
            &&& counts_view(o.by_state@) == name_counts(state_names(es))
            &&& counts_view(o.by_kind@) == name_counts(kind_names(es))
            &&& exec_episodes_view(o.top_episodes@) == top_episodes_of(es)
        },
        None => {
            &&& o.total_episodes == 0
            &&& o.by_state@.len() == 0
            &&& o.by_kind@.len() == 0
            &&& o.top_episodes@.len() == 0
        },
    }
}

fn exec_episode(e: &RiskEpisode) -> (r: ExecutiveEpisode)
    ensures
        r@ == exec_episode_of(e@),
{
    ExecutiveEpisode {
        episode_id: e.episode_id.clone(),
        title: e.title.clone(),
        kind: e.kind.to_string(),
        severity: e.severity.to_string(),
        criticality: e.criticality.to_string(),
        state: e.state.to_string(),
        score: e.score,
        resource_count: e.resource_count,
    }
}

fn exec_episode_less(a: &ExecutiveEpisode, b: &ExecutiveEpisode) -> (r: bool)
    ensures
        r == exec_episode_before(a@, b@),
{
    a.score > b.score || (a.score == b.score && (str_less(a.title.as_str(), b.title.as_str())
        || (str_eq(a.title.as_str(), b.title.as_str()) && str_less(
        a.episode_id.as_str(),
        b.episode_id.as_str(),
    ))))
}

/// Listed episodes sorted, ties in their order.
fn sort_exec_episodes(v: Vec<ExecutiveEpisode>) -> (r: Vec<ExecutiveEpisode>)
    ensures
        exec_episodes_view(r@) == sort_by_lt(exec_episodes_view(v@), exec_episode_order()),
{
    let ghost fv = exec_episodes_view(v@);
    let ghost lt = exec_episode_order();
    let mut rest = v;
    let mut out: Vec<ExecutiveEpisode> = Vec::new();
    let mut i: usize = 0;
    let n = rest.len();
    assert(fv.take(0) =~= Seq::<ExecEpisodeV>::empty());
    while rest.len() > 0
        invariant
            n == fv.len(),
            lt == exec_episode_order(),
            i + rest@.len() == n,
            out@.len() == i,
            exec_episodes_view(rest@) == fv.skip(i as int),
            exec_episodes_view(out@) == sort_by_lt(fv.take(i as int), lt),
        decreases rest.len(),
    {
        let ghost old_rest = rest@;
        let x = rest.remove(0);
        assert forall|j: int| 0 <= j < rest@.len() implies #[trigger] exec_episodes_view(rest@)[j] == fv.skip(i + 1)[j] by {
            assert(rest@[j] == old_rest[j + 1]);
            assert(exec_episodes_view(old_rest)[j + 1] == fv.skip(i as int)[j + 1]);
        }
        assert(fv[i as int] == x@) by {
            assert(fv.skip(i as int)[0] == fv[i as int]);
        }
        let ghost sorted = exec_episodes_view(out@);
        let mut k: usize = 0;
        loop
            invariant
                k <= out.len(),
                sorted == exec_episodes_view(out@),
                lt == exec_episode_order(),
                forall|j: int| 0 <= j < k ==> !lt(x@, #[trigger] sorted[j]),
            ensures
                k <= out.len(),
                forall|j: int| 0 <= j < k ==> !lt(x@, #[trigger] sorted[j]),
                k < out.len() ==> lt(x@, sorted[k as int]),
            decreases out.len() - k,
        {
            if k >= out.len() {
                break;
            }
            assert(sorted[k as int] == out@[k as int]@);
            if exec_episode_less(&x, &out[k]) {
                break;
            }
            k = k + 1;
        }
        proof {
            lemma_insert_pos_lt_first(sorted, x@, lt, k as int);
            lemma_sort_by_lt_step(fv, i as int, lt);
        }
        out.insert(k, x);
        assert(exec_episodes_view(out@) =~= sorted.insert(k as int, x@));
        assert(exec_episodes_view(rest@) =~= fv.skip(i + 1));
        i = i + 1;
    }
    assert(fv.take(n as int) =~= fv);
    out
}

/// The overview of the episode collection, if any.
fn build_episode_overview(episodes: Option<&EpisodeCollection>) -> (o: EpisodeOverview)
    ensures
        episode_overview_ok(o, opt_episodes(episodes)),
{
    match episodes {
        None => EpisodeOverview {
            total_episodes: 0,
            by_state: Vec::new(),
            by_kind: Vec::new(),
            top_episodes: Vec::new(),
        },
        Some(c) => {
            let eps = &c.episodes;
            let ghost es = episodes_view(eps@);
            let ghost want = Seq::new(es.len(), |i: int| exec_episode_of(es[i]));
            let mut states: Vec<String> = Vec::new();
            let mut kinds: Vec<String> = Vec::new();
            let mut listed: Vec<ExecutiveEpisode> = Vec::new();
            let mut i: usize = 0;
            while i < eps.len()
                invariant
                    i <= eps@.len(),
                    es == episodes_view(eps@),
                    want == Seq::new(es.len(), |i: int| exec_episode_of(es[i])),
                    strings_view(states@) == state_names(es).take(i as int),
                    strings_view(kinds@) == kind_names(es).take(i as int),
                    exec_episodes_view(listed@) == want.take(i as int),
                decreases eps.len() - i,
            {
                let e = &eps[i];
                assert(es[i as int] == e@);
                let ghost s0 = states@;
                let ghost k0 = kinds@;
                let ghost l0 = listed@;
                let st = e.state.to_string();
                let kd = e.kind.to_string();
                let x = exec_episode(e);
                states.push(st);
                kinds.push(kd);
                listed.push(x);
                proof {
                    lemma_strings_view_push(s0, st);
                    lemma_strings_view_push(k0, kd);
                }
                assert(strings_view(states@) =~= state_names(es).take(i + 1));
                assert(strings_view(kinds@) =~= kind_names(es).take(i + 1));
                assert(exec_episodes_view(listed@) =~= want.take(i + 1)) by {
                    assert(exec_episodes_view(listed@) =~= exec_episodes_view(l0).push(x@));
                }
                i = i + 1;
            }
            assert(state_names(es).take(eps.len() as int) =~= state_names(es));
            assert(kind_names(es).take(eps.len() as int) =~= kind_names(es));
            assert(want.take(eps.len() as int) =~= want);
            let by_state = count_names(&states);
            let by_kind = count_names(&kinds);
            let mut top = sort_exec_episodes(listed);
            proof {
                lemma_sort_by_lt_len(want, exec_episode_order());
            }
            if top.len() > 5 {
                top.truncate(5);
                assert(exec_episodes_view(top@) =~= sort_by_lt(want, exec_episode_order()).take(5));
            }
            EpisodeOverview { total_episodes: c.episode_count, by_state, by_kind, top_episodes: top }
        },
    }
}

/// The graph overview: the graph's counts and shape, and its hubs named by
/// label and kind.
pub open spec fn graph_overview_ok(o: GraphOverview, g: ExposureGraph) -> bool {
    let hubs = ranked_view(g.topology.highest_degree_nodes@);
    &&& o.node_count == g.node_count
    &&& o.edge_count == g.edge_count
    &&& o.connected_nodes == g.topology.connected_nodes
    &&& o.isolated_nodes == g.topology.isolated_nodes
    &&& o.max_degree == g.topology.max_degree
    &&& strings_view(o.highest_degree_labels@) == Seq::new(hubs.len(), |i: int| hub_label(hubs[i]))
}

fn build_graph_overview(graph: &ExposureGraph) -> (o: GraphOverview)
    ensures
        graph_overview_ok(o, *graph),
{
    let v = graph_view_of(graph);
    GraphOverview {
        node_count: v.node_count,
        edge_count: v.edge_count,
        connected_nodes: v.connected_nodes,
        isolated_nodes: v.isolated_nodes,
        max_degree: v.max_degree,
        highest_degree_labels: v.hubs,
    }
}

/// Some hotspot is a plain-HTTP resource.
pub open spec fn plain_http_hotspot(hs: Seq<HotspotV>) -> bool {
    exists|i: int| 0 <= i < hs.len() && starts_with(#[trigger] hs[i].resource, "http://"@)
}

/// Some episode is persistent or recurring.
pub open spec fn lasting_episode(es: Seq<EpisodeV>) -> bool {
    exists|i: int|
        0 <= i < es.len() && ((#[trigger] es[i]).state == EpisodeState::Persistent || es[i].state
            == EpisodeState::Recurring)
}

pub open spec fn line_if(c: bool, line: Seq<char>) -> Seq<Seq<char>> {
    if c {
        seq![line]
    } else {
        Seq::empty()
    }
}

/// The line about the most severe finding, when there is one.
pub open spec fn first_finding_line(top: Seq<ExecFindingV>) -> Seq<Seq<char>> {
    if top.len() > 0 {
        seq![
            "Investigar primero el hallazgo más severo: '"@ + top[0].title + "' sobre "@
                + top[0].resource + " (score "@ + decimal(top[0].score as nat) + ")."@,
        ]
    } else {
        Seq::empty()
    }
}

/// The lines about persistent, recurring and critical findings of the
/// timeline, each when its count is not zero.
pub open spec fn timeline_lines(timeline: Option<TimelineReport>) -> Seq<Seq<char>> {
    match timeline {
        Some(t) => line_if(
            t.executive.persistent_findings > 0,
            "Hay hallazgos persistentes; conviene abrir seguimiento formal para recursos reincidentes."@,
        ) + line_if(
            t.executive.recurring_findings > 0,
            "Los hallazgos recurrentes sugieren drift operacional; revisar cambios frecuentes en superficie expuesta."@,
        ) + line_if(
            t.executive.critical_findings > 0,
            "Existen activos críticos implicados; validar ownership, exposición pública y controles compensatorios."@,
        ),
        None => Seq::empty(),
    }
}

/// The line about lasting episodes, when there is one.
pub open spec fn episode_lines(episodes: Option<EpisodeCollection>) -> Seq<Seq<char>> {
    match episodes {
        Some(c) => line_if(
            lasting_episode(episodes_view(c.episodes@)),
            "Los episodios recurrentes/persistentes deben convertirse en iniciativas de remediación estructural."@,
        ),
        None => Seq::empty(),
    }
}

/// The advice of the executive report: the most severe finding, plain
/// HTTP among the hotspots, persistent, recurring and critical findings,
/// lasting episodes, a graph hub of degree eight or more and an active
/// policy, each when it applies, in that order; a reassurance when none
/// does.
pub open spec fn executive_recommendations(
    top: Seq<ExecFindingV>,
    hotspots: Seq<HotspotV>,
    timeline: Option<TimelineReport>,
    episodes: Option<EpisodeCollection>,
    max_degree: usize,
    policy_applied: bool,
) -> Seq<Seq<char>> {
    let items = first_finding_line(top) + line_if(
        plain_http_hotspot(hotspots),
        "Priorizar migración o eliminación de servicios HTTP en claro detectados en hotspots."@,
    ) + timeline_lines(timeline) + episode_lines(episodes) + line_if(
        max_degree >= 8,
        "Los nodos hub del grafo deberían revisarse primero, porque concentran relaciones y superficie de impacto."@,
    ) + line_if(
        policy_applied,
        "El reporte fue generado con policy activa; revisar periódicamente suppressions y baselines para evitar ceguera operativa."@,
    );
    if items.len() == 0 {
        seq!["No se identificaron señales críticas inmediatas; mantener monitoreo periódico y snapshots comparables."@]
    } else {
        items
    }
}

fn any_plain_http(hs: &Vec<ResourceHotspot>) -> (r: bool)
    ensures
        r == plain_http_hotspot(exec_hotspots_view(hs@)),
{
    let ghost hv = exec_hotspots_view(hs@);
    let mut i: usize = 0;
    while i < hs.len()
        invariant
            i <= hs@.len(),
            hv == exec_hotspots_view(hs@),
            forall|j: int| 0 <= j < i ==> !starts_with(#[trigger] hv[j].resource, "http://"@),
        decreases hs.len() - i,
    {
        let cs = chars_of(hs[i].resource.as_str());
        assert(hv[i as int] == hs@[i as int]@);
        if starts_with_lit(&cs, "http://") {
            assert(starts_with(hv[i as int].resource, "http://"@));
            return true;
        }
        i = i + 1;
    }
    false
}

fn any_lasting_episode(eps: &Vec<RiskEpisode>) -> (r: bool)
    ensures
        r == lasting_episode(episodes_view(eps@)),
{
    let ghost es = episodes_view(eps@);
    let mut i: usize = 0;
    while i < eps.len()
        invariant
            i <= eps@.len(),
            es == episodes_view(eps@),
            forall|j: int|
                0 <= j < i ==> !((#[trigger] es[j]).state == EpisodeState::Persistent || es[j].state
                    == EpisodeState::Recurring),
        decreases eps.len() - i,
    {
        assert(es[i as int] == eps@[i as int]@);
        match eps[i].state {
            EpisodeState::Persistent | EpisodeState::Recurring => {
                return true;
            },
            _ => {},
        }
        i = i + 1;
    }
    false
}

fn push_line(items: &mut Vec<String>, line: String)
    ensures
        strings_view(final(items)@) == strings_view(old(items)@).push(line@),
{
    let ghost before = items@;
    items.push(line);
    proof {
        lemma_strings_view_push(before, line);
    }
}

fn push_line_if(items: &mut Vec<String>, c: bool, line: String)
    ensures
        strings_view(final(items)@) == strings_view(old(items)@) + line_if(c, line@),
{
    if c {
        push_line(items, line);
    }
    assert(strings_view(items@) =~= strings_view(old(items)@) + line_if(c, line@));
}

fn first_finding_lines(top_findings: &Vec<ExecutiveFinding>) -> (r: Vec<String>)
    ensures
        strings_view(r@) == first_finding_line(exec_findings_view(top_findings@)),
{
    let ghost top = exec_findings_view(top_findings@);
    let mut items: Vec<String> = Vec::new();
    if top_findings.len() > 0 {
        let t = &top_findings[0];
        assert(top[0] == t@);
        let mut line = owned("Investigar primero el hallazgo más severo: '");
        push_str(&mut line, t.title.as_str());
        push_str(&mut line, "' sobre ");
        push_str(&mut line, t.resource.as_str());
        push_str(&mut line, " (score ");
        let sc = decimal_text(t.score as u64);
        push_str(&mut line, sc.as_str());
        push_str(&mut line, ").");
        push_line(&mut items, line);
    }
    assert(strings_view(items@) =~= first_finding_line(top));
    items
}

fn push_timeline_lines(items: &mut Vec<String>, timeline: Option<&TimelineReport>)
    ensures
        strings_view(final(items)@) == strings_view(old(items)@) + timeline_lines(opt_timeline(timeline)),
{
    match timeline {
        Some(t) => {
            let ghost s0 = strings_view(items@);
            let ghost l1 = line_if(
                t.executive.persistent_findings > 0,
                "Hay hallazgos persistentes; conviene abrir seguimiento formal para recursos reincidentes."@,
            );
            let ghost l2 = line_if(
                t.executive.recurring_findings > 0,
                "Los hallazgos recurrentes sugieren drift operacional; revisar cambios frecuentes en superficie expuesta."@,
            );
            let ghost l3 = line_if(
                t.executive.critical_findings > 0,
                "Existen activos críticos implicados; validar ownership, exposición pública y controles compensatorios."@,
            );
            push_line_if(
                items,
                t.executive.persistent_findings > 0,
                owned("Hay hallazgos persistentes; conviene abrir seguimiento formal para recursos reincidentes."),
            );
            push_line_if(
                items,
                t.executive.recurring_findings > 0,
                owned("Los hallazgos recurrentes sugieren drift operacional; revisar cambios frecuentes en superficie expuesta."),
            );
            push_line_if(
                items,
                t.executive.critical_findings > 0,
                owned("Existen activos críticos implicados; validar ownership, exposición pública y controles compensatorios."),
            );
            assert(strings_view(items@) =~= s0 + (l1 + l2 + l3));
        },
        None => {
            assert(strings_view(items@) =~= strings_view(old(items)@) + timeline_lines(opt_timeline(timeline)));
        },
    }
}

fn push_episode_lines(items: &mut Vec<String>, episodes: Option<&EpisodeCollection>)
    ensures
        strings_view(final(items)@) == strings_view(old(items)@) + episode_lines(opt_episodes(episodes)),
{
    match episodes {
        Some(c) => {
            let lasting = any_lasting_episode(&c.episodes);
            push_line_if(
                items,
                lasting,
                owned("Los episodios recurrentes/persistentes deben convertirse en iniciativas de remediación estructural."),
            );
        },
        None => {
            assert(strings_view(items@) =~= strings_view(old(items)@) + episode_lines(opt_episodes(episodes)));
        },
    }
}

fn build_recommendations(
    timeline: Option<&TimelineReport>,
    episodes: Option<&EpisodeCollection>,
    graph: &ExposureGraph,
    policy_applied: bool,
    top_findings: &Vec<ExecutiveFinding>,
    hotspots: &Vec<ResourceHotspot>,
) -> (r: Vec<String>)
    ensures
        strings_view(r@) == executive_recommendations(
            exec_findings_view(top_findings@),
            exec_hotspots_view(hotspots@),
            opt_timeline(timeline),
            opt_episodes(episodes),
            graph.topology.max_degree,
            policy_applied,
        ),
{
    let mut items = first_finding_lines(top_findings);
    let http = any_plain_http(hotspots);
    push_line_if(
        &mut items,
        http,
        owned("Priorizar migración o eliminación de servicios HTTP en claro detectados en hotspots."),
    );
    push_timeline_lines(&mut items, timeline);
    push_episode_lines(&mut items, episodes);
    push_line_if(
        &mut items,
        graph.topology.max_degree >= 8,
        owned("Los nodos hub del grafo deberían revisarse primero, porque concentran relaciones y superficie de impacto."),
    );
    push_line_if(
        &mut items,
        policy_applied,
        owned("El reporte fue generado con policy activa; revisar periódicamente suppressions y baselines para evitar ceguera operativa."),
    );
    if items.len() == 0 {
        push_line(&mut items, owned("No se identificaron señales críticas inmediatas; mantener monitoreo periódico y snapshots comparables."));
        assert(strings_view(items@) =~= seq!["No se identificaron señales críticas inmediatas; mantener monitoreo periódico y snapshots comparables."@]);
    }
    items
}

/// What an executive report says of its inputs (all but when it was made).
pub open spec fn executive_report_ok(
    r: ExecutiveReport,
    target: Seq<char>,
    snapshots: Seq<Snapshot>,
    timeline: Option<TimelineReport>,
    episodes: Option<EpisodeCollection>,
    graph: ExposureGraph,
    policy_applied: bool,
) -> bool {
    let top = match timeline {
        Some(t) => top_findings_of(all_findings(t.transitions@)),
        None => Seq::empty(),
    };
    let hs = match timeline {
        Some(t) => hotspots_of(all_findings(t.transitions@)),
        None => Seq::empty(),
    };
    &&& r.target@ == target
    &&& r.snapshot_count == snapshots.len()
    &&& r.latest_snapshot_at == if snapshots.len() > 0 {
        Some(snapshots.last().timestamp)
    } else {
        None::<i64>
    }
    &&& r.policy_applied == policy_applied
    &&& overview_ok(r.overview, timeline)
    &&& exec_findings_view(r.top_findings@) == top
    &&& exec_hotspots_view(r.hotspots@) == hs
    &&& episode_overview_ok(r.episodes, episodes)
    &&& graph_overview_ok(r.graph, graph)
    &&& strings_view(r.recommendations@) == executive_recommendations(
        top,
        hs,
        timeline,
        episodes,
        graph.topology.max_degree,
        policy_applied,
    )
}

/// `build_executive_report` at time `now`: the timeline's overview, its
/// ten most severe findings and ten hottest resources, the episode and
/// graph overviews, and the recommendations those give.
pub fn build_executive_report_at(
    target: &str,
    snapshots: &Vec<Snapshot>,
    timeline: Option<&TimelineReport>,
    episodes: Option<&EpisodeCollection>,
    graph: &ExposureGraph,
    policy_applied: bool,
    now: i64,
) -> (r: ExecutiveReport)
    requires
        timeline matches Some(t) ==> score_total(all_findings(t.transitions@)) <= u32::MAX,
    ensures
        r.generated_at == now,
        executive_report_ok(r, target@, snapshots@, opt_timeline(timeline), opt_episodes(episodes), *graph, policy_applied),
{
    let latest = if snapshots.len() > 0 {
        Some(snapshots[snapshots.len() - 1].timestamp)
    } else {
        None
    };
    let overview = build_overview(timeline);
    let top_findings = build_top_findings(timeline);
    let hotspots = build_hotspots(timeline);
    let episode_overview = build_episode_overview(episodes);
    let graph_overview = build_graph_overview(graph);
    let recommendations = build_recommendations(
        timeline,
        episodes,
        graph,
        policy_applied,
        &top_findings,
        &hotspots,
    );
    ExecutiveReport {
        target: owned(target),
        generated_at: now,
        snapshot_count: snapshots.len(),
        latest_snapshot_at: latest,
        policy_applied,
        overview,
        top_findings,
        hotspots,
        episodes: episode_overview,
        graph: graph_overview,
        recommendations,
    }
}

/// `build_executive_report`, made now.
pub fn build_executive_report(
    target: &str,
    snapshots: &Vec<Snapshot>,
    timeline: Option<&TimelineReport>,
    episodes: Option<&EpisodeCollection>,
    graph: &ExposureGraph,
    policy_applied: bool,
) -> (r: ExecutiveReport)
    requires
        timeline matches Some(t) ==> score_total(all_findings(t.transitions@)) <= u32::MAX,
    ensures
        executive_report_ok(r, target@, snapshots@, opt_timeline(timeline), opt_episodes(episodes), *graph, policy_applied),
{
    let now = crate::jobs::now_timestamp();
    build_executive_report_at(target, snapshots, timeline, episodes, graph, policy_applied, now)
}

} // verus!
