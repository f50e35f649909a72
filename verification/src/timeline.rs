//! Timelines: the drift between each pair of consecutive snapshots, findings
//! marked as new, recurring or persistent across transitions, and the
//! executive summary of the whole timeline.
use vstd::prelude::*;
use crate::drift::{
    findings_view, lemma_findings_view_push, AssetType, AssetTypeSummary, DriftFinding,
    FindingState, FindingV, Severity,
};
use crate::order::{
    lemma_insert_pos_first, lemma_sort_desc_len, lemma_sort_desc_step, sort_desc, sorted_distinct,
    sorted_unique,
};
use crate::report::{
    active_part, adjusted_findings, count_where, groups_of, groups_view, increment_asset_type,
    analyze_diff_with_policy, diff_size, group_findings, lemma_active_scores,
    lemma_adjusted_findings_views, scores_at_most,
    normalize_finding_collection, normalized_all, resources_of, score_total, summarize, summary_of,
    suppressed_part, DriftReport,
};
use crate::text::owned;
use crate::diff::{diff_view, snapshot_size, DiffReport, Snapshot};
use crate::drift::{policy_view, Criticality, DriftPolicy, PolicyV};
use crate::diff::diff_snapshots;
use crate::text::{lemma_strings_view_push, str_eq, strings_view};

verus! {

/// The drift between two consecutive snapshots of a timeline.
#[derive(Debug, Clone)]
pub struct TimelineTransition {
    pub older_timestamp: i64,
    pub newer_timestamp: i64,
    pub report: DriftReport,
}

/// How often a resource appears in a timeline, and its total score.
#[derive(Debug, Clone)]
pub struct ResourceAggregate {
    pub resource: String,
    pub occurrences: usize,
    pub total_score: u32,
}

/// How often a category appears in a timeline, and its total score.
#[derive(Debug, Clone)]
pub struct CategoryAggregate {
    pub category: String,
    pub occurrences: usize,
    pub total_score: u32,
}

/// The executive summary of a timeline.
#[derive(Debug, Clone)]
pub struct TimelineExecutiveSummary {
    pub total_score: u32,
    pub overall_severity: Severity,
    pub total_findings: usize,
    pub unique_resources: usize,
    pub critical_findings: usize,
    pub recurring_findings: usize,
    pub persistent_findings: usize,
    pub asset_types: AssetTypeSummary,
    pub top_resources: Vec<ResourceAggregate>,
    pub top_categories: Vec<CategoryAggregate>,
}

/// The drift of a target over a sequence of snapshots.
#[derive(Debug, Clone)]
pub struct TimelineReport {
    pub target: String,
    pub snapshot_count: usize,
    pub transition_count: usize,
    pub transitions: Vec<TimelineTransition>,
    pub executive: TimelineExecutiveSummary,
}

/// Every active finding of every transition, in order.
pub open spec fn all_findings(ts: Seq<TimelineTransition>) -> Seq<FindingV>
    decreases ts.len(),
{
    if ts.len() == 0 {
        Seq::empty()
    } else {
        all_findings(ts.drop_last()) + findings_view(ts.last().report.findings@)
    }
}

/// The sum of the transitions' total scores.
pub open spec fn summary_total(ts: Seq<TimelineTransition>) -> nat
    decreases ts.len(),
{
    if ts.len() == 0 {
        0
    } else {
        summary_total(ts.drop_last()) + ts.last().report.summary.total_score as nat
    }
}

/// The sum of the transitions' critical counts.
pub open spec fn summary_critical(ts: Seq<TimelineTransition>) -> nat
    decreases ts.len(),
{
    if ts.len() == 0 {
        0
    } else {
        summary_critical(ts.drop_last()) + ts.last().report.summary.critical_findings as nat
    }
}

/// The severity of a timeline by its total score.
pub open spec fn timeline_severity(total: nat) -> Severity {
    if total >= 350 {
        Severity::High
    } else if total >= 180 {
        Severity::Medium
    } else if total >= 40 {
        Severity::Low
    } else {
        Severity::Info
    }
}

/// An aggregate: a key, how many findings have it, and their total score.
pub struct AggregateV {
    pub key: Seq<char>,
    pub occurrences: nat,
    pub total_score: nat,
}

pub open spec fn by_aggregate_total() -> spec_fn(AggregateV) -> int {
    |a: AggregateV| a.total_score as int
}

/// The resource, or else the category, of a finding.
pub open spec fn key_of(f: FindingV, by_resource: bool) -> Seq<char> {
    if by_resource {
        f.resource
    } else {
        f.category
    }
}

pub open spec fn keys_of(fs: Seq<FindingV>, by_resource: bool) -> Seq<Seq<char>> {
    Seq::new(fs.len(), |i: int| key_of(fs[i], by_resource))
}

/// The findings whose resource (or category) is `k`, in order.
pub open spec fn keys_members(fs: Seq<FindingV>, k: Seq<char>, by_resource: bool) -> Seq<FindingV>
    decreases fs.len(),
{
    if fs.len() == 0 {
        Seq::empty()
    } else {
        let m = keys_members(fs.drop_last(), k, by_resource);
        if key_of(fs.last(), by_resource) == k {
            m.push(fs.last())
        } else {
            m
        }
    }
}

/// The aggregate of the findings with key `k`.
pub open spec fn aggregate_of(fs: Seq<FindingV>, k: Seq<char>, by_resource: bool) -> AggregateV {
    AggregateV {
        key: k,
        occurrences: keys_members(fs, k, by_resource).len(),
        total_score: score_total(keys_members(fs, k, by_resource)),
    }
}

/// One aggregate per distinct key, in the order of the keys; then sorted by
/// descending total score, ties keeping that order; at most five.
pub open spec fn top_aggregates(fs: Seq<FindingV>, by_resource: bool) -> Seq<AggregateV> {
    let keys = sorted_distinct(keys_of(fs, by_resource));
    let aggs = Seq::new(keys.len(), |i: int| aggregate_of(fs, keys[i], by_resource));
    let sorted = sort_desc(aggs, by_aggregate_total());
    if sorted.len() > 5 {
        sorted.take(5)
    } else {
        sorted
    }
}

pub open spec fn in_state(s: FindingState) -> spec_fn(FindingV) -> bool {
    |f: FindingV| f.state == s
}

pub open spec fn of_asset(a: AssetType) -> spec_fn(FindingV) -> bool {
    |f: FindingV| f.asset_type == a
}

impl View for ResourceAggregate {
    type V = AggregateV;

    open spec fn view(&self) -> AggregateV {
        AggregateV { key: self.resource@, occurrences: self.occurrences as nat, total_score: self.total_score as nat }
    }
}

impl View for CategoryAggregate {
    type V = AggregateV;

    open spec fn view(&self) -> AggregateV {
        AggregateV { key: self.category@, occurrences: self.occurrences as nat, total_score: self.total_score as nat }
    }
}

pub open spec fn resource_aggs_view(v: Seq<ResourceAggregate>) -> Seq<AggregateV> {
    Seq::new(v.len(), |i: int| v[i]@)
}

pub open spec fn category_aggs_view(v: Seq<CategoryAggregate>) -> Seq<AggregateV> {
    Seq::new(v.len(), |i: int| v[i]@)
}

/// What `build_executive_summary` gives for a list of transitions.
pub open spec fn executive_ok(e: TimelineExecutiveSummary, ts: Seq<TimelineTransition>) -> bool {
    let fs = all_findings(ts);
    &&& e.total_score == summary_total(ts)
    &&& e.overall_severity == timeline_severity(summary_total(ts))
    &&& e.total_findings == fs.len()
    &&& e.unique_resources == sorted_distinct(resources_of(fs)).len()
    &&& e.critical_findings == summary_critical(ts)
    &&& e.recurring_findings == count_where(fs, in_state(FindingState::Recurring))
    &&& e.persistent_findings == count_where(fs, in_state(FindingState::Persistent))
    &&& e.asset_types.ips == count_where(fs, of_asset(AssetType::Ip))
    &&& e.asset_types.subdomains == count_where(fs, of_asset(AssetType::Subdomain))
    &&& e.asset_types.services == count_where(fs, of_asset(AssetType::Service))
    &&& e.asset_types.unknown == count_where(fs, of_asset(AssetType::Unknown))
    &&& resource_aggs_view(e.top_resources@) == top_aggregates(fs, true)
    &&& category_aggs_view(e.top_categories@) == top_aggregates(fs, false)
}

proof fn lemma_score_prefix(fs: Seq<FindingV>, j: int)
    requires
        0 <= j <= fs.len(),
    ensures
        score_total(fs.take(j)) <= score_total(fs),
    decreases fs.len() - j,
{
    if j < fs.len() {
        lemma_score_prefix(fs, j + 1);
        assert(fs.take(j + 1).drop_last() =~= fs.take(j));
    } else {
        assert(fs.take(j) =~= fs);
    }
}

proof fn lemma_members_prefix(fs: Seq<FindingV>, k: Seq<char>, by_resource: bool, j: int)
    requires
        0 <= j < fs.len(),
    ensures
        keys_members(fs.take(j + 1), k, by_resource) == if key_of(fs[j], by_resource) == k {
            keys_members(fs.take(j), k, by_resource).push(fs[j])
        } else {
            keys_members(fs.take(j), k, by_resource)
        },
        score_total(fs.take(j + 1)) == score_total(fs.take(j)) + fs[j].score,
{
    assert(fs.take(j + 1).drop_last() =~= fs.take(j));
    assert(fs.take(j + 1).last() == fs[j]);
}

pub(crate) proof fn lemma_members_total(fs: Seq<FindingV>, k: Seq<char>, by_resource: bool)
    ensures
        score_total(keys_members(fs, k, by_resource)) <= score_total(fs),
        keys_members(fs, k, by_resource).len() <= fs.len(),
    decreases fs.len(),
{
    if fs.len() > 0 {
        lemma_members_total(fs.drop_last(), k, by_resource);
        let m = keys_members(fs.drop_last(), k, by_resource);
        lemma_score_push(m, fs.last());
    }
}

proof fn lemma_score_push(m: Seq<FindingV>, x: FindingV)
    ensures
        score_total(m.push(x)) == score_total(m) + x.score,
{
    assert(m.push(x).drop_last() =~= m);
}

pub(crate) fn key_ref(f: &DriftFinding, by_resource: bool) -> (r: &String)
    ensures
        r@ == key_of(f@, by_resource),
{
    if by_resource {
        &f.resource
    } else {
        &f.category
    }
}

/// The aggregate of the findings with key `k`.
pub(crate) fn aggregate(flat: &Vec<DriftFinding>, k: &String, by_resource: bool) -> (r: (String, usize, u32))
    requires
        score_total(findings_view(flat@)) <= u32::MAX,
    ensures
        r.0@ == k@,
        r.1 as nat == keys_members(findings_view(flat@), k@, by_resource).len(),
        r.2 as nat == score_total(keys_members(findings_view(flat@), k@, by_resource)),
{
    let ghost fs = findings_view(flat@);
    let mut occ: usize = 0;
    let mut tot: u32 = 0;
    let mut j: usize = 0;
    while j < flat.len()
        invariant
            j <= flat@.len(),
            fs == findings_view(flat@),
            score_total(fs) <= u32::MAX,
            occ as nat == keys_members(fs.take(j as int), k@, by_resource).len(),
            tot as nat == score_total(keys_members(fs.take(j as int), k@, by_resource)),
            occ <= j,
        decreases flat.len() - j,
    {
        proof {
            lemma_members_prefix(fs, k@, by_resource, j as int);
            lemma_members_total(fs.take(j as int), k@, by_resource);
            lemma_score_prefix(fs, j + 1);
            lemma_score_push(keys_members(fs.take(j as int), k@, by_resource), fs[j as int]);
        }
        assert(fs[j as int] == flat@[j as int]@);
        if str_eq(key_ref(&flat[j], by_resource).as_str(), k.as_str()) {
            occ = occ + 1;
            tot = tot + flat[j].score;
        }
        j = j + 1;
    }
    assert(fs.take(flat.len() as int) =~= fs);
    (k.clone(), occ, tot)
}

pub open spec fn triples_view(v: Seq<(String, usize, u32)>) -> Seq<AggregateV> {
    Seq::new(v.len(), |i: int| AggregateV { key: v[i].0@, occurrences: v[i].1 as nat, total_score: v[i].2 as nat })
}

/// The top aggregates of the findings by resource or by category.
fn top_aggregate_list(flat: &Vec<DriftFinding>, by_resource: bool) -> (r: Vec<(String, usize, u32)>)
    requires
        score_total(findings_view(flat@)) <= u32::MAX,
    ensures
        triples_view(r@) == top_aggregates(findings_view(flat@), by_resource),
{
    let ghost fs = findings_view(flat@);
    let mut all_keys: Vec<String> = Vec::new();
    let mut i: usize = 0;
    while i < flat.len()
        invariant
            i <= flat@.len(),
            fs == findings_view(flat@),
            strings_view(all_keys@) == keys_of(fs, by_resource).take(i as int),
        decreases flat.len() - i,
    {
        let ghost before = all_keys@;
        let kstr = key_ref(&flat[i], by_resource).clone();
        assert(fs[i as int] == flat@[i as int]@);
        all_keys.push(kstr);
        proof {
            lemma_strings_view_push(before, kstr);
        }
        assert(strings_view(all_keys@) =~= keys_of(fs, by_resource).take(i + 1));
        i = i + 1;
    }
    assert(keys_of(fs, by_resource).take(flat.len() as int) =~= keys_of(fs, by_resource));
    let keys = sorted_unique(&all_keys);
    let ghost ks = strings_view(keys@);
    let ghost want = Seq::new(ks.len(), |i: int| aggregate_of(fs, ks[i], by_resource));
    let mut aggs: Vec<(String, usize, u32)> = Vec::new();
    let mut i: usize = 0;
    while i < keys.len()
        invariant
            i <= keys@.len(),
            fs == findings_view(flat@),
            score_total(fs) <= u32::MAX,
            ks == strings_view(keys@),
            want == Seq::new(ks.len(), |i: int| aggregate_of(fs, ks[i], by_resource)),
            triples_view(aggs@) == want.take(i as int),
        decreases keys.len() - i,
    {
        let a = aggregate(flat, &keys[i], by_resource);
        assert(ks[i as int] == keys@[i as int]@);
        let ghost before = aggs@;
        aggs.push(a);
        assert(triples_view(aggs@) =~= triples_view(before).push(AggregateV { key: a.0@, occurrences: a.1 as nat, total_score: a.2 as nat }));
        assert(want[i as int] == aggregate_of(fs, ks[i as int], by_resource));
        assert(triples_view(aggs@) =~= want.take(i + 1));
        i = i + 1;
    }
    assert(want.take(keys.len() as int) =~= want);
    let mut sorted = sort_triples(aggs);
    proof {
        lemma_sort_desc_len(want, by_aggregate_total());
    }
    if sorted.len() > 5 {
        sorted.truncate(5);
        assert(triples_view(sorted@) =~= sort_desc(want, by_aggregate_total()).take(5));
    }
    sorted
}

/// Aggregates sorted by descending total score, ties in their order.
fn sort_triples(v: Vec<(String, usize, u32)>) -> (r: Vec<(String, usize, u32)>)
    ensures
        triples_view(r@) == sort_desc(triples_view(v@), by_aggregate_total()),
{
    let ghost gv = triples_view(v@);
    let mut rest = v;
    let mut out: Vec<(String, usize, u32)> = Vec::new();
    let mut i: usize = 0;
    let n = rest.len();
    assert(gv.take(0) =~= Seq::<AggregateV>::empty());
    while rest.len() > 0
        invariant
            n == gv.len(),
            i + rest@.len() == n,
            triples_view(rest@) == gv.skip(i as int),
            triples_view(out@) == sort_desc(gv.take(i as int), by_aggregate_total()),
        decreases rest.len(),
    {
        let ghost old_rest = rest@;
        let x = rest.remove(0);
        assert forall|j: int| 0 <= j < rest@.len() implies #[trigger] triples_view(rest@)[j] == gv.skip(i + 1)[j] by {
            assert(rest@[j] == old_rest[j + 1]);
            assert(triples_view(old_rest)[j + 1] == gv.skip(i as int)[j + 1]);
        }
        let ghost xv = AggregateV { key: x.0@, occurrences: x.1 as nat, total_score: x.2 as nat };
        assert(gv[i as int] == xv) by {
            assert(gv.skip(i as int)[0] == gv[i as int]);
        }
        let ghost sorted = triples_view(out@);
        proof {
            lemma_sort_desc_len(gv.take(i as int), by_aggregate_total());
        }
        let mut k: usize = 0;
        loop
            invariant
                k <= out.len(),
                sorted == triples_view(out@),
                xv.total_score == x.2 as nat,
                forall|j: int| 0 <= j < k ==> (#[trigger] sorted[j]).total_score >= xv.total_score,
            ensures
                k <= out.len(),
                forall|j: int| 0 <= j < k ==> (#[trigger] sorted[j]).total_score >= xv.total_score,
                k < out.len() ==> sorted[k as int].total_score < xv.total_score,
            decreases out.len() - k,
        {
            if k >= out.len() {
                break;
            }
            assert(sorted[k as int].total_score == out@[k as int].2 as nat);
            if out[k].2 < x.2 {
                break;
            }
            k = k + 1;
        }
        proof {
            lemma_insert_pos_first(sorted, xv, by_aggregate_total(), k as int);
            lemma_sort_desc_step(gv, i as int, by_aggregate_total());
        }
        out.insert(k, x);
        assert(triples_view(out@) =~= sorted.insert(k as int, xv));
        assert(triples_view(rest@) =~= gv.skip(i + 1));
        i = i + 1;
    }
    assert(gv.take(n as int) =~= gv);
    out
}

proof fn lemma_transitions_step(ts: Seq<TimelineTransition>, t: int)
    requires
        0 <= t < ts.len(),
    ensures
        all_findings(ts.take(t + 1)) == all_findings(ts.take(t)) + findings_view(ts[t].report.findings@),
        summary_total(ts.take(t + 1)) == summary_total(ts.take(t)) + ts[t].report.summary.total_score,
        summary_critical(ts.take(t + 1)) == summary_critical(ts.take(t)) + ts[t].report.summary.critical_findings,
{
    assert(ts.take(t + 1).drop_last() =~= ts.take(t));
}

proof fn lemma_transitions_prefix(ts: Seq<TimelineTransition>, t: int)
    requires
        0 <= t <= ts.len(),
    ensures
        summary_total(ts.take(t)) <= summary_total(ts),
        summary_critical(ts.take(t)) <= summary_critical(ts),
        all_findings(ts.take(t)).len() <= all_findings(ts).len(),
    decreases ts.len() - t,
{
    if t < ts.len() {
        lemma_transitions_prefix(ts, t + 1);
        lemma_transitions_step(ts, t);
    } else {
        assert(ts.take(t) =~= ts);
    }
}

proof fn lemma_count_next(fs: Seq<FindingV>, i: int, pred: spec_fn(FindingV) -> bool)
    requires
        0 <= i < fs.len(),
    ensures
        count_where(fs.take(i + 1), pred) == count_where(fs.take(i), pred) + if pred(fs[i]) {
            1int
        } else {
            0int
        },
        count_where(fs.take(i), pred) <= i,
{
    assert(fs.take(i + 1).drop_last() =~= fs.take(i));
    crate::report::lemma_count_bound(fs.take(i), pred);
}

/// Every active finding of every transition, in order.
pub(crate) fn flatten_findings(transitions: &Vec<TimelineTransition>) -> (flat: Vec<DriftFinding>)
    ensures
        findings_view(flat@) == all_findings(transitions@),
{
    let ghost ts = transitions@;
    let mut flat: Vec<DriftFinding> = Vec::new();
    let mut t: usize = 0;
    assert(ts.take(0) =~= Seq::<TimelineTransition>::empty());
    assert(findings_view(flat@) =~= Seq::<FindingV>::empty());
    while t < transitions.len()
        invariant
            t <= ts.len(),
            ts == transitions@,
            findings_view(flat@) == all_findings(ts.take(t as int)),
        decreases transitions.len() - t,
    {
        proof {
            lemma_transitions_step(ts, t as int);
        }
        let fs = &transitions[t].report.findings;
        let ghost start = findings_view(flat@);
        let mut j: usize = 0;
        assert(findings_view(fs@).take(0) =~= Seq::<FindingV>::empty());
        assert(start + findings_view(fs@).take(0) =~= start);
        while j < fs.len()
            invariant
                j <= fs@.len(),
                findings_view(flat@) == start + findings_view(fs@).take(j as int),
            decreases fs.len() - j,
        {
            let ghost before = flat@;
            let d = fs[j].duplicate();
            flat.push(d);
            proof {
                lemma_findings_view_push(before, d);
            }
            assert(findings_view(flat@) =~= start + findings_view(fs@).take(j + 1));
            j = j + 1;
        }
        assert(findings_view(fs@).take(fs@.len() as int) =~= findings_view(fs@));
        t = t + 1;
    }
    assert(ts.take(ts.len() as int) =~= ts);
    flat
}

/// `build_executive_summary`: totals over every transition, counts of
/// recurring and persistent findings and of asset types, the number of
/// distinct resources, and the five resources and categories of highest
/// total score.
pub fn build_executive_summary(transitions: &Vec<TimelineTransition>) -> (e: TimelineExecutiveSummary)
    requires
        summary_total(transitions@) <= u32::MAX,
        summary_critical(transitions@) <= usize::MAX,
        score_total(all_findings(transitions@)) <= u32::MAX,
    ensures
        executive_ok(e, transitions@),
{
    let ghost ts = transitions@;
    let flat = flatten_findings(transitions);
    let mut total_score: u32 = 0;
    let mut critical_findings: usize = 0;
    let mut t: usize = 0;
    assert(ts.take(0) =~= Seq::<TimelineTransition>::empty());
    while t < transitions.len()
        invariant
            t <= ts.len(),
            ts == transitions@,
            summary_total(ts) <= u32::MAX,
            summary_critical(ts) <= usize::MAX,
            total_score == summary_total(ts.take(t as int)),
            critical_findings == summary_critical(ts.take(t as int)),
        decreases transitions.len() - t,
    {
        proof {
            lemma_transitions_step(ts, t as int);
            lemma_transitions_prefix(ts, t + 1);
        }
        total_score = total_score + transitions[t].report.summary.total_score;
        critical_findings = critical_findings + transitions[t].report.summary.critical_findings;
        t = t + 1;
    }
    assert(ts.take(ts.len() as int) =~= ts);
    let ghost all = findings_view(flat@);
    let mut recurring_findings: usize = 0;
    let mut persistent_findings: usize = 0;
    let mut asset_types = AssetTypeSummary { ips: 0, subdomains: 0, services: 0, unknown: 0 };
    let mut resources: Vec<String> = Vec::new();
    let mut i: usize = 0;
    while i < flat.len()
        invariant
            i <= flat@.len(),
            all == findings_view(flat@),
            recurring_findings == count_where(all.take(i as int), in_state(FindingState::Recurring)),
            persistent_findings == count_where(all.take(i as int), in_state(FindingState::Persistent)),
            asset_types.ips == count_where(all.take(i as int), of_asset(AssetType::Ip)),
            asset_types.subdomains == count_where(all.take(i as int), of_asset(AssetType::Subdomain)),
            asset_types.services == count_where(all.take(i as int), of_asset(AssetType::Service)),
            asset_types.unknown == count_where(all.take(i as int), of_asset(AssetType::Unknown)),
            strings_view(resources@) == resources_of(all).take(i as int),
        decreases flat.len() - i,
    {
        proof {
            lemma_count_next(all, i as int, in_state(FindingState::Recurring));
            lemma_count_next(all, i as int, in_state(FindingState::Persistent));
            lemma_count_next(all, i as int, of_asset(AssetType::Ip));
            lemma_count_next(all, i as int, of_asset(AssetType::Subdomain));
            lemma_count_next(all, i as int, of_asset(AssetType::Service));
            lemma_count_next(all, i as int, of_asset(AssetType::Unknown));
        }
        let f = &flat[i];
        assert(all[i as int] == f@);
        match f.state {
            FindingState::Recurring => {
                recurring_findings = recurring_findings + 1;
            },
            FindingState::Persistent => {
                persistent_findings = persistent_findings + 1;
            },
            _ => {},
        }
        increment_asset_type(&mut asset_types, &f.asset_type);
        let ghost before = resources@;
        let r = f.resource.clone();
        resources.push(r);
        proof {
            lemma_strings_view_push(before, r);
        }
        assert(strings_view(resources@) =~= resources_of(all).take(i + 1));
        i = i + 1;
    }
    assert(all.take(flat.len() as int) =~= all);
    assert(resources_of(all).take(flat.len() as int) =~= resources_of(all));
    let unique = sorted_unique(&resources);
    let overall_severity = if total_score >= 350 {
        Severity::High
    } else if total_score >= 180 {
        Severity::Medium
    } else if total_score >= 40 {
        Severity::Low
    } else {
        Severity::Info
    };
    let res_list = top_aggregate_list(&flat, true);
    let cat_list = top_aggregate_list(&flat, false);
    let mut top_resources: Vec<ResourceAggregate> = Vec::new();
    let mut k: usize = 0;
    while k < res_list.len()
        invariant
            k <= res_list@.len(),
            resource_aggs_view(top_resources@) == triples_view(res_list@).take(k as int),
        decreases res_list.len() - k,
    {
        let a = ResourceAggregate { resource: res_list[k].0.clone(), occurrences: res_list[k].1, total_score: res_list[k].2 };
        let ghost before = top_resources@;
        top_resources.push(a);
        assert(resource_aggs_view(top_resources@) =~= resource_aggs_view(before).push(a@));
        assert(resource_aggs_view(top_resources@) =~= triples_view(res_list@).take(k + 1));
        k = k + 1;
    }
    assert(triples_view(res_list@).take(res_list@.len() as int) =~= triples_view(res_list@));
    let mut top_categories: Vec<CategoryAggregate> = Vec::new();
    let mut k: usize = 0;
    while k < cat_list.len()
        invariant
            k <= cat_list@.len(),
            category_aggs_view(top_categories@) == triples_view(cat_list@).take(k as int),
        decreases cat_list.len() - k,
    {
        let a = CategoryAggregate { category: cat_list[k].0.clone(), occurrences: cat_list[k].1, total_score: cat_list[k].2 };
        let ghost before = top_categories@;
        top_categories.push(a);
        assert(category_aggs_view(top_categories@) =~= category_aggs_view(before).push(a@));
        assert(category_aggs_view(top_categories@) =~= triples_view(cat_list@).take(k + 1));
        k = k + 1;
    }
    assert(triples_view(cat_list@).take(cat_list@.len() as int) =~= triples_view(cat_list@));
    TimelineExecutiveSummary {
        total_score,
        overall_severity,
        total_findings: flat.len(),
        unique_resources: unique.len(),
        critical_findings,
        recurring_findings,
        persistent_findings,
        asset_types,
        top_resources,
        top_categories,
    }
}

/// The diff that `diff_snapshots` gives for two snapshots.
pub open spec fn pair_diff(older: Snapshot, newer: Snapshot) -> DiffReport {
    choose|d: DiffReport| d@ == diff_view(older, newer)
}

/// The active findings of the analysis of two consecutive snapshots.
pub open spec fn pair_active(older: Snapshot, newer: Snapshot, p: Option<PolicyV>) -> Seq<FindingV> {
    normalized_all(
        active_part(adjusted_findings(pair_diff(older, newer), p), p, newer.timestamp),
        newer.scan.target@,
    )
}

/// The suppressed findings of the analysis of two consecutive snapshots.
pub open spec fn pair_suppressed(older: Snapshot, newer: Snapshot, p: Option<PolicyV>) -> Seq<FindingV> {
    normalized_all(
        suppressed_part(adjusted_findings(pair_diff(older, newer), p), p, newer.timestamp),
        newer.scan.target@,
    )
}

/// The key a timeline tracks findings by: category and resource.
pub open spec fn finding_keys(fs: Seq<FindingV>) -> Seq<(Seq<char>, Seq<char>)> {
    Seq::new(fs.len(), |i: int| (fs[i].category, fs[i].resource))
}

/// How many of `keys` equal `k`.
pub open spec fn seen_count(keys: Seq<(Seq<char>, Seq<char>)>, k: (Seq<char>, Seq<char>)) -> nat
    decreases keys.len(),
{
    if keys.len() == 0 {
        0
    } else {
        seen_count(keys.drop_last(), k) + if keys.last() == k {
            1nat
        } else {
            0nat
        }
    }
}

/// A finding seen `seen` times before: new the first time; recurring, ten
/// points more, the second; persistent, twenty points more, after that.
pub open spec fn with_history(f: FindingV, seen: nat) -> FindingV {
    if seen == 0 {
        FindingV { state: FindingState::New, ..f }
    } else if seen == 1 {
        FindingV { state: FindingState::Recurring, score: (f.score + 10) as u32, ..f }
    } else {
        FindingV { state: FindingState::Persistent, score: (f.score + 20) as u32, ..f }
    }
}

/// The findings `fs` marked by how often their key occurred in `prev` and
/// earlier in `fs`.
pub open spec fn mark_history(prev: Seq<FindingV>, fs: Seq<FindingV>) -> Seq<FindingV> {
    Seq::new(
        fs.len(),
        |i: int| with_history(fs[i], seen_count(finding_keys(prev + fs.take(i)), (fs[i].category, fs[i].resource))),
    )
}

/// The active findings of the first `t` transitions, before history marks them.
pub open spec fn earlier_active(snaps: Seq<Snapshot>, p: Option<PolicyV>, t: int) -> Seq<FindingV>
    decreases t,
{
    if t <= 0 {
        Seq::empty()
    } else {
        earlier_active(snaps, p, t - 1) + pair_active(snaps[t - 1], snaps[t], p)
    }
}

/// The findings of transition `t` of a timeline over `snaps`.
pub open spec fn timeline_findings(snaps: Seq<Snapshot>, p: Option<PolicyV>, target: Seq<char>, t: int) -> Seq<FindingV> {
    normalized_all(mark_history(earlier_active(snaps, p, t), pair_active(snaps[t], snaps[t + 1], p)), target)
}

/// The suppressed findings of transition `t` of a timeline over `snaps`.
pub open spec fn timeline_suppressed(snaps: Seq<Snapshot>, p: Option<PolicyV>, target: Seq<char>, t: int) -> Seq<FindingV> {
    normalized_all(pair_suppressed(snaps[t], snaps[t + 1], p), target)
}

/// Transition `t` of a timeline over `snaps`.
pub open spec fn transition_ok(tr: TimelineTransition, snaps: Seq<Snapshot>, p: Option<PolicyV>, target: Seq<char>, t: int) -> bool {
    let fs = timeline_findings(snaps, p, target, t);
    let sup = timeline_suppressed(snaps, p, target, t);
    &&& tr.older_timestamp == snaps[t].timestamp
    &&& tr.newer_timestamp == snaps[t + 1].timestamp
    &&& tr.report.target@ == snaps[t + 1].scan.target@
    &&& tr.report.older_timestamp == snaps[t].timestamp
    &&& tr.report.newer_timestamp == snaps[t + 1].timestamp
    &&& findings_view(tr.report.findings@) == fs
    &&& findings_view(tr.report.suppressed_findings@) == sup
    &&& groups_view(tr.report.groups@) == groups_of(fs)
    &&& tr.report.summary == summary_of(fs, sup)
}

/// The entries of a list of snapshots, as `snapshot_size` counts them.
pub open spec fn snapshots_size(s: Seq<Snapshot>) -> nat
    decreases s.len(),
{
    if s.len() == 0 {
        0
    } else {
        snapshots_size(s.drop_last()) + snapshot_size(s.last())
    }
}

proof fn lemma_snapshots_size(s: Seq<Snapshot>, k: int)
    requires
        0 <= k < s.len(),
    ensures
        snapshots_size(s.take(k + 1)) == snapshots_size(s.take(k)) + snapshot_size(s[k]),
        snapshots_size(s.take(k + 1)) <= snapshots_size(s),
    decreases s.len() - k,
{
    assert(s.take(k + 1).drop_last() =~= s.take(k));
    if k + 1 < s.len() {
        lemma_snapshots_size(s, k + 1);
    } else {
        assert(s.take(k + 1) =~= s);
    }
}

proof fn lemma_score_concat(a: Seq<FindingV>, b: Seq<FindingV>)
    ensures
        score_total(a + b) == score_total(a) + score_total(b),
    decreases b.len(),
{
    if b.len() == 0 {
        assert(a + b =~= a);
    } else {
        lemma_score_concat(a, b.drop_last());
        assert((a + b).drop_last() =~= a + b.drop_last());
    }
}

proof fn lemma_seen_count_bound(keys: Seq<(Seq<char>, Seq<char>)>, k: (Seq<char>, Seq<char>))
    ensures
        seen_count(keys, k) <= keys.len(),
    decreases keys.len(),
{
    if keys.len() > 0 {
        lemma_seen_count_bound(keys.drop_last(), k);
    }
}

pub open spec fn pairs_view(v: Seq<(String, String)>) -> Seq<(Seq<char>, Seq<char>)> {
    Seq::new(v.len(), |i: int| (v[i].0@, v[i].1@))
}

/// How often `(category, resource)` occurs in `keys`.
fn count_seen(keys: &Vec<(String, String)>, category: &String, resource: &String) -> (r: usize)
    ensures
        r == seen_count(pairs_view(keys@), (category@, resource@)),
{
    let ghost kv = pairs_view(keys@);
    let mut n: usize = 0;
    let mut i: usize = 0;
    while i < keys.len()
        invariant
            i <= keys@.len(),
            kv == pairs_view(keys@),
            n == seen_count(kv.take(i as int), (category@, resource@)),
            n <= i,
        decreases keys.len() - i,
    {
        assert(kv.take(i + 1).drop_last() =~= kv.take(i as int));
        assert(kv.take(i + 1).last() == (keys@[i as int].0@, keys@[i as int].1@));
        if str_eq(keys[i].0.as_str(), category.as_str()) && str_eq(keys[i].1.as_str(), resource.as_str()) {
            n = n + 1;
        }
        i = i + 1;
    }
    assert(kv.take(keys.len() as int) =~= kv);
    n
}

/// Marks the findings of one transition by the keys seen so far, and adds
/// their keys to `seen`.
fn mark_findings(fs: &Vec<DriftFinding>, seen: &mut Vec<(String, String)>) -> (r: Vec<DriftFinding>)
    requires
        forall|i: int| 0 <= i < fs@.len() ==> (#[trigger] fs@[i]).score <= 95,
    ensures
        ({
            let prev = pairs_view(old(seen)@);
            forall|pf: Seq<FindingV>| finding_keys(pf) == prev ==> findings_view(r@) == mark_history(pf, findings_view(fs@))
                && pairs_view(final(seen)@) == finding_keys(pf + findings_view(fs@))
        }),
        forall|i: int| 0 <= i < r@.len() ==> (#[trigger] r@[i]).score <= 115,
        r@.len() == fs@.len(),
{
    let ghost fv = findings_view(fs@);
    let ghost prev = pairs_view(seen@);
    let mut out: Vec<DriftFinding> = Vec::new();
    let mut j: usize = 0;
    while j < fs.len()
        invariant
            j <= fs@.len(),
            fv == findings_view(fs@),
            prev == pairs_view(old(seen)@),
            forall|i: int| 0 <= i < fs@.len() ==> (#[trigger] fs@[i]).score <= 95,
            pairs_view(seen@) == prev + finding_keys(fv.take(j as int)),
            out@.len() == j,
            forall|i: int| 0 <= i < out@.len() ==> (#[trigger] out@[i]).score <= 115,
            forall|pf: Seq<FindingV>| finding_keys(pf) == prev ==> findings_view(out@) == mark_history(pf, fv).take(j as int),
        decreases fs.len() - j,
    {
        let f = &fs[j];
        assert(fv[j as int] == f@);
        let n = count_seen(seen, &f.category, &f.resource);
        let mut g = f.duplicate();
        if n == 0 {
            g.state = FindingState::New;
        } else if n == 1 {
            g.state = FindingState::Recurring;
            g.score = g.score + 10;
        } else {
            g.state = FindingState::Persistent;
            g.score = g.score + 20;
        }
        proof {
            assert forall|pf: Seq<FindingV>| finding_keys(pf) == prev implies finding_keys(pf + fv.take(j as int)) == pairs_view(seen@) by {
                assert(finding_keys(pf + fv.take(j as int)) =~= finding_keys(pf) + finding_keys(fv.take(j as int)));
            }
            assert(g@ == with_history(fv[j as int], n as nat));
        }
        let ghost before = out@;
        out.push(g);
        proof {
            lemma_findings_view_push(before, g);
            assert forall|pf: Seq<FindingV>| finding_keys(pf) == prev implies findings_view(out@) == mark_history(pf, fv).take(j + 1) by {
                assert(finding_keys(pf + fv.take(j as int)) =~= finding_keys(pf) + finding_keys(fv.take(j as int)));
                assert(mark_history(pf, fv)[j as int] == with_history(fv[j as int], n as nat));
                assert(findings_view(out@) =~= mark_history(pf, fv).take(j + 1));
            }
        }
        let ghost before_seen = seen@;
        seen.push((f.category.clone(), f.resource.clone()));
        assert(pairs_view(seen@) =~= pairs_view(before_seen).push((fv[j as int].category, fv[j as int].resource)));
        assert(finding_keys(fv.take(j + 1)) =~= finding_keys(fv.take(j as int)).push((fv[j as int].category, fv[j as int].resource)));
        assert(pairs_view(seen@) =~= prev + finding_keys(fv.take(j + 1)));
        j = j + 1;
    }
    proof {
        assert(fv.take(fs@.len() as int) =~= fv);
        assert forall|pf: Seq<FindingV>| finding_keys(pf) == prev implies pairs_view(seen@) == finding_keys(pf + fv) by {
            assert(finding_keys(pf + fv) =~= finding_keys(pf) + finding_keys(fv));
        }
        assert forall|pf: Seq<FindingV>| finding_keys(pf) == prev implies findings_view(out@) == mark_history(pf, fv) by {
            assert(mark_history(pf, fv).take(fs@.len() as int) =~= mark_history(pf, fv));
        }
    }
    out
}

proof fn lemma_all_findings_push(ts: Seq<TimelineTransition>, x: TimelineTransition)
    ensures
        all_findings(ts.push(x)) == all_findings(ts) + findings_view(x.report.findings@),
        summary_total(ts.push(x)) == summary_total(ts) + x.report.summary.total_score,
        summary_critical(ts.push(x)) == summary_critical(ts) + x.report.summary.critical_findings,
{
    assert(ts.push(x).drop_last() =~= ts);
}

/// The total score of the findings of the first `n` transitions of a
/// timeline over `snaps`.
pub open spec fn timeline_total(snaps: Seq<Snapshot>, p: Option<PolicyV>, target: Seq<char>, n: int) -> nat
    decreases n,
{
    if n <= 0 {
        0
    } else {
        timeline_total(snaps, p, target, n - 1) + score_total(timeline_findings(snaps, p, target, n - 1))
    }
}

proof fn lemma_timeline_total_grows(snaps: Seq<Snapshot>, p: Option<PolicyV>, target: Seq<char>, k: int, n: int)
    requires
        0 <= k <= n,
    ensures
        timeline_total(snaps, p, target, k) <= timeline_total(snaps, p, target, n),
    decreases n - k,
{
    if k < n {
        lemma_timeline_total_grows(snaps, p, target, k, n - 1);
    }
}

/// A sequence whose scores are each at most those of another has at most
/// its total score.
proof fn lemma_total_pointwise(a: Seq<FindingV>, b: Seq<FindingV>)
    requires
        a.len() == b.len(),
        forall|i: int| 0 <= i < a.len() ==> (#[trigger] a[i]).score <= b[i].score,
    ensures
        score_total(a) <= score_total(b),
    decreases a.len(),
{
    if a.len() > 0 {
        assert(a[a.len() - 1].score <= b[b.len() - 1].score);
        lemma_total_pointwise(a.drop_last(), b.drop_last());
    }
}

/// Marking history only adds points, and normalizing keeps them: the
/// findings of a transition score at least what the diff's analysis gave.
proof fn lemma_marked_total(pf: Seq<FindingV>, fs: Seq<FindingV>, target: Seq<char>)
    requires
        scores_at_most(fs, 95),
    ensures
        score_total(fs) <= score_total(normalized_all(mark_history(pf, fs), target)),
{
    let m = normalized_all(mark_history(pf, fs), target);
    assert forall|i: int| 0 <= i < fs.len() implies (#[trigger] fs[i]).score <= m[i].score by {
        assert(fs[i].score <= 95);
        assert(m[i].score == mark_history(pf, fs)[i].score);
    }
    lemma_total_pointwise(fs, m);
}

proof fn lemma_diff_size(d: DiffReport, older: Snapshot, newer: Snapshot)
    requires
        d.new_ips@.len() <= newer.scan.resolved_ips@.len(),
        d.removed_ips@.len() <= older.scan.resolved_ips@.len(),
        d.new_subdomains@.len() <= newer.scan.subdomains@.len(),
        d.removed_subdomains@.len() <= older.scan.subdomains@.len(),
        d.new_services@.len() + d.changed_services@.len() <= newer.scan.services@.len(),
        d.removed_services@.len() <= older.scan.services@.len(),
    ensures
        diff_size(d) <= snapshot_size(older) + snapshot_size(newer),
{
}

/// The transition between two snapshots, its findings marked by the keys
/// in `seen`, which it then extends.
fn build_transition(
    target: &str,
    older: &Snapshot,
    newer: &Snapshot,
    policy: Option<&DriftPolicy>,
    seen: &mut Vec<(String, String)>,
    Ghost(pf): Ghost<Seq<FindingV>>,
) -> (tr: TimelineTransition)
    requires
        finding_keys(pf) == pairs_view(old(seen)@),
        snapshot_size(*older) + snapshot_size(*newer) <= usize::MAX,
        score_total(normalized_all(mark_history(pf, pair_active(*older, *newer, policy_view(policy))), target@))
            <= u32::MAX,
    ensures
        ({
            let pv = policy_view(policy);
            let fs = normalized_all(mark_history(pf, pair_active(*older, *newer, pv)), target@);
            let sup = normalized_all(pair_suppressed(*older, *newer, pv), target@);
            &&& tr.older_timestamp == older.timestamp
            &&& tr.newer_timestamp == newer.timestamp
            &&& tr.report.target@ == newer.scan.target@
            &&& tr.report.older_timestamp == older.timestamp
            &&& tr.report.newer_timestamp == newer.timestamp
            &&& findings_view(tr.report.findings@) == fs
            &&& findings_view(tr.report.suppressed_findings@) == sup
            &&& groups_view(tr.report.groups@) == groups_of(fs)
            &&& tr.report.summary == summary_of(fs, sup)
            &&& pairs_view(final(seen)@) == finding_keys(pf + pair_active(*older, *newer, pv))
            &&& fs.len() <= snapshot_size(*older) + snapshot_size(*newer)
            &&& forall|i: int| 0 <= i < fs.len() ==> (#[trigger] fs[i]).score <= 115
            &&& tr.report.summary.total_score == score_total(fs)
            &&& tr.report.summary.critical_findings <= fs.len()
        }),
{
    let ghost pv = policy_view(policy);
    let diff = diff_snapshots(older, newer);
    proof {
        lemma_diff_size(diff, *older, *newer);
        let c = pair_diff(*older, *newer);
        assert(c@ == diff_view(*older, *newer));
        lemma_adjusted_findings_views(c, diff, pv);
        lemma_active_scores(c, pv, newer.timestamp, newer.scan.target@);
        lemma_marked_total(pf, pair_active(*older, *newer, pv), target@);
        assert(normalized_all(active_part(adjusted_findings(diff, pv), pv, diff.newer_timestamp), diff.target@)
            == pair_active(*older, *newer, pv));
    }
    let report = analyze_diff_with_policy(&diff, policy);
    let ghost fv = findings_view(report.findings@);
    assert(fv == pair_active(*older, *newer, pv));
    assert forall|i: int| 0 <= i < report.findings@.len() implies (#[trigger] report.findings@[i]).score <= 95 by {
        assert(fv[i] == report.findings@[i]@);
    }
    let marked = mark_findings(&report.findings, seen);
    let findings = normalize_finding_collection(&marked, target);
    let suppressed = normalize_finding_collection(&report.suppressed_findings, target);
    let ghost nf = findings_view(findings@);
    assert(nf.len() == findings@.len());
    assert(findings_view(suppressed@).len() == suppressed@.len());
    assert(findings_view(report.suppressed_findings@).len() == report.suppressed_findings@.len());
    assert(findings_view(marked@).len() == marked@.len());
    assert forall|i: int| 0 <= i < nf.len() implies (#[trigger] nf[i]).score <= 115 by {
        assert(nf[i].score == findings_view(marked@)[i].score);
        assert(findings_view(marked@)[i] == marked@[i]@);
    }
    proof {
        crate::report::lemma_count_bound(nf, |f: FindingV| f.criticality == Criticality::Critical || f.criticality == Criticality::High);
    }
    let groups = group_findings(&findings);
    let summary = summarize(&findings, &suppressed);
    let rep = DriftReport {
        target: report.target,
        older_timestamp: report.older_timestamp,
        newer_timestamp: report.newer_timestamp,
        findings,
        suppressed_findings: suppressed,
        groups,
        summary,
    };
    TimelineTransition { older_timestamp: older.timestamp, newer_timestamp: newer.timestamp, report: rep }
}

/// `build_timeline_report`: the drift between each pair of consecutive
/// snapshots, with every active finding marked new, recurring (ten points
/// more) or persistent (twenty points more) by how often its category and
/// resource occurred before in the timeline, then normalized for `target`,
/// grouped and summarized; and the executive summary of all transitions.
/// Fewer than two snapshots are an error. The total score of all the
/// transitions' findings must fit the summaries' `u32`, and the snapshots'
/// entries, two findings at most each, a `usize`.
pub fn build_timeline_report(target: &str, snapshots: &Vec<Snapshot>, policy: Option<&DriftPolicy>) -> (r: Result<TimelineReport, String>)
    requires
        snapshots_size(snapshots@) <= usize::MAX / 2,
        snapshots@.len() >= 2 ==> timeline_total(snapshots@, policy_view(policy), target@, snapshots@.len() - 1)
            <= u32::MAX,
    ensures
        r is Err <==> snapshots@.len() < 2,
        r matches Err(e) ==> e@ == "se requieren al menos 2 snapshots para construir un timeline"@,
        r matches Ok(rep) ==> {
            &&& rep.target@ == target@
            &&& rep.snapshot_count == snapshots@.len()
            &&& rep.transition_count == snapshots@.len() - 1
            &&& rep.transitions@.len() == snapshots@.len() - 1
            &&& forall|t: int| 0 <= t < rep.transitions@.len() ==> transition_ok(#[trigger] rep.transitions@[t], snapshots@, policy_view(policy), target@, t)
            &&& executive_ok(rep.executive, rep.transitions@)
        },
{
    if snapshots.len() < 2 {
        return Err(owned("se requieren al menos 2 snapshots para construir un timeline"));
    }
    let ghost snaps = snapshots@;
    let ghost pv = policy_view(policy);
    let n = snapshots.len();
    let mut transitions: Vec<TimelineTransition> = Vec::new();
    let mut seen: Vec<(String, String)> = Vec::new();
    let mut t: usize = 0;
    assert(pairs_view(seen@) =~= finding_keys(earlier_active(snaps, pv, 0)));
    assert(snaps.take(0) =~= Seq::<Snapshot>::empty());
    proof {
        lemma_snapshots_size(snaps, 0);
    }
    while t + 1 < n
        invariant
            n == snaps.len(),
            snaps == snapshots@,
            pv == policy_view(policy),
            2 <= n,
            t + 1 <= n,
            snapshots_size(snaps) <= usize::MAX / 2,
            timeline_total(snaps, pv, target@, n - 1) <= u32::MAX,
            score_total(all_findings(transitions@)) == timeline_total(snaps, pv, target@, t as int),
            transitions@.len() == t,
            forall|k: int| 0 <= k < t ==> transition_ok(#[trigger] transitions@[k], snaps, pv, target@, k),
            pairs_view(seen@) == finding_keys(earlier_active(snaps, pv, t as int)),
            all_findings(transitions@).len() <= snapshots_size(snaps.take(t as int)) + snapshots_size(snaps.take(t + 1)),
            forall|i: int| 0 <= i < all_findings(transitions@).len() ==> (#[trigger] all_findings(transitions@)[i]).score <= 115,
            summary_total(transitions@) == score_total(all_findings(transitions@)),
            summary_critical(transitions@) <= all_findings(transitions@).len(),
        decreases n - t,
    {
        proof {
            lemma_snapshots_size(snaps, t as int);
            lemma_snapshots_size(snaps, t + 1);
            lemma_timeline_total_grows(snaps, pv, target@, t + 1, n - 1);
            assert(timeline_findings(snaps, pv, target@, t as int) == normalized_all(
                mark_history(earlier_active(snaps, pv, t as int), pair_active(snaps[t as int], snaps[t + 1], pv)),
                target@,
            ));
        }
        let tr = build_transition(target, &snapshots[t], &snapshots[t + 1], policy, &mut seen, Ghost(earlier_active(snaps, pv, t as int)));
        let ghost before = transitions@;
        transitions.push(tr);
        proof {
            let nf = findings_view(tr.report.findings@);
            lemma_all_findings_push(before, tr);
            let af = all_findings(before);
            lemma_score_concat(af, nf);
            assert forall|i: int| 0 <= i < all_findings(transitions@).len() implies (#[trigger] all_findings(transitions@)[i]).score <= 115 by {
                if i < af.len() {
                    assert(all_findings(transitions@)[i] == af[i]);
                } else {
                    assert(all_findings(transitions@)[i] == nf[i - af.len()]);
                }
            }
            assert(transition_ok(tr, snaps, pv, target@, t as int));
            assert forall|k: int| 0 <= k < t + 1 implies transition_ok(#[trigger] transitions@[k], snaps, pv, target@, k) by {
                if k < t {
                    assert(transitions@[k] == before[k]);
                }
            }
        }
        t = t + 1;
    }
    proof {
        assert(t + 1 == n);
        assert(snaps.take(n as int) =~= snaps);
        lemma_snapshots_size(snaps, t as int - 1);
    }
    let executive = build_executive_summary(&transitions);
    Ok(
        TimelineReport {
            target: owned(target),
            snapshot_count: n,
            transition_count: transitions.len(),
            transitions,
            executive,
        },
    )
}

} // verus!

verus! {

/// The order of the states history gives: new, then recurring, then
/// persistent.
pub open spec fn history_rank(s: FindingState) -> int {
    match s {
        FindingState::New => 0,
        FindingState::Recurring => 1,
        _ => 2,
    }
}

proof fn lemma_seen_count_grows(keys: Seq<(Seq<char>, Seq<char>)>, k: (Seq<char>, Seq<char>), a: int, b: int)
    requires
        0 <= a < b <= keys.len(),
    ensures
        seen_count(keys.take(b), k) >= seen_count(keys.take(a), k) + if keys[a] == k {
            1int
        } else {
            0int
        },
    decreases b - a,
{
    assert(keys.take(b).drop_last() =~= keys.take(b - 1));
    assert(keys.take(b).last() == keys[b - 1]);
    if b - 1 > a {
        lemma_seen_count_grows(keys, k, a, b - 1);
    } else {
        assert(keys.take(a + 1).drop_last() =~= keys.take(a));
    }
}

/// History only moves forward: a later finding with the key (category and
/// resource) of an earlier one is never new, and its state never comes
/// before the earlier one's.
pub proof fn law_history_moves_forward(prev: Seq<FindingV>, fs: Seq<FindingV>, i: int, j: int)
    requires
        0 <= i < j < fs.len(),
        fs[i].category == fs[j].category,
        fs[i].resource == fs[j].resource,
    ensures
        mark_history(prev, fs)[j].state != FindingState::New,
        history_rank(mark_history(prev, fs)[i].state) <= history_rank(mark_history(prev, fs)[j].state),
{
    let all = prev + fs;
    let keys = finding_keys(all);
    let k = (fs[j].category, fs[j].resource);
    let n = prev.len() as int;
    assert(finding_keys(prev + fs.take(i)) =~= keys.take(n + i));
    assert(finding_keys(prev + fs.take(j)) =~= keys.take(n + j));
    assert(keys[n + i] == k) by {
        assert(all[n + i] == fs[i]);
    }
    lemma_seen_count_grows(keys, k, n + i, n + j);
}

/// The first time a key (category and resource) occurs, counting the
/// earlier findings, its finding is new; it is marked as seen as often as
/// the key occurred before.
pub proof fn law_first_occurrence_is_new(prev: Seq<FindingV>, fs: Seq<FindingV>, i: int)
    requires
        0 <= i < fs.len(),
        forall|j: int| 0 <= j < prev.len() ==> !((#[trigger] prev[j]).category == fs[i].category && prev[j].resource == fs[i].resource),
        forall|j: int| 0 <= j < i ==> !((#[trigger] fs[j]).category == fs[i].category && fs[j].resource == fs[i].resource),
    ensures
        mark_history(prev, fs)[i].state == FindingState::New,
        mark_history(prev, fs)[i].score == fs[i].score,
{
    let ks = finding_keys(prev + fs.take(i));
    let k = (fs[i].category, fs[i].resource);
    assert forall|m: int| 0 <= m <= ks.len() implies seen_count(#[trigger] ks.take(m), k) == 0 by {
        lemma_seen_zero(ks, k, m, prev, fs, i);
    }
    assert(ks.take(ks.len() as int) =~= ks);
}

proof fn lemma_seen_zero(
    ks: Seq<(Seq<char>, Seq<char>)>,
    k: (Seq<char>, Seq<char>),
    m: int,
    prev: Seq<FindingV>,
    fs: Seq<FindingV>,
    i: int,
)
    requires
        0 <= i < fs.len(),
        ks == finding_keys(prev + fs.take(i)),
        k == (fs[i].category, fs[i].resource),
        0 <= m <= ks.len(),
        forall|j: int| 0 <= j < prev.len() ==> !((#[trigger] prev[j]).category == fs[i].category && prev[j].resource == fs[i].resource),
        forall|j: int| 0 <= j < i ==> !((#[trigger] fs[j]).category == fs[i].category && fs[j].resource == fs[i].resource),
    ensures
        seen_count(ks.take(m), k) == 0,
    decreases m,
{
    if m > 0 {
        lemma_seen_zero(ks, k, m - 1, prev, fs, i);
        assert(ks.take(m).drop_last() =~= ks.take(m - 1));
        let all = prev + fs.take(i);
        if m - 1 < prev.len() {
            assert(all[m - 1] == prev[m - 1]);
        } else {
            assert(all[m - 1] == fs[m - 1 - prev.len()]);
        }
    }
}

} // verus!

verus! {

/// Some finding of `cur` has the category and resource `k`.
pub open spec fn key_present(cur: Seq<FindingV>, k: (Seq<char>, Seq<char>)) -> bool {
    exists|j: int| 0 <= j < cur.len() && (#[trigger] cur[j]).category == k.0 && cur[j].resource == k.1
}

/// The findings of `prev`, in order, whose category and resource no finding
/// of `cur` has, each marked resolved.
pub open spec fn resolved_of(prev: Seq<FindingV>, cur: Seq<FindingV>) -> Seq<FindingV>
    decreases prev.len(),
{
    if prev.len() == 0 {
        Seq::empty()
    } else {
        let rest = resolved_of(prev.drop_last(), cur);
        let f = prev.last();
        if key_present(cur, (f.category, f.resource)) {
            rest
        } else {
            rest.push(FindingV { state: FindingState::Resolved, ..f })
        }
    }
}

fn has_key(cur: &Vec<DriftFinding>, category: &String, resource: &String) -> (r: bool)
    ensures
        r == key_present(findings_view(cur@), (category@, resource@)),
{
    let ghost cv = findings_view(cur@);
    let mut j: usize = 0;
    while j < cur.len()
        invariant
            j <= cur@.len(),
            cv == findings_view(cur@),
            forall|i: int| 0 <= i < j ==> !((#[trigger] cv[i]).category == category@ && cv[i].resource == resource@),
        decreases cur.len() - j,
    {
        assert(cv[j as int] == cur@[j as int]@);
        if str_eq(cur[j].category.as_str(), category.as_str()) && str_eq(cur[j].resource.as_str(), resource.as_str()) {
            return true;
        }
        j = j + 1;
    }
    false
}

/// The findings of `previous` that no longer occur in `current` (no finding
/// there has their category and resource), in order, marked resolved.
pub fn resolved_findings(previous: &Vec<DriftFinding>, current: &Vec<DriftFinding>) -> (r: Vec<DriftFinding>)
    ensures
        findings_view(r@) == resolved_of(findings_view(previous@), findings_view(current@)),
{
    let ghost pv = findings_view(previous@);
    let ghost cv = findings_view(current@);
    let mut out: Vec<DriftFinding> = Vec::new();
    let mut i: usize = 0;
    assert(pv.take(0) =~= Seq::<FindingV>::empty());
    while i < previous.len()
        invariant
            i <= previous@.len(),
            pv == findings_view(previous@),
            cv == findings_view(current@),
            findings_view(out@) == resolved_of(pv.take(i as int), cv),
        decreases previous.len() - i,
    {
        assert(pv.take(i + 1).drop_last() =~= pv.take(i as int));
        assert(pv[i as int] == previous@[i as int]@);
        let f = &previous[i];
        if !has_key(current, &f.category, &f.resource) {
            let mut g = f.duplicate();
            g.state = FindingState::Resolved;
            proof {
                lemma_findings_view_push(out@, g);
            }
            out.push(g);
        }
        i = i + 1;
    }
    assert(pv.take(previous@.len() as int) =~= pv);
    out
}

impl TimelineReport {
    /// The findings resolved by transition `t`: those active in the previous
    /// transition that no active finding of transition `t` repeats (same
    /// category and resource), marked resolved; none for the first
    /// transition or past the last.
    pub fn resolved_in(&self, t: usize) -> (r: Vec<DriftFinding>)
        ensures
            findings_view(r@) == if 0 < t < self.transitions@.len() {
                resolved_of(
                    findings_view(self.transitions@[t - 1].report.findings@),
                    findings_view(self.transitions@[t as int].report.findings@),
                )
            } else {
                Seq::empty()
            },
    {
        if t == 0 || t >= self.transitions.len() {
            let v: Vec<DriftFinding> = Vec::new();
            assert(findings_view(v@) =~= Seq::<FindingV>::empty());
            return v;
        }
        resolved_findings(&self.transitions[t - 1].report.findings, &self.transitions[t].report.findings)
    }
}

/// A finding marked resolved no longer occurs: no finding of the later
/// transition has its category and resource, and it is a finding of the
/// earlier one with only its state changed.
pub proof fn law_resolved_findings_are_gone(prev: Seq<FindingV>, cur: Seq<FindingV>)
    ensures
        resolved_of(prev, cur).len() <= prev.len(),
        forall|k: int|
            #![trigger resolved_of(prev, cur)[k]]
            0 <= k < resolved_of(prev, cur).len() ==> {
                let f = resolved_of(prev, cur)[k];
                &&& f.state == FindingState::Resolved
                &&& !key_present(cur, (f.category, f.resource))
                &&& exists|i: int| 0 <= i < prev.len() && (FindingV { state: FindingState::Resolved, ..#[trigger] prev[i] }) == f
            },
    decreases prev.len(),
{
    if prev.len() > 0 {
        let p = prev.drop_last();
        law_resolved_findings_are_gone(p, cur);
        let rest = resolved_of(p, cur);
        let r = resolved_of(prev, cur);
        assert forall|k: int| #![trigger r[k]] 0 <= k < r.len() implies {
            let f = r[k];
            &&& f.state == FindingState::Resolved
            &&& !key_present(cur, (f.category, f.resource))
            &&& exists|i: int| 0 <= i < prev.len() && (FindingV { state: FindingState::Resolved, ..#[trigger] prev[i] }) == f
        } by {
            if k < rest.len() {
                assert(r[k] == rest[k]);
                let i = choose|i: int| 0 <= i < p.len() && (FindingV { state: FindingState::Resolved, ..#[trigger] p[i] }) == rest[k];
                assert(prev[i] == p[i]);
            } else {
                let i = prev.len() - 1;
                assert(r[k] == (FindingV { state: FindingState::Resolved, ..prev[i] }));
            }
        }
    }
}

} // verus!
