//! Drift reports: findings softened by the baseline, split by the policy,
//! normalized, grouped by resource and summarized.
use vstd::prelude::*;
use crate::classify::{
    asset_type_of, build_base_finding, classify_criticality, classify_new_service,
    classify_new_subdomain, classify_service_change, concat3, criticality_for, environment_for,
    finding_of, infer_environment_with_policy, new_service_finding, new_subdomain_finding,
    service_change_findings, FindingSpec,
};
use crate::common::HttpService;
use crate::diff::{DiffReport, ServiceChange, changes_view};
use crate::common::services_view;
use crate::drift::{
    criticality_rank, findings_view, lemma_findings_view_push, policy_is_baseline, policy_suppresses, policy_view,
    severity_rank, AssetType, AssetTypeSummary, Criticality, DriftFinding, DriftGroup,
    DriftPolicy, DriftSummary, Environment, FindingState, FindingV, PolicyV, Severity,
    StateSummary,
};
use crate::ids::{finding_id_text, normalized_finding_id};
use crate::order::{
    insert_pos, lemma_insert_pos_bounds, lemma_insert_pos_first, lemma_sort_desc_len,
    lemma_sort_desc_step, sort_desc, sorted_distinct, sorted_unique,
};
use crate::text::{lemma_strings_view_push, opt_chars, owned, str_eq, strings_view};

verus! {

/// One step down: `High` to `Medium`, `Medium` to `Low`; others stay.
pub open spec fn soften(s: Severity) -> Severity {
    match s {
        Severity::High => Severity::Medium,
        Severity::Medium => Severity::Low,
        _ => s,
    }
}

/// A finding on a baseline resource or category: 15 points less (not below
/// zero), one severity step down, tagged `baseline-adjusted`.
pub open spec fn baseline_adjusted(f: FindingV, policy: Option<PolicyV>) -> FindingV {
    if policy is Some && policy_is_baseline(policy.unwrap(), f.resource, f.category) {
        FindingV {
            finding_id: f.finding_id,
            severity: soften(f.severity),
            score: if f.score >= 15 {
                (f.score - 15) as u32
            } else {
                0u32
            },
            category: f.category,
            title: f.title,
            resource: f.resource,
            asset_type: f.asset_type,
            environment: f.environment,
            criticality: f.criticality,
            state: f.state,
            tags: f.tags.push("baseline-adjusted"@),
            description: f.description,
        }
    } else {
        f
    }
}

/// Softens a finding that the policy's baseline covers.
pub fn adjust_for_baseline(finding: &mut DriftFinding, policy: Option<&DriftPolicy>)
    ensures
        final(finding)@ == baseline_adjusted(old(finding)@, policy_view(policy)),
{
    let p = match policy {
        Some(p) => p,
        None => {
            return;
        },
    };
    if p.is_baseline_resource(finding.resource.as_str()) || p.is_baseline_category(
        finding.category.as_str(),
    ) {
        finding.score = finding.score.saturating_sub(15);
        let softened = match finding.severity {
            Severity::High => Severity::Medium,
            Severity::Medium => Severity::Low,
            other => other,
        };
        finding.severity = softened;
        let tag = owned("baseline-adjusted");
        proof {
            lemma_strings_view_push(finding.tags@, tag);
        }
        finding.tags.push(tag);
    }
}

/// Whether the policy suppresses a finding at time `now`.
pub open spec fn is_suppressed(f: FindingV, policy: Option<PolicyV>, now: i64) -> bool {
    policy is Some && policy_suppresses(policy.unwrap(), f.category, f.resource, now)
}

/// The finding marked as suppressed.
pub open spec fn mark_suppressed(f: FindingV) -> FindingV {
    FindingV {
        finding_id: f.finding_id,
        severity: f.severity,
        score: f.score,
        category: f.category,
        title: f.title,
        resource: f.resource,
        asset_type: f.asset_type,
        environment: f.environment,
        criticality: f.criticality,
        state: FindingState::Suppressed,
        tags: f.tags,
        description: f.description,
    }
}

/// The suppressed findings, in order, marked as suppressed.
pub open spec fn suppressed_part(fs: Seq<FindingV>, policy: Option<PolicyV>, now: i64) -> Seq<FindingV>
    decreases fs.len(),
{
    if fs.len() == 0 {
        Seq::empty()
    } else {
        let rest = suppressed_part(fs.drop_last(), policy, now);
        if is_suppressed(fs.last(), policy, now) {
            rest.push(mark_suppressed(fs.last()))
        } else {
            rest
        }
    }
}

/// The findings the policy leaves active, in order.
pub open spec fn active_part(fs: Seq<FindingV>, policy: Option<PolicyV>, now: i64) -> Seq<FindingV>
    decreases fs.len(),
{
    if fs.len() == 0 {
        Seq::empty()
    } else {
        let rest = active_part(fs.drop_last(), policy, now);
        if is_suppressed(fs.last(), policy, now) {
            rest
        } else {
            rest.push(fs.last())
        }
    }
}

/// Splits findings into (suppressed, active), each in its original order.
pub fn apply_policy(findings: &Vec<DriftFinding>, policy: Option<&DriftPolicy>, now: i64) -> (r: (
    Vec<DriftFinding>,
    Vec<DriftFinding>,
))
    ensures
        findings_view(r.0@) == suppressed_part(findings_view(findings@), policy_view(policy), now),
        findings_view(r.1@) == active_part(findings_view(findings@), policy_view(policy), now),
{
    let ghost fs = findings_view(findings@);
    let ghost pv = policy_view(policy);
    let mut suppressed: Vec<DriftFinding> = Vec::new();
    let mut active: Vec<DriftFinding> = Vec::new();
    let mut i: usize = 0;
    while i < findings.len()
        invariant
            i <= findings.len(),
            fs == findings_view(findings@),
            pv == policy_view(policy),
            findings_view(suppressed@) == suppressed_part(fs.take(i as int), pv, now),
            findings_view(active@) == active_part(fs.take(i as int), pv, now),
        decreases findings.len() - i,
    {
        assert(fs.take(i + 1).drop_last() =~= fs.take(i as int));
        assert(fs.take(i + 1).last() == findings@[i as int]@);
        let mut f = findings[i].duplicate();
        let hit = match policy {
            Some(p) => p.suppresses(&f, now),
            None => false,
        };
        if hit {
            f.state = FindingState::Suppressed;
            suppressed.push(f);
            assert(findings_view(suppressed@) =~= suppressed_part(fs.take(i + 1), pv, now));
            assert(findings_view(active@) =~= active_part(fs.take(i + 1), pv, now));
        } else {
            active.push(f);
            assert(findings_view(suppressed@) =~= suppressed_part(fs.take(i + 1), pv, now));
            assert(findings_view(active@) =~= active_part(fs.take(i + 1), pv, now));
        }
        i = i + 1;
    }
    assert(fs.take(findings.len() as int) =~= fs);
    (suppressed, active)
}

/// A finding as reports hold it: tags sorted without repeats, and the
/// identifier derived from target, category and resource.
pub open spec fn normalized(f: FindingV, target: Seq<char>) -> FindingV {
    FindingV {
        finding_id: finding_id_text(target, f.category, f.resource),
        severity: f.severity,
        score: f.score,
        category: f.category,
        title: f.title,
        resource: f.resource,
        asset_type: f.asset_type,
        environment: f.environment,
        criticality: f.criticality,
        state: f.state,
        tags: sorted_distinct(f.tags),
        description: f.description,
    }
}

pub open spec fn normalized_all(fs: Seq<FindingV>, target: Seq<char>) -> Seq<FindingV> {
    Seq::new(fs.len(), |i: int| normalized(fs[i], target))
}

/// Each finding with its tags sorted and deduplicated and its identifier set.
pub fn normalize_finding_collection(findings: &Vec<DriftFinding>, target: &str) -> (r: Vec<DriftFinding>)
    ensures
        findings_view(r@) == normalized_all(findings_view(findings@), target@),
{
    let mut out: Vec<DriftFinding> = Vec::new();
    let mut i: usize = 0;
    while i < findings.len()
        invariant
            i <= findings.len(),
            findings_view(out@) == normalized_all(findings_view(findings@), target@).take(i as int),
        decreases findings.len() - i,
    {
        let f = &findings[i];
        let tags = sorted_unique(&f.tags);
        let id = normalized_finding_id(target, f.category.as_str(), f.resource.as_str());
        let g = DriftFinding {
            finding_id: id,
            severity: f.severity,
            score: f.score,
            category: f.category.clone(),
            title: f.title.clone(),
            resource: f.resource.clone(),
            asset_type: f.asset_type,
            environment: f.environment,
            criticality: f.criticality,
            state: f.state,
            tags,
            description: f.description.clone(),
        };
        assert(g@.tags == sorted_distinct(f@.tags));
        assert(g@ == normalized(findings@[i as int]@, target@));
        let ghost prev = findings_view(out@);
        let ghost old_out = out@;
        assert(prev.len() == i);
        out.push(g);
        assert(out@ == old_out.push(g));
        assert(out@.len() == i + 1);
        i = i + 1;
        assert forall|j: int| 0 <= j < i implies #[trigger] findings_view(out@)[j]
            == normalized_all(findings_view(findings@), target@)[j] by {
            if j < i - 1 {
                assert(findings_view(out@)[j] == prev[j]);
            }
        }
        assert(findings_view(out@) =~= normalized_all(findings_view(findings@), target@).take(i as int));
    }
    assert(normalized_all(findings_view(findings@), target@).take(findings.len() as int)
        =~= normalized_all(findings_view(findings@), target@));
    out
}

/// How many findings satisfy `pred`.
pub open spec fn count_where(fs: Seq<FindingV>, pred: spec_fn(FindingV) -> bool) -> nat
    decreases fs.len(),
{
    if fs.len() == 0 {
        0
    } else {
        count_where(fs.drop_last(), pred) + if pred(fs.last()) {
            1nat
        } else {
            0nat
        }
    }
}

/// The sum of the scores.
pub open spec fn score_total(fs: Seq<FindingV>) -> nat
    decreases fs.len(),
{
    if fs.len() == 0 {
        0
    } else {
        score_total(fs.drop_last()) + fs.last().score as nat
    }
}

pub proof fn lemma_count_bound(fs: Seq<FindingV>, pred: spec_fn(FindingV) -> bool)
    ensures
        count_where(fs, pred) <= fs.len(),
    decreases fs.len(),
{
    if fs.len() > 0 {
        lemma_count_bound(fs.drop_last(), pred);
    }
}

pub proof fn lemma_score_total_mono(fs: Seq<FindingV>, k: int)
    requires
        0 <= k <= fs.len(),
    ensures
        score_total(fs.take(k)) <= score_total(fs),
    decreases fs.len() - k,
{
    if k < fs.len() {
        lemma_score_total_mono(fs, k + 1);
        assert(fs.take(k + 1).drop_last() =~= fs.take(k));
    } else {
        assert(fs.take(k) =~= fs);
    }
}

/// The severity of a set of findings as a whole: by the most severe finding
/// present, or by the total score.
pub open spec fn overall_severity(high: nat, medium: nat, low: nat, total: nat) -> Severity {
    if high > 0 || total >= 170 {
        Severity::High
    } else if medium > 0 || total >= 90 {
        Severity::Medium
    } else if low > 0 || total >= 20 {
        Severity::Low
    } else {
        Severity::Info
    }
}

/// Spec of `summarize`: counts over the active findings; the suppressed ones
/// only add to the suppressed count.
pub open spec fn summary_of(fs: Seq<FindingV>, suppressed: Seq<FindingV>) -> DriftSummary {
    let high = count_where(fs, |f: FindingV| f.severity == Severity::High);
    let medium = count_where(fs, |f: FindingV| f.severity == Severity::Medium);
    let low = count_where(fs, |f: FindingV| f.severity == Severity::Low);
    let total = score_total(fs);
    DriftSummary {
        high: high as usize,
        medium: medium as usize,
        low: low as usize,
        info: count_where(fs, |f: FindingV| f.severity == Severity::Info) as usize,
        total_score: total as u32,
        overall_severity: overall_severity(high, medium, low, total),
        critical_findings: count_where(
            fs,
            |f: FindingV| f.criticality == Criticality::Critical || f.criticality == Criticality::High,
        ) as usize,
        asset_types: AssetTypeSummary {
            ips: count_where(fs, |f: FindingV| f.asset_type == AssetType::Ip) as usize,
            subdomains: count_where(fs, |f: FindingV| f.asset_type == AssetType::Subdomain) as usize,
            services: count_where(fs, |f: FindingV| f.asset_type == AssetType::Service) as usize,
            unknown: count_where(fs, |f: FindingV| f.asset_type == AssetType::Unknown) as usize,
        },
        states: StateSummary {
            new: count_where(fs, |f: FindingV| f.state == FindingState::New) as usize,
            recurring: count_where(fs, |f: FindingV| f.state == FindingState::Recurring) as usize,
            persistent: count_where(fs, |f: FindingV| f.state == FindingState::Persistent) as usize,
            suppressed: (count_where(fs, |f: FindingV| f.state == FindingState::Suppressed)
                + suppressed.len()) as usize,
            resolved: count_where(fs, |f: FindingV| f.state == FindingState::Resolved) as usize,
        },
    }
}

/// Adds one to the counter of the finding's asset type.
pub fn increment_asset_type(summary: &mut AssetTypeSummary, asset_type: &AssetType)
    requires
        old(summary).ips < usize::MAX,
        old(summary).subdomains < usize::MAX,
        old(summary).services < usize::MAX,
        old(summary).unknown < usize::MAX,
    ensures
        final(summary).ips == old(summary).ips + if *asset_type == AssetType::Ip {
            1int
        } else {
            0int
        },
        final(summary).subdomains == old(summary).subdomains + if *asset_type
            == AssetType::Subdomain {
            1int
        } else {
            0int
        },
        final(summary).services == old(summary).services + if *asset_type == AssetType::Service {
            1int
        } else {
            0int
        },
        final(summary).unknown == old(summary).unknown + if *asset_type == AssetType::Unknown {
            1int
        } else {
            0int
        },
{
    match asset_type {
        AssetType::Ip => summary.ips = summary.ips + 1,
        AssetType::Subdomain => summary.subdomains = summary.subdomains + 1,
        AssetType::Service => summary.services = summary.services + 1,
        AssetType::Unknown => summary.unknown = summary.unknown + 1,
    }
}

proof fn lemma_count_step(fs: Seq<FindingV>, i: int, pred: spec_fn(FindingV) -> bool)
    requires
        0 <= i < fs.len(),
    ensures
        count_where(fs.take(i + 1), pred) == count_where(fs.take(i), pred) + if pred(fs[i]) {
            1nat
        } else {
            0nat
        },
{
    assert(fs.take(i + 1).drop_last() =~= fs.take(i));
}

/// Totals over the active findings of a report.
pub fn summarize(findings: &Vec<DriftFinding>, suppressed: &Vec<DriftFinding>) -> (s: DriftSummary)
    requires
        score_total(findings_view(findings@)) <= u32::MAX,
        findings@.len() + suppressed@.len() <= usize::MAX,
    ensures
        s == summary_of(findings_view(findings@), findings_view(suppressed@)),
{
    let ghost fs = findings_view(findings@);
    let mut high: usize = 0;
    let mut medium: usize = 0;
    let mut low: usize = 0;
    let mut info: usize = 0;
    let mut new: usize = 0;
    let mut recurring: usize = 0;
    let mut persistent: usize = 0;
    let mut supp: usize = 0;
    let mut resolved: usize = 0;
    let mut critical: usize = 0;
    let mut assets = AssetTypeSummary { ips: 0, subdomains: 0, services: 0, unknown: 0 };
    let mut total: u32 = 0;
    let mut i: usize = 0;
    while i < findings.len()
        invariant
            i <= findings.len(),
            fs == findings_view(findings@),
            score_total(fs) <= u32::MAX,
            findings@.len() + suppressed@.len() <= usize::MAX,
            high == count_where(fs.take(i as int), |f: FindingV| f.severity == Severity::High),
            medium == count_where(fs.take(i as int), |f: FindingV| f.severity == Severity::Medium),
            low == count_where(fs.take(i as int), |f: FindingV| f.severity == Severity::Low),
            info == count_where(fs.take(i as int), |f: FindingV| f.severity == Severity::Info),
            new == count_where(fs.take(i as int), |f: FindingV| f.state == FindingState::New),
            recurring == count_where(fs.take(i as int), |f: FindingV| f.state == FindingState::Recurring),
            persistent == count_where(fs.take(i as int), |f: FindingV| f.state == FindingState::Persistent),
            supp == count_where(fs.take(i as int), |f: FindingV| f.state == FindingState::Suppressed),
            resolved == count_where(fs.take(i as int), |f: FindingV| f.state == FindingState::Resolved),
            critical == count_where(
                fs.take(i as int),
                |f: FindingV| f.criticality == Criticality::Critical || f.criticality == Criticality::High,
            ),
            assets.ips == count_where(fs.take(i as int), |f: FindingV| f.asset_type == AssetType::Ip),
            assets.subdomains == count_where(fs.take(i as int), |f: FindingV| f.asset_type == AssetType::Subdomain),
            assets.services == count_where(fs.take(i as int), |f: FindingV| f.asset_type == AssetType::Service),
            assets.unknown == count_where(fs.take(i as int), |f: FindingV| f.asset_type == AssetType::Unknown),
            total == score_total(fs.take(i as int)),
        decreases findings.len() - i,
    {
        let f = &findings[i];
        assert(fs[i as int] == f@);
        proof {
            lemma_count_step(fs, i as int, |f: FindingV| f.severity == Severity::High);
            lemma_count_step(fs, i as int, |f: FindingV| f.severity == Severity::Medium);
            lemma_count_step(fs, i as int, |f: FindingV| f.severity == Severity::Low);
            lemma_count_step(fs, i as int, |f: FindingV| f.severity == Severity::Info);
            lemma_count_step(fs, i as int, |f: FindingV| f.state == FindingState::New);
            lemma_count_step(fs, i as int, |f: FindingV| f.state == FindingState::Recurring);
            lemma_count_step(fs, i as int, |f: FindingV| f.state == FindingState::Persistent);
            lemma_count_step(fs, i as int, |f: FindingV| f.state == FindingState::Suppressed);
            lemma_count_step(fs, i as int, |f: FindingV| f.state == FindingState::Resolved);
            lemma_count_step(
                fs,
                i as int,
                |f: FindingV| f.criticality == Criticality::Critical || f.criticality == Criticality::High,
            );
            lemma_count_step(fs, i as int, |f: FindingV| f.asset_type == AssetType::Ip);
            lemma_count_step(fs, i as int, |f: FindingV| f.asset_type == AssetType::Subdomain);
            lemma_count_step(fs, i as int, |f: FindingV| f.asset_type == AssetType::Service);
            lemma_count_step(fs, i as int, |f: FindingV| f.asset_type == AssetType::Unknown);
            lemma_count_bound(fs.take(i as int), |f: FindingV| f.severity == Severity::High);
            lemma_count_bound(fs.take(i as int), |f: FindingV| f.severity == Severity::Medium);
            lemma_count_bound(fs.take(i as int), |f: FindingV| f.severity == Severity::Low);
            lemma_count_bound(fs.take(i as int), |f: FindingV| f.severity == Severity::Info);
            lemma_count_bound(fs.take(i as int), |f: FindingV| f.state == FindingState::New);
            lemma_count_bound(fs.take(i as int), |f: FindingV| f.state == FindingState::Recurring);
            lemma_count_bound(fs.take(i as int), |f: FindingV| f.state == FindingState::Persistent);
            lemma_count_bound(fs.take(i as int), |f: FindingV| f.state == FindingState::Suppressed);
            lemma_count_bound(fs.take(i as int), |f: FindingV| f.state == FindingState::Resolved);
            lemma_count_bound(
                fs.take(i as int),
                |f: FindingV| f.criticality == Criticality::Critical || f.criticality == Criticality::High,
            );
            lemma_count_bound(fs.take(i as int), |f: FindingV| f.asset_type == AssetType::Ip);
            lemma_count_bound(fs.take(i as int), |f: FindingV| f.asset_type == AssetType::Subdomain);
            lemma_count_bound(fs.take(i as int), |f: FindingV| f.asset_type == AssetType::Service);
            lemma_count_bound(fs.take(i as int), |f: FindingV| f.asset_type == AssetType::Unknown);
            assert(fs.take(i + 1).drop_last() =~= fs.take(i as int));
            lemma_score_total_mono(fs, i + 1);
        }
        match f.severity {
            Severity::High => high = high + 1,
            Severity::Medium => medium = medium + 1,
            Severity::Low => low = low + 1,
            Severity::Info => info = info + 1,
        }
        match f.state {
            FindingState::New => new = new + 1,
            FindingState::Recurring => recurring = recurring + 1,
            FindingState::Persistent => persistent = persistent + 1,
            FindingState::Suppressed => supp = supp + 1,
            FindingState::Resolved => resolved = resolved + 1,
        }
        match f.criticality {
            Criticality::Critical | Criticality::High => critical = critical + 1,
            _ => {},
        }
        increment_asset_type(&mut assets, &f.asset_type);
        total = total + f.score;
        i = i + 1;
    }
    assert(fs.take(findings.len() as int) =~= fs);
    proof {
        lemma_count_bound(fs, |f: FindingV| f.state == FindingState::Suppressed);
    }
    let suppressed_total = supp + suppressed.len();
    let overall = if high > 0 || total >= 170 {
        Severity::High
    } else if medium > 0 || total >= 90 {
        Severity::Medium
    } else if low > 0 || total >= 20 {
        Severity::Low
    } else {
        Severity::Info
    };
    DriftSummary {
        high,
        medium,
        low,
        info,
        total_score: total,
        overall_severity: overall,
        critical_findings: critical,
        asset_types: assets,
        states: StateSummary {
            new,
            recurring,
            persistent,
            suppressed: suppressed_total,
            resolved,
        },
    }
}

/// The abstract value of a group.
pub struct GroupV {
    pub resource: Seq<char>,
    pub findings: Seq<FindingV>,
    pub highest_severity: Severity,
    pub highest_criticality: Criticality,
    pub total_score: u32,
}

impl View for DriftGroup {
    type V = GroupV;

    open spec fn view(&self) -> GroupV {
        GroupV {
            resource: self.resource@,
            findings: findings_view(self.findings@),
            highest_severity: self.highest_severity,
            highest_criticality: self.highest_criticality,
            total_score: self.total_score,
        }
    }
}

pub open spec fn groups_view(v: Seq<DriftGroup>) -> Seq<GroupV> {
    Seq::new(v.len(), |i: int| v[i]@)
}

/// The findings about `resource`, in order.
pub open spec fn members(fs: Seq<FindingV>, resource: Seq<char>) -> Seq<FindingV>
    decreases fs.len(),
{
    if fs.len() == 0 {
        Seq::empty()
    } else {
        let m = members(fs.drop_last(), resource);
        if fs.last().resource == resource {
            m.push(fs.last())
        } else {
            m
        }
    }
}

/// The most severe severity present; `Info` when there is none.
pub open spec fn max_severity(fs: Seq<FindingV>) -> Severity
    decreases fs.len(),
{
    if fs.len() == 0 {
        Severity::Info
    } else {
        let m = max_severity(fs.drop_last());
        if severity_rank(m) < severity_rank(fs.last().severity) {
            fs.last().severity
        } else {
            m
        }
    }
}

/// The highest criticality present; `Low` when there is none.
pub open spec fn max_criticality(fs: Seq<FindingV>) -> Criticality
    decreases fs.len(),
{
    if fs.len() == 0 {
        Criticality::Low
    } else {
        let m = max_criticality(fs.drop_last());
        if criticality_rank(m) < criticality_rank(fs.last().criticality) {
            fs.last().criticality
        } else {
            m
        }
    }
}

pub open spec fn by_score() -> spec_fn(FindingV) -> int {
    |f: FindingV| f.score as int
}

pub open spec fn by_total() -> spec_fn(GroupV) -> int {
    |g: GroupV| g.total_score as int
}

/// The group of the findings about `resource`: its findings by descending
/// score (ties in their order), the highest severity and criticality, and
/// the total score.
pub open spec fn group_of(fs: Seq<FindingV>, resource: Seq<char>) -> GroupV {
    let m = members(fs, resource);
    GroupV {
        resource,
        findings: sort_desc(m, by_score()),
        highest_severity: max_severity(m),
        highest_criticality: max_criticality(m),
        total_score: score_total(m) as u32,
    }
}

pub open spec fn resources_of(fs: Seq<FindingV>) -> Seq<Seq<char>> {
    Seq::new(fs.len(), |i: int| fs[i].resource)
}

/// Spec of `group_findings`: one group per distinct resource, taken in the
/// order of resources and then sorted by descending total score (ties keep
/// the order of resources).
pub open spec fn groups_of(fs: Seq<FindingV>) -> Seq<GroupV> {
    let rs = sorted_distinct(resources_of(fs));
    sort_desc(Seq::new(rs.len(), |i: int| group_of(fs, rs[i])), by_total())
}

pub proof fn lemma_members_total(fs: Seq<FindingV>, r: Seq<char>)
    ensures
        score_total(members(fs, r)) <= score_total(fs),
    decreases fs.len(),
{
    if fs.len() > 0 {
        lemma_members_total(fs.drop_last(), r);
        let m = members(fs.drop_last(), r);
        assert(m.push(fs.last()).drop_last() =~= m);
    }
}

/// The findings sorted by descending score, ties in their order.
fn sort_by_score(v: Vec<DriftFinding>) -> (r: Vec<DriftFinding>)
    ensures
        findings_view(r@) == sort_desc(findings_view(v@), by_score()),
{
    let ghost fv = findings_view(v@);
    let mut rest = v;
    let mut out: Vec<DriftFinding> = Vec::new();
    let mut i: usize = 0;
    let n = rest.len();
    assert(fv.take(0) =~= Seq::<FindingV>::empty());
    while rest.len() > 0
        invariant
            n == fv.len(),
            i + rest@.len() == n,
            findings_view(rest@) == fv.skip(i as int),
            findings_view(out@) == sort_desc(fv.take(i as int), by_score()),
        decreases rest.len(),
    {
        let ghost old_rest = rest@;
        let x = rest.remove(0);
        assert forall|j: int| 0 <= j < rest@.len() implies #[trigger] findings_view(rest@)[j] == fv.skip(i + 1)[j] by {
            assert(rest@[j] == old_rest[j + 1]);
            assert(findings_view(old_rest)[j + 1] == fv.skip(i as int)[j + 1]);
        }
        assert(fv[i as int] == x@) by {
            assert(fv.skip(i as int)[0] == fv[i as int]);
        }
        let ghost sorted = findings_view(out@);
        proof {
            lemma_sort_desc_len(fv.take(i as int), by_score());
        }
        let mut k: usize = 0;
        loop
            invariant
                k <= out.len(),
                sorted == findings_view(out@),
                forall|j: int| 0 <= j < k ==> (#[trigger] sorted[j]).score >= x@.score,
            ensures
                k <= out.len(),
                forall|j: int| 0 <= j < k ==> (#[trigger] sorted[j]).score >= x@.score,
                k < out.len() ==> sorted[k as int].score < x@.score,
            decreases out.len() - k,
        {
            if k >= out.len() {
                break;
            }
            assert(sorted[k as int] == out@[k as int]@);
            if out[k].score < x.score {
                break;
            }
            k = k + 1;
        }
        proof {
            lemma_insert_pos_first(sorted, x@, by_score(), k as int);
            lemma_sort_desc_step(fv, i as int, by_score());
        }
        out.insert(k, x);
        assert(findings_view(out@) =~= sorted.insert(k as int, x@));
        assert(findings_view(rest@) =~= fv.skip(i + 1));
        i = i + 1;
    }
    assert(fv.take(n as int) =~= fv);
    out
}

/// The groups sorted by descending total score, ties in their order.
fn sort_by_total(v: Vec<DriftGroup>) -> (r: Vec<DriftGroup>)
    ensures
        groups_view(r@) == sort_desc(groups_view(v@), by_total()),
{
    let ghost gv = groups_view(v@);
    let mut rest = v;
    let mut out: Vec<DriftGroup> = Vec::new();
    let mut i: usize = 0;
    let n = rest.len();
    assert(gv.take(0) =~= Seq::<GroupV>::empty());
    while rest.len() > 0
        invariant
            n == gv.len(),
            i + rest@.len() == n,
            groups_view(rest@) == gv.skip(i as int),
            groups_view(out@) == sort_desc(gv.take(i as int), by_total()),
        decreases rest.len(),
    {
        let ghost old_rest = rest@;
        let x = rest.remove(0);
        assert forall|j: int| 0 <= j < rest@.len() implies #[trigger] groups_view(rest@)[j] == gv.skip(i + 1)[j] by {
            assert(rest@[j] == old_rest[j + 1]);
            assert(groups_view(old_rest)[j + 1] == gv.skip(i as int)[j + 1]);
        }
        assert(gv[i as int] == x@) by {
            assert(gv.skip(i as int)[0] == gv[i as int]);
        }
        let ghost sorted = groups_view(out@);
        proof {
            lemma_sort_desc_len(gv.take(i as int), by_total());
        }
        let mut k: usize = 0;
        loop
            invariant
                k <= out.len(),
                sorted == groups_view(out@),
                forall|j: int| 0 <= j < k ==> (#[trigger] sorted[j]).total_score >= x@.total_score,
            ensures
                k <= out.len(),
                forall|j: int| 0 <= j < k ==> (#[trigger] sorted[j]).total_score >= x@.total_score,
                k < out.len() ==> sorted[k as int].total_score < x@.total_score,
            decreases out.len() - k,
        {
            if k >= out.len() {
                break;
            }
            assert(sorted[k as int] == out@[k as int]@);
            if out[k].total_score < x.total_score {
                break;
            }
            k = k + 1;
        }
        proof {
            lemma_insert_pos_first(sorted, x@, by_total(), k as int);
            lemma_sort_desc_step(gv, i as int, by_total());
        }
        out.insert(k, x);
        assert(groups_view(out@) =~= sorted.insert(k as int, x@));
        assert(groups_view(rest@) =~= gv.skip(i + 1));
        i = i + 1;
    }
    assert(gv.take(n as int) =~= gv);
    out
}

/// The group of the findings about `resource`.
fn build_group(findings: &Vec<DriftFinding>, resource: &String) -> (g: DriftGroup)
    requires
        score_total(findings_view(findings@)) <= u32::MAX,
    ensures
        g@ == group_of(findings_view(findings@), resource@),
{
    let ghost fs = findings_view(findings@);
    let mut m: Vec<DriftFinding> = Vec::new();
    let mut highest_severity = Severity::Info;
    let mut highest_criticality = Criticality::Low;
    let mut total: u32 = 0;
    let mut i: usize = 0;
    while i < findings.len()
        invariant
            i <= findings.len(),
            fs == findings_view(findings@),
            score_total(fs) <= u32::MAX,
            findings_view(m@) == members(fs.take(i as int), resource@),
            highest_severity == max_severity(members(fs.take(i as int), resource@)),
            highest_criticality == max_criticality(members(fs.take(i as int), resource@)),
            total == score_total(members(fs.take(i as int), resource@)),
        decreases findings.len() - i,
    {
        assert(fs.take(i + 1).drop_last() =~= fs.take(i as int));
        assert(fs.take(i + 1).last() == findings@[i as int]@);
        if str_eq(findings[i].resource.as_str(), resource.as_str()) {
            let f = findings[i].duplicate();
            proof {
                lemma_members_total(fs.take(i + 1), resource@);
                lemma_score_total_mono(fs, i + 1);
                let mm = members(fs.take(i + 1), resource@);
                assert(mm.drop_last() =~= members(fs.take(i as int), resource@));
            }
            if highest_severity.is_below(&f.severity) {
                highest_severity = f.severity;
            }
            if highest_criticality.is_below(&f.criticality) {
                highest_criticality = f.criticality;
            }
            total = total + f.score;
            m.push(f);
            assert(findings_view(m@) =~= members(fs.take(i + 1), resource@));
        }
        i = i + 1;
    }
    assert(fs.take(findings.len() as int) =~= fs);
    let sorted = sort_by_score(m);
    DriftGroup {
        resource: resource.clone(),
        findings: sorted,
        highest_severity,
        highest_criticality,
        total_score: total,
    }
}

/// Findings grouped by resource, groups by descending total score.
pub fn group_findings(findings: &Vec<DriftFinding>) -> (r: Vec<DriftGroup>)
    requires
        score_total(findings_view(findings@)) <= u32::MAX,
    ensures
        groups_view(r@) == groups_of(findings_view(findings@)),
{
    let ghost fs = findings_view(findings@);
    let mut resources: Vec<String> = Vec::new();
    let mut i: usize = 0;
    while i < findings.len()
        invariant
            i <= findings.len(),
            fs == findings_view(findings@),
            strings_view(resources@) == resources_of(fs).take(i as int),
        decreases findings.len() - i,
    {
        let r = findings[i].resource.clone();
        proof {
            lemma_strings_view_push(resources@, r);
        }
        resources.push(r);
        i = i + 1;
        assert(strings_view(resources@) =~= resources_of(fs).take(i as int));
    }
    assert(resources_of(fs).take(findings.len() as int) =~= resources_of(fs));
    let keys = sorted_unique(&resources);
    let ghost rs = sorted_distinct(resources_of(fs));
    let mut groups: Vec<DriftGroup> = Vec::new();
    let mut k: usize = 0;
    while k < keys.len()
        invariant
            k <= keys.len(),
            fs == findings_view(findings@),
            score_total(fs) <= u32::MAX,
            strings_view(keys@) == rs,
            groups_view(groups@) == Seq::new(rs.len(), |j: int| group_of(fs, rs[j])).take(k as int),
        decreases keys.len() - k,
    {
        let g = build_group(findings, &keys[k]);
        assert(rs[k as int] == keys@[k as int]@);
        let ghost prev = groups_view(groups@);
        let ghost old_groups = groups@;
        assert(rs.len() == keys.len());
        assert(prev.len() == k);
        groups.push(g);
        assert(groups@ == old_groups.push(g));
        assert(groups@.len() == k + 1);
        k = k + 1;
        assert forall|j: int| 0 <= j < k implies #[trigger] groups_view(groups@)[j]
            == Seq::new(rs.len(), |j: int| group_of(fs, rs[j]))[j] by {
            if j < k - 1 {
                assert(groups_view(groups@)[j] == prev[j]);
            }
        }
        assert(groups_view(groups@) =~= Seq::new(rs.len(), |j: int| group_of(fs, rs[j])).take(k as int));
    }
    assert(Seq::new(rs.len(), |j: int| group_of(fs, rs[j])).take(keys.len() as int) =~= Seq::new(
        rs.len(),
        |j: int| group_of(fs, rs[j]),
    ));
    sort_by_total(groups)
}

/// The drift between two snapshots: active and suppressed findings, the
/// groups of the active ones and their summary.
#[derive(Debug, Clone)]
pub struct DriftReport {
    pub target: String,
    pub older_timestamp: i64,
    pub newer_timestamp: i64,
    pub findings: Vec<DriftFinding>,
    pub suppressed_findings: Vec<DriftFinding>,
    pub groups: Vec<DriftGroup>,
    pub summary: DriftSummary,
}

/// The finding for an IP address that appeared (`added`) or disappeared.
/// Its criticality is judged as for an unknown environment.
pub open spec fn ip_finding(ip: Seq<char>, policy: Option<PolicyV>, added: bool) -> FindingV {
    let env = environment_for(ip, policy);
    let crit = criticality_for(ip, policy, Environment::Unknown, AssetType::Ip);
    if added {
        finding_of(
            Severity::Low,
            10,
            "new_ip"@,
            "Nueva IP detectada"@,
            ip,
            env,
            crit,
            FindingState::New,
            seq!["network"@, "new-exposure"@],
            "Se detectó una nueva dirección IP "@ + ip + " en el snapshot más reciente."@,
        )
    } else {
        finding_of(
            Severity::Info,
            3,
            "removed_ip"@,
            "IP removida"@,
            ip,
            env,
            crit,
            FindingState::New,
            seq!["network"@, "removed"@],
            "La dirección IP "@ + ip + " dejó de aparecer en el snapshot más reciente."@,
        )
    }
}

/// The finding for a subdomain that disappeared.
pub open spec fn removed_subdomain_finding(sub: Seq<char>, policy: Option<PolicyV>) -> FindingV {
    let env = environment_for(sub, policy);
    finding_of(
        Severity::Info,
        5,
        "subdomain_removed"@,
        "Subdominio removido"@,
        sub,
        env,
        criticality_for(sub, policy, env, AssetType::Subdomain),
        FindingState::New,
        seq!["subdomain"@, "removed"@],
        "El subdominio "@ + sub + " ya no fue detectado en el snapshot más reciente."@,
    )
}

/// The finding for a service that disappeared.
pub open spec fn removed_service_finding(url: Seq<char>, policy: Option<PolicyV>) -> FindingV {
    let env = environment_for(url, policy);
    finding_of(
        Severity::Info,
        5,
        "service_removed"@,
        "Servicio removido"@,
        url,
        env,
        criticality_for(url, policy, env, AssetType::Service),
        FindingState::New,
        seq!["service"@, "removed"@],
        "El servicio "@ + url + " dejó de estar presente entre snapshots."@,
    )
}

/// The findings of all changed services, in order.
pub open spec fn changes_findings(cs: Seq<ServiceChange>, policy: Option<PolicyV>) -> Seq<FindingV>
    decreases cs.len(),
{
    if cs.len() == 0 {
        Seq::empty()
    } else {
        changes_findings(cs.drop_last(), policy) + service_change_findings(cs.last(), policy)
    }
}

/// Every finding of a diff before the policy is applied, in this order: new
/// IPs, removed IPs, new subdomains, removed subdomains, new services, removed
/// services, changed services.
pub open spec fn raw_findings(d: DiffReport, policy: Option<PolicyV>) -> Seq<FindingV> {
    let new_ips = strings_view(d.new_ips@);
    let removed_ips = strings_view(d.removed_ips@);
    let new_subs = strings_view(d.new_subdomains@);
    let removed_subs = strings_view(d.removed_subdomains@);
    Seq::new(new_ips.len(), |i: int| ip_finding(new_ips[i], policy, true))
        + Seq::new(removed_ips.len(), |i: int| ip_finding(removed_ips[i], policy, false))
        + Seq::new(new_subs.len(), |i: int| new_subdomain_finding(new_subs[i], policy))
        + Seq::new(removed_subs.len(), |i: int| removed_subdomain_finding(removed_subs[i], policy))
        + Seq::new(
        d.new_services@.len(),
        |i: int|
            new_service_finding(
                d.new_services@[i].url@,
                d.new_services@[i].scheme@,
                strings_view(d.new_services@[i].technologies@),
                opt_chars(d.new_services@[i].provider),
                policy,
            ),
    ) + Seq::new(
        d.removed_services@.len(),
        |i: int| removed_service_finding(d.removed_services@[i].url@, policy),
    ) + changes_findings(d.changed_services@, policy)
}

/// The raw findings once the baseline has softened them.
pub open spec fn adjusted_findings(d: DiffReport, policy: Option<PolicyV>) -> Seq<FindingV> {
    let raw = raw_findings(d, policy);
    Seq::new(raw.len(), |i: int| baseline_adjusted(raw[i], policy))
}

proof fn lemma_change_findings_views(c1: ServiceChange, c2: ServiceChange, policy: Option<PolicyV>)
    requires
        c1@ == c2@,
    ensures
        service_change_findings(c1, policy) == service_change_findings(c2, policy),
{
    assert(c1.url@ == c2.url@);
    assert(opt_chars(c1.before_server) == opt_chars(c2.before_server));
    assert(opt_chars(c1.after_server) == opt_chars(c2.after_server));
    assert(opt_chars(c1.before_provider) == opt_chars(c2.before_provider));
    assert(opt_chars(c1.after_provider) == opt_chars(c2.after_provider));
    assert(strings_view(c1.before_technologies@) == strings_view(c2.before_technologies@));
    assert(strings_view(c1.after_technologies@) == strings_view(c2.after_technologies@));
}

proof fn lemma_changes_findings_views(cs1: Seq<ServiceChange>, cs2: Seq<ServiceChange>, policy: Option<PolicyV>)
    requires
        changes_view(cs1) == changes_view(cs2),
    ensures
        changes_findings(cs1, policy) == changes_findings(cs2, policy),
    decreases cs1.len(),
{
    assert(cs1.len() == changes_view(cs1).len());
    assert(cs2.len() == changes_view(cs2).len());
    if cs1.len() > 0 {
        assert forall|i: int| 0 <= i < cs1.len() implies #[trigger] cs1[i]@ == cs2[i]@ by {
            assert(changes_view(cs1)[i] == cs1[i]@);
            assert(changes_view(cs2)[i] == cs2[i]@);
        }
        assert(changes_view(cs1.drop_last()) =~= changes_view(cs2.drop_last())) by {
            assert forall|i: int| 0 <= i < cs1.len() - 1 implies changes_view(cs1.drop_last())[i] == changes_view(cs2.drop_last())[i] by {
                assert(cs1.drop_last()[i] == cs1[i]);
                assert(cs2.drop_last()[i] == cs2[i]);
                assert(cs1[i]@ == cs2[i]@);
            }
        }
        lemma_changes_findings_views(cs1.drop_last(), cs2.drop_last(), policy);
        assert(cs1[cs1.len() - 1]@ == cs2[cs1.len() - 1]@);
        lemma_change_findings_views(cs1.last(), cs2.last(), policy);
    }
}

/// Two diffs with the same abstract value give the same findings.
pub proof fn lemma_adjusted_findings_views(d1: DiffReport, d2: DiffReport, policy: Option<PolicyV>)
    requires
        d1@ == d2@,
    ensures
        adjusted_findings(d1, policy) == adjusted_findings(d2, policy),
        diff_size(d1) == diff_size(d2),
{
    assert(strings_view(d1.new_ips@).len() == d1.new_ips@.len());
    assert(strings_view(d2.new_ips@).len() == d2.new_ips@.len());
    assert(strings_view(d1.removed_ips@).len() == d1.removed_ips@.len());
    assert(strings_view(d2.removed_ips@).len() == d2.removed_ips@.len());
    assert(strings_view(d1.new_subdomains@).len() == d1.new_subdomains@.len());
    assert(strings_view(d2.new_subdomains@).len() == d2.new_subdomains@.len());
    assert(strings_view(d1.removed_subdomains@).len() == d1.removed_subdomains@.len());
    assert(strings_view(d2.removed_subdomains@).len() == d2.removed_subdomains@.len());
    assert(services_view(d1.new_services@).len() == d1.new_services@.len());
    assert(services_view(d2.new_services@).len() == d2.new_services@.len());
    assert(services_view(d1.removed_services@).len() == d1.removed_services@.len());
    assert(services_view(d2.removed_services@).len() == d2.removed_services@.len());
    assert(changes_view(d1.changed_services@).len() == d1.changed_services@.len());
    assert(changes_view(d2.changed_services@).len() == d2.changed_services@.len());
    lemma_changes_findings_views(d1.changed_services@, d2.changed_services@, policy);
    let n1 = Seq::new(
        d1.new_services@.len(),
        |i: int|
            new_service_finding(
                d1.new_services@[i].url@,
                d1.new_services@[i].scheme@,
                strings_view(d1.new_services@[i].technologies@),
                opt_chars(d1.new_services@[i].provider),
                policy,
            ),
    );
    let n2 = Seq::new(
        d2.new_services@.len(),
        |i: int|
            new_service_finding(
                d2.new_services@[i].url@,
                d2.new_services@[i].scheme@,
                strings_view(d2.new_services@[i].technologies@),
                opt_chars(d2.new_services@[i].provider),
                policy,
            ),
    );
    assert(n1 =~= n2) by {
        assert forall|i: int| 0 <= i < n1.len() implies n1[i] == n2[i] by {
            assert(services_view(d1.new_services@)[i] == services_view(d2.new_services@)[i]);
        }
    }
    let r1 = Seq::new(
        d1.removed_services@.len(),
        |i: int| removed_service_finding(d1.removed_services@[i].url@, policy),
    );
    let r2 = Seq::new(
        d2.removed_services@.len(),
        |i: int| removed_service_finding(d2.removed_services@[i].url@, policy),
    );
    assert(r1 =~= r2) by {
        assert forall|i: int| 0 <= i < r1.len() implies r1[i] == r2[i] by {
            assert(services_view(d1.removed_services@)[i] == services_view(d2.removed_services@)[i]);
        }
    }
    assert(raw_findings(d1, policy) =~= raw_findings(d2, policy));
}

/// How many findings a diff can give at most.
pub open spec fn diff_size(d: DiffReport) -> nat {
    d.new_ips@.len() + d.removed_ips@.len() + d.new_subdomains@.len() + d.removed_subdomains@.len()
        + d.new_services@.len() + d.removed_services@.len() + 3 * d.changed_services@.len()
}

pub open spec fn scores_at_most(fs: Seq<FindingV>, b: u32) -> bool {
    forall|i: int| 0 <= i < fs.len() ==> (#[trigger] fs[i]).score <= b
}

proof fn lemma_parts_bound(fs: Seq<FindingV>, policy: Option<PolicyV>, now: i64)
    requires
        scores_at_most(fs, 95),
    ensures
        scores_at_most(active_part(fs, policy, now), 95),
        scores_at_most(suppressed_part(fs, policy, now), 95),
        active_part(fs, policy, now).len() + suppressed_part(fs, policy, now).len() == fs.len(),
    decreases fs.len(),
{
    if fs.len() > 0 {
        lemma_parts_bound(fs.drop_last(), policy, now);
        assert(fs[fs.len() - 1].score <= 95);
    }
}

proof fn lemma_changes_bound(cs: Seq<ServiceChange>, policy: Option<PolicyV>)
    ensures
        changes_findings(cs, policy).len() <= 3 * cs.len(),
        scores_at_most(changes_findings(cs, policy), 95),
    decreases cs.len(),
{
    if cs.len() > 0 {
        lemma_changes_bound(cs.drop_last(), policy);
        let a = changes_findings(cs.drop_last(), policy);
        let b = service_change_findings(cs.last(), policy);
        assert forall|i: int| 0 <= i < (a + b).len() implies (#[trigger] (a + b)[i]).score <= 95 by {
            if i >= a.len() {
                assert((a + b)[i] == b[i - a.len()]);
            }
        }
    }
}

/// Appends the findings of `more` to `out`.
fn append_findings(out: &mut Vec<DriftFinding>, more: Vec<DriftFinding>)
    ensures
        findings_view(final(out)@) == findings_view(old(out)@) + findings_view(more@),
{
    let ghost start = findings_view(out@);
    let mut rest = more;
    let ghost mv = findings_view(rest@);
    let n = rest.len();
    let mut i: usize = 0;
    assert(mv.take(0) =~= Seq::<FindingV>::empty());
    assert(start + mv.take(0) =~= start);
    while rest.len() > 0
        invariant
            i + rest@.len() == n,
            n == mv.len(),
            findings_view(rest@) == mv.skip(i as int),
            findings_view(out@) == start + mv.take(i as int),
        decreases rest.len(),
    {
        let ghost old_rest = rest@;
        let x = rest.remove(0);
        assert forall|j: int| 0 <= j < rest@.len() implies #[trigger] findings_view(rest@)[j] == mv.skip(i + 1)[j] by {
            assert(rest@[j] == old_rest[j + 1]);
            assert(findings_view(old_rest)[j + 1] == mv.skip(i as int)[j + 1]);
        }
        assert(mv[i as int] == x@) by {
            assert(mv.skip(i as int)[0] == mv[i as int]);
        }
        proof {
            lemma_findings_view_push(out@, x);
            assert(mv.take(i + 1) =~= mv.take(i as int).push(mv[i as int]));
            assert(start + mv.take(i + 1) =~= (start + mv.take(i as int)).push(mv[i as int]));
        }
        out.push(x);
        assert(findings_view(rest@) =~= mv.skip(i + 1));
        i = i + 1;
    }
    assert(mv.take(i as int) =~= mv);
}

/// The finding for each IP address of a list.
fn ip_findings(ips: &Vec<String>, policy: Option<&DriftPolicy>, added: bool) -> (r: Vec<DriftFinding>)
    ensures
        findings_view(r@) == Seq::new(
            ips@.len(),
            |i: int| ip_finding(strings_view(ips@)[i], policy_view(policy), added),
        ),
{
    let ghost want = Seq::new(ips@.len(), |i: int| ip_finding(strings_view(ips@)[i], policy_view(policy), added));
    let mut out: Vec<DriftFinding> = Vec::new();
    let mut i: usize = 0;
    while i < ips.len()
        invariant
            i <= ips.len(),
            want == Seq::new(ips@.len(), |i: int| ip_finding(strings_view(ips@)[i], policy_view(policy), added)),
            findings_view(out@) == want.take(i as int),
        decreases ips.len() - i,
    {
        let ip = ips[i].as_str();
        let environment = infer_environment_with_policy(ip, policy);
        let criticality = classify_criticality(ip, policy, &Environment::Unknown, &AssetType::Ip);
        let f = if added {
            let tags = vec![owned("network"), owned("new-exposure")];
            proof {
                reveal_strlit("network");
                reveal_strlit("new-exposure");
            }
            assert(strings_view(tags@) =~= seq!["network"@, "new-exposure"@]);
            build_base_finding(
                FindingSpec {
                    severity: Severity::Low,
                    score: 10,
                    category: owned("new_ip"),
                    title: owned("Nueva IP detectada"),
                    resource: owned(ip),
                    environment,
                    criticality,
                    state: FindingState::New,
                    tags,
                    description: concat3(
                        "Se detectó una nueva dirección IP ",
                        ip,
                        " en el snapshot más reciente.",
                    ),
                },
            )
        } else {
            let tags = vec![owned("network"), owned("removed")];
            assert(strings_view(tags@) =~= seq!["network"@, "removed"@]);
            build_base_finding(
                FindingSpec {
                    severity: Severity::Info,
                    score: 3,
                    category: owned("removed_ip"),
                    title: owned("IP removida"),
                    resource: owned(ip),
                    environment,
                    criticality,
                    state: FindingState::New,
                    tags,
                    description: concat3(
                        "La dirección IP ",
                        ip,
                        " dejó de aparecer en el snapshot más reciente.",
                    ),
                },
            )
        };
        assert(f@ == want[i as int]);
        proof {
            lemma_findings_view_push(out@, f);
            assert(want.take(i + 1) =~= want.take(i as int).push(want[i as int]));
        }
        out.push(f);
        i = i + 1;
    }
    assert(want.take(ips.len() as int) =~= want);
    out
}

/// The finding for each subdomain of a list, new or removed.
fn subdomain_findings(subs: &Vec<String>, policy: Option<&DriftPolicy>, added: bool) -> (r: Vec<DriftFinding>)
    ensures
        added ==> findings_view(r@) == Seq::new(
            subs@.len(),
            |i: int| new_subdomain_finding(strings_view(subs@)[i], policy_view(policy)),
        ),
        !added ==> findings_view(r@) == Seq::new(
            subs@.len(),
            |i: int| removed_subdomain_finding(strings_view(subs@)[i], policy_view(policy)),
        ),
{
    let ghost want = if added {
        Seq::new(subs@.len(), |i: int| new_subdomain_finding(strings_view(subs@)[i], policy_view(policy)))
    } else {
        Seq::new(subs@.len(), |i: int| removed_subdomain_finding(strings_view(subs@)[i], policy_view(policy)))
    };
    let mut out: Vec<DriftFinding> = Vec::new();
    let mut i: usize = 0;
    while i < subs.len()
        invariant
            i <= subs.len(),
            want.len() == subs.len(),
            forall|j: int| 0 <= j < subs.len() ==> #[trigger] want[j] == if added {
                new_subdomain_finding(strings_view(subs@)[j], policy_view(policy))
            } else {
                removed_subdomain_finding(strings_view(subs@)[j], policy_view(policy))
            },
            findings_view(out@) == want.take(i as int),
        decreases subs.len() - i,
    {
        let sub = subs[i].as_str();
        assert(strings_view(subs@)[i as int] == sub@);
        let f = if added {
            classify_new_subdomain(sub, policy)
        } else {
            let environment = infer_environment_with_policy(sub, policy);
            let criticality = classify_criticality(sub, policy, &environment, &AssetType::Subdomain);
            let tags = vec![owned("subdomain"), owned("removed")];
            proof {
                reveal_strlit("subdomain");
                reveal_strlit("removed");
            }
            assert(strings_view(tags@) =~= seq!["subdomain"@, "removed"@]);
            build_base_finding(
                FindingSpec {
                    severity: Severity::Info,
                    score: 5,
                    category: owned("subdomain_removed"),
                    title: owned("Subdominio removido"),
                    resource: owned(sub),
                    environment,
                    criticality,
                    state: FindingState::New,
                    tags,
                    description: concat3(
                        "El subdominio ",
                        sub,
                        " ya no fue detectado en el snapshot más reciente.",
                    ),
                },
            )
        };
        assert(f@ == want[i as int]);
        proof {
            lemma_findings_view_push(out@, f);
            assert(want.take(i + 1) =~= want.take(i as int).push(want[i as int]));
        }
        out.push(f);
        i = i + 1;
    }
    assert(want.take(subs.len() as int) =~= want);
    out
}

/// The finding for each service of a list, new or removed.
fn service_findings(services: &Vec<HttpService>, policy: Option<&DriftPolicy>, added: bool) -> (r: Vec<
    DriftFinding,
>)
    ensures
        added ==> findings_view(r@) == Seq::new(
            services@.len(),
            |i: int|
                new_service_finding(
                    services@[i].url@,
                    services@[i].scheme@,
                    strings_view(services@[i].technologies@),
                    opt_chars(services@[i].provider),
                    policy_view(policy),
                ),
        ),
        !added ==> findings_view(r@) == Seq::new(
            services@.len(),
            |i: int| removed_service_finding(services@[i].url@, policy_view(policy)),
        ),
{
    let ghost want = if added {
        Seq::new(
            services@.len(),
            |i: int|
                new_service_finding(
                    services@[i].url@,
                    services@[i].scheme@,
                    strings_view(services@[i].technologies@),
                    opt_chars(services@[i].provider),
                    policy_view(policy),
                ),
        )
    } else {
        Seq::new(services@.len(), |i: int| removed_service_finding(services@[i].url@, policy_view(policy)))
    };
    let mut out: Vec<DriftFinding> = Vec::new();
    let mut i: usize = 0;
    while i < services.len()
        invariant
            i <= services.len(),
            want.len() == services.len(),
            forall|j: int| 0 <= j < services.len() ==> #[trigger] want[j] == if added {
                new_service_finding(
                    services@[j].url@,
                    services@[j].scheme@,
                    strings_view(services@[j].technologies@),
                    opt_chars(services@[j].provider),
                    policy_view(policy),
                )
            } else {
                removed_service_finding(services@[j].url@, policy_view(policy))
            },
            findings_view(out@) == want.take(i as int),
        decreases services.len() - i,
    {
        let s = &services[i];
        let url = s.url.as_str();
        let f = if added {
            let provider: Option<&str> = match &s.provider {
                Some(p) => Some(p.as_str()),
                None => None,
            };
            classify_new_service(url, s.scheme.as_str(), s.technologies.as_slice(), provider, policy)
        } else {
            let environment = infer_environment_with_policy(url, policy);
            let criticality = classify_criticality(url, policy, &environment, &AssetType::Service);
            let tags = vec![owned("service"), owned("removed")];
            proof {
                reveal_strlit("service");
                reveal_strlit("removed");
            }
            assert(strings_view(tags@) =~= seq!["service"@, "removed"@]);
            build_base_finding(
                FindingSpec {
                    severity: Severity::Info,
                    score: 5,
                    category: owned("service_removed"),
                    title: owned("Servicio removido"),
                    resource: owned(url),
                    environment,
                    criticality,
                    state: FindingState::New,
                    tags,
                    description: concat3(
                        "El servicio ",
                        url,
                        " dejó de estar presente entre snapshots.",
                    ),
                },
            )
        };
        assert(f@ == want[i as int]);
        proof {
            lemma_findings_view_push(out@, f);
            assert(want.take(i + 1) =~= want.take(i as int).push(want[i as int]));
        }
        out.push(f);
        i = i + 1;
    }
    assert(want.take(services.len() as int) =~= want);
    out
}

/// Every active finding of a diff scores at most 95 points.
pub(crate) proof fn lemma_active_scores(d: DiffReport, pv: Option<PolicyV>, now: i64, target: Seq<char>)
    ensures
        scores_at_most(adjusted_findings(d, pv), 95),
        scores_at_most(active_part(adjusted_findings(d, pv), pv, now), 95),
        scores_at_most(normalized_all(active_part(adjusted_findings(d, pv), pv, now), target), 95),
{
    let raw = raw_findings(d, pv);
    let adj = adjusted_findings(d, pv);
    lemma_changes_bound(d.changed_services@, pv);
    assert forall|k: int| 0 <= k < adj.len() implies (#[trigger] adj[k]).score <= 95 by {
        let n1 = d.new_ips@.len() as int;
        let n2 = n1 + d.removed_ips@.len();
        let n3 = n2 + d.new_subdomains@.len();
        let n4 = n3 + d.removed_subdomains@.len();
        let n5 = n4 + d.new_services@.len();
        let n6 = n5 + d.removed_services@.len();
        assert(raw[k].score <= 95) by {
            if k >= n6 {
                assert(raw[k] == changes_findings(d.changed_services@, pv)[k - n6]);
            }
        }
    }
    lemma_parts_bound(adj, pv, now);
    let act = active_part(adj, pv, now);
    let na = normalized_all(act, target);
    assert forall|k: int| 0 <= k < na.len() implies (#[trigger] na[k]).score <= 95 by {
        assert(na[k].score == act[k].score);
    }
}

/// Classifies every change of a diff and applies the optional policy: the
/// baseline softens, suppression splits the findings in two, both lists are
/// normalized, and the active findings are grouped and summarized.
/// The total score of the active findings must fit the summary's `u32`,
/// and the diff's entries, one finding at most each, a `usize`.
#[verifier::rlimit(40)]
pub fn analyze_diff_with_policy(diff: &DiffReport, policy: Option<&DriftPolicy>) -> (r: DriftReport)
    requires
        diff_size(*diff) <= usize::MAX,
        score_total(
            normalized_all(
                active_part(adjusted_findings(*diff, policy_view(policy)), policy_view(policy), diff.newer_timestamp),
                diff.target@,
            ),
        ) <= u32::MAX,
    ensures
        r.target@ == diff.target@,
        r.older_timestamp == diff.older_timestamp,
        r.newer_timestamp == diff.newer_timestamp,
        findings_view(r.findings@) == normalized_all(
            active_part(adjusted_findings(*diff, policy_view(policy)), policy_view(policy), diff.newer_timestamp),
            diff.target@,
        ),
        findings_view(r.suppressed_findings@) == normalized_all(
            suppressed_part(adjusted_findings(*diff, policy_view(policy)), policy_view(policy), diff.newer_timestamp),
            diff.target@,
        ),
        groups_view(r.groups@) == groups_of(findings_view(r.findings@)),
        r.summary == summary_of(findings_view(r.findings@), findings_view(r.suppressed_findings@)),
        scores_at_most(findings_view(r.findings@), 95),
        r.findings@.len() + r.suppressed_findings@.len() <= diff_size(*diff),
{
    let ghost pv = policy_view(policy);
    let mut findings = ip_findings(&diff.new_ips, policy, true);
    let removed_ips = ip_findings(&diff.removed_ips, policy, false);
    append_findings(&mut findings, removed_ips);
    let new_subs = subdomain_findings(&diff.new_subdomains, policy, true);
    append_findings(&mut findings, new_subs);
    let removed_subs = subdomain_findings(&diff.removed_subdomains, policy, false);
    append_findings(&mut findings, removed_subs);
    let new_services = service_findings(&diff.new_services, policy, true);
    append_findings(&mut findings, new_services);
    let removed_services = service_findings(&diff.removed_services, policy, false);
    append_findings(&mut findings, removed_services);
    let mut c: usize = 0;
    let ghost before_changes = findings_view(findings@);
    while c < diff.changed_services.len()
        invariant
            c <= diff.changed_services.len(),
            findings_view(findings@) == before_changes + changes_findings(diff.changed_services@.take(c as int), pv),
            pv == policy_view(policy),
        decreases diff.changed_services.len() - c,
    {
        let more = classify_service_change(&diff.changed_services[c], policy);
        assert(diff.changed_services@.take(c + 1).drop_last() =~= diff.changed_services@.take(c as int));
        append_findings(&mut findings, more);
        c = c + 1;
        assert(findings_view(findings@) =~= before_changes + changes_findings(diff.changed_services@.take(c as int), pv));
    }
    assert(diff.changed_services@.take(c as int) =~= diff.changed_services@);
    let ghost raw = raw_findings(*diff, pv);
    assert(findings_view(findings@) =~= raw);
    let mut adjusted: Vec<DriftFinding> = Vec::new();
    let mut i: usize = 0;
    while i < findings.len()
        invariant
            i <= findings.len(),
            findings_view(findings@) == raw,
            pv == policy_view(policy),
            findings_view(adjusted@) == Seq::new(raw.len(), |k: int| baseline_adjusted(raw[k], pv)).take(i as int),
        decreases findings.len() - i,
    {
        let mut f = findings[i].duplicate();
        adjust_for_baseline(&mut f, policy);
        proof {
            let w = Seq::new(raw.len(), |k: int| baseline_adjusted(raw[k], pv));
            lemma_findings_view_push(adjusted@, f);
            assert(w.take(i + 1) =~= w.take(i as int).push(w[i as int]));
            assert(raw[i as int] == findings@[i as int]@);
        }
        adjusted.push(f);
        i = i + 1;
    }
    let ghost adj = adjusted_findings(*diff, pv);
    assert(findings_view(adjusted@) =~= adj);
    proof {
        lemma_changes_bound(diff.changed_services@, pv);
        lemma_active_scores(*diff, pv, diff.newer_timestamp, diff.target@);
        lemma_parts_bound(adj, pv, diff.newer_timestamp);
        assert(raw.len() <= diff_size(*diff));
    }
    let (suppressed0, active0) = apply_policy(&adjusted, policy, diff.newer_timestamp);
    let active = normalize_finding_collection(&active0, diff.target.as_str());
    let suppressed = normalize_finding_collection(&suppressed0, diff.target.as_str());
    let ghost av = findings_view(active@);
    assert(findings_view(active@).len() == active@.len());
    assert(findings_view(suppressed@).len() == suppressed@.len());
    assert(findings_view(active0@).len() == active0@.len());
    assert(findings_view(suppressed0@).len() == suppressed0@.len());
    assert(active@.len() + suppressed@.len() == adj.len());
    assert(scores_at_most(av, 95)) by {
        assert forall|k: int| 0 <= k < av.len() implies (#[trigger] av[k]).score <= 95 by {
            assert(av[k].score == findings_view(active0@)[k].score);
        }
    }
    assert(av == normalized_all(active_part(adj, pv, diff.newer_timestamp), diff.target@));
    assert(score_total(av) <= u32::MAX);
    let groups = group_findings(&active);
    let summary = summarize(&active, &suppressed);
    DriftReport {
        target: diff.target.clone(),
        older_timestamp: diff.older_timestamp,
        newer_timestamp: diff.newer_timestamp,
        findings: active,
        suppressed_findings: suppressed,
        groups,
        summary,
    }
}

/// `analyze_diff_with_policy` without a policy.
pub fn analyze_diff(diff: &DiffReport) -> (r: DriftReport)
    requires
        diff_size(*diff) <= usize::MAX,
        score_total(normalized_all(adjusted_findings(*diff, None), diff.target@)) <= u32::MAX,
    ensures
        r.target@ == diff.target@,
        findings_view(r.findings@) == normalized_all(
            adjusted_findings(*diff, None),
            diff.target@,
        ),
        r.suppressed_findings@.len() == 0,
        groups_view(r.groups@) == groups_of(findings_view(r.findings@)),
        r.summary == summary_of(findings_view(r.findings@), findings_view(r.suppressed_findings@)),
{
    proof {
        law_no_policy_suppresses_nothing(adjusted_findings(*diff, None), diff.newer_timestamp);
    }
    let r = analyze_diff_with_policy(diff, None);
    r
}

/// Without a policy every finding stays active and none is suppressed.
pub proof fn law_no_policy_suppresses_nothing(fs: Seq<FindingV>, now: i64)
    ensures
        active_part(fs, None, now) == fs,
        suppressed_part(fs, None, now).len() == 0,
    decreases fs.len(),
{
    if fs.len() > 0 {
        law_no_policy_suppresses_nothing(fs.drop_last(), now);
        assert(fs.drop_last().push(fs.last()) =~= fs);
    }
}

} // verus!

verus! {

/// A policy splits findings without losing or repeating one: every finding
/// is either active or suppressed, the active ones are those the policy
/// does not suppress, and the suppressed ones are those it does, marked as
/// suppressed.
pub proof fn law_policy_partitions_findings(fs: Seq<FindingV>, policy: Option<PolicyV>, now: i64)
    ensures
        active_part(fs, policy, now).len() + suppressed_part(fs, policy, now).len() == fs.len(),
        forall|i: int|
            0 <= i < active_part(fs, policy, now).len() ==> !is_suppressed(
                #[trigger] active_part(fs, policy, now)[i],
                policy,
                now,
            ),
        forall|i: int|
            0 <= i < suppressed_part(fs, policy, now).len() ==> is_suppressed(
                #[trigger] suppressed_part(fs, policy, now)[i],
                policy,
                now,
            ) && suppressed_part(fs, policy, now)[i].state == FindingState::Suppressed,
    decreases fs.len(),
{
    if fs.len() > 0 {
        law_policy_partitions_findings(fs.drop_last(), policy, now);
        let a = active_part(fs.drop_last(), policy, now);
        let s = suppressed_part(fs.drop_last(), policy, now);
        let x = fs.last();
        if is_suppressed(x, policy, now) {
            assert(is_suppressed(mark_suppressed(x), policy, now));
            assert forall|i: int| 0 <= i < s.push(mark_suppressed(x)).len() implies is_suppressed(
                #[trigger] s.push(mark_suppressed(x))[i],
                policy,
                now,
            ) && s.push(mark_suppressed(x))[i].state == FindingState::Suppressed by {
                if i < s.len() {
                    assert(s.push(mark_suppressed(x))[i] == s[i]);
                }
            }
        } else {
            assert forall|i: int| 0 <= i < a.push(x).len() implies !is_suppressed(#[trigger] a.push(x)[i], policy, now) by {
                if i < a.len() {
                    assert(a.push(x)[i] == a[i]);
                }
            }
        }
    }
}

} // verus!

verus! {

/// Normalizing a finding twice gives what normalizing it once gives: its
/// identifier depends only on target, category and resource, and its tags
/// are already sorted and distinct.
pub proof fn law_normalize_is_idempotent(fs: Seq<FindingV>, target: Seq<char>)
    ensures
        normalized_all(normalized_all(fs, target), target) == normalized_all(fs, target),
{
    let once = normalized_all(fs, target);
    let twice = normalized_all(once, target);
    assert forall|i: int| 0 <= i < fs.len() implies #[trigger] twice[i] == once[i] by {
        let tags = sorted_distinct(fs[i].tags);
        crate::order::lemma_sorted_distinct_props(fs[i].tags);
        crate::order::lemma_sorted_distinct(tags, tags);
    }
    assert(twice =~= once);
}

} // verus!

verus! {

proof fn lemma_severity_counts(fs: Seq<FindingV>)
    ensures
        count_where(fs, |f: FindingV| f.severity == Severity::High) + count_where(fs, |f: FindingV| f.severity == Severity::Medium)
            + count_where(fs, |f: FindingV| f.severity == Severity::Low) + count_where(fs, |f: FindingV| f.severity == Severity::Info)
            == fs.len(),
        count_where(fs, |f: FindingV| f.asset_type == AssetType::Ip) + count_where(fs, |f: FindingV| f.asset_type == AssetType::Subdomain)
            + count_where(fs, |f: FindingV| f.asset_type == AssetType::Service) + count_where(fs, |f: FindingV| f.asset_type == AssetType::Unknown)
            == fs.len(),
    decreases fs.len(),
{
    if fs.len() > 0 {
        lemma_severity_counts(fs.drop_last());
    }
}

/// A drift summary counts every active finding under exactly one severity
/// and under exactly one asset type.
pub proof fn law_summary_counts_every_finding(fs: Seq<FindingV>, suppressed: Seq<FindingV>)
    requires
        fs.len() <= usize::MAX,
    ensures
        summary_of(fs, suppressed).high + summary_of(fs, suppressed).medium + summary_of(fs, suppressed).low
            + summary_of(fs, suppressed).info == fs.len(),
        summary_of(fs, suppressed).asset_types.ips + summary_of(fs, suppressed).asset_types.subdomains
            + summary_of(fs, suppressed).asset_types.services + summary_of(fs, suppressed).asset_types.unknown
            == fs.len(),
{
    lemma_severity_counts(fs);
    lemma_count_bound(fs, |f: FindingV| f.severity == Severity::High);
    lemma_count_bound(fs, |f: FindingV| f.severity == Severity::Medium);
    lemma_count_bound(fs, |f: FindingV| f.severity == Severity::Low);
    lemma_count_bound(fs, |f: FindingV| f.severity == Severity::Info);
    lemma_count_bound(fs, |f: FindingV| f.asset_type == AssetType::Ip);
    lemma_count_bound(fs, |f: FindingV| f.asset_type == AssetType::Subdomain);
    lemma_count_bound(fs, |f: FindingV| f.asset_type == AssetType::Service);
    lemma_count_bound(fs, |f: FindingV| f.asset_type == AssetType::Unknown);
}

} // verus!

verus! {

/// A new subdomain whose lowercased name starts with `admin.` or holds
/// `.admin.` is reported, without a policy, as one `new_admin_subdomain`
/// finding on that subdomain of `High` severity and 95 points: the finding
/// that follows those of the new and removed addresses.
pub proof fn law_admin_subdomains_are_high(d: DiffReport, i: int)
    requires
        0 <= i < d.new_subdomains@.len(),
        crate::text::starts_with(crate::text::unicode_lower(d.new_subdomains@[i]@), "admin."@)
            || crate::text::contains(crate::text::unicode_lower(d.new_subdomains@[i]@), ".admin."@),
    ensures
        ({
            let fs = normalized_all(adjusted_findings(d, None), d.target@);
            let k = d.new_ips@.len() + d.removed_ips@.len() + i;
            &&& 0 <= k < fs.len()
            &&& fs[k].severity == Severity::High
            &&& fs[k].score == 95
            &&& fs[k].category == "new_admin_subdomain"@
            &&& fs[k].resource == d.new_subdomains@[i]@
        }),
{
    let raw = raw_findings(d, None);
    let a = d.new_ips@.len() as int;
    let b = d.removed_ips@.len() as int;
    let subs = strings_view(d.new_subdomains@);
    assert(raw[a + b + i] == new_subdomain_finding(subs[i], None));
    assert(subs[i] == d.new_subdomains@[i]@);
}

} // verus!
