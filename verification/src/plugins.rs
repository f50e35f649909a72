//! Report plugins: small rewrites of each finding's tags, applied in the
//! order they were registered.
use vstd::prelude::*;
use crate::drift::{
    finding_state_name, findings_view, lemma_findings_view_push, Criticality, DriftFinding,
    FindingV,
};
use crate::order::{sorted_distinct, sorted_unique};
use crate::report::{groups_view, DriftReport, GroupV};
use crate::timeline::{TimelineReport, TimelineTransition};
use crate::text::{
    contains_string, lemma_strings_view_push, owned, push_str, str_eq, strings_view, to_lowercase,
    unicode_lower,
};

verus! {

/// A rewrite applied to every finding of a report. Users implement it for
/// their own plugins; `effect` states what `process_finding` does.
pub trait ReportPlugin {
    /// What the plugin makes of a finding.
    spec fn effect(&self, f: FindingV) -> FindingV;

    fn name(&self) -> &'static str;

    fn process_finding(&self, finding: &mut DriftFinding)
        ensures
            final(finding)@ == self.effect(old(finding)@),
    ;
}

/// The plugins this library provides.
#[derive(Debug, Clone, Copy, PartialEq, Eq, Structural)]
pub enum BuiltinPlugin {
    /// Tags findings on critical resources with `critical-resource`.
    CriticalityTag,
    /// Tags findings with `state:<state>`.
    StateTag,
    /// Sorts a finding's tags and removes repeats.
    NormalizeTags,
}

pub open spec fn plugin_name(p: BuiltinPlugin) -> Seq<char> {
    match p {
        BuiltinPlugin::CriticalityTag => "criticality-tag"@,
        BuiltinPlugin::StateTag => "state-tag"@,
        BuiltinPlugin::NormalizeTags => "normalize-tags"@,
    }
}

/// `tag` added at the end unless already present.
pub open spec fn add_tag(tags: Seq<Seq<char>>, tag: Seq<char>) -> Seq<Seq<char>> {
    if tags.contains(tag) {
        tags
    } else {
        tags.push(tag)
    }
}

pub open spec fn with_tags(f: FindingV, tags: Seq<Seq<char>>) -> FindingV {
    FindingV { tags, ..f }
}

/// What a plugin does to a finding.
pub open spec fn plugin_effect(p: BuiltinPlugin, f: FindingV) -> FindingV {
    match p {
        BuiltinPlugin::CriticalityTag => if f.criticality == Criticality::Critical {
            with_tags(f, add_tag(f.tags, "critical-resource"@))
        } else {
            f
        },
        BuiltinPlugin::StateTag => with_tags(
            f,
            add_tag(f.tags, "state:"@ + unicode_lower(finding_state_name(f.state))),
        ),
        BuiltinPlugin::NormalizeTags => with_tags(f, sorted_distinct(f.tags)),
    }
}

/// Adds `tag` to the finding unless it already has it.
fn add_tag_to(finding: &mut DriftFinding, tag: String)
    ensures
        final(finding)@ == with_tags(old(finding)@, add_tag(old(finding)@.tags, tag@)),
{
    let present = contains_string(finding.tags.as_slice(), tag.as_str());
    proof {
        let tv = strings_view(finding.tags@);
        if present {
            let i = choose|i: int| 0 <= i < finding.tags@.len() && finding.tags@[i]@ == tag@;
            assert(tv[i] == tag@);
        } else {
            assert forall|i: int| 0 <= i < tv.len() implies tv[i] != tag@ by {
                assert(tv[i] == finding.tags@[i]@);
            }
        }
    }
    if !present {
        proof {
            lemma_strings_view_push(finding.tags@, tag);
        }
        finding.tags.push(tag);
    }
}

impl ReportPlugin for BuiltinPlugin {
    open spec fn effect(&self, f: FindingV) -> FindingV {
        plugin_effect(*self, f)
    }

    fn name(&self) -> (r: &'static str)
        ensures
            r@ == plugin_name(*self),
    {
        match self {
            BuiltinPlugin::CriticalityTag => "criticality-tag",
            BuiltinPlugin::StateTag => "state-tag",
            BuiltinPlugin::NormalizeTags => "normalize-tags",
        }
    }

    fn process_finding(&self, finding: &mut DriftFinding) {
        match self {
            BuiltinPlugin::CriticalityTag => {
                if let Criticality::Critical = finding.criticality {
                    add_tag_to(finding, owned("critical-resource"));
                }
            },
            BuiltinPlugin::StateTag => {
                let name = finding.state.to_string();
                let lowered = to_lowercase(name.as_str());
                let mut tag = owned("state:");
                push_str(&mut tag, lowered.as_str());
                add_tag_to(finding, tag);
            },
            BuiltinPlugin::NormalizeTags => {
                let tags = sorted_unique(&finding.tags);
                finding.tags = tags;
            },
        }
    }
}

/// The plugins applied to each finding, in order.
pub struct PluginRegistry<P: ReportPlugin> {
    plugins: Vec<P>,
}

/// All plugins applied in order.
pub open spec fn apply_all<P: ReportPlugin>(ps: Seq<P>, f: FindingV) -> FindingV
    decreases ps.len(),
{
    if ps.len() == 0 {
        f
    } else {
        ps.last().effect(apply_all(ps.drop_last(), f))
    }
}

pub open spec fn apply_all_seq<P: ReportPlugin>(ps: Seq<P>, fs: Seq<FindingV>) -> Seq<FindingV> {
    Seq::new(fs.len(), |i: int| apply_all(ps, fs[i]))
}

pub open spec fn apply_groups<P: ReportPlugin>(ps: Seq<P>, gs: Seq<GroupV>) -> Seq<GroupV> {
    Seq::new(gs.len(), |i: int| GroupV { findings: apply_all_seq(ps, gs[i].findings), ..gs[i] })
}

impl<P: ReportPlugin> PluginRegistry<P> {
    pub fn new(plugins: Vec<P>) -> (r: PluginRegistry<P>)
        ensures
            r.plugins() == plugins@,
    {
        PluginRegistry { plugins }
    }

    /// The registered plugins, in order.
    pub closed spec fn plugins(&self) -> Seq<P> {
        self.plugins@
    }

    /// Runs every plugin on the finding, in order.
    pub fn apply_finding(&self, finding: &mut DriftFinding)
        ensures
            final(finding)@ == apply_all(self.plugins(), old(finding)@),
    {
        let mut i: usize = 0;
        let ghost start = finding@;
        while i < self.plugins.len()
            invariant
                i <= self.plugins.len(),
                finding@ == apply_all(self.plugins@.take(i as int), start),
                start == old(finding)@,
            decreases self.plugins.len() - i,
        {
            assert(self.plugins@.take(i + 1).drop_last() =~= self.plugins@.take(i as int));
            self.plugins[i].process_finding(finding);
            i = i + 1;
        }
        assert(self.plugins@.take(self.plugins.len() as int) =~= self.plugins@);
    }

    /// The findings with every plugin applied.
    fn apply_list(&self, findings: &Vec<DriftFinding>) -> (r: Vec<DriftFinding>)
        ensures
            findings_view(r@) == apply_all_seq(self.plugins(), findings_view(findings@)),
    {
        let ghost want = apply_all_seq(self.plugins(), findings_view(findings@));
        let mut out: Vec<DriftFinding> = Vec::new();
        let mut i: usize = 0;
        while i < findings.len()
            invariant
                i <= findings.len(),
                want == apply_all_seq(self.plugins(), findings_view(findings@)),
                findings_view(out@) == want.take(i as int),
            decreases findings.len() - i,
        {
            let mut f = findings[i].duplicate();
            self.apply_finding(&mut f);
            proof {
                lemma_findings_view_push(out@, f);
                assert(want.take(i + 1) =~= want.take(i as int).push(want[i as int]));
            }
            out.push(f);
            i = i + 1;
        }
        assert(want.take(findings.len() as int) =~= want);
        out
    }

    /// Applies the plugins to every finding of a report: active, suppressed
    /// and grouped.
    pub fn apply_drift_report(&self, report: &mut DriftReport)
        ensures
            findings_view(final(report).findings@) == apply_all_seq(self.plugins(), findings_view(old(report).findings@)),
            findings_view(final(report).suppressed_findings@) == apply_all_seq(
                self.plugins(),
                findings_view(old(report).suppressed_findings@),
            ),
            groups_view(final(report).groups@) == apply_groups(self.plugins(), groups_view(old(report).groups@)),
            final(report).target@ == old(report).target@,
            final(report).summary == old(report).summary,
            final(report).older_timestamp == old(report).older_timestamp,
            final(report).newer_timestamp == old(report).newer_timestamp,
    {
        let findings = self.apply_list(&report.findings);
        report.findings = findings;
        let suppressed = self.apply_list(&report.suppressed_findings);
        report.suppressed_findings = suppressed;
        let ghost gs = groups_view(report.groups@);
        let ghost want = apply_groups(self.plugins(), gs);
        let mut groups: Vec<crate::drift::DriftGroup> = Vec::new();
        let mut i: usize = 0;
        while i < report.groups.len()
            invariant
                i <= report.groups.len(),
                gs == groups_view(report.groups@),
                want == apply_groups(self.plugins(), gs),
                groups_view(groups@) == want.take(i as int),
            decreases report.groups.len() - i,
        {
            let g = &report.groups[i];
            let fs = self.apply_list(&g.findings);
            let ng = crate::drift::DriftGroup {
                resource: g.resource.clone(),
                findings: fs,
                highest_severity: g.highest_severity,
                highest_criticality: g.highest_criticality,
                total_score: g.total_score,
            };
            proof {
                assert(groups_view(groups@.push(ng)) =~= groups_view(groups@).push(ng@));
                assert(want.take(i + 1) =~= want.take(i as int).push(want[i as int]));
            }
            groups.push(ng);
            i = i + 1;
        }
        assert(want.take(report.groups.len() as int) =~= want);
        report.groups = groups;
    }
}

impl PluginRegistry<BuiltinPlugin> {
    /// The names of the registered plugins, in order.
    pub fn names(&self) -> (r: Vec<&'static str>)
        ensures
            r@.len() == self.plugins().len(),
            forall|i: int| 0 <= i < r@.len() ==> (#[trigger] r@[i])@ == plugin_name(self.plugins()[i]),
    {
        let mut r: Vec<&'static str> = Vec::new();
        let mut i: usize = 0;
        while i < self.plugins.len()
            invariant
                i <= self.plugins.len(),
                r@.len() == i,
                forall|k: int| 0 <= k < i ==> (#[trigger] r@[k])@ == plugin_name(self.plugins@[k]),
            decreases self.plugins.len() - i,
        {
            r.push(self.plugins[i].name());
            i = i + 1;
        }
        r
    }
}

/// The registry of the built-in plugins named in `enabled`, in the fixed
/// order criticality tag, state tag, tag normalization.
pub fn default_registry_for(enabled: &Vec<String>) -> (r: PluginRegistry<BuiltinPlugin>)
    ensures
        r.plugins() == (if (exists|i: int| 0 <= i < enabled@.len() && enabled@[i]@ == "criticality-tag"@) {
            seq![BuiltinPlugin::CriticalityTag]
        } else {
            Seq::empty()
        }) + (if (exists|i: int| 0 <= i < enabled@.len() && enabled@[i]@ == "state-tag"@) {
            seq![BuiltinPlugin::StateTag]
        } else {
            Seq::empty()
        }) + (if (exists|i: int| 0 <= i < enabled@.len() && enabled@[i]@ == "normalize-tags"@) {
            seq![BuiltinPlugin::NormalizeTags]
        } else {
            Seq::empty()
        }),
{
    let mut plugins: Vec<BuiltinPlugin> = Vec::new();
    let a = contains_string(enabled.as_slice(), "criticality-tag");
    let b = contains_string(enabled.as_slice(), "state-tag");
    let c = contains_string(enabled.as_slice(), "normalize-tags");
    if a {
        plugins.push(BuiltinPlugin::CriticalityTag);
    }
    let ghost pa = plugins@;
    if b {
        plugins.push(BuiltinPlugin::StateTag);
    }
    let ghost pb = plugins@;
    if c {
        plugins.push(BuiltinPlugin::NormalizeTags);
    }
    proof {
        let sa: Seq<BuiltinPlugin> = if a { seq![BuiltinPlugin::CriticalityTag] } else { Seq::empty() };
        let sb: Seq<BuiltinPlugin> = if b { seq![BuiltinPlugin::StateTag] } else { Seq::empty() };
        let sc: Seq<BuiltinPlugin> = if c { seq![BuiltinPlugin::NormalizeTags] } else { Seq::empty() };
        assert(pa =~= sa);
        assert(pb =~= sa + sb);
        assert(plugins@ =~= sa + sb + sc);
    }
    PluginRegistry::new(plugins)
}

} // verus!

verus! {

/// What applying the plugins to a drift report makes of it.
pub open spec fn report_applied<P: ReportPlugin>(plugins: Seq<P>, before: DriftReport, after: DriftReport) -> bool {
    &&& findings_view(after.findings@) == apply_all_seq(plugins, findings_view(before.findings@))
    &&& findings_view(after.suppressed_findings@) == apply_all_seq(plugins, findings_view(before.suppressed_findings@))
    &&& groups_view(after.groups@) == apply_groups(plugins, groups_view(before.groups@))
    &&& after.target@ == before.target@
    &&& after.summary == before.summary
    &&& after.older_timestamp == before.older_timestamp
    &&& after.newer_timestamp == before.newer_timestamp
}

impl<P: ReportPlugin> PluginRegistry<P> {
    /// Applies the plugins to the report of every transition of a timeline.
    pub fn apply_timeline_report(&self, report: &mut TimelineReport)
        ensures
            final(report).transitions@.len() == old(report).transitions@.len(),
            forall|t: int|
                0 <= t < old(report).transitions@.len() ==> {
                    let a = (#[trigger] final(report).transitions@[t]);
                    let b = old(report).transitions@[t];
                    &&& a.older_timestamp == b.older_timestamp
                    &&& a.newer_timestamp == b.newer_timestamp
                    &&& report_applied(self.plugins(), b.report, a.report)
                },
            final(report).target == old(report).target,
            final(report).snapshot_count == old(report).snapshot_count,
            final(report).transition_count == old(report).transition_count,
            final(report).executive == old(report).executive,
    {
        let ghost olds = report.transitions@;
        let mut rest: Vec<TimelineTransition> = Vec::new();
        std::mem::swap(&mut rest, &mut report.transitions);
        let mut out: Vec<TimelineTransition> = Vec::new();
        let n = rest.len();
        let mut i: usize = 0;
        while rest.len() > 0
            invariant
                n == olds.len(),
                i + rest@.len() == n,
                out@.len() == i,
                rest@ == olds.skip(i as int),
                forall|t: int|
                    0 <= t < i ==> {
                        let a = (#[trigger] out@[t]);
                        let b = olds[t];
                        &&& a.older_timestamp == b.older_timestamp
                        &&& a.newer_timestamp == b.newer_timestamp
                        &&& report_applied(self.plugins(), b.report, a.report)
                    },
            decreases rest.len(),
        {
            let ghost old_rest = rest@;
            let mut tr = rest.remove(0);
            assert(tr == olds[i as int]) by {
                assert(olds.skip(i as int)[0] == olds[i as int]);
            }
            assert(rest@ =~= olds.skip(i + 1)) by {
                assert forall|j: int| 0 <= j < rest@.len() implies rest@[j] == olds.skip(i + 1)[j] by {
                    assert(rest@[j] == old_rest[j + 1]);
                }
            }
            self.apply_drift_report(&mut tr.report);
            out.push(tr);
            i = i + 1;
        }
        report.transitions = out;
    }
}

} // verus!
