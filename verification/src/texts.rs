//! The human-readable texts of the diff, drift and timeline reports, one
//! line per element, as the command line prints them.
use vstd::prelude::*;
use crate::correlation::{utc_display, utc_display_text};
use crate::diff::DiffReport;
use crate::drift::{
    asset_type_name, criticality_name, environment_name, finding_state_name, findings_view,
    severity_name, DriftFinding, FindingV,
};
use crate::report::{groups_view, DriftReport, GroupV};
use crate::risk::{risk_severity_name, RiskItem, RiskReport};
use crate::summary::{AlertEvent, SummaryReport, SummaryResourceHotspot};
use crate::timeline::{CategoryAggregate, ResourceAggregate, TimelineReport, TimelineTransition};
use crate::text::{decimal, decimal_text, lemma_strings_view_push, owned, push_str, strings_view};

verus! {

/// A label followed by a text.
fn labeled(label: &str, value: &str) -> (r: String)
    ensures
        r@ == label@ + value@,
{
    let mut s = owned(label);
    push_str(&mut s, value);
    s
}

/// A label followed by the decimal text of a number.
fn counted(label: &str, n: u64) -> (r: String)
    ensures
        r@ == label@ + decimal(n as nat),
{
    let d = decimal_text(n);
    labeled(label, d.as_str())
}

/// Adds a line at the end.
fn push_line(lines: &mut Vec<String>, s: String)
    ensures
        strings_view(final(lines)@) == strings_view(old(lines)@).push(s@),
{
    proof {
        lemma_strings_view_push(lines@, s);
    }
    lines.push(s);
}

/// The lines that describe a diff: the target and both snapshot times, the
/// number of each kind of change, and a closing remark when nothing changed.
pub open spec fn diff_report_text(d: DiffReport) -> Seq<Seq<char>> {
    seq![
        "Target: "@ + d.target@,
        "Snapshot anterior: "@ + utc_display(d.older_timestamp),
        "Snapshot actual:   "@ + utc_display(d.newer_timestamp),
        ""@,
        "Resumen:"@,
        "  - IPs nuevas: "@ + decimal(d.new_ips@.len()),
        "  - IPs removidas: "@ + decimal(d.removed_ips@.len()),
        "  - Subdominios nuevos: "@ + decimal(d.new_subdomains@.len()),
        "  - Subdominios removidos: "@ + decimal(d.removed_subdomains@.len()),
        "  - Servicios nuevos: "@ + decimal(d.new_services@.len()),
        "  - Servicios removidos: "@ + decimal(d.removed_services@.len()),
        "  - Servicios modificados: "@ + decimal(d.changed_services@.len()),
    ] + if d.new_ips@.len() == 0 && d.removed_ips@.len() == 0 && d.new_subdomains@.len() == 0
        && d.removed_subdomains@.len() == 0 && d.new_services@.len() == 0
        && d.removed_services@.len() == 0 && d.changed_services@.len() == 0 {
        seq![""@, "No se detectaron cambios entre snapshots."@]
    } else {
        Seq::empty()
    }
}

/// The human-readable text of a diff, line by line.
pub fn diff_report_lines(d: &DiffReport) -> (r: Vec<String>)
    ensures
        strings_view(r@) == diff_report_text(*d),
{
    let mut lines: Vec<String> = Vec::new();
    push_line(&mut lines, labeled("Target: ", d.target.as_str()));
    let older = utc_display_text(d.older_timestamp);
    push_line(&mut lines, labeled("Snapshot anterior: ", older.as_str()));
    let newer = utc_display_text(d.newer_timestamp);
    push_line(&mut lines, labeled("Snapshot actual:   ", newer.as_str()));
    push_line(&mut lines, owned(""));
    push_line(&mut lines, owned("Resumen:"));
    push_line(&mut lines, counted("  - IPs nuevas: ", d.new_ips.len() as u64));
    push_line(&mut lines, counted("  - IPs removidas: ", d.removed_ips.len() as u64));
    push_line(&mut lines, counted("  - Subdominios nuevos: ", d.new_subdomains.len() as u64));
    push_line(&mut lines, counted("  - Subdominios removidos: ", d.removed_subdomains.len() as u64));
    push_line(&mut lines, counted("  - Servicios nuevos: ", d.new_services.len() as u64));
    push_line(&mut lines, counted("  - Servicios removidos: ", d.removed_services.len() as u64));
    push_line(&mut lines, counted("  - Servicios modificados: ", d.changed_services.len() as u64));
    if !d.has_changes() {
        push_line(&mut lines, owned(""));
        push_line(&mut lines, owned("No se detectaron cambios entre snapshots."));
    }
    assert(strings_view(lines@) =~= diff_report_text(*d));
    lines
}

/// The texts joined, with `sep` between consecutive ones.
pub open spec fn joined(parts: Seq<Seq<char>>, sep: Seq<char>) -> Seq<char>
    decreases parts.len(),
{
    if parts.len() == 0 {
        Seq::empty()
    } else if parts.len() == 1 {
        parts[0]
    } else {
        joined(parts.drop_last(), sep) + sep + parts.last()
    }
}

/// The texts joined, with `sep` between consecutive ones.
pub fn join_with(parts: &Vec<String>, sep: &str) -> (r: String)
    ensures
        r@ == joined(strings_view(parts@), sep@),
{
    let ghost pv = strings_view(parts@);
    let mut s = String::new();
    let mut i: usize = 0;
    assert(pv.take(0) =~= Seq::<Seq<char>>::empty());
    while i < parts.len()
        invariant
            i <= parts@.len(),
            pv == strings_view(parts@),
            s@ == joined(pv.take(i as int), sep@),
        decreases parts.len() - i,
    {
        assert(pv.take(i + 1).drop_last() =~= pv.take(i as int));
        assert(pv[i as int] == parts@[i as int]@);
        if i > 0 {
            push_str(&mut s, sep);
        } else {
            assert(s@ =~= Seq::<char>::empty());
        }
        push_str(&mut s, parts[i].as_str());
        proof {
            if i == 0 {
                assert(pv.take(1)[0] == pv[0]);
                assert(s@ =~= pv.take(1)[0]);
            }
        }
        i = i + 1;
    }
    assert(pv.take(parts@.len() as int) =~= pv);
    s
}

/// The lines of one finding: its title and attributes, its tags when it
/// has any, and its description.
pub open spec fn finding_text(f: FindingV) -> Seq<Seq<char>> {
    seq![
        "      ["@ + f.title + "] id="@ + f.finding_id + " | categoría="@ + f.category + " | tipo="@
            + asset_type_name(f.asset_type) + " | entorno="@ + environment_name(f.environment)
            + " | criticidad="@ + criticality_name(f.criticality) + " | estado="@
            + finding_state_name(f.state) + " | score="@ + decimal(f.score as nat),
    ] + if f.tags.len() > 0 {
        seq!["          tags: "@ + joined(f.tags, ", "@)]
    } else {
        Seq::empty()
    } + seq!["          "@ + f.description]
}

/// The lines of the findings, in order.
pub open spec fn findings_text(fs: Seq<FindingV>) -> Seq<Seq<char>>
    decreases fs.len(),
{
    if fs.len() == 0 {
        Seq::empty()
    } else {
        findings_text(fs.drop_last()) + finding_text(fs.last())
    }
}

/// The lines of a group: the resource with its highest severity and
/// criticality and total score, then its findings.
pub open spec fn group_text(g: GroupV) -> Seq<Seq<char>> {
    seq![
        "  - recurso="@ + g.resource + " | severidad="@ + severity_name(g.highest_severity)
            + " | criticidad="@ + criticality_name(g.highest_criticality) + " | score="@
            + decimal(g.total_score as nat),
    ] + findings_text(g.findings)
}

/// The lines of the groups, in order.
pub open spec fn groups_text(gs: Seq<GroupV>) -> Seq<Seq<char>>
    decreases gs.len(),
{
    if gs.len() == 0 {
        Seq::empty()
    } else {
        groups_text(gs.drop_last()) + group_text(gs.last())
    }
}

/// The lines that describe a drift report: the target and snapshot times,
/// the number of findings, the counts by severity, the total score, the
/// overall severity and the findings on critical assets, the counts by
/// state, the suppressed findings when there are any, and then either the
/// findings grouped by resource or a remark that there are none.
pub open spec fn drift_report_text(r: DriftReport) -> Seq<Seq<char>> {
    let s = r.summary;
    seq![
        "Target: "@ + r.target@,
        "Snapshot anterior: "@ + utc_display(r.older_timestamp),
        "Snapshot actual:   "@ + utc_display(r.newer_timestamp),
        "Hallazgos: "@ + decimal(r.findings@.len()),
        ""@,
        "Resumen por severidad:"@,
        "  - High: "@ + decimal(s.high as nat),
        "  - Medium: "@ + decimal(s.medium as nat),
        "  - Low: "@ + decimal(s.low as nat),
        "  - Info: "@ + decimal(s.info as nat),
        ""@,
        "Score total: "@ + decimal(s.total_score as nat),
        "Severidad global: "@ + severity_name(s.overall_severity),
        "Hallazgos sobre activos críticos: "@ + decimal(s.critical_findings as nat),
        ""@,
        "Estados de hallazgo:"@,
        "  - New: "@ + decimal(s.states.new as nat),
        "  - Recurring: "@ + decimal(s.states.recurring as nat),
        "  - Persistent: "@ + decimal(s.states.persistent as nat),
        "  - Suppressed: "@ + decimal(s.states.suppressed as nat),
        "  - Resolved: "@ + decimal(s.states.resolved as nat),
    ] + (if r.suppressed_findings@.len() > 0 {
        seq![""@, "Hallazgos suprimidos por baseline/policy: "@ + decimal(r.suppressed_findings@.len())]
    } else {
        Seq::empty()
    }) + if r.findings@.len() == 0 {
        seq![""@, "No se detectaron hallazgos de Security Drift."@]
    } else {
        seq![""@, "Hallazgos agrupados por recurso:"@] + groups_text(groups_view(r.groups@))
    }
}

/// Adds the lines of a finding.
fn push_finding(lines: &mut Vec<String>, f: &DriftFinding)
    ensures
        strings_view(final(lines)@) == strings_view(old(lines)@) + finding_text(f@),
{
    let ghost before = strings_view(lines@);
    let mut h = owned("      [");
    push_str(&mut h, f.title.as_str());
    push_str(&mut h, "] id=");
    push_str(&mut h, f.finding_id.as_str());
    push_str(&mut h, " | categoría=");
    push_str(&mut h, f.category.as_str());
    push_str(&mut h, " | tipo=");
    push_str(&mut h, f.asset_type.as_str());
    push_str(&mut h, " | entorno=");
    push_str(&mut h, f.environment.as_str());
    push_str(&mut h, " | criticidad=");
    push_str(&mut h, f.criticality.as_str());
    push_str(&mut h, " | estado=");
    push_str(&mut h, f.state.as_str());
    let sc = decimal_text(f.score as u64);
    push_str(&mut h, " | score=");
    push_str(&mut h, sc.as_str());
    push_line(lines, h);
    let ghost after_head = strings_view(lines@);
    if f.tags.len() > 0 {
        let t = join_with(&f.tags, ", ");
        push_line(lines, labeled("          tags: ", t.as_str()));
    }
    let ghost after_tags = strings_view(lines@);
    push_line(lines, labeled("          ", f.description.as_str()));
    assert(strings_view(lines@) =~= before + finding_text(f@));
}

/// Adds the lines of a group.
fn push_group(lines: &mut Vec<String>, g: &crate::drift::DriftGroup)
    ensures
        strings_view(final(lines)@) == strings_view(old(lines)@) + group_text(g@),
{
    let ghost before = strings_view(lines@);
    let mut h = owned("  - recurso=");
    push_str(&mut h, g.resource.as_str());
    push_str(&mut h, " | severidad=");
    push_str(&mut h, g.highest_severity.as_str());
    push_str(&mut h, " | criticidad=");
    push_str(&mut h, g.highest_criticality.as_str());
    let sc = decimal_text(g.total_score as u64);
    push_str(&mut h, " | score=");
    push_str(&mut h, sc.as_str());
    push_line(lines, h);
    let ghost start = strings_view(lines@);
    let ghost fv = findings_view(g.findings@);
    let mut i: usize = 0;
    assert(fv.take(0) =~= Seq::<FindingV>::empty());
    assert(start =~= start + findings_text(fv.take(0)));
    while i < g.findings.len()
        invariant
            i <= g.findings@.len(),
            fv == findings_view(g.findings@),
            strings_view(lines@) == start + findings_text(fv.take(i as int)),
        decreases g.findings.len() - i,
    {
        assert(fv.take(i + 1).drop_last() =~= fv.take(i as int));
        assert(fv[i as int] == g.findings@[i as int]@);
        push_finding(lines, &g.findings[i]);
        assert(strings_view(lines@) =~= start + findings_text(fv.take(i + 1)));
        i = i + 1;
    }
    assert(fv.take(g.findings@.len() as int) =~= fv);
    assert(g@.findings == fv);
    assert(strings_view(lines@) =~= before + group_text(g@));
}

/// The human-readable text of a drift report, line by line.
pub fn drift_report_lines(r: &DriftReport) -> (out: Vec<String>)
    ensures
        strings_view(out@) == drift_report_text(*r),
{
    let s = &r.summary;
    let mut lines: Vec<String> = Vec::new();
    push_line(&mut lines, labeled("Target: ", r.target.as_str()));
    let older = utc_display_text(r.older_timestamp);
    push_line(&mut lines, labeled("Snapshot anterior: ", older.as_str()));
    let newer = utc_display_text(r.newer_timestamp);
    push_line(&mut lines, labeled("Snapshot actual:   ", newer.as_str()));
    push_line(&mut lines, counted("Hallazgos: ", r.findings.len() as u64));
    push_line(&mut lines, owned(""));
    push_line(&mut lines, owned("Resumen por severidad:"));
    push_line(&mut lines, counted("  - High: ", s.high as u64));
    push_line(&mut lines, counted("  - Medium: ", s.medium as u64));
    push_line(&mut lines, counted("  - Low: ", s.low as u64));
    push_line(&mut lines, counted("  - Info: ", s.info as u64));
    push_line(&mut lines, owned(""));
    push_line(&mut lines, counted("Score total: ", s.total_score as u64));
    push_line(&mut lines, labeled("Severidad global: ", s.overall_severity.as_str()));
    push_line(&mut lines, counted("Hallazgos sobre activos críticos: ", s.critical_findings as u64));
    push_line(&mut lines, owned(""));
    push_line(&mut lines, owned("Estados de hallazgo:"));
    push_line(&mut lines, counted("  - New: ", s.states.new as u64));
    push_line(&mut lines, counted("  - Recurring: ", s.states.recurring as u64));
    push_line(&mut lines, counted("  - Persistent: ", s.states.persistent as u64));
    push_line(&mut lines, counted("  - Suppressed: ", s.states.suppressed as u64));
    push_line(&mut lines, counted("  - Resolved: ", s.states.resolved as u64));
    let ghost head = strings_view(lines@);
    if r.suppressed_findings.len() > 0 {
        push_line(&mut lines, owned(""));
        push_line(
            &mut lines,
            counted("Hallazgos suprimidos por baseline/policy: ", r.suppressed_findings.len() as u64),
        );
    }
    let ghost mid = strings_view(lines@);
    if r.findings.len() == 0 {
        push_line(&mut lines, owned(""));
        push_line(&mut lines, owned("No se detectaron hallazgos de Security Drift."));
        assert(strings_view(lines@) =~= drift_report_text(*r));
        return lines;
    }
    push_line(&mut lines, owned(""));
    push_line(&mut lines, owned("Hallazgos agrupados por recurso:"));
    let ghost start = strings_view(lines@);
    let ghost gv = groups_view(r.groups@);
    let mut i: usize = 0;
    assert(gv.take(0) =~= Seq::<GroupV>::empty());
    assert(start =~= start + groups_text(gv.take(0)));
    while i < r.groups.len()
        invariant
            i <= r.groups@.len(),
            gv == groups_view(r.groups@),
            strings_view(lines@) == start + groups_text(gv.take(i as int)),
        decreases r.groups.len() - i,
    {
        assert(gv.take(i + 1).drop_last() =~= gv.take(i as int));
        assert(gv[i as int] == r.groups@[i as int]@);
        push_group(&mut lines, &r.groups[i]);
        assert(strings_view(lines@) =~= start + groups_text(gv.take(i + 1)));
        i = i + 1;
    }
    assert(gv.take(r.groups@.len() as int) =~= gv);
    assert(strings_view(lines@) =~= drift_report_text(*r));
    lines
}

/// The lines of the resources of highest score.
pub open spec fn resources_text(rs: Seq<ResourceAggregate>) -> Seq<Seq<char>> {
    Seq::new(
        rs.len(),
        |i: int|
            "  - "@ + rs[i].resource@ + " | score="@ + decimal(rs[i].total_score as nat) + " | ocurrencias="@
                + decimal(rs[i].occurrences as nat),
    )
}

/// The lines of the most frequent categories.
pub open spec fn categories_text(cs: Seq<CategoryAggregate>) -> Seq<Seq<char>> {
    Seq::new(
        cs.len(),
        |i: int|
            "  - "@ + cs[i].category@ + " | ocurrencias="@ + decimal(cs[i].occurrences as nat) + " | score="@
                + decimal(cs[i].total_score as nat),
    )
}

/// The lines of the transitions: both snapshot times, the number of
/// findings and the total score.
pub open spec fn transitions_text(ts: Seq<TimelineTransition>) -> Seq<Seq<char>> {
    Seq::new(
        ts.len(),
        |i: int|
            "  - "@ + utc_display(ts[i].older_timestamp) + " -> "@ + utc_display(ts[i].newer_timestamp)
                + " | hallazgos="@ + decimal(ts[i].report.findings@.len()) + " | score="@
                + decimal(ts[i].report.summary.total_score as nat),
    )
}

/// The lines that describe a timeline: the target and counts, the
/// executive summary, then the resources of highest score, the most
/// frequent categories and the transitions, each section when it has lines.
pub open spec fn timeline_report_text(r: TimelineReport) -> Seq<Seq<char>> {
    let e = r.executive;
    seq![
        "Target: "@ + r.target@,
        "Snapshots procesados: "@ + decimal(r.snapshot_count as nat),
        "Transiciones analizadas: "@ + decimal(r.transition_count as nat),
        ""@,
        "Resumen ejecutivo:"@,
        "  - Score acumulado: "@ + decimal(e.total_score as nat),
        "  - Severidad global: "@ + severity_name(e.overall_severity),
        "  - Hallazgos acumulados: "@ + decimal(e.total_findings as nat),
        "  - Recursos únicos afectados: "@ + decimal(e.unique_resources as nat),
        "  - Hallazgos sobre activos críticos: "@ + decimal(e.critical_findings as nat),
        "  - Hallazgos recurrentes: "@ + decimal(e.recurring_findings as nat),
        "  - Hallazgos persistentes: "@ + decimal(e.persistent_findings as nat),
    ] + (if e.top_resources@.len() > 0 {
        seq![""@, "Recursos más problemáticos:"@] + resources_text(e.top_resources@)
    } else {
        Seq::empty()
    }) + (if e.top_categories@.len() > 0 {
        seq![""@, "Categorías más frecuentes:"@] + categories_text(e.top_categories@)
    } else {
        Seq::empty()
    }) + if r.transitions@.len() > 0 {
        seq![""@, "Transiciones:"@] + transitions_text(r.transitions@)
    } else {
        Seq::empty()
    }
}

/// The human-readable text of a timeline, line by line.
pub fn timeline_report_lines(r: &TimelineReport) -> (out: Vec<String>)
    ensures
        strings_view(out@) == timeline_report_text(*r),
{
    let e = &r.executive;
    let mut lines: Vec<String> = Vec::new();
    push_line(&mut lines, labeled("Target: ", r.target.as_str()));
    push_line(&mut lines, counted("Snapshots procesados: ", r.snapshot_count as u64));
    push_line(&mut lines, counted("Transiciones analizadas: ", r.transition_count as u64));
    push_line(&mut lines, owned(""));
    push_line(&mut lines, owned("Resumen ejecutivo:"));
    push_line(&mut lines, counted("  - Score acumulado: ", e.total_score as u64));
    push_line(&mut lines, labeled("  - Severidad global: ", e.overall_severity.as_str()));
    push_line(&mut lines, counted("  - Hallazgos acumulados: ", e.total_findings as u64));
    push_line(&mut lines, counted("  - Recursos únicos afectados: ", e.unique_resources as u64));
    push_line(&mut lines, counted("  - Hallazgos sobre activos críticos: ", e.critical_findings as u64));
    push_line(&mut lines, counted("  - Hallazgos recurrentes: ", e.recurring_findings as u64));
    push_line(&mut lines, counted("  - Hallazgos persistentes: ", e.persistent_findings as u64));
    let ghost part1 = strings_view(lines@);
    if e.top_resources.len() > 0 {
        push_line(&mut lines, owned(""));
        push_line(&mut lines, owned("Recursos más problemáticos:"));
        let ghost start = strings_view(lines@);
        let ghost rs = e.top_resources@;
        let mut i: usize = 0;
        while i < e.top_resources.len()
            invariant
                i <= rs.len(),
                rs == e.top_resources@,
                strings_view(lines@) == start + resources_text(rs).take(i as int),
            decreases rs.len() - i,
        {
            let a = &e.top_resources[i];
            let mut l = owned("  - ");
            push_str(&mut l, a.resource.as_str());
            let sc = decimal_text(a.total_score as u64);
            push_str(&mut l, " | score=");
            push_str(&mut l, sc.as_str());
            let oc = decimal_text(a.occurrences as u64);
            push_str(&mut l, " | ocurrencias=");
            push_str(&mut l, oc.as_str());
            push_line(&mut lines, l);
            assert(resources_text(rs).take(i + 1) =~= resources_text(rs).take(i as int).push(l@));
            i = i + 1;
        }
        assert(resources_text(rs).take(rs.len() as int) =~= resources_text(rs));
    }
    let ghost part2 = strings_view(lines@);
    if e.top_categories.len() > 0 {
        push_line(&mut lines, owned(""));
        push_line(&mut lines, owned("Categorías más frecuentes:"));
        let ghost start = strings_view(lines@);
        let ghost cs = e.top_categories@;
        let mut i: usize = 0;
        while i < e.top_categories.len()
            invariant
                i <= cs.len(),
                cs == e.top_categories@,
                strings_view(lines@) == start + categories_text(cs).take(i as int),
            decreases cs.len() - i,
        {
            let a = &e.top_categories[i];
            let mut l = owned("  - ");
            push_str(&mut l, a.category.as_str());
            let oc = decimal_text(a.occurrences as u64);
            push_str(&mut l, " | ocurrencias=");
            push_str(&mut l, oc.as_str());
            let sc = decimal_text(a.total_score as u64);
            push_str(&mut l, " | score=");
            push_str(&mut l, sc.as_str());
            push_line(&mut lines, l);
            assert(categories_text(cs).take(i + 1) =~= categories_text(cs).take(i as int).push(l@));
            i = i + 1;
        }
        assert(categories_text(cs).take(cs.len() as int) =~= categories_text(cs));
    }
    let ghost part3 = strings_view(lines@);
    if r.transitions.len() > 0 {
        push_line(&mut lines, owned(""));
        push_line(&mut lines, owned("Transiciones:"));
        let ghost start = strings_view(lines@);
        let ghost ts = r.transitions@;
        let mut i: usize = 0;
        while i < r.transitions.len()
            invariant
                i <= ts.len(),
                ts == r.transitions@,
                strings_view(lines@) == start + transitions_text(ts).take(i as int),
            decreases ts.len() - i,
        {
            let t = &r.transitions[i];
            let mut l = owned("  - ");
            let a = utc_display_text(t.older_timestamp);
            push_str(&mut l, a.as_str());
            push_str(&mut l, " -> ");
            let b = utc_display_text(t.newer_timestamp);
            push_str(&mut l, b.as_str());
            let n = decimal_text(t.report.findings.len() as u64);
            push_str(&mut l, " | hallazgos=");
            push_str(&mut l, n.as_str());
            let sc = decimal_text(t.report.summary.total_score as u64);
            push_str(&mut l, " | score=");
            push_str(&mut l, sc.as_str());
            push_line(&mut lines, l);
            assert(transitions_text(ts).take(i + 1) =~= transitions_text(ts).take(i as int).push(l@));
            i = i + 1;
        }
        assert(transitions_text(ts).take(ts.len() as int) =~= transitions_text(ts));
    }
    assert(strings_view(lines@) =~= timeline_report_text(*r));
    lines
}

/// The lines of one of the top risks: severity, title, resource and score,
/// then its kind, description and recommendation, and its evidence when it
/// has any.
pub open spec fn risk_text(r: RiskItem) -> Seq<Seq<char>> {
    seq![
        "  - ["@ + risk_severity_name(r.severity) + "] "@ + r.title@ + " | resource="@ + r.resource@
            + " | score="@ + decimal(r.score as nat),
        "      kind="@ + r.kind@,
        "      description="@ + r.description@,
        "      recommendation="@ + r.recommendation@,
    ] + if r.evidence@.len() > 0 {
        seq!["      evidence="@ + joined(strings_view(r.evidence@), ", "@)]
    } else {
        Seq::empty()
    }
}

/// The lines of the top risks, in order.
pub open spec fn risks_text(rs: Seq<RiskItem>) -> Seq<Seq<char>>
    decreases rs.len(),
{
    if rs.len() == 0 {
        Seq::empty()
    } else {
        risks_text(rs.drop_last()) + risk_text(rs.last())
    }
}

/// The lines that describe a risk report: the target, its time, the number
/// of risks and their total score, the counts by severity, and then either
/// the top risks or a remark that there are none.
pub open spec fn risk_report_text(r: RiskReport) -> Seq<Seq<char>> {
    seq![
        "Target: "@ + r.target@,
        "Generated at: "@ + utc_display(r.generated_at),
        "Total risks: "@ + decimal(r.total_risks as nat),
        "Total score: "@ + decimal(r.total_score as nat),
        ""@,
        "By severity:"@,
        "  - Critical: "@ + decimal(r.critical as nat),
        "  - High: "@ + decimal(r.high as nat),
        "  - Medium: "@ + decimal(r.medium as nat),
        "  - Low: "@ + decimal(r.low as nat),
    ] + if r.risks@.len() == 0 {
        seq![""@, "No se detectaron riesgos priorizados."@]
    } else {
        seq![""@, "Top risks:"@] + risks_text(r.top_risks@)
    }
}

fn push_risk(lines: &mut Vec<String>, r: &RiskItem)
    ensures
        strings_view(final(lines)@) == strings_view(old(lines)@) + risk_text(*r),
{
    let ghost before = strings_view(lines@);
    let mut h = owned("  - [");
    push_str(&mut h, r.severity.as_str());
    push_str(&mut h, "] ");
    push_str(&mut h, r.title.as_str());
    push_str(&mut h, " | resource=");
    push_str(&mut h, r.resource.as_str());
    let sc = decimal_text(r.score as u64);
    push_str(&mut h, " | score=");
    push_str(&mut h, sc.as_str());
    push_line(lines, h);
    push_line(lines, labeled("      kind=", r.kind.as_str()));
    push_line(lines, labeled("      description=", r.description.as_str()));
    push_line(lines, labeled("      recommendation=", r.recommendation.as_str()));
    if r.evidence.len() > 0 {
        let e = join_with(&r.evidence, ", ");
        push_line(lines, labeled("      evidence=", e.as_str()));
    }
    assert(strings_view(lines@) =~= before + risk_text(*r));
}

/// The human-readable text of a risk report, line by line.
pub fn risk_report_lines(r: &RiskReport) -> (out: Vec<String>)
    ensures
        strings_view(out@) == risk_report_text(*r),
{
    let mut lines: Vec<String> = Vec::new();
    push_line(&mut lines, labeled("Target: ", r.target.as_str()));
    let g = utc_display_text(r.generated_at);
    push_line(&mut lines, labeled("Generated at: ", g.as_str()));
    push_line(&mut lines, counted("Total risks: ", r.total_risks as u64));
    push_line(&mut lines, counted("Total score: ", r.total_score as u64));
    push_line(&mut lines, owned(""));
    push_line(&mut lines, owned("By severity:"));
    push_line(&mut lines, counted("  - Critical: ", r.critical as u64));
    push_line(&mut lines, counted("  - High: ", r.high as u64));
    push_line(&mut lines, counted("  - Medium: ", r.medium as u64));
    push_line(&mut lines, counted("  - Low: ", r.low as u64));
    if r.risks.len() == 0 {
        push_line(&mut lines, owned(""));
        push_line(&mut lines, owned("No se detectaron riesgos priorizados."));
        assert(strings_view(lines@) =~= risk_report_text(*r));
        return lines;
    }
    push_line(&mut lines, owned(""));
    push_line(&mut lines, owned("Top risks:"));
    let ghost start = strings_view(lines@);
    let ghost rs = r.top_risks@;
    let mut i: usize = 0;
    assert(rs.take(0) =~= Seq::<RiskItem>::empty());
    assert(start =~= start + risks_text(rs.take(0)));
    while i < r.top_risks.len()
        invariant
            i <= rs.len(),
            rs == r.top_risks@,
            strings_view(lines@) == start + risks_text(rs.take(i as int)),
        decreases rs.len() - i,
    {
        assert(rs.take(i + 1).drop_last() =~= rs.take(i as int));
        push_risk(&mut lines, &r.top_risks[i]);
        assert(strings_view(lines@) =~= start + risks_text(rs.take(i + 1)));
        i = i + 1;
    }
    assert(rs.take(rs.len() as int) =~= rs);
    assert(strings_view(lines@) =~= risk_report_text(*r));
    lines
}

/// The lines of the drift's top resources.
pub open spec fn hotspots_text(hs: Seq<SummaryResourceHotspot>) -> Seq<Seq<char>> {
    Seq::new(
        hs.len(),
        |i: int|
            "      "@ + hs[i].resource@ + " | occurrences="@ + decimal(hs[i].occurrences as nat) + " | score="@
                + decimal(hs[i].total_score as nat),
    )
}

/// Each text as a line with a prefix.
pub open spec fn prefixed(prefix: Seq<char>, xs: Seq<Seq<char>>) -> Seq<Seq<char>> {
    Seq::new(xs.len(), |i: int| prefix + xs[i])
}

/// The opening lines of a summary: target, time, snapshots, latest one.
pub open spec fn summary_head_text(r: SummaryReport) -> Seq<Seq<char>> {
    seq![
        "Target: "@ + r.target@,
        "Generated at: "@ + utc_display(r.generated_at),
        "Snapshots: "@ + decimal(r.snapshot_count as nat),
    ] + match r.latest_snapshot_at {
        Some(t) => seq!["Latest snapshot: "@ + utc_display(t)],
        None => Seq::empty(),
    }
}

/// The assets and exposure lines of a summary.
pub open spec fn summary_counts_text(r: SummaryReport) -> Seq<Seq<char>> {
    seq![
        ""@,
        "Assets:"@,
        "  - Subdomains: "@ + decimal(r.assets.subdomains as nat),
        "  - IPs: "@ + decimal(r.assets.ips as nat),
        "  - Services: "@ + decimal(r.assets.services as nat),
        "  - Technologies: "@ + decimal(r.assets.technologies as nat),
        "  - Episodes: "@ + decimal(r.assets.episodes as nat),
        ""@,
        "Exposure:"@,
        "  - Critical risks: "@ + decimal(r.exposure.critical_risks as nat),
        "  - High risks: "@ + decimal(r.exposure.high_risks as nat),
        "  - Medium risks: "@ + decimal(r.exposure.medium_risks as nat),
        "  - Low risks: "@ + decimal(r.exposure.low_risks as nat),
        "  - Total risk score: "@ + decimal(r.exposure.total_risk_score as nat),
    ]
}

/// The drift lines of a summary, when it has a drift part.
pub open spec fn summary_drift_text(r: SummaryReport) -> Seq<Seq<char>> {
    match r.drift {
        Some(d) => seq![
            ""@,
            "Drift:"@,
            "  - Total findings: "@ + decimal(d.total_findings as nat),
            "  - Critical findings: "@ + decimal(d.critical_findings as nat),
            "  - Recurring findings: "@ + decimal(d.recurring_findings as nat),
            "  - Persistent findings: "@ + decimal(d.persistent_findings as nat),
        ] + if d.top_resources@.len() > 0 {
            seq!["  - Top resources:"@] + hotspots_text(d.top_resources@)
        } else {
            Seq::empty()
        },
        None => Seq::empty(),
    }
}

/// The graph lines of a summary.
pub open spec fn summary_graph_text(r: SummaryReport) -> Seq<Seq<char>> {
    seq![
        ""@,
        "Graph:"@,
        "  - Nodes: "@ + decimal(r.graph.node_count as nat),
        "  - Edges: "@ + decimal(r.graph.edge_count as nat),
        "  - Connected nodes: "@ + decimal(r.graph.connected_nodes as nat),
        "  - Isolated nodes: "@ + decimal(r.graph.isolated_nodes as nat),
        "  - Max degree: "@ + decimal(r.graph.max_degree as nat),
    ] + if r.graph.hubs@.len() > 0 {
        seq!["  - Hubs:"@] + prefixed("      "@, strings_view(r.graph.hubs@))
    } else {
        Seq::empty()
    }
}

/// The recommendation lines of a summary, when it has any.
pub open spec fn summary_advice_text(r: SummaryReport) -> Seq<Seq<char>> {
    if r.recommendations@.len() > 0 {
        seq![""@, "Recommendations:"@] + prefixed("  - "@, strings_view(r.recommendations@))
    } else {
        Seq::empty()
    }
}

/// The lines that describe a summary report: the target, its time, the
/// snapshots and the latest one, the assets, the exposure, the drift when
/// there is a timeline, the graph with its hubs, and the recommendations.
pub open spec fn summary_report_text(r: SummaryReport) -> Seq<Seq<char>> {
    summary_head_text(r) + summary_counts_text(r) + summary_drift_text(r) + summary_graph_text(r)
        + summary_advice_text(r)
}

/// Adds each text as a line with a prefix.
fn push_prefixed(lines: &mut Vec<String>, prefix: &str, xs: &Vec<String>)
    ensures
        strings_view(final(lines)@) == strings_view(old(lines)@) + prefixed(prefix@, strings_view(xs@)),
{
    let ghost start = strings_view(lines@);
    let ghost want = prefixed(prefix@, strings_view(xs@));
    let mut i: usize = 0;
    while i < xs.len()
        invariant
            i <= xs@.len(),
            want == prefixed(prefix@, strings_view(xs@)),
            strings_view(lines@) == start + want.take(i as int),
        decreases xs.len() - i,
    {
        let l = labeled(prefix, xs[i].as_str());
        push_line(lines, l);
        assert(want.take(i + 1) =~= want.take(i as int).push(l@));
        i = i + 1;
    }
    assert(want.take(xs@.len() as int) =~= want);
}

fn push_summary_head(lines: &mut Vec<String>, r: &SummaryReport)
    ensures
        strings_view(final(lines)@) == strings_view(old(lines)@) + summary_head_text(*r),
{
    let ghost before = strings_view(lines@);
    push_line(lines, labeled("Target: ", r.target.as_str()));
    let g = utc_display_text(r.generated_at);
    push_line(lines, labeled("Generated at: ", g.as_str()));
    push_line(lines, counted("Snapshots: ", r.snapshot_count as u64));
    if let Some(t) = r.latest_snapshot_at {
        let l = utc_display_text(t);
        push_line(lines, labeled("Latest snapshot: ", l.as_str()));
    }
    assert(strings_view(lines@) =~= before + summary_head_text(*r));
}

fn push_summary_counts(lines: &mut Vec<String>, r: &SummaryReport)
    ensures
        strings_view(final(lines)@) == strings_view(old(lines)@) + summary_counts_text(*r),
{
    let ghost before = strings_view(lines@);
    push_line(lines, owned(""));
    push_line(lines, owned("Assets:"));
    push_line(lines, counted("  - Subdomains: ", r.assets.subdomains as u64));
    push_line(lines, counted("  - IPs: ", r.assets.ips as u64));
    push_line(lines, counted("  - Services: ", r.assets.services as u64));
    push_line(lines, counted("  - Technologies: ", r.assets.technologies as u64));
    push_line(lines, counted("  - Episodes: ", r.assets.episodes as u64));
    push_line(lines, owned(""));
    push_line(lines, owned("Exposure:"));
    push_line(lines, counted("  - Critical risks: ", r.exposure.critical_risks as u64));
    push_line(lines, counted("  - High risks: ", r.exposure.high_risks as u64));
    push_line(lines, counted("  - Medium risks: ", r.exposure.medium_risks as u64));
    push_line(lines, counted("  - Low risks: ", r.exposure.low_risks as u64));
    push_line(lines, counted("  - Total risk score: ", r.exposure.total_risk_score as u64));
    assert(strings_view(lines@) =~= before + summary_counts_text(*r));
}

fn push_summary_drift(lines: &mut Vec<String>, r: &SummaryReport)
    ensures
        strings_view(final(lines)@) == strings_view(old(lines)@) + summary_drift_text(*r),
{
    let ghost before = strings_view(lines@);
    if let Some(d) = &r.drift {
        push_line(lines, owned(""));
        push_line(lines, owned("Drift:"));
        push_line(lines, counted("  - Total findings: ", d.total_findings as u64));
        push_line(lines, counted("  - Critical findings: ", d.critical_findings as u64));
        push_line(lines, counted("  - Recurring findings: ", d.recurring_findings as u64));
        push_line(lines, counted("  - Persistent findings: ", d.persistent_findings as u64));
        if d.top_resources.len() > 0 {
            push_line(lines, owned("  - Top resources:"));
            let ghost start = strings_view(lines@);
            let ghost hs = d.top_resources@;
            let mut i: usize = 0;
            while i < d.top_resources.len()
                invariant
                    i <= hs.len(),
                    hs == d.top_resources@,
                    strings_view(lines@) == start + hotspots_text(hs).take(i as int),
                decreases hs.len() - i,
            {
                let h = &d.top_resources[i];
                let mut l = owned("      ");
                push_str(&mut l, h.resource.as_str());
                let oc = decimal_text(h.occurrences as u64);
                push_str(&mut l, " | occurrences=");
                push_str(&mut l, oc.as_str());
                let sc = decimal_text(h.total_score as u64);
                push_str(&mut l, " | score=");
                push_str(&mut l, sc.as_str());
                push_line(lines, l);
                assert(hotspots_text(hs).take(i + 1) =~= hotspots_text(hs).take(i as int).push(l@));
                i = i + 1;
            }
            assert(hotspots_text(hs).take(hs.len() as int) =~= hotspots_text(hs));
        }
    }
    assert(strings_view(lines@) =~= before + summary_drift_text(*r));
}

fn push_summary_graph(lines: &mut Vec<String>, r: &SummaryReport)
    ensures
        strings_view(final(lines)@) == strings_view(old(lines)@) + summary_graph_text(*r),
{
    let ghost before = strings_view(lines@);
    push_line(lines, owned(""));
    push_line(lines, owned("Graph:"));
    push_line(lines, counted("  - Nodes: ", r.graph.node_count as u64));
    push_line(lines, counted("  - Edges: ", r.graph.edge_count as u64));
    push_line(lines, counted("  - Connected nodes: ", r.graph.connected_nodes as u64));
    push_line(lines, counted("  - Isolated nodes: ", r.graph.isolated_nodes as u64));
    push_line(lines, counted("  - Max degree: ", r.graph.max_degree as u64));
    if r.graph.hubs.len() > 0 {
        push_line(lines, owned("  - Hubs:"));
        push_prefixed(lines, "      ", &r.graph.hubs);
    }
    assert(strings_view(lines@) =~= before + summary_graph_text(*r));
}

fn push_summary_advice(lines: &mut Vec<String>, r: &SummaryReport)
    ensures
        strings_view(final(lines)@) == strings_view(old(lines)@) + summary_advice_text(*r),
{
    let ghost before = strings_view(lines@);
    if r.recommendations.len() > 0 {
        push_line(lines, owned(""));
        push_line(lines, owned("Recommendations:"));
        push_prefixed(lines, "  - ", &r.recommendations);
    }
    assert(strings_view(lines@) =~= before + summary_advice_text(*r));
}

/// The human-readable text of a summary report, line by line.
pub fn summary_report_lines(r: &SummaryReport) -> (out: Vec<String>)
    ensures
        strings_view(out@) == summary_report_text(*r),
{
    let mut lines: Vec<String> = Vec::new();
    push_summary_head(&mut lines, r);
    push_summary_counts(&mut lines, r);
    push_summary_drift(&mut lines, r);
    push_summary_graph(&mut lines, r);
    push_summary_advice(&mut lines, r);
    assert(strings_view(lines@) =~= summary_report_text(*r));
    lines
}

/// The line of an alert: its severity, title, resource and message.
pub open spec fn alert_text(a: AlertEvent) -> Seq<char> {
    "  - ["@ + risk_severity_name(a.severity) + "] "@ + a.title@ + " | resource="@ + a.resource@ + " | "@
        + a.message@
}

/// The human-readable line of an alert.
pub fn alert_line(a: &AlertEvent) -> (r: String)
    ensures
        r@ == alert_text(*a),
{
    let mut l = owned("  - [");
    push_str(&mut l, a.severity.as_str());
    push_str(&mut l, "] ");
    push_str(&mut l, a.title.as_str());
    push_str(&mut l, " | resource=");
    push_str(&mut l, a.resource.as_str());
    push_str(&mut l, " | ");
    push_str(&mut l, a.message.as_str());
    l
}

} // verus!
