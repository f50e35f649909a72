//! The summary report of a target (assets, risks, drift, graph and what to do
//! first) and the alerts its most severe risks raise.
use vstd::prelude::*;
use crate::correlation::EpisodeCollection;
use crate::diff::Snapshot;
use crate::graph::{node_kind_name, ExposureGraph, RankedV, ranked_view, nodes_view, edges_view};
use crate::risk::{
    build_risk_report_at, count_severity, opt_episodes, opt_timeline, ranked_risks, risk_total,
    risks_view, RiskItem, RiskReport, RiskSeverity, RiskV,
};
use crate::text::{decimal, decimal_text, lemma_strings_view_push, owned, push_str, strings_view};
use crate::timeline::{AggregateV, TimelineReport, resource_aggs_view};

verus! {

/// How many assets of each kind the graph holds.
#[derive(Debug, Clone, Copy, PartialEq, Eq, Structural)]
pub struct AssetSummary {
    pub subdomains: usize,
    pub ips: usize,
    pub services: usize,
    pub technologies: usize,
    pub episodes: usize,
}

/// How many risks of each severity, and their total score.
#[derive(Debug, Clone, Copy, PartialEq, Eq, Structural)]
pub struct ExposureSummary {
    pub critical_risks: usize,
    pub high_risks: usize,
    pub medium_risks: usize,
    pub low_risks: usize,
    pub total_risk_score: u32,
}

/// A resource that recurs in the drift, with its total score.
#[derive(Debug, Clone)]
pub struct SummaryResourceHotspot {
    pub resource: String,
    pub occurrences: usize,
    pub total_score: u32,
}

impl View for SummaryResourceHotspot {
    type V = AggregateV;

    open spec fn view(&self) -> AggregateV {
        AggregateV { key: self.resource@, occurrences: self.occurrences as nat, total_score: self.total_score as nat }
    }
}

pub open spec fn hotspots_view(v: Seq<SummaryResourceHotspot>) -> Seq<AggregateV> {
    Seq::new(v.len(), |i: int| v[i]@)
}

/// The drift counts of a timeline.
#[derive(Debug, Clone)]
pub struct DriftSummaryView {
    pub total_findings: usize,
    pub critical_findings: usize,
    pub recurring_findings: usize,
    pub persistent_findings: usize,
    pub top_resources: Vec<SummaryResourceHotspot>,
}

/// The shape of the graph, with its hubs named.
#[derive(Debug, Clone)]
pub struct GraphSummaryView {
    pub node_count: usize,
    pub edge_count: usize,
    pub connected_nodes: usize,
    pub isolated_nodes: usize,
    pub max_degree: usize,
    pub hubs: Vec<String>,
}

/// Everything a target's summary says.
#[derive(Debug, Clone)]
pub struct SummaryReport {
    pub target: String,
    pub generated_at: i64,
    pub snapshot_count: usize,
    pub latest_snapshot_at: Option<i64>,
    pub assets: AssetSummary,
    pub exposure: ExposureSummary,
    pub drift: Option<DriftSummaryView>,
    pub graph: GraphSummaryView,
    pub recommendations: Vec<String>,
}

/// An alert about a severe risk.
#[derive(Debug, Clone)]
pub struct AlertEvent {
    pub created_at: i64,
    pub severity: RiskSeverity,
    pub title: String,
    pub resource: String,
    pub message: String,
}

/// How a hub is named: its label and, in brackets, its kind.
pub open spec fn hub_label(n: RankedV) -> Seq<char> {
    n.label + " ["@ + node_kind_name(n.kind) + "]"@
}

/// What the drift part of a summary holds, when there is a timeline.
pub open spec fn drift_ok(d: DriftSummaryView, t: TimelineReport) -> bool {
    let e = t.executive;
    let top = resource_aggs_view(e.top_resources@);
    &&& d.total_findings == e.total_findings
    &&& d.critical_findings == e.critical_findings
    &&& d.recurring_findings == e.recurring_findings
    &&& d.persistent_findings == e.persistent_findings
    &&& hotspots_view(d.top_resources@) == if top.len() > 5 {
        top.take(5)
    } else {
        top
    }
}

/// What the graph part of a summary holds.
pub open spec fn graph_summary_ok(v: GraphSummaryView, g: ExposureGraph) -> bool {
    let hubs = ranked_view(g.topology.highest_degree_nodes@);
    &&& v.node_count == g.node_count
    &&& v.edge_count == g.edge_count
    &&& v.connected_nodes == g.topology.connected_nodes
    &&& v.isolated_nodes == g.topology.isolated_nodes
    &&& v.max_degree == g.topology.max_degree
    &&& strings_view(v.hubs@) == Seq::new(hubs.len(), |i: int| hub_label(hubs[i]))
}

/// The advice of a summary: the first risk to look at, then one line for
/// critical risks, persistent drift, recurring drift and a graph hub of
/// degree eight or more, each when it applies; a reassurance when none does.
pub open spec fn summary_recommendations(
    top: Seq<RiskV>,
    critical: usize,
    persistent: Option<usize>,
    recurring: Option<usize>,
    max_degree: usize,
) -> Seq<Seq<char>> {
    let first = if top.len() > 0 {
        seq![
            "Investigar primero '"@ + top[0].title + "' sobre "@ + top[0].resource + " (score "@
                + decimal(top[0].score as nat) + ")."@,
        ]
    } else {
        Seq::empty()
    };
    let crit = if critical > 0 {
        seq!["Existen riesgos críticos; conviene activar remediación inmediata y validación manual."@]
    } else {
        Seq::empty()
    };
    let pers = if persistent matches Some(p) && p > 0 {
        seq!["Hay drift persistente; priorizar recursos reincidentes y revisar ownership."@]
    } else {
        Seq::empty()
    };
    let rec = if recurring matches Some(r) && r > 0 {
        seq!["Los hallazgos recurrentes sugieren cambios operativos frecuentes en superficie expuesta."@]
    } else {
        Seq::empty()
    };
    let hubs = if max_degree >= 8 {
        seq!["Los hubs del grafo deben revisarse primero por su concentración de relaciones."@]
    } else {
        Seq::empty()
    };
    let items = first + crit + pers + rec + hubs;
    if items.len() == 0 {
        seq!["No se detectan señales críticas inmediatas; mantener snapshots y monitoreo continuo."@]
    } else {
        items
    }
}

fn push_line(items: &mut Vec<String>, line: String)
    ensures
        strings_view(final(items)@) == strings_view(old(items)@).push(line@),
{
    let ghost before = items@;
    items.push(line);
    proof {
        lemma_strings_view_push(before, line);
    }
}

/// The advice of a summary: the first risk to look at, then one line each
/// for critical risks, persistent drift, recurring drift and a hub of high
/// degree when they apply, or a reassurance when none does.
pub fn build_summary_recommendations(risk: &RiskReport, graph: &GraphSummaryView, drift: Option<&DriftSummaryView>) -> (r: Vec<String>)
    ensures
        strings_view(r@) == summary_recommendations(
            risks_view(risk.top_risks@),
            risk.critical,
            match drift {
                Some(d) => Some(d.persistent_findings),
                None => None,
            },
            match drift {
                Some(d) => Some(d.recurring_findings),
                None => None,
            },
            graph.max_degree,
        ),
{
    let ghost top = risks_view(risk.top_risks@);
    let mut items: Vec<String> = Vec::new();
    let ghost mut want: Seq<Seq<char>> = Seq::empty();
    assert(strings_view(items@) =~= want);
    if risk.top_risks.len() > 0 {
        let t = &risk.top_risks[0];
        assert(top[0] == t@);
        let mut line = owned("Investigar primero '");
        push_str(&mut line, t.title.as_str());
        push_str(&mut line, "' sobre ");
        push_str(&mut line, t.resource.as_str());
        push_str(&mut line, " (score ");
        let sc = decimal_text(t.score as u64);
        push_str(&mut line, sc.as_str());
        push_str(&mut line, ").");
        push_line(&mut items, line);
        proof {
            want = want.push(line@);
        }
    }
    if risk.critical > 0 {
        push_line(&mut items, owned("Existen riesgos críticos; conviene activar remediación inmediata y validación manual."));
    }
    match drift {
        Some(d) => {
            if d.persistent_findings > 0 {
                push_line(&mut items, owned("Hay drift persistente; priorizar recursos reincidentes y revisar ownership."));
            }
            if d.recurring_findings > 0 {
                push_line(&mut items, owned("Los hallazgos recurrentes sugieren cambios operativos frecuentes en superficie expuesta."));
            }
        },
        None => {},
    }
    if graph.max_degree >= 8 {
        push_line(&mut items, owned("Los hubs del grafo deben revisarse primero por su concentración de relaciones."));
    }
    let ghost spec_items = {
        let first = if top.len() > 0 {
            seq![
                "Investigar primero '"@ + top[0].title + "' sobre "@ + top[0].resource + " (score "@
                    + decimal(top[0].score as nat) + ")."@,
            ]
        } else {
            Seq::empty()
        };
        first
    };
    assert(want =~= spec_items);
    if items.len() == 0 {
        push_line(&mut items, owned("No se detectan señales críticas inmediatas; mantener snapshots y monitoreo continuo."));
        assert(strings_view(items@) =~= seq!["No se detectan señales críticas inmediatas; mantener snapshots y monitoreo continuo."@]);
    }
    proof {
        let pers: Option<usize> = match drift {
            Some(d) => Some(d.persistent_findings),
            None => None,
        };
        let rec: Option<usize> = match drift {
            Some(d) => Some(d.recurring_findings),
            None => None,
        };
        let s = summary_recommendations(top, risk.critical, pers, rec, graph.max_degree);
        assert(strings_view(items@) =~= s);
    }
    items
}

/// The severe risks among `rs`: critical or high, in order.
pub open spec fn severe_risks(rs: Seq<RiskV>) -> Seq<RiskV>
    decreases rs.len(),
{
    if rs.len() == 0 {
        Seq::empty()
    } else {
        let m = severe_risks(rs.drop_last());
        if rs.last().severity == RiskSeverity::Critical || rs.last().severity == RiskSeverity::High {
            m.push(rs.last())
        } else {
            m
        }
    }
}

pub struct AlertV {
    pub created_at: i64,
    pub severity: RiskSeverity,
    pub title: Seq<char>,
    pub resource: Seq<char>,
    pub message: Seq<char>,
}

impl View for AlertEvent {
    type V = AlertV;

    open spec fn view(&self) -> AlertV {
        AlertV {
            created_at: self.created_at,
            severity: self.severity,
            title: self.title@,
            resource: self.resource@,
            message: self.message@,
        }
    }
}

pub open spec fn alerts_view(v: Seq<AlertEvent>) -> Seq<AlertV> {
    Seq::new(v.len(), |i: int| v[i]@)
}

/// The alert a risk raises at `now`.
pub open spec fn alert_of(r: RiskV, now: i64) -> AlertV {
    AlertV {
        created_at: now,
        severity: r.severity,
        title: r.title,
        resource: r.resource,
        message: r.description + " | resource="@ + r.resource + " | score="@ + decimal(r.score as nat)
            + " | recommendation="@ + r.recommendation,
    }
}

/// The alerts of the first ten severe risks.
pub open spec fn alerts_of(rs: Seq<RiskV>, now: i64) -> Seq<AlertV> {
    let sev = severe_risks(rs);
    let kept = if sev.len() > 10 {
        sev.take(10)
    } else {
        sev
    };
    Seq::new(kept.len(), |i: int| alert_of(kept[i], now))
}

proof fn lemma_severe_step(rs: Seq<RiskV>, i: int)
    requires
        0 <= i < rs.len(),
    ensures
        severe_risks(rs.take(i + 1)) == if rs[i].severity == RiskSeverity::Critical || rs[i].severity == RiskSeverity::High {
            severe_risks(rs.take(i)).push(rs[i])
        } else {
            severe_risks(rs.take(i))
        },
{
    assert(rs.take(i + 1).drop_last() =~= rs.take(i));
}

proof fn lemma_severe_prefix(rs: Seq<RiskV>, i: int, j: int)
    requires
        0 <= i <= j <= rs.len(),
    ensures
        severe_risks(rs.take(j)).len() >= severe_risks(rs.take(i)).len(),
        severe_risks(rs.take(j)).take(severe_risks(rs.take(i)).len() as int) == severe_risks(rs.take(i)),
    decreases j - i,
{
    if i < j {
        lemma_severe_prefix(rs, i, j - 1);
        lemma_severe_step(rs, j - 1);
        let a = severe_risks(rs.take(i));
        let b = severe_risks(rs.take(j - 1));
        let c = severe_risks(rs.take(j));
        assert(c.take(a.len() as int) =~= b.take(a.len() as int));
    } else {
        assert(severe_risks(rs.take(j)).take(severe_risks(rs.take(i)).len() as int) =~= severe_risks(rs.take(i)));
    }
}

/// `build_basic_alerts` at time `now`: one alert for each of the first ten
/// critical or high risks of the report.
pub fn build_basic_alerts_at(report: &RiskReport, now: i64) -> (r: Vec<AlertEvent>)
    ensures
        alerts_view(r@) == alerts_of(risks_view(report.risks@), now),
{
    let ghost rs = risks_view(report.risks@);
    let mut alerts: Vec<AlertEvent> = Vec::new();
    let mut i: usize = 0;
    assert(rs.take(0) =~= Seq::<RiskV>::empty());
    assert(alerts_view(alerts@) =~= Seq::<AlertV>::empty());
    while i < report.risks.len() && alerts.len() < 10
        invariant
            i <= report.risks@.len(),
            rs == risks_view(report.risks@),
            alerts@.len() <= 10,
            alerts@.len() == severe_risks(rs.take(i as int)).len(),
            alerts_view(alerts@) == Seq::new(
                severe_risks(rs.take(i as int)).len(),
                |k: int| alert_of(severe_risks(rs.take(i as int))[k], now),
            ),
        decreases report.risks.len() - i,
    {
        proof {
            lemma_severe_step(rs, i as int);
        }
        let risk = &report.risks[i];
        assert(rs[i as int] == risk@);
        if risk.severity == RiskSeverity::Critical || risk.severity == RiskSeverity::High {
            let mut message = risk.description.clone();
            push_str(&mut message, " | resource=");
            push_str(&mut message, risk.resource.as_str());
            push_str(&mut message, " | score=");
            let sc = decimal_text(risk.score as u64);
            push_str(&mut message, sc.as_str());
            push_str(&mut message, " | recommendation=");
            push_str(&mut message, risk.recommendation.as_str());
            let a = AlertEvent {
                created_at: now,
                severity: risk.severity,
                title: risk.title.clone(),
                resource: risk.resource.clone(),
                message,
            };
            assert(a@ == alert_of(rs[i as int], now));
            let ghost before = alerts@;
            alerts.push(a);
            assert(alerts_view(alerts@) =~= Seq::new(
                severe_risks(rs.take(i + 1)).len(),
                |k: int| alert_of(severe_risks(rs.take(i + 1))[k], now),
            )) by {
                assert(alerts_view(alerts@) =~= alerts_view(before).push(a@));
            }
        } else {
            assert(Seq::new(
                severe_risks(rs.take(i + 1)).len(),
                |k: int| alert_of(severe_risks(rs.take(i + 1))[k], now),
            ) =~= alerts_view(alerts@));
        }
        i = i + 1;
    }
    proof {
        let cur = severe_risks(rs.take(i as int));
        let all = severe_risks(rs);
        assert(rs.take(rs.len() as int) =~= rs);
        lemma_severe_prefix(rs, i as int, rs.len() as int);
        if alerts@.len() == 10 {
            assert(all.take(10) =~= cur);
            assert(alerts_view(alerts@) =~= alerts_of(rs, now));
        } else {
            assert(i == rs.len());
            assert(all =~= cur);
            assert(alerts_view(alerts@) =~= alerts_of(rs, now));
        }
    }
    alerts
}

/// `build_basic_alerts`, stamped now: every alert carries the same time.
pub fn build_basic_alerts(report: &RiskReport) -> (r: Vec<AlertEvent>)
    ensures
        alerts_view(r@) == alerts_of(
            risks_view(report.risks@),
            if r@.len() > 0 {
                r@[0].created_at
            } else {
                0
            },
        ),
{
    let now = crate::jobs::now_timestamp();
    let r = build_basic_alerts_at(report, now);
    proof {
        let rs = risks_view(report.risks@);
        if r@.len() > 0 {
            assert(alerts_view(r@)[0] == r@[0]@);
        } else {
            assert(alerts_of(rs, now) =~= alerts_of(rs, 0));
        }
    }
    r
}

/// The drift part of a summary.
fn drift_view_of(t: &TimelineReport) -> (d: DriftSummaryView)
    ensures
        drift_ok(d, *t),
{
    let e = &t.executive;
    let ghost top = resource_aggs_view(e.top_resources@);
    let mut items: Vec<SummaryResourceHotspot> = Vec::new();
    let n = if e.top_resources.len() > 5 {
        5
    } else {
        e.top_resources.len()
    };
    let mut i: usize = 0;
    while i < n
        invariant
            i <= n,
            n <= e.top_resources@.len(),
            top == resource_aggs_view(e.top_resources@),
            hotspots_view(items@) == top.take(i as int),
        decreases n - i,
    {
        let it = &e.top_resources[i];
        let h = SummaryResourceHotspot { resource: it.resource.clone(), occurrences: it.occurrences, total_score: it.total_score };
        let ghost before = items@;
        items.push(h);
        assert(hotspots_view(items@) =~= hotspots_view(before).push(h@));
        assert(top[i as int] == it@);
        assert(hotspots_view(items@) =~= top.take(i + 1));
        i = i + 1;
    }
    proof {
        if top.len() <= 5 {
            assert(top.take(n as int) =~= top);
        }
    }
    DriftSummaryView {
        total_findings: e.total_findings,
        critical_findings: e.critical_findings,
        recurring_findings: e.recurring_findings,
        persistent_findings: e.persistent_findings,
        top_resources: items,
    }
}

/// The graph part of a summary.
pub(crate) fn graph_view_of(g: &ExposureGraph) -> (v: GraphSummaryView)
    ensures
        graph_summary_ok(v, *g),
{
    let ghost hubs = ranked_view(g.topology.highest_degree_nodes@);
    let ghost want = Seq::new(hubs.len(), |i: int| hub_label(hubs[i]));
    let mut names: Vec<String> = Vec::new();
    let mut i: usize = 0;
    while i < g.topology.highest_degree_nodes.len()
        invariant
            i <= g.topology.highest_degree_nodes@.len(),
            hubs == ranked_view(g.topology.highest_degree_nodes@),
            want == Seq::new(hubs.len(), |i: int| hub_label(hubs[i])),
            strings_view(names@) == want.take(i as int),
        decreases g.topology.highest_degree_nodes.len() - i,
    {
        let n = &g.topology.highest_degree_nodes[i];
        assert(hubs[i as int] == n@);
        let mut s = n.label.clone();
        push_str(&mut s, " [");
        push_str(&mut s, n.kind.as_str());
        push_str(&mut s, "]");
        push_line(&mut names, s);
        assert(strings_view(names@) =~= want.take(i + 1));
        i = i + 1;
    }
    assert(want.take(hubs.len() as int) =~= want);
    GraphSummaryView {
        node_count: g.node_count,
        edge_count: g.edge_count,
        connected_nodes: g.topology.connected_nodes,
        isolated_nodes: g.topology.isolated_nodes,
        max_degree: g.topology.max_degree,
        hubs: names,
    }
}

/// What a summary report says of its inputs (all but when it was made).
pub open spec fn summary_ok(
    r: SummaryReport,
    target: Seq<char>,
    snapshots: Seq<Snapshot>,
    timeline: Option<TimelineReport>,
    episodes: Option<EpisodeCollection>,
    graph: ExposureGraph,
) -> bool {
            let risks = ranked_risks(target, timeline, episodes, nodes_view(graph.nodes@), edges_view(graph.edges@));
            &&& r.target@ == target
            &&& r.snapshot_count == snapshots.len()
            &&& r.latest_snapshot_at == if snapshots.len() > 0 {
                Some(snapshots.last().timestamp)
            } else {
                None::<i64>
            }
            &&& r.assets == AssetSummary {
                subdomains: graph.stats.subdomains,
                ips: graph.stats.ips,
                services: graph.stats.services,
                technologies: graph.stats.technologies,
                episodes: graph.stats.episodes,
            }
            &&& r.exposure == ExposureSummary {
                critical_risks: count_severity(risks, RiskSeverity::Critical) as usize,
                high_risks: count_severity(risks, RiskSeverity::High) as usize,
                medium_risks: count_severity(risks, RiskSeverity::Medium) as usize,
                low_risks: count_severity(risks, RiskSeverity::Low) as usize,
                total_risk_score: risk_total(risks) as u32,
            }
            &&& (r.drift is Some <==> timeline is Some)
            &&& (timeline matches Some(t) ==> drift_ok(r.drift->Some_0, t))
            &&& graph_summary_ok(r.graph, graph)
            &&& strings_view(r.recommendations@) == summary_recommendations(
                if risks.len() > 10 {
                    risks.take(10)
                } else {
                    risks
                },
                count_severity(risks, RiskSeverity::Critical) as usize,
                match timeline {
                    Some(t) => Some(t.executive.persistent_findings),
                    None => None,
                },
                match timeline {
                    Some(t) => Some(t.executive.recurring_findings),
                    None => None,
                },
                graph.topology.max_degree,
            )
        }

/// `build_summary_report` at time `now`: the graph's asset counts, the
/// risks by severity, the timeline's drift counts when there is a timeline,
/// the graph's shape, and the recommendations those give.
pub fn build_summary_report_at(
    target: &str,
    snapshots: &Vec<Snapshot>,
    timeline: Option<&TimelineReport>,
    episodes: Option<&EpisodeCollection>,
    graph: &ExposureGraph,
    now: i64,
) -> (r: SummaryReport)
    requires
        graph.edges@.len() <= usize::MAX / 2,
        risk_total(ranked_risks(target@, opt_timeline(timeline), opt_episodes(episodes), nodes_view(graph.nodes@), edges_view(graph.edges@))) <= u32::MAX,
    ensures
        r.generated_at == now,
        summary_ok(r, target@, snapshots@, opt_timeline(timeline), opt_episodes(episodes), *graph),
{
    let risk = build_risk_report_at(target, timeline, episodes, graph, now);
    let assets = AssetSummary {
        subdomains: graph.stats.subdomains,
        ips: graph.stats.ips,
        services: graph.stats.services,
        technologies: graph.stats.technologies,
        episodes: graph.stats.episodes,
    };
    let exposure = ExposureSummary {
        critical_risks: risk.critical,
        high_risks: risk.high,
        medium_risks: risk.medium,
        low_risks: risk.low,
        total_risk_score: risk.total_score,
    };
    let drift = match timeline {
        Some(t) => Some(drift_view_of(t)),
        None => None,
    };
    let graph_summary = graph_view_of(graph);
    let recommendations = build_summary_recommendations(&risk, &graph_summary, drift.as_ref());
    let latest = if snapshots.len() > 0 {
        Some(snapshots[snapshots.len() - 1].timestamp)
    } else {
        None
    };
    SummaryReport {
        target: owned(target),
        generated_at: now,
        snapshot_count: snapshots.len(),
        latest_snapshot_at: latest,
        assets,
        exposure,
        drift,
        graph: graph_summary,
        recommendations,
    }
}

/// `build_summary_report`, made now.
pub fn build_summary_report(
    target: &str,
    snapshots: &Vec<Snapshot>,
    timeline: Option<&TimelineReport>,
    episodes: Option<&EpisodeCollection>,
    graph: &ExposureGraph,
) -> (r: SummaryReport)
    requires
        graph.edges@.len() <= usize::MAX / 2,
        risk_total(ranked_risks(target@, opt_timeline(timeline), opt_episodes(episodes), nodes_view(graph.nodes@), edges_view(graph.edges@))) <= u32::MAX,
    ensures
        summary_ok(r, target@, snapshots@, opt_timeline(timeline), opt_episodes(episodes), *graph),
{
    let now = crate::jobs::now_timestamp();
    build_summary_report_at(target, snapshots, timeline, episodes, graph, now)
}

} // verus!
