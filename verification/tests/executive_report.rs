use atlas::common::ScanResult;
use atlas::correlation::{CorrelationKind, EpisodeCollection, EpisodeState, RiskEpisode};
use atlas::diff::Snapshot;
use atlas::drift::{
    AssetType, AssetTypeSummary, Criticality, DriftFinding, DriftGroup, DriftSummary,
    Environment, FindingState, Severity, StateSummary,
};
use atlas::executive::{build_executive_report, build_executive_report_at};
use atlas::graph::ExposureGraph;
use atlas::report::DriftReport;
use atlas::timeline::{
    CategoryAggregate, ResourceAggregate, TimelineExecutiveSummary, TimelineReport,
    TimelineTransition,
};

const NOW: i64 = 1_700_000_000;

fn finding(id: &str, resource: &str, category: &str, score: u32, state: FindingState) -> DriftFinding {
    DriftFinding {
        finding_id: id.to_string(),
        severity: Severity::High,
        score,
        category: category.to_string(),
        title: format!("Hallazgo {}", id),
        resource: resource.to_string(),
        asset_type: AssetType::Subdomain,
        environment: Environment::Admin,
        criticality: Criticality::Critical,
        state,
        tags: vec![],
        description: "desc".to_string(),
    }
}

fn drift_report(findings: Vec<DriftFinding>, total: u32) -> DriftReport {
    DriftReport {
        target: "example.com".to_string(),
        older_timestamp: NOW,
        newer_timestamp: NOW,
        findings,
        suppressed_findings: vec![],
        groups: vec![],
        summary: DriftSummary {
            high: 0,
            medium: 0,
            low: 0,
            info: 0,
            total_score: total,
            overall_severity: Severity::High,
            critical_findings: 0,
            asset_types: AssetTypeSummary::default(),
            states: StateSummary::default(),
        },
    }
}

fn executive(total: u32, findings: usize, critical: usize, recurring: usize, persistent: usize) -> TimelineExecutiveSummary {
    TimelineExecutiveSummary {
        total_score: total,
        overall_severity: Severity::Medium,
        total_findings: findings,
        unique_resources: 1,
        critical_findings: critical,
        recurring_findings: recurring,
        persistent_findings: persistent,
        asset_types: AssetTypeSummary::default(),
        top_resources: vec![],
        top_categories: vec![],
    }
}

fn timeline_of(transitions: Vec<Vec<DriftFinding>>, exec: TimelineExecutiveSummary) -> TimelineReport {
    let transitions: Vec<TimelineTransition> = transitions
        .into_iter()
        .map(|fs| TimelineTransition { older_timestamp: NOW, newer_timestamp: NOW, report: drift_report(fs, 0) })
        .collect();
    TimelineReport {
        target: "example.com".to_string(),
        snapshot_count: transitions.len() + 1,
        transition_count: transitions.len(),
        transitions,
        executive: exec,
    }
}

fn episode(id: &str, title: &str, kind: CorrelationKind, state: EpisodeState, score: u32) -> RiskEpisode {
    RiskEpisode {
        episode_id: id.to_string(),
        target: "example.com".to_string(),
        title: title.to_string(),
        kind,
        severity: Severity::High,
        criticality: Criticality::Critical,
        score,
        state,
        resource_count: 1,
        resources: vec!["admin.example.com".to_string()],
        cluster_ids: vec!["c1".to_string()],
        started_at: NOW,
        ended_at: NOW,
        summary: "sum".to_string(),
        explanation: vec!["exp".to_string()],
    }
}

#[test]
fn builds_report_from_analysis_objects() {
    let now = NOW;

    let snapshots = vec![Snapshot {
        snapshot_version: 2,
        timestamp: now,
        target: "example.com".to_string(),
        scan: ScanResult::default(),
    }];

    let finding = DriftFinding {
        finding_id: "f1".to_string(),
        severity: Severity::High,
        score: 95,
        category: "new_admin_subdomain".to_string(),
        title: "Nuevo subdominio administrativo".to_string(),
        resource: "admin.example.com".to_string(),
        asset_type: AssetType::Subdomain,
        environment: Environment::Admin,
        criticality: Criticality::Critical,
        state: FindingState::New,
        tags: vec!["admin".to_string()],
        description: "desc".to_string(),
    };

    let timeline = TimelineReport {
        target: "example.com".to_string(),
        snapshot_count: 2,
        transition_count: 1,
        transitions: vec![TimelineTransition {
            older_timestamp: now,
            newer_timestamp: now,
            report: DriftReport {
                target: "example.com".to_string(),
                older_timestamp: now,
                newer_timestamp: now,
                findings: vec![finding.clone()],
                suppressed_findings: vec![],
                groups: vec![DriftGroup {
                    resource: finding.resource.clone(),
                    findings: vec![finding.clone()],
                    highest_severity: finding.severity,
                    highest_criticality: finding.criticality,
                    total_score: finding.score,
                }],
                summary: DriftSummary {
                    high: 1,
                    medium: 0,
                    low: 0,
                    info: 0,
                    total_score: 95,
                    overall_severity: Severity::High,
                    critical_findings: 1,
                    asset_types: AssetTypeSummary::default(),
                    states: StateSummary::default(),
                },
            },
        }],
        executive: TimelineExecutiveSummary {
            total_score: 95,
            overall_severity: Severity::High,
            total_findings: 1,
            unique_resources: 1,
            critical_findings: 1,
            recurring_findings: 0,
            persistent_findings: 0,
            asset_types: AssetTypeSummary::default(),
            top_resources: vec![ResourceAggregate {
                resource: "admin.example.com".to_string(),
                occurrences: 1,
                total_score: 95,
            }],
            top_categories: vec![CategoryAggregate {
                category: "new_admin_subdomain".to_string(),
                occurrences: 1,
                total_score: 95,
            }],
        },
    };

    let episodes = EpisodeCollection {
        target: "example.com".to_string(),
        episode_count: 1,
        episodes: vec![RiskEpisode {
            episode_id: "ep1".to_string(),
            target: "example.com".to_string(),
            title: "Episodio administrativo".to_string(),
            kind: CorrelationKind::AdministrativeExposure,
            severity: Severity::High,
            criticality: Criticality::Critical,
            score: 180,
            state: EpisodeState::New,
            resource_count: 1,
            resources: vec!["admin.example.com".to_string()],
            cluster_ids: vec!["c1".to_string()],
            started_at: now,
            ended_at: now,
            summary: "sum".to_string(),
            explanation: vec!["exp".to_string()],
        }],
    };

    let graph = ExposureGraph::empty("example.com");

    let report = build_executive_report(
        "example.com",
        &snapshots,
        Some(&timeline),
        Some(&episodes),
        &graph,
        true,
    );

    assert_eq!(report.target, "example.com");
    assert_eq!(report.snapshot_count, 1);
    assert_eq!(report.overview.total_findings, 1);
    assert_eq!(report.episodes.total_episodes, 1);
    assert!(!report.recommendations.is_empty());
}

#[test]
fn executive_report_without_analysis_reassures() {
    let graph = ExposureGraph::empty_at("example.com", NOW);
    let report = build_executive_report_at("example.com", &vec![], None, None, &graph, false, NOW);
    assert_eq!(report.generated_at, NOW);
    assert_eq!(report.latest_snapshot_at, None);
    assert_eq!(report.overview.total_score, 0);
    assert_eq!(report.overview.overall_severity, "INFO");
    assert!(report.top_findings.is_empty());
    assert!(report.hotspots.is_empty());
    assert_eq!(report.episodes.total_episodes, 0);
    assert!(report.episodes.by_state.is_empty());
    assert_eq!(
        report.recommendations,
        vec!["No se identificaron señales críticas inmediatas; mantener monitoreo periódico y snapshots comparables.".to_string()]
    );
}

#[test]
fn executive_top_findings_are_ordered_and_capped() {
    let mut fs = Vec::new();
    for i in 0..12u32 {
        fs.push(finding(&format!("f{:02}", i), &format!("r{}.example.com", i % 3), "cat", 10 + (i % 4), FindingState::New));
    }
    let timeline = timeline_of(vec![fs], executive(0, 12, 0, 0, 0));
    let graph = ExposureGraph::empty_at("example.com", NOW);
    let report = build_executive_report_at("example.com", &vec![], Some(&timeline), None, &graph, false, NOW);
    assert_eq!(report.top_findings.len(), 10);
    let keys: Vec<(u32, String, String)> = report
        .top_findings
        .iter()
        .map(|f| (f.score, f.resource.clone(), f.finding_id.clone()))
        .collect();
    let mut expected = keys.clone();
    expected.sort_by(|a, b| b.0.cmp(&a.0).then_with(|| a.1.cmp(&b.1)).then_with(|| a.2.cmp(&b.2)));
    assert_eq!(keys, expected);
    assert_eq!(report.top_findings[0].score, 13);
    assert_eq!(report.top_findings[0].severity, "HIGH");
    assert_eq!(report.top_findings[0].criticality, "CRITICAL");
    assert_eq!(report.top_findings[0].state, "New");
    assert_eq!(
        report.recommendations[0],
        format!(
            "Investigar primero el hallazgo más severo: '{}' sobre {} (score 13).",
            report.top_findings[0].title, report.top_findings[0].resource
        )
    );
}

#[test]
fn executive_hotspots_sum_scores_and_flag_plain_http() {
    let t1 = vec![
        finding("a", "http://shop.example.com", "plain_http", 30, FindingState::New),
        finding("b", "admin.example.com", "new_admin_subdomain", 50, FindingState::New),
    ];
    let t2 = vec![
        finding("c", "http://shop.example.com", "missing_headers", 30, FindingState::Recurring),
        finding("d", "admin.example.com", "new_admin_subdomain", 10, FindingState::Persistent),
    ];
    let timeline = timeline_of(vec![t1, t2], executive(120, 4, 1, 1, 1));
    let graph = ExposureGraph::empty_at("example.com", NOW);
    let report = build_executive_report_at("example.com", &vec![], Some(&timeline), None, &graph, true, NOW);
    assert_eq!(report.hotspots.len(), 2);
    assert_eq!(report.hotspots[0].resource, "admin.example.com");
    assert_eq!(report.hotspots[0].total_score, 60);
    assert_eq!(report.hotspots[0].occurrences, 2);
    assert_eq!(report.hotspots[0].categories, vec!["new_admin_subdomain".to_string()]);
    assert_eq!(report.hotspots[1].resource, "http://shop.example.com");
    assert_eq!(report.hotspots[1].total_score, 60);
    assert_eq!(
        report.hotspots[1].categories,
        vec!["missing_headers".to_string(), "plain_http".to_string()]
    );
    assert_eq!(report.overview.total_score, 120);
    assert_eq!(report.overview.overall_severity, "MEDIUM");
    let recs = &report.recommendations;
    assert_eq!(recs.len(), 6);
    assert_eq!(recs[1], "Priorizar migración o eliminación de servicios HTTP en claro detectados en hotspots.");
    assert!(recs[2].starts_with("Hay hallazgos persistentes"));
    assert!(recs[3].starts_with("Los hallazgos recurrentes"));
    assert!(recs[4].starts_with("Existen activos críticos"));
    assert!(recs[5].starts_with("El reporte fue generado con policy activa"));
}

#[test]
fn executive_episode_overview_counts_by_state_and_kind() {
    let episodes = EpisodeCollection {
        target: "example.com".to_string(),
        episode_count: 7,
        episodes: vec![
            episode("e1", "B", CorrelationKind::ServiceExpansion, EpisodeState::New, 10),
            episode("e2", "A", CorrelationKind::AdministrativeExposure, EpisodeState::Recurring, 50),
            episode("e3", "A", CorrelationKind::ServiceExpansion, EpisodeState::New, 50),
            episode("e4", "C", CorrelationKind::ServiceExpansion, EpisodeState::Persistent, 5),
            episode("e5", "D", CorrelationKind::InfrastructureShift, EpisodeState::New, 1),
            episode("e6", "E", CorrelationKind::InfrastructureShift, EpisodeState::New, 2),
            episode("e7", "F", CorrelationKind::InfrastructureShift, EpisodeState::New, 3),
        ],
    };
    let graph = ExposureGraph::empty_at("example.com", NOW);
    let report = build_executive_report_at("example.com", &vec![], None, Some(&episodes), &graph, false, NOW);
    let o = &report.episodes;
    assert_eq!(o.total_episodes, 7);
    assert_eq!(
        o.by_state,
        vec![("New".to_string(), 5), ("Persistent".to_string(), 1), ("Recurring".to_string(), 1)]
    );
    assert_eq!(
        o.by_kind,
        vec![
            ("AdministrativeExposure".to_string(), 1),
            ("InfrastructureShift".to_string(), 3),
            ("ServiceExpansion".to_string(), 3),
        ]
    );
    let ids: Vec<&str> = o.top_episodes.iter().map(|e| e.episode_id.as_str()).collect();
    assert_eq!(ids, vec!["e2", "e3", "e1", "e4", "e7"]);
    assert_eq!(o.top_episodes[0].kind, "AdministrativeExposure");
    assert_eq!(o.top_episodes[0].state, "Recurring");
    assert_eq!(
        report.recommendations,
        vec!["Los episodios recurrentes/persistentes deben convertirse en iniciativas de remediación estructural.".to_string()]
    );
}
