use atlas::common::{HttpService, ScanResult, SecurityHeaders};
use atlas::correlation::{
    build_episodes, CorrelationCluster, CorrelationKind, EpisodeCollection, EpisodeState,
    RiskEpisode,
};
use atlas::diff::Snapshot;
use atlas::drift::{
    AssetType, AssetTypeSummary, Criticality, DriftFinding, DriftGroup, DriftSummary,
    Environment, FindingState, Severity, StateSummary,
};
use atlas::graph::ExposureGraph;
use atlas::report::DriftReport;
use atlas::risk::{build_risk_report, RiskItem, RiskReport, RiskSeverity};
use atlas::sources::build_full_graph;
use atlas::summary::{build_basic_alerts, build_basic_alerts_at, build_summary_report};
use atlas::timeline::{
    CategoryAggregate, ResourceAggregate, TimelineExecutiveSummary, TimelineReport,
    TimelineTransition,
};

const NOW: i64 = 1_700_000_000;

fn headers() -> SecurityHeaders {
    SecurityHeaders {
        strict_transport_security: false,
        content_security_policy: false,
        x_frame_options: false,
        x_content_type_options: false,
        referrer_policy: false,
    }
}

fn snapshot() -> Snapshot {
    Snapshot {
        snapshot_version: 2,
        timestamp: NOW,
        target: "example.com".to_string(),
        scan: ScanResult {
            target: "example.com".to_string(),
            resolved_ips: vec!["1.1.1.1".to_string()],
            subdomains: vec!["admin.example.com".to_string()],
            services: vec![HttpService {
                host: "admin.example.com".to_string(),
                url: "http://admin.example.com".to_string(),
                scheme: "http".to_string(),
                status: 200,
                server: Some("nginx".to_string()),
                title: Some("Admin".to_string()),
                content_type: Some("text/html".to_string()),
                technologies: vec!["nginx".to_string()],
                provider: Some("cloudflare".to_string()),
                tls_enabled: false,
                security_headers: headers(),
            }],
        },
    }
}

fn admin_finding() -> DriftFinding {
    DriftFinding {
        finding_id: "f1".to_string(),
        severity: Severity::High,
        score: 95,
        category: "new_admin_subdomain".to_string(),
        title: "Nuevo subdominio administrativo".to_string(),
        resource: "admin.example.com".to_string(),
        asset_type: AssetType::Subdomain,
        environment: Environment::Admin,
        criticality: Criticality::Critical,
        state: FindingState::Persistent,
        tags: vec!["admin".to_string()],
        description: "desc".to_string(),
    }
}

fn timeline() -> TimelineReport {
    let finding = admin_finding();

    TimelineReport {
        target: "example.com".to_string(),
        snapshot_count: 2,
        transition_count: 1,
        transitions: vec![TimelineTransition {
            older_timestamp: NOW,
            newer_timestamp: NOW,
            report: DriftReport {
                target: "example.com".to_string(),
                older_timestamp: NOW,
                newer_timestamp: NOW,
                findings: vec![finding.clone()],
                suppressed_findings: vec![],
                groups: vec![DriftGroup {
                    resource: finding.resource.clone(),
                    findings: vec![finding.clone()],
                    highest_severity: finding.severity,
                    highest_criticality: finding.criticality,
                    total_score: finding.score,
                }],
                summary: DriftSummary {
                    high: 1,
                    medium: 0,
                    low: 0,
                    info: 0,
                    total_score: 95,
                    overall_severity: Severity::High,
                    critical_findings: 1,
                    asset_types: AssetTypeSummary::default(),
                    states: StateSummary::default(),
                },
            },
        }],
        executive: TimelineExecutiveSummary {
            total_score: 95,
            overall_severity: Severity::High,
            total_findings: 1,
            unique_resources: 1,
            critical_findings: 1,
            recurring_findings: 0,
            persistent_findings: 1,
            asset_types: AssetTypeSummary::default(),
            top_resources: vec![ResourceAggregate {
                resource: "admin.example.com".to_string(),
                occurrences: 1,
                total_score: 95,
            }],
            top_categories: vec![CategoryAggregate {
                category: "new_admin_subdomain".to_string(),
                occurrences: 1,
                total_score: 95,
            }],
        },
    }
}

fn episodes() -> EpisodeCollection {
    EpisodeCollection {
        target: "example.com".to_string(),
        episode_count: 1,
        episodes: vec![RiskEpisode {
            episode_id: "ep1".to_string(),
            target: "example.com".to_string(),
            title: "Admin exposure".to_string(),
            kind: CorrelationKind::AdministrativeExposure,
            severity: Severity::High,
            criticality: Criticality::Critical,
            score: 180,
            state: EpisodeState::New,
            resource_count: 1,
            resources: vec!["admin.example.com".to_string()],
            cluster_ids: vec!["c1".to_string()],
            started_at: NOW,
            ended_at: NOW,
            summary: "summary".to_string(),
            explanation: vec!["exp".to_string()],
        }],
    }
}

fn risk_item(severity: RiskSeverity, score: u32) -> RiskItem {
    RiskItem {
        rule_id: "r1".to_string(),
        title: "Critical risk".to_string(),
        severity,
        score,
        resource: "admin.example.com".to_string(),
        kind: "service".to_string(),
        description: "desc".to_string(),
        recommendation: "fix".to_string(),
        evidence: vec![],
    }
}

#[test]
fn builds_risk_report() {
    let snapshot = snapshot();
    let timeline = timeline();
    let episodes = episodes();
    let graph = build_full_graph("example.com", Some(&snapshot), Some(&timeline), Some(&episodes));

    let report = build_risk_report("example.com", Some(&timeline), Some(&episodes), &graph);
    assert!(!report.risks.is_empty());
    assert!(report.total_score > 0);
    assert_eq!(report.total_risks, report.risks.len());
    let scores: Vec<u32> = report.risks.iter().map(|r| r.score).collect();
    let mut sorted = scores.clone();
    sorted.sort_by(|a, b| b.cmp(a));
    assert_eq!(scores, sorted);
}

#[test]
fn builds_summary_report() {
    let snapshot = snapshot();
    let timeline = timeline();
    let graph = ExposureGraph::empty("example.com");

    let summary = build_summary_report("example.com", &vec![snapshot], Some(&timeline), None, &graph);

    assert_eq!(summary.target, "example.com");
    assert_eq!(summary.snapshot_count, 1);
    assert_eq!(summary.latest_snapshot_at, Some(NOW));
    let drift = summary.drift.unwrap();
    assert_eq!(drift.persistent_findings, 1);
    assert!(summary
        .recommendations
        .iter()
        .any(|r| r == "Hay drift persistente; priorizar recursos reincidentes y revisar ownership."));
}

#[test]
fn summary_without_signals_reassures() {
    let graph = ExposureGraph::empty("example.com");
    let summary = build_summary_report("example.com", &vec![], None, None, &graph);
    assert_eq!(summary.latest_snapshot_at, None);
    assert!(summary.drift.is_none());
    assert_eq!(
        summary.recommendations,
        vec!["No se detectan señales críticas inmediatas; mantener snapshots y monitoreo continuo.".to_string()]
    );
}

#[test]
fn builds_alerts() {
    let report = RiskReport {
        target: "example.com".to_string(),
        generated_at: NOW,
        total_risks: 1,
        critical: 1,
        high: 0,
        medium: 0,
        low: 0,
        total_score: 100,
        top_risks: vec![risk_item(RiskSeverity::Critical, 100)],
        risks: vec![risk_item(RiskSeverity::Critical, 100)],
    };

    let alerts = build_basic_alerts(&report);
    assert_eq!(alerts.len(), 1);
}

#[test]
fn alerts_cover_the_first_ten_severe_risks() {
    let mut risks = Vec::new();
    for i in 0..15 {
        let severity = if i % 3 == 0 { RiskSeverity::Low } else { RiskSeverity::High };
        risks.push(risk_item(severity, 50));
    }
    let report = RiskReport {
        target: "example.com".to_string(),
        generated_at: NOW,
        total_risks: risks.len(),
        critical: 0,
        high: 10,
        medium: 0,
        low: 5,
        total_score: 750,
        top_risks: vec![],
        risks,
    };
    let alerts = build_basic_alerts_at(&report, NOW);
    assert_eq!(alerts.len(), 10);
    assert_eq!(alerts[0].created_at, NOW);
    assert_eq!(
        alerts[0].message,
        "desc | resource=admin.example.com | score=50 | recommendation=fix"
    );
}

#[test]
fn builds_episode_from_cluster() {
    let mut finding = admin_finding();
    finding.state = FindingState::New;
    let cluster = CorrelationCluster {
        cluster_id: "abc123".to_string(),
        target: "example.com".to_string(),
        resources: vec![
            "admin.example.com".to_string(),
            "http://admin.example.com".to_string(),
        ],
        categories: vec!["new_admin_subdomain".to_string(), "new_http_service".to_string()],
        findings: vec![finding],
        kind: CorrelationKind::AdministrativeExposure,
        score: 180,
        dominant_severity: Severity::High,
        dominant_criticality: Criticality::Critical,
        started_at: NOW,
        ended_at: NOW,
        explanation: vec!["test".to_string()],
    };

    let episodes = build_episodes(&vec![cluster]);
    assert_eq!(episodes.len(), 1);
    assert_eq!(episodes[0].resource_count, 2);
    assert_eq!(episodes[0].state, EpisodeState::New);
}
