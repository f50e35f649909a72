use atlas::common::{HttpService, ScanResult, SecurityHeaders};
use atlas::correlation::{CorrelationKind, EpisodeCollection, EpisodeState, RiskEpisode};
use atlas::diff::Snapshot;
use atlas::drift::{
    AssetType, AssetTypeSummary, Criticality, DriftFinding, DriftSummary, Environment,
    FindingState, Severity, StateSummary,
};
use atlas::graph::{build_graph_from_snapshot, EdgeKind, NodeKind};
use atlas::report::DriftReport;
use atlas::sources::{build_graph_from_episode_collection, build_graph_from_timeline};
use atlas::timeline::{
    CategoryAggregate, ResourceAggregate, TimelineExecutiveSummary, TimelineReport,
    TimelineTransition,
};

fn headers() -> SecurityHeaders {
    SecurityHeaders {
        strict_transport_security: false,
        content_security_policy: false,
        x_frame_options: false,
        x_content_type_options: false,
        referrer_policy: false,
    }
}

fn sample_snapshot() -> Snapshot {
    Snapshot {
        snapshot_version: 2,
        timestamp: 1_700_000_000,
        target: "example.com".to_string(),
        scan: ScanResult {
            target: "example.com".to_string(),
            resolved_ips: vec!["1.1.1.1".to_string()],
            subdomains: vec!["admin.example.com".to_string()],
            services: vec![HttpService {
                host: "admin.example.com".to_string(),
                url: "https://admin.example.com".to_string(),
                scheme: "https".to_string(),
                status: 200,
                server: Some("nginx".to_string()),
                title: Some("Admin".to_string()),
                content_type: Some("text/html".to_string()),
                technologies: vec!["nginx".to_string(), "rust".to_string()],
                provider: Some("cloudflare".to_string()),
                tls_enabled: true,
                security_headers: headers(),
            }],
        },
    }
}

fn empty_summary() -> DriftSummary {
    DriftSummary {
        high: 0,
        medium: 0,
        low: 0,
        info: 0,
        total_score: 0,
        overall_severity: Severity::Info,
        critical_findings: 0,
        asset_types: AssetTypeSummary::default(),
        states: StateSummary::default(),
    }
}

#[test]
fn builds_snapshot_graph_with_expected_nodes_and_edges() {
    let graph = build_graph_from_snapshot(&sample_snapshot());

    assert!(graph.nodes.iter().any(|n| n.kind == NodeKind::Target));
    assert!(graph.nodes.iter().any(|n| n.kind == NodeKind::Subdomain));
    assert!(graph.nodes.iter().any(|n| n.kind == NodeKind::Ip));
    assert!(graph.nodes.iter().any(|n| n.kind == NodeKind::Service));
    assert!(graph.nodes.iter().any(|n| n.kind == NodeKind::Technology));

    assert!(graph.edges.iter().any(|e| e.kind == EdgeKind::Contains));
    assert!(graph.edges.iter().any(|e| e.kind == EdgeKind::ResolvesTo));
    assert!(graph.edges.iter().any(|e| e.kind == EdgeKind::Exposes));
    assert!(graph.edges.iter().any(|e| e.kind == EdgeKind::FingerprintsAs));
}

#[test]
fn snapshot_graph_counts_match_its_lists() {
    let graph = build_graph_from_snapshot(&sample_snapshot());
    assert_eq!(graph.node_count, graph.nodes.len());
    assert_eq!(graph.edge_count, graph.edges.len());
    assert_eq!(graph.stats.technologies, 2);
    assert_eq!(graph.stats.services, 1);
    let ids: Vec<&String> = graph.nodes.iter().map(|n| &n.node_id).collect();
    let mut sorted = ids.clone();
    sorted.sort();
    assert_eq!(ids, sorted);
}

#[test]
fn builds_episode_graph_with_participation_edges() {
    let collection = EpisodeCollection {
        target: "example.com".to_string(),
        episode_count: 1,
        episodes: vec![RiskEpisode {
            episode_id: "ep-1".to_string(),
            target: "example.com".to_string(),
            title: "Episodio test".to_string(),
            kind: CorrelationKind::AdministrativeExposure,
            severity: Severity::High,
            criticality: Criticality::Critical,
            score: 150,
            state: EpisodeState::New,
            resource_count: 2,
            resources: vec![
                "admin.example.com".to_string(),
                "https://admin.example.com".to_string(),
            ],
            cluster_ids: vec!["c1".to_string()],
            started_at: 1_700_000_000,
            ended_at: 1_700_000_600,
            summary: "summary".to_string(),
            explanation: vec!["exp".to_string()],
        }],
    };

    let graph = build_graph_from_episode_collection(&collection);

    assert!(graph.nodes.iter().any(|n| n.kind == NodeKind::Episode));
    assert!(graph.edges.iter().any(|e| e.kind == EdgeKind::ParticipatesIn));
    assert_eq!(graph.edge_count, 3);
    let episode = graph.nodes.iter().find(|n| n.kind == NodeKind::Episode).unwrap();
    assert!(episode
        .attributes
        .iter()
        .any(|(k, v)| k == "score" && v == "150"));
}

#[test]
fn merge_deduplicates_nodes_and_edges() {
    let snapshot = sample_snapshot();
    let mut graph_a = build_graph_from_snapshot(&snapshot);
    let graph_b = build_graph_from_snapshot(&snapshot);

    let before_nodes = graph_a.node_count;
    let before_edges = graph_a.edge_count;

    graph_a.merge(&graph_b);

    assert_eq!(graph_a.node_count, before_nodes);
    assert_eq!(graph_a.edge_count, before_edges);
}

#[test]
fn builds_timeline_graph() {
    let finding = DriftFinding {
        finding_id: "f1".to_string(),
        severity: Severity::High,
        score: 90,
        category: "new_admin_subdomain".to_string(),
        title: "Nuevo subdominio administrativo".to_string(),
        resource: "admin.example.com".to_string(),
        asset_type: AssetType::Subdomain,
        environment: Environment::Admin,
        criticality: Criticality::Critical,
        state: FindingState::Persistent,
        tags: vec!["admin".to_string()],
        description: "desc".to_string(),
    };

    let now = 1_700_000_000;

    let timeline = TimelineReport {
        target: "example.com".to_string(),
        snapshot_count: 3,
        transition_count: 1,
        transitions: vec![TimelineTransition {
            older_timestamp: now,
            newer_timestamp: now,
            report: DriftReport {
                target: "example.com".to_string(),
                older_timestamp: now,
                newer_timestamp: now,
                findings: vec![finding],
                suppressed_findings: vec![],
                groups: vec![],
                summary: empty_summary(),
            },
        }],
        executive: TimelineExecutiveSummary {
            total_score: 90,
            overall_severity: Severity::High,
            total_findings: 1,
            unique_resources: 1,
            critical_findings: 1,
            recurring_findings: 0,
            persistent_findings: 1,
            asset_types: AssetTypeSummary::default(),
            top_resources: vec![ResourceAggregate {
                resource: "admin.example.com".to_string(),
                occurrences: 1,
                total_score: 90,
            }],
            top_categories: vec![CategoryAggregate {
                category: "new_admin_subdomain".to_string(),
                occurrences: 1,
                total_score: 90,
            }],
        },
    };

    let graph = build_graph_from_timeline(&timeline);
    assert!(graph.nodes.iter().any(|n| n.label == "admin.example.com"));
    assert!(graph.edges.iter().any(|e| e.kind == EdgeKind::BelongsTo));
    let node = graph.nodes.iter().find(|n| n.label == "admin.example.com").unwrap();
    let attr = |key: &str| {
        node.attributes
            .iter()
            .find(|(k, _)| k == key)
            .map(|(_, v)| v.clone())
            .unwrap()
    };
    assert_eq!(attr("occurrences"), "1");
    assert_eq!(attr("total_score"), "90");
    assert_eq!(attr("highest_severity"), "HIGH");
    assert_eq!(attr("states"), "Persistent");
    assert_eq!(attr("source"), "timeline");
}
