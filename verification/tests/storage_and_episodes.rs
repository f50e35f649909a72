use atlas::common::ScanResult;
use atlas::config::AppConfig;
use atlas::correlation::{assemble_cluster, build_episodes_for_timeline};
use atlas::diff::{snapshot_file_names, sort_snapshots_by_time, Snapshot};
use atlas::drift::{
    AssetType, AssetTypeSummary, Criticality, DriftFinding, DriftPolicy, DriftSummary,
    Environment, FindingState, Severity, StateSummary,
};
use atlas::ids::snapshot_content_hash;
use atlas::plugins::default_registry_for;
use atlas::report::DriftReport;
use atlas::timeline::{TimelineExecutiveSummary, TimelineReport, TimelineTransition};

const NOW: i64 = 1_700_000_000;

fn finding(resource: &str, score: u32, criticality: Criticality) -> DriftFinding {
    DriftFinding {
        finding_id: resource.to_string(),
        severity: Severity::High,
        score,
        category: "new_admin_subdomain".to_string(),
        title: "t".to_string(),
        resource: resource.to_string(),
        asset_type: AssetType::Subdomain,
        environment: Environment::Admin,
        criticality,
        state: FindingState::New,
        tags: vec![],
        description: "d".to_string(),
    }
}

fn report(findings: Vec<DriftFinding>) -> DriftReport {
    DriftReport {
        target: "example.com".to_string(),
        older_timestamp: NOW,
        newer_timestamp: NOW + 10,
        findings,
        suppressed_findings: vec![],
        groups: vec![],
        summary: DriftSummary {
            high: 0,
            medium: 0,
            low: 0,
            info: 0,
            total_score: 0,
            overall_severity: Severity::Info,
            critical_findings: 0,
            asset_types: AssetTypeSummary::default(),
            states: StateSummary::default(),
        },
    }
}

fn timeline(reports: Vec<DriftReport>) -> TimelineReport {
    let transitions: Vec<TimelineTransition> = reports
        .into_iter()
        .map(|r| TimelineTransition { older_timestamp: NOW, newer_timestamp: NOW + 10, report: r })
        .collect();
    TimelineReport {
        target: "example.com".to_string(),
        snapshot_count: transitions.len() + 1,
        transition_count: transitions.len(),
        transitions,
        executive: TimelineExecutiveSummary {
            total_score: 0,
            overall_severity: Severity::Info,
            total_findings: 0,
            unique_resources: 0,
            critical_findings: 0,
            recurring_findings: 0,
            persistent_findings: 0,
            asset_types: AssetTypeSummary::default(),
            top_resources: vec![],
            top_categories: vec![],
        },
    }
}

#[test]
fn describes_policy_counts() {
    let mut policy = DriftPolicy::default();
    policy.critical_resources = vec!["a".to_string(), "b".to_string()];
    let lines = policy.describe();
    assert_eq!(lines.len(), 8);
    assert_eq!(lines[0], "allowlisted_resources=0");
    assert_eq!(lines[2], "critical_resources=2");
    assert_eq!(lines[7], "baseline_categories=0");
}

#[test]
fn snapshot_file_name_is_its_time() {
    let snap = Snapshot::taken_at(ScanResult::default(), NOW);
    assert_eq!(snap.filename(), "2023-11-14T22-13-20Z");
}

#[test]
fn missing_snapshot_version_becomes_current() {
    let mut snap = Snapshot::taken_at(ScanResult::default(), NOW);
    snap.snapshot_version = 0;
    assert_eq!(snap.with_current_version().snapshot_version, 2);
    let mut old = Snapshot::taken_at(ScanResult::default(), NOW);
    old.snapshot_version = 1;
    assert_eq!(old.with_current_version().snapshot_version, 1);
}

#[test]
fn snapshots_sort_by_time_stably() {
    let mut a = Snapshot::taken_at(ScanResult::default(), NOW + 20);
    a.target = "a".to_string();
    let mut b = Snapshot::taken_at(ScanResult::default(), NOW);
    b.target = "b".to_string();
    let mut c = Snapshot::taken_at(ScanResult::default(), NOW + 20);
    c.target = "c".to_string();
    let sorted = sort_snapshots_by_time(vec![a, b, c]);
    let order: Vec<&str> = sorted.iter().map(|s| s.target.as_str()).collect();
    assert_eq!(order, vec!["b", "a", "c"]);
}

#[test]
fn picks_json_snapshot_files_sorted() {
    let names = vec![
        "2024-02-01T00-00-00Z.json".to_string(),
        "notes.txt".to_string(),
        ".json".to_string(),
        "2024-01-01T00-00-00Z.json".to_string(),
        "archive.json.bak".to_string(),
    ];
    assert_eq!(
        snapshot_file_names(&names),
        vec!["2024-01-01T00-00-00Z.json".to_string(), "2024-02-01T00-00-00Z.json".to_string()]
    );
}

#[test]
fn hashes_snapshot_bytes() {
    assert_eq!(
        snapshot_content_hash(b""),
        "e3b0c44298fc1c149afbf4c8996fb92427ae41e4649b934ca495991b7852b855"
    );
    assert_eq!(snapshot_content_hash(b"abc").len(), 64);
}

#[test]
fn default_locations_fall_back_to_defaults() {
    let cfg = AppConfig::load_from_default_locations(None);
    assert_eq!(cfg.storage.path, ".atlas/atlas.db");
    let mut custom = AppConfig::default();
    custom.server.bind = "127.0.0.1:9000".to_string();
    let loaded = AppConfig::load_from_default_locations(Some(custom));
    assert_eq!(loaded.server.bind, "127.0.0.1:9000");
}

#[test]
fn episodes_for_timeline_are_sorted_across_transitions() {
    let r1 = report(vec![finding("admin.example.com", 50, Criticality::Critical)]);
    let r2 = report(vec![finding("api.example.com", 90, Criticality::High)]);
    let c1 = assemble_cluster(&r1, r1.findings.clone(), 60);
    let c2 = assemble_cluster(&r2, r2.findings.clone(), 120);
    let t = timeline(vec![r1.clone(), r2.clone()]);
    let collection = build_episodes_for_timeline("example.com", &t, &vec![vec![c1], vec![c2]]);
    assert_eq!(collection.target, "example.com");
    assert_eq!(collection.episode_count, 2);
    assert_eq!(collection.episodes[0].score, 120);
    assert_eq!(collection.episodes[1].score, 60);
}

#[test]
fn plugins_apply_to_every_transition() {
    let r1 = report(vec![finding("admin.example.com", 50, Criticality::Critical)]);
    let r2 = report(vec![finding("api.example.com", 90, Criticality::Low)]);
    let mut t = timeline(vec![r1, r2]);
    let registry = default_registry_for(&vec!["criticality-tag".to_string()]);
    registry.apply_timeline_report(&mut t);
    assert_eq!(t.transitions.len(), 2);
    assert_eq!(t.transitions[0].report.findings[0].tags, vec!["critical-resource".to_string()]);
    assert!(t.transitions[1].report.findings[0].tags.is_empty());
}
