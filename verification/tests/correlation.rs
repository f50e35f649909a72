use atlas::correlation::{
    build_affinity_key, cluster_base_score, correlate_with_scores, correlation_buckets,
    criticality_weight, infer_kind, CorrelationCluster, CorrelationKind, CriticalityWeight,
};
use atlas::drift::{
    AssetType, AssetTypeSummary, Criticality, DriftFinding, DriftSummary, Environment,
    FindingState, Severity, StateSummary,
};
use atlas::report::DriftReport;

fn finding(resource: &str, category: &str, env: Environment, score: u32) -> DriftFinding {
    DriftFinding {
        finding_id: format!("{category}:{resource}"),
        severity: Severity::High,
        score,
        category: category.to_string(),
        title: category.to_string(),
        resource: resource.to_string(),
        asset_type: if resource.starts_with("http") {
            AssetType::Service
        } else {
            AssetType::Subdomain
        },
        environment: env,
        criticality: Criticality::Critical,
        state: FindingState::New,
        tags: vec![],
        description: "test".to_string(),
    }
}

fn empty_summary() -> DriftSummary {
    DriftSummary {
        high: 0,
        medium: 0,
        low: 0,
        info: 0,
        total_score: 0,
        overall_severity: Severity::Info,
        critical_findings: 0,
        asset_types: AssetTypeSummary::default(),
        states: StateSummary::default(),
    }
}

fn weighted_score(findings: &Vec<DriftFinding>) -> u32 {
    let kind = infer_kind(findings);
    let base = cluster_base_score(findings, &kind);
    let multiplier = match criticality_weight(findings) {
        CriticalityWeight::Critical => 1.30,
        CriticalityWeight::High => 1.15,
        CriticalityWeight::Plain => 1.0,
    };
    ((base as f64) * multiplier).round() as u32
}

fn correlate(report: &DriftReport) -> Vec<CorrelationCluster> {
    let buckets = correlation_buckets(report);
    let scores: Vec<u32> = buckets.iter().map(weighted_score).collect();
    correlate_with_scores(report, buckets, &scores)
}

#[test]
fn correlates_admin_cluster() {
    let report = DriftReport {
        target: "example.com".to_string(),
        older_timestamp: 1_700_000_000,
        newer_timestamp: 1_700_000_300,
        findings: vec![
            finding("admin.example.com", "new_admin_subdomain", Environment::Admin, 95),
            finding("http://admin.example.com", "new_http_service", Environment::Admin, 90),
        ],
        suppressed_findings: vec![],
        groups: vec![],
        summary: empty_summary(),
    };

    let clusters = correlate(&report);
    assert!(!clusters.is_empty());
    assert_eq!(clusters[0].kind, CorrelationKind::AdministrativeExposure);
    assert_eq!(clusters.len(), 1);
    assert_eq!(clusters[0].findings.len(), 2);
    assert_eq!(clusters[0].findings[0].score, 95);
    assert_eq!(clusters[0].score, 299);
    assert_eq!(clusters[0].cluster_id.len(), 24);
    assert_eq!(
        clusters[0].resources,
        vec!["admin.example.com".to_string(), "http://admin.example.com".to_string()]
    );
}

#[test]
fn affinity_key_joins_base_resource_and_environment() {
    let f = finding("https://api.example.com", "new_https_service", Environment::Production, 50);
    assert_eq!(build_affinity_key(&f), "api.example.com|Production");
}

#[test]
fn clusters_come_by_descending_score() {
    let report = DriftReport {
        target: "example.com".to_string(),
        older_timestamp: 1_700_000_000,
        newer_timestamp: 1_700_000_300,
        findings: vec![
            finding("a.example.com", "new_subdomain", Environment::Unknown, 10),
            finding("b.example.com", "new_subdomain", Environment::Unknown, 60),
        ],
        suppressed_findings: vec![],
        groups: vec![],
        summary: empty_summary(),
    };
    let clusters = correlate(&report);
    assert_eq!(clusters.len(), 2);
    assert!(clusters[0].score >= clusters[1].score);
    assert_eq!(clusters[0].resources, vec!["b.example.com".to_string()]);
}
