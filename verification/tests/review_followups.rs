use atlas::auth::{bearer_token, ApiError};
use atlas::common::{HttpService, ScanResult, SecurityHeaders};
use atlas::diff::Snapshot;
use atlas::drift::{
    AssetType, Criticality, DriftFinding, Environment, FindingState, FindingV, Severity,
};
use atlas::graph::build_graph_from_snapshot;
use atlas::jobs::{JobDispatchRequest, JobQueueItem, JobQueueStatus, JobTrigger};
use atlas::plugins::{BuiltinPlugin, PluginRegistry, ReportPlugin};
use atlas::timeline::resolved_findings;

fn request() -> JobDispatchRequest {
    JobDispatchRequest::new(
        "tenant-a".to_string(),
        "project-x".to_string(),
        "job-1".to_string(),
        "example.com".to_string(),
        "standard".to_string(),
        JobTrigger::Manual,
    )
}

#[test]
fn lifecycle_keeps_the_claiming_worker() {
    let mut item = JobQueueItem::from_dispatch(request());
    item.claim("worker-1".to_string(), 30);
    let claimed_at = item.claimed_at;
    assert!(claimed_at.is_some());
    assert_eq!(item.lease_expires_at, Some(claimed_at.unwrap() + 30));
    item.start();
    item.succeed();
    assert_eq!(item.status, JobQueueStatus::Succeeded);
    assert_eq!(item.lease_expires_at, None);
    assert_eq!(item.claimed_by, Some("worker-1".to_string()));
    assert_eq!(item.claimed_at, claimed_at);
    assert_eq!(item.attempts, 0);
}

#[test]
fn failed_attempt_releases_claim_and_delays_retry() {
    let mut item = JobQueueItem::from_dispatch(request());
    item.claim("worker-1".to_string(), 30);
    item.fail("boom".to_string(), Some(60));
    assert_eq!(item.status, JobQueueStatus::Pending);
    assert_eq!(item.attempts, 1);
    assert_eq!(item.claimed_by, None);
    assert_eq!(item.claimed_at, None);
    assert_eq!(item.lease_expires_at, None);
    assert_eq!(item.available_at, item.updated_at + 60);
    assert_eq!(item.last_error, Some("boom".to_string()));

    let mut again = JobQueueItem::from_dispatch(request());
    again.fail("no delay".to_string(), None);
    assert_eq!(again.available_at, again.created_at);
}

#[test]
fn failing_for_good_keeps_availability() {
    let mut req = request();
    req.max_attempts = 1;
    let mut item = JobQueueItem::from_dispatch(req);
    let available = item.available_at;
    item.fail("boom".to_string(), Some(60));
    assert_eq!(item.status, JobQueueStatus::Failed);
    assert_eq!(item.available_at, available);
}

fn headers() -> SecurityHeaders {
    SecurityHeaders {
        strict_transport_security: false,
        content_security_policy: false,
        x_frame_options: false,
        x_content_type_options: false,
        referrer_policy: false,
    }
}

fn snapshot() -> Snapshot {
    Snapshot {
        snapshot_version: 2,
        timestamp: 1_700_000_000,
        target: "example.com".to_string(),
        scan: ScanResult {
            target: "example.com".to_string(),
            resolved_ips: vec!["1.1.1.1".to_string(), "2.2.2.2".to_string()],
            subdomains: vec!["admin.example.com".to_string(), "api.example.com".to_string()],
            services: vec![HttpService {
                host: "admin.example.com".to_string(),
                url: "https://admin.example.com".to_string(),
                scheme: "https".to_string(),
                status: 200,
                server: Some("nginx".to_string()),
                title: Some("Admin".to_string()),
                content_type: Some("text/html".to_string()),
                technologies: vec!["nginx".to_string()],
                provider: None,
                tls_enabled: true,
                security_headers: headers(),
            }],
        },
    }
}

#[test]
fn merging_an_equal_graph_keeps_identifiers_in_order() {
    let s = snapshot();
    let mut a = build_graph_from_snapshot(&s);
    let b = build_graph_from_snapshot(&s);
    let node_ids: Vec<String> = a.nodes.iter().map(|n| n.node_id.clone()).collect();
    let edge_ids: Vec<String> = a.edges.iter().map(|e| e.edge_id.clone()).collect();
    a.merge(&b);
    assert_eq!(a.nodes.iter().map(|n| n.node_id.clone()).collect::<Vec<_>>(), node_ids);
    assert_eq!(a.edges.iter().map(|e| e.edge_id.clone()).collect::<Vec<_>>(), edge_ids);
    assert_eq!(a.node_count, node_ids.len());
    assert_eq!(a.edge_count, edge_ids.len());
}

#[test]
fn bearer_header_gives_its_trimmed_token() {
    assert_eq!(bearer_token("Bearer  abc.def  "), Ok("abc.def".to_string()));
    assert_eq!(
        bearer_token("Basic dXNlcjpwYXNz"),
        Err(ApiError::Unauthorized("authorization debe usar esquema Bearer".to_string()))
    );
    assert!(bearer_token("bearer abc").is_err());
}

/// A plugin of the library's user: raises every finding to high severity.
struct Escalate;

impl ReportPlugin for Escalate {
    fn effect(&self, f: FindingV) -> FindingV {
        FindingV { severity: Severity::High, ..f }
    }

    fn name(&self) -> &'static str {
        "escalate"
    }

    fn process_finding(&self, finding: &mut DriftFinding) {
        finding.severity = Severity::High;
    }
}

fn finding() -> DriftFinding {
    DriftFinding {
        finding_id: "f1".to_string(),
        severity: Severity::Medium,
        score: 80,
        category: "new_subdomain".to_string(),
        title: "Nuevo subdominio".to_string(),
        resource: "admin.example.com".to_string(),
        asset_type: AssetType::Subdomain,
        environment: Environment::Production,
        criticality: Criticality::Critical,
        state: FindingState::New,
        tags: vec![],
        description: "d".to_string(),
    }
}

#[test]
fn users_register_their_own_plugins() {
    let registry = PluginRegistry::new(vec![Escalate]);
    let mut f = finding();
    registry.apply_finding(&mut f);
    assert_eq!(f.severity, Severity::High);
    assert!(f.tags.is_empty());
    let builtin = PluginRegistry::new(vec![BuiltinPlugin::CriticalityTag]);
    assert_eq!(builtin.names(), vec!["criticality-tag"]);
    let mut g = finding();
    builtin.apply_finding(&mut g);
    assert_eq!(g.tags, vec!["critical-resource".to_string()]);
}

#[test]
fn findings_that_disappear_are_resolved() {
    let mut kept = finding();
    kept.resource = "api.example.com".to_string();
    let gone = finding();
    let previous = vec![gone.clone(), kept.clone()];
    let mut later = kept.clone();
    later.state = FindingState::Recurring;
    later.score = 90;
    let current = vec![later];
    let resolved = resolved_findings(&previous, &current);
    assert_eq!(resolved.len(), 1);
    assert_eq!(resolved[0].resource, "admin.example.com");
    assert_eq!(resolved[0].state, FindingState::Resolved);
    assert_eq!(resolved[0].score, gone.score);
    assert!(resolved_findings(&current, &previous).is_empty());
}
