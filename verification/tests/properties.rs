use atlas::auth::AuthContext;
use atlas::common::{HttpService, ScanResult, SecurityHeaders};
use atlas::correlation::correlation_buckets;
use atlas::correlation::build_affinity_key;
use atlas::diff::{diff_snapshots, Snapshot};
use atlas::drift::{
    AssetType, AssetTypeSummary, Criticality, DriftFinding, DriftPolicy, DriftSummary,
    Environment, FindingState, Severity, StateSummary,
};
use atlas::engine::execute_query;
use atlas::graph::{build_graph_from_snapshot, upsert_node, GraphNode, NodeKind};
use atlas::parser::parse_query;
use atlas::report::{apply_policy, normalize_finding_collection, summarize, DriftReport};
use atlas::risk::build_risk_report;
use atlas::sources::build_full_graph;

const NOW: i64 = 1_700_000_000;

fn headers() -> SecurityHeaders {
    SecurityHeaders {
        strict_transport_security: false,
        content_security_policy: false,
        x_frame_options: false,
        x_content_type_options: false,
        referrer_policy: false,
    }
}

fn service(host: &str, url: &str, scheme: &str) -> HttpService {
    HttpService {
        host: host.to_string(),
        url: url.to_string(),
        scheme: scheme.to_string(),
        status: 200,
        server: Some("nginx".to_string()),
        title: Some("Admin".to_string()),
        content_type: None,
        technologies: vec!["nginx".to_string()],
        provider: None,
        tls_enabled: scheme == "https",
        security_headers: headers(),
    }
}

fn snapshot(ips: Vec<&str>, subdomains: Vec<&str>, services: Vec<HttpService>) -> Snapshot {
    Snapshot {
        snapshot_version: 2,
        timestamp: NOW,
        target: "example.com".to_string(),
        scan: ScanResult {
            target: "example.com".to_string(),
            resolved_ips: ips.into_iter().map(ToString::to_string).collect(),
            subdomains: subdomains.into_iter().map(ToString::to_string).collect(),
            services,
        },
    }
}

fn finding(id: &str, resource: &str, category: &str, severity: Severity, asset: AssetType, env: Environment) -> DriftFinding {
    DriftFinding {
        finding_id: id.to_string(),
        severity,
        score: 40,
        category: category.to_string(),
        title: format!("Hallazgo {}", id),
        resource: resource.to_string(),
        asset_type: asset,
        environment: env,
        criticality: Criticality::High,
        state: FindingState::New,
        tags: vec!["b".to_string(), "a".to_string(), "b".to_string()],
        description: "desc".to_string(),
    }
}

fn sample_findings() -> Vec<DriftFinding> {
    vec![
        finding("1", "https://admin.example.com", "plain_http", Severity::High, AssetType::Service, Environment::Admin),
        finding("2", "admin.example.com", "new_admin_subdomain", Severity::Medium, AssetType::Subdomain, Environment::Admin),
        finding("3", "dev.example.com", "new_nonprod_subdomain", Severity::Low, AssetType::Subdomain, Environment::Development),
        finding("4", "10.0.0.1", "new_ip", Severity::Info, AssetType::Ip, Environment::Unknown),
        finding("5", "http://admin.example.com", "missing_headers", Severity::High, AssetType::Service, Environment::Admin),
    ]
}

fn report_of(findings: Vec<DriftFinding>) -> DriftReport {
    DriftReport {
        target: "example.com".to_string(),
        older_timestamp: NOW,
        newer_timestamp: NOW,
        findings,
        suppressed_findings: vec![],
        groups: vec![],
        summary: DriftSummary {
            high: 0,
            medium: 0,
            low: 0,
            info: 0,
            total_score: 0,
            overall_severity: Severity::Info,
            critical_findings: 0,
            asset_types: AssetTypeSummary::default(),
            states: StateSummary::default(),
        },
    }
}

#[test]
fn reversed_diff_swaps_new_and_removed() {
    let a = snapshot(vec!["1.1.1.1", "2.2.2.2"], vec!["a.example.com"], vec![service("a.example.com", "https://a.example.com", "https")]);
    let b = snapshot(vec!["2.2.2.2", "3.3.3.3"], vec!["b.example.com"], vec![service("b.example.com", "http://b.example.com", "http")]);
    let forward = diff_snapshots(&a, &b);
    let backward = diff_snapshots(&b, &a);
    assert_eq!(forward.new_ips, vec!["3.3.3.3".to_string()]);
    assert_eq!(forward.new_ips, backward.removed_ips);
    assert_eq!(forward.removed_ips, backward.new_ips);
    assert_eq!(forward.new_subdomains, backward.removed_subdomains);
    assert_eq!(forward.removed_subdomains, backward.new_subdomains);
    let fwd_new: Vec<String> = forward.new_services.iter().map(|s| s.url.clone()).collect();
    let back_removed: Vec<String> = backward.removed_services.iter().map(|s| s.url.clone()).collect();
    assert_eq!(fwd_new, vec!["http://b.example.com".to_string()]);
    assert_eq!(fwd_new, back_removed);
}

#[test]
fn correlation_buckets_partition_the_findings() {
    let findings = sample_findings();
    let report = report_of(findings.clone());
    let buckets = correlation_buckets(&report);
    let total: usize = buckets.iter().map(|b| b.len()).sum();
    assert_eq!(total, findings.len());
    assert_eq!(buckets.len(), 3);
    let keys: Vec<String> = buckets.iter().map(|b| build_affinity_key(&b[0])).collect();
    let mut sorted = keys.clone();
    sorted.sort();
    sorted.dedup();
    assert_eq!(keys, sorted);
    for bucket in &buckets {
        let key = build_affinity_key(&bucket[0]);
        assert!(bucket.iter().all(|f| build_affinity_key(f) == key));
    }
    for f in &findings {
        assert!(buckets.iter().any(|b| b.iter().any(|g| g.finding_id == f.finding_id)));
    }
}

#[test]
fn policy_splits_findings_without_loss() {
    let findings = sample_findings();
    let mut policy = DriftPolicy::default();
    policy.allowlisted_categories = vec!["new_ip".to_string(), "plain_http".to_string()];
    let (suppressed, active) = apply_policy(&findings, Some(&policy), NOW);
    assert_eq!(suppressed.len() + active.len(), findings.len());
    assert_eq!(suppressed.len(), 2);
    assert!(suppressed.iter().all(|f| f.state == FindingState::Suppressed));
    assert!(active.iter().all(|f| f.category != "new_ip" && f.category != "plain_http"));
    let (none_suppressed, all_active) = apply_policy(&findings, None, NOW);
    assert!(none_suppressed.is_empty());
    assert_eq!(all_active.len(), findings.len());
}

#[test]
fn normalizing_twice_changes_nothing() {
    let findings = sample_findings();
    let once = normalize_finding_collection(&findings, "example.com");
    let twice = normalize_finding_collection(&once, "example.com");
    assert_eq!(once[0].tags, vec!["a".to_string(), "b".to_string()]);
    for (a, b) in once.iter().zip(twice.iter()) {
        assert_eq!(a.finding_id, b.finding_id);
        assert_eq!(a.tags, b.tags);
        assert_eq!(a.resource, b.resource);
    }
    assert_ne!(once[0].finding_id, findings[0].finding_id);
}

#[test]
fn summary_counts_each_finding_once() {
    let findings = sample_findings();
    let s = summarize(&findings, &vec![]);
    assert_eq!(s.high + s.medium + s.low + s.info, findings.len());
    assert_eq!((s.high, s.medium, s.low, s.info), (2, 1, 1, 1));
    let a = &s.asset_types;
    assert_eq!(a.ips + a.subdomains + a.services + a.unknown, findings.len());
}

#[test]
fn consecutive_pages_cover_the_results() {
    let snap = snapshot(
        vec!["1.1.1.1"],
        vec!["a.example.com", "b.example.com", "c.example.com", "d.example.com", "e.example.com"],
        vec![],
    );
    let graph = build_graph_from_snapshot(&snap);
    let mut first = parse_query("subdomains", 2).unwrap();
    first.offset = 1;
    let mut second = parse_query("subdomains", 2).unwrap();
    second.offset = 3;
    let mut both = parse_query("subdomains", 4).unwrap();
    both.offset = 1;
    let p1 = execute_query(&graph, &first).unwrap();
    let p2 = execute_query(&graph, &second).unwrap();
    let p12 = execute_query(&graph, &both).unwrap();
    assert_eq!(p1.matched_nodes.len(), 2);
    assert_eq!(p2.matched_nodes.len(), 2);
    let joined: Vec<String> = p1
        .matched_nodes
        .iter()
        .chain(p2.matched_nodes.iter())
        .map(|m| m.node_id.clone())
        .collect();
    let whole: Vec<String> = p12.matched_nodes.iter().map(|m| m.node_id.clone()).collect();
    assert_eq!(joined, whole);
    let mut last = parse_query("subdomains", 10).unwrap();
    last.offset = 4;
    let tail = execute_query(&graph, &last).unwrap();
    assert!(tail.summary.total_matches >= 5);
    assert_eq!(tail.matched_nodes.len(), tail.summary.total_matches - 4);
}

#[test]
fn rights_are_nested_and_grow_with_roles() {
    let mut ctx = AuthContext {
        subject: "u".to_string(),
        tenant_id: "t".to_string(),
        project_id: "p".to_string(),
        roles: vec!["ADMIN".to_string()],
    };
    assert!(ctx.is_admin() && ctx.can_write() && ctx.can_read());
    ctx.roles = vec!["reader".to_string()];
    assert!(!ctx.can_write() && ctx.can_read());
    ctx.roles.push("Writer".to_string());
    assert!(ctx.can_write() && ctx.can_read() && !ctx.is_admin());
}

#[test]
fn ranked_risks_are_listed_once() {
    let snap = snapshot(
        vec!["1.1.1.1"],
        vec!["admin.example.com", "dev.example.com"],
        vec![
            service("admin.example.com", "http://admin.example.com", "http"),
            service("dev.example.com", "http://dev.example.com", "http"),
        ],
    );
    let graph = build_full_graph("example.com", Some(&snap), None, None);
    let report = build_risk_report("example.com", None, None, &graph);
    assert!(!report.risks.is_empty());
    let mut keys: Vec<(String, String)> = report
        .risks
        .iter()
        .map(|r| (r.rule_id.clone(), r.resource.clone()))
        .collect();
    let n = keys.len();
    keys.sort();
    keys.dedup();
    assert_eq!(keys.len(), n);
}

#[test]
fn upserting_a_node_twice_keeps_one() {
    let node = GraphNode {
        node_id: "n1".to_string(),
        kind: NodeKind::Subdomain,
        label: "a.example.com".to_string(),
        target: "example.com".to_string(),
        first_seen: Some(NOW),
        last_seen: Some(NOW),
        attributes: vec![],
    };
    let mut later = node.clone();
    later.last_seen = Some(NOW + 60);
    let mut nodes = Vec::new();
    upsert_node(&mut nodes, node.clone());
    upsert_node(&mut nodes, later);
    assert_eq!(nodes.len(), 1);
    assert_eq!(nodes[0].first_seen, Some(NOW));
    assert_eq!(nodes[0].last_seen, Some(NOW + 60));
    let mut other = node;
    other.node_id = "n2".to_string();
    upsert_node(&mut nodes, other);
    assert_eq!(nodes.len(), 2);
}
