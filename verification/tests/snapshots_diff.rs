use atlas::common::{HttpService, ScanResult, SecurityHeaders};
use atlas::diff::{diff_snapshots, Snapshot};
use atlas::drift::FindingState;
use atlas::timeline::build_timeline_report;

fn headers() -> SecurityHeaders {
    SecurityHeaders {
        strict_transport_security: false,
        content_security_policy: false,
        x_frame_options: false,
        x_content_type_options: false,
        referrer_policy: false,
    }
}

fn service(host: &str, url: &str, scheme: &str, status: u16, server: Option<&str>) -> HttpService {
    HttpService {
        host: host.to_string(),
        url: url.to_string(),
        scheme: scheme.to_string(),
        status,
        server: server.map(ToString::to_string),
        title: None,
        content_type: None,
        technologies: Vec::new(),
        provider: None,
        tls_enabled: scheme == "https",
        security_headers: headers(),
    }
}

fn snapshot(target: &str, ips: Vec<&str>, subdomains: Vec<&str>, services: Vec<HttpService>) -> Snapshot {
    Snapshot {
        snapshot_version: 2,
        timestamp: 1_700_000_000,
        target: target.to_string(),
        scan: ScanResult {
            target: target.to_string(),
            resolved_ips: ips.into_iter().map(ToString::to_string).collect(),
            subdomains: subdomains.into_iter().map(ToString::to_string).collect(),
            services,
        },
    }
}

#[test]
fn detects_new_and_removed_items() {
    let old = snapshot(
        "example.com",
        vec!["1.1.1.1"],
        vec!["www.example.com"],
        vec![service("example.com", "http://example.com", "http", 200, Some("nginx"))],
    );

    let new = snapshot(
        "example.com",
        vec!["2.2.2.2"],
        vec!["api.example.com"],
        vec![service(
            "api.example.com",
            "https://api.example.com",
            "https",
            200,
            Some("cloudflare"),
        )],
    );

    let report = diff_snapshots(&old, &new);

    assert_eq!(report.new_ips, vec!["2.2.2.2"]);
    assert_eq!(report.removed_ips, vec!["1.1.1.1"]);
    assert_eq!(report.new_subdomains, vec!["api.example.com"]);
    assert_eq!(report.removed_subdomains, vec!["www.example.com"]);
    assert_eq!(report.new_services.len(), 1);
    assert_eq!(report.removed_services.len(), 1);
}

#[test]
fn detects_changed_services() {
    let old = snapshot(
        "example.com",
        vec![],
        vec![],
        vec![service("example.com", "https://example.com", "https", 200, Some("nginx"))],
    );

    let mut changed = service("example.com", "https://example.com", "https", 503, Some("cloudflare"));
    changed.provider = Some("Cloudflare".to_string());
    changed.technologies = vec!["cloudflare".to_string()];

    let new = snapshot("example.com", vec![], vec![], vec![changed]);

    let report = diff_snapshots(&old, &new);

    assert!(report.new_services.is_empty());
    assert!(report.removed_services.is_empty());
    assert_eq!(report.changed_services.len(), 1);
    assert_eq!(report.changed_services[0].before_status, 200);
    assert_eq!(report.changed_services[0].after_status, 503);
}

#[test]
fn diff_lists_are_sorted_and_distinct() {
    let old = snapshot("example.com", vec!["9.9.9.9"], vec![], vec![]);
    let new = snapshot(
        "example.com",
        vec!["3.3.3.3", "1.1.1.1", "3.3.3.3", "9.9.9.9"],
        vec![],
        vec![
            service("b.example.com", "https://b.example.com", "https", 200, None),
            service("a.example.com", "https://a.example.com", "https", 200, None),
            service("a.example.com", "https://a.example.com", "https", 404, None),
        ],
    );
    let report = diff_snapshots(&old, &new);
    assert_eq!(report.new_ips, vec!["1.1.1.1", "3.3.3.3"]);
    assert_eq!(report.new_services.len(), 2);
    assert_eq!(report.new_services[0].url, "https://a.example.com");
    assert_eq!(report.new_services[0].status, 404);
    assert_eq!(report.new_services[1].url, "https://b.example.com");
    assert!(report.has_changes());
}

#[test]
fn identical_snapshots_have_no_changes() {
    let s = snapshot(
        "example.com",
        vec!["1.1.1.1"],
        vec!["www.example.com"],
        vec![service("example.com", "https://example.com", "https", 200, Some("nginx"))],
    );
    let report = diff_snapshots(&s, &s);
    assert!(!report.has_changes());
}

#[test]
fn timeline_marks_recurrence() {
    let mut s1 = snapshot("example.com", vec![], vec![], vec![]);
    let mut s2 = snapshot("example.com", vec![], vec![], vec![]);
    let mut s3 = snapshot("example.com", vec![], vec![], vec![]);

    s1.timestamp = 1_700_000_000;
    s2.timestamp = s1.timestamp + 300;
    s3.timestamp = s2.timestamp + 300;

    s2.scan.subdomains.push("admin.example.com".to_string());
    s3.scan.subdomains.push("admin.example.com".to_string());

    let timeline = build_timeline_report("example.com", &vec![s1, s2, s3], None).unwrap();
    assert_eq!(timeline.transition_count, 2);
}

#[test]
fn timeline_needs_two_snapshots() {
    let s1 = snapshot("example.com", vec![], vec![], vec![]);
    let err = build_timeline_report("example.com", &vec![s1], None).unwrap_err();
    assert_eq!(err, "se requieren al menos 2 snapshots para construir un timeline");
}

#[test]
fn timeline_counts_repeated_findings() {
    let s1 = snapshot("example.com", vec![], vec![], vec![]);
    let mut s2 = snapshot("example.com", vec!["2.2.2.2"], vec![], vec![]);
    s2.timestamp += 60;
    let mut s3 = snapshot("example.com", vec![], vec![], vec![]);
    s3.timestamp += 120;
    let mut s4 = snapshot("example.com", vec!["2.2.2.2"], vec![], vec![]);
    s4.timestamp += 180;

    let timeline = build_timeline_report("example.com", &vec![s1, s2, s3, s4], None).unwrap();
    assert_eq!(timeline.transitions.len(), 3);
    let first = &timeline.transitions[0].report.findings[0];
    assert_eq!(first.state, FindingState::New);
    let third = &timeline.transitions[2].report.findings[0];
    assert_eq!(third.category, first.category);
    assert_eq!(third.state, FindingState::Recurring);
    assert_eq!(third.score, first.score + 10);
    assert_eq!(timeline.executive.total_findings, 3);
    assert_eq!(timeline.executive.recurring_findings, 1);
}
