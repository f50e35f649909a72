use atlas::classify::{build_base_finding, classify_service_change, FindingSpec};
use atlas::common::SecurityHeaders;
use atlas::diff::{DiffReport, ServiceChange};
use atlas::drift::{
    AssetType, Criticality, DriftPolicy, Environment, FindingState, Severity, TemporaryException,
};
use atlas::ids::normalized_finding_id;
use atlas::report::{analyze_diff, analyze_diff_with_policy};

fn headers() -> SecurityHeaders {
    SecurityHeaders {
        strict_transport_security: false,
        content_security_policy: false,
        x_frame_options: false,
        x_content_type_options: false,
        referrer_policy: false,
    }
}

fn empty_diff() -> DiffReport {
    DiffReport {
        target: "example.com".to_string(),
        older_timestamp: 1_700_000_000,
        newer_timestamp: 1_700_000_300,
        new_ips: Vec::new(),
        removed_ips: Vec::new(),
        new_subdomains: Vec::new(),
        removed_subdomains: Vec::new(),
        new_services: Vec::new(),
        removed_services: Vec::new(),
        changed_services: Vec::new(),
    }
}

#[test]
fn temporary_exception_suppresses_finding() {
    let mut diff = empty_diff();
    diff.new_subdomains.push("dev.example.com".to_string());

    let mut policy = DriftPolicy::default();
    policy.temporary_exceptions = vec![TemporaryException {
        resource: "dev.example.com".to_string(),
        category: "new_nonprod_subdomain".to_string(),
        expires_at: diff.newer_timestamp + 86_400,
        reason: "temporary".to_string(),
    }];

    let report = analyze_diff_with_policy(&diff, Some(&policy));
    assert!(report.findings.is_empty());
    assert_eq!(report.suppressed_findings.len(), 1);
}

#[test]
fn expired_exception_does_not_suppress() {
    let mut diff = empty_diff();
    diff.new_subdomains.push("dev.example.com".to_string());

    let mut policy = DriftPolicy::default();
    policy.temporary_exceptions = vec![TemporaryException {
        resource: "dev.example.com".to_string(),
        category: "new_nonprod_subdomain".to_string(),
        expires_at: diff.newer_timestamp - 1,
        reason: "expired".to_string(),
    }];

    let report = analyze_diff_with_policy(&diff, Some(&policy));
    assert_eq!(report.findings.len(), 1);
    assert!(report.suppressed_findings.is_empty());
}

#[test]
fn baseline_adjusts_score() {
    let mut diff = empty_diff();
    diff.new_ips.push("2.2.2.2".to_string());

    let mut policy = DriftPolicy::default();
    policy.baseline_categories = vec!["new_ip".to_string()];

    let report = analyze_diff_with_policy(&diff, Some(&policy));
    assert!(report.findings[0].score <= 10);
}

#[test]
fn service_change_emits_fingerprint_change() {
    let mut diff = empty_diff();
    diff.changed_services.push(ServiceChange {
        host: "example.com".to_string(),
        url: "https://example.com".to_string(),
        scheme: "https".to_string(),
        before_status: 200,
        after_status: 200,
        before_server: Some("nginx".to_string()),
        after_server: Some("nginx".to_string()),
        before_provider: None,
        after_provider: None,
        before_technologies: vec!["nginx".to_string()],
        after_technologies: vec!["cloudflare".to_string()],
        before_security_headers: headers(),
        after_security_headers: headers(),
    });

    let report = analyze_diff(&diff);
    assert!(!report.findings.is_empty());
}

#[test]
fn service_change_findings_follow_what_changed() {
    let change = ServiceChange {
        host: "example.com".to_string(),
        url: "https://example.com".to_string(),
        scheme: "https".to_string(),
        before_status: 503,
        after_status: 200,
        before_server: Some("nginx".to_string()),
        after_server: Some("envoy".to_string()),
        before_provider: None,
        after_provider: None,
        before_technologies: vec!["nginx".to_string()],
        after_technologies: vec!["nginx".to_string()],
        before_security_headers: headers(),
        after_security_headers: headers(),
    };
    let findings = classify_service_change(&change, None);
    let categories: Vec<&str> = findings.iter().map(|f| f.category.as_str()).collect();
    assert_eq!(categories, vec!["service_became_available", "service_backend_changed"]);
}

#[test]
fn keeps_asset_type_for_service() {
    let finding = build_base_finding(FindingSpec {
        severity: Severity::Medium,
        score: 50,
        category: "new_https_service".to_string(),
        title: "Nuevo servicio HTTPS expuesto".to_string(),
        resource: "https://example.com".to_string(),
        environment: Environment::Production,
        criticality: Criticality::High,
        state: FindingState::New,
        tags: vec![],
        description: "desc".to_string(),
    });

    assert!(matches!(finding.asset_type, AssetType::Service));
}

#[test]
fn finding_id_is_stable() {
    let a = normalized_finding_id("example.com", "new_ip", "2.2.2.2");
    let b = normalized_finding_id("example.com", "new_ip", "2.2.2.2");
    assert_eq!(a, b);
    assert_eq!(a.len(), 24);
}

#[test]
fn finding_id_depends_on_each_part() {
    let a = normalized_finding_id("example.com", "new_ip", "2.2.2.2");
    assert_ne!(a, normalized_finding_id("example.org", "new_ip", "2.2.2.2"));
    assert_ne!(a, normalized_finding_id("example.com", "removed_ip", "2.2.2.2"));
    assert_ne!(a, normalized_finding_id("example.com", "new_ip", "2.2.2.3"));
    assert!(a.chars().all(|c| c.is_ascii_hexdigit() && !c.is_ascii_uppercase()));
}
