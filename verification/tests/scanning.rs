use atlas::discovery::normalize_target;
use atlas::http::{detect_security_headers, detect_technologies, extract_title, ResponseHeaders};

#[test]
fn normalizes_http_target() {
    assert_eq!(normalize_target("https://Example.com/"), "example.com");
}

#[test]
fn normalizes_plain_http_and_trailing_slashes() {
    assert_eq!(normalize_target("  http://API.Example.com//  "), "api.example.com");
    assert_eq!(normalize_target("example.com"), "example.com");
}

#[test]
fn extracts_title() {
    let body = "<html><head><title>Admin Portal</title></head></html>";
    let title = extract_title(Some(body));

    assert_eq!(title.as_deref(), Some("Admin Portal"));
}

#[test]
fn extract_title_needs_a_closed_non_empty_title() {
    assert_eq!(extract_title(None), None);
    assert_eq!(extract_title(Some("<html><title></title></html>")), None);
    assert_eq!(extract_title(Some("<html><title>Open")), None);
    assert_eq!(
        extract_title(Some("<TITLE>  Spaced Out  </TITLE>")).as_deref(),
        Some("Spaced Out")
    );
}

#[test]
fn detects_security_headers() {
    let headers = ResponseHeaders {
        strict_transport_security: true,
        content_security_policy: true,
        ..Default::default()
    };

    let detected = detect_security_headers(&headers);

    assert!(detected.strict_transport_security);
    assert!(detected.content_security_policy);
    assert!(!detected.x_frame_options);
}

#[test]
fn detects_technologies() {
    let headers = ResponseHeaders {
        x_powered_by: Some("Express".to_string()),
        ..Default::default()
    };

    let tech = detect_technologies(
        &headers,
        Some("nginx"),
        Some("text/html"),
        Some("Admin Dashboard"),
    );

    assert!(tech.iter().any(|t| t == "nginx"));
    assert!(tech.iter().any(|t| t == "nodejs-express"));
    assert!(tech.iter().any(|t| t == "html-app"));
    assert!(tech.iter().any(|t| t == "admin-ui"));
}

#[test]
fn detected_technologies_are_sorted_and_distinct() {
    let headers = ResponseHeaders {
        x_powered_by: Some("Express".to_string()),
        cf_cache_status: true,
        ..Default::default()
    };
    let tech = detect_technologies(&headers, Some("cloudflare"), None, None);
    let mut sorted = tech.clone();
    sorted.sort();
    sorted.dedup();
    assert_eq!(tech, sorted);
    assert!(tech.iter().any(|t| t == "cloudflare"));
}

fn probed(url: &str, status: u16) -> atlas::common::HttpService {
    atlas::common::HttpService {
        host: "example.com".to_string(),
        url: url.to_string(),
        scheme: if url.starts_with("https") { "https".to_string() } else { "http".to_string() },
        status,
        server: None,
        title: None,
        content_type: None,
        technologies: vec![],
        provider: None,
        tls_enabled: url.starts_with("https"),
        security_headers: atlas::common::SecurityHeaders::default(),
    }
}

#[test]
fn probed_services_keep_one_per_url_in_url_order() {
    let services = vec![
        probed("https://example.com", 200),
        probed("http://example.com", 301),
        probed("https://example.com", 500),
    ];
    let unique = atlas::http::unique_services_by_url(&services);
    let seen: Vec<(String, u16)> = unique.iter().map(|s| (s.url.clone(), s.status)).collect();
    assert_eq!(
        seen,
        vec![("http://example.com".to_string(), 301), ("https://example.com".to_string(), 200)]
    );
}

#[test]
fn subdomain_candidates_follow_the_common_labels() {
    let c = atlas::discovery::common_subdomain_candidates("example.com");
    assert_eq!(c.len(), 10);
    assert_eq!(c[0], "www.example.com");
    assert_eq!(c[4], "admin.example.com");
    assert_eq!(c[9], "beta.example.com");
}
