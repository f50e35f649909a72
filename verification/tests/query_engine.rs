use atlas::engine::{
    build_graph_stats_report, compare_string, execute_query, graph_search, parse_datetime,
    GraphSearchRequest,
};
use atlas::graph::{EdgeKind, ExposureGraph, GraphEdge, GraphNode, NodeKind};
use atlas::parser::parse_query;
use atlas::query::Comparator;

const DAY: i64 = 86_400;

fn now() -> i64 {
    std::time::SystemTime::now()
        .duration_since(std::time::UNIX_EPOCH)
        .unwrap()
        .as_secs() as i64
}

fn attrs(pairs: &[(&str, &str)]) -> Vec<(String, String)> {
    pairs
        .iter()
        .map(|(k, v)| (k.to_string(), v.to_string()))
        .collect()
}

fn node(id: &str, kind: NodeKind, label: &str, first: i64, last: i64, a: &[(&str, &str)]) -> GraphNode {
    GraphNode {
        node_id: id.to_string(),
        kind,
        label: label.to_string(),
        target: "example.com".to_string(),
        first_seen: Some(first),
        last_seen: Some(last),
        attributes: attrs(a),
    }
}

fn edge(id: &str, from: &str, to: &str, kind: EdgeKind, first: i64, last: i64) -> GraphEdge {
    GraphEdge {
        edge_id: id.to_string(),
        from: from.to_string(),
        to: to.to_string(),
        kind,
        target: "example.com".to_string(),
        weight: 1,
        first_seen: Some(first),
        last_seen: Some(last),
        attributes: Vec::new(),
    }
}

fn sample_graph() -> ExposureGraph {
    let now = now();
    let earlier = now - 5 * DAY;

    let mut graph = ExposureGraph::empty("example.com");

    graph.nodes.push(node(
        "service1",
        NodeKind::Service,
        "https://admin.example.com",
        earlier,
        now,
        &[
            ("severity", "HIGH"),
            ("state", "New"),
            ("status", "200"),
            ("scheme", "https"),
            ("provider", "cloudflare"),
            ("title", "Admin Panel"),
            ("tls_enabled", "true"),
        ],
    ));
    graph.nodes.push(node(
        "tech1",
        NodeKind::Technology,
        "cloudflare",
        earlier,
        now,
        &[("source", "snapshot")],
    ));
    graph.nodes.push(node(
        "episode1",
        NodeKind::Episode,
        "Infra shift",
        earlier,
        now,
        &[
            ("kind", "InfrastructureShift"),
            ("criticality", "HIGH"),
            ("state", "New"),
            ("score", "120"),
            ("resource_count", "2"),
        ],
    ));
    graph.nodes.push(node("sub1", NodeKind::Subdomain, "admin.example.com", earlier, now, &[]));

    graph.edges.push(edge("e1", "service1", "tech1", EdgeKind::FingerprintsAs, earlier, now));
    graph.edges.push(edge("e2", "service1", "episode1", EdgeKind::ParticipatesIn, earlier, now));
    graph.edges.push(edge("e3", "sub1", "service1", EdgeKind::Exposes, earlier, now));

    graph.recompute_metadata();
    graph
}

fn phase14_graph() -> ExposureGraph {
    let now = now();
    let earlier = now - 7 * DAY;

    let mut graph = ExposureGraph::empty("example.com");

    graph.nodes.push(node(
        "svc_admin",
        NodeKind::Service,
        "https://admin.example.com",
        earlier,
        now,
        &[
            ("severity", "HIGH"),
            ("state", "Persistent"),
            ("provider", "cloudflare"),
            ("title", "Admin Panel"),
            ("status", "200"),
            ("scheme", "https"),
            ("tls_enabled", "true"),
        ],
    ));
    graph.nodes.push(node(
        "svc_api",
        NodeKind::Service,
        "http://api.example.com",
        earlier,
        now - 2 * DAY,
        &[
            ("severity", "MEDIUM"),
            ("state", "New"),
            ("provider", "internal"),
            ("title", "API"),
            ("status", "200"),
            ("scheme", "http"),
            ("tls_enabled", "false"),
        ],
    ));
    graph.nodes.push(node("tech_cf", NodeKind::Technology, "cloudflare", earlier, now, &[]));
    graph.nodes.push(node("tech_nginx", NodeKind::Technology, "nginx", earlier, now, &[]));
    graph.nodes.push(node(
        "ep1",
        NodeKind::Episode,
        "Unsafe deployment",
        earlier,
        now,
        &[
            ("kind", "InfrastructureShift"),
            ("criticality", "CRITICAL"),
            ("severity", "HIGH"),
            ("score", "180"),
            ("resource_count", "3"),
            ("state", "New"),
        ],
    ));
    graph.nodes.push(node("sub_admin", NodeKind::Subdomain, "admin.example.com", earlier, now, &[]));

    graph.edges.push(edge("e1", "svc_admin", "tech_cf", EdgeKind::FingerprintsAs, earlier, now));
    graph.edges.push(edge("e2", "svc_api", "tech_nginx", EdgeKind::FingerprintsAs, earlier, now));
    graph.edges.push(edge("e3", "svc_admin", "ep1", EdgeKind::ParticipatesIn, earlier, now));
    graph.edges.push(edge("e4", "sub_admin", "svc_admin", EdgeKind::Exposes, earlier, now));

    graph.recompute_metadata();
    graph
}

#[test]
fn finds_services_by_preset() {
    let graph = sample_graph();
    let request = parse_query("services", 20).unwrap();
    let result = execute_query(&graph, &request).unwrap();
    assert_eq!(result.summary.total_matches, 1);
    assert_eq!(result.matched_nodes[0].kind, NodeKind::Service);
}

#[test]
fn finds_service_by_technology() {
    let graph = sample_graph();
    let request = parse_query("services technology=cloudflare", 20).unwrap();
    let result = execute_query(&graph, &request).unwrap();
    assert_eq!(result.summary.total_matches, 1);
}

#[test]
fn finds_episodes_by_kind() {
    let graph = sample_graph();
    let request = parse_query("episodes episode_kind=InfrastructureShift", 20).unwrap();
    let result = execute_query(&graph, &request).unwrap();
    assert_eq!(result.summary.total_matches, 1);
    assert_eq!(result.matched_nodes[0].kind, NodeKind::Episode);
}

#[test]
fn graph_search_filters_by_label() {
    let graph = sample_graph();
    let result = graph_search(
        &graph,
        &GraphSearchRequest {
            kind: Some(NodeKind::Service),
            label_contains: Some("admin".to_string()),
            min_degree: Some(1),
            limit: 10,
        },
    );

    assert_eq!(result.summary.total_matches, 1);
}

#[test]
fn graph_search_sorts_by_degree_and_limits() {
    let graph = sample_graph();
    let result = graph_search(
        &graph,
        &GraphSearchRequest { kind: None, label_contains: None, min_degree: None, limit: 2 },
    );
    assert_eq!(result.summary.total_matches, 2);
    assert_eq!(result.matched_nodes.len(), 2);
    assert_eq!(result.matched_nodes[0].node_id, "service1");
    assert_eq!(result.matched_nodes[0].degree, 3);
    assert_eq!(result.raw_query, "graph-search");
}

#[test]
fn boolean_or_query_matches_multiple_kinds() {
    let graph = sample_graph();
    let request = parse_query(r#"kind=service OR (kind=episode AND criticality>=high)"#, 20).unwrap();

    let result = execute_query(&graph, &request).unwrap();
    assert_eq!(result.summary.total_matches, 2);
}

#[test]
fn quoted_title_query_matches_service() {
    let graph = sample_graph();
    let request = parse_query(r#"services title~"admin panel""#, 20).unwrap();
    let result = execute_query(&graph, &request).unwrap();
    assert_eq!(result.summary.total_matches, 1);
}

#[test]
fn not_clause_excludes_service() {
    let graph = sample_graph();
    let request = parse_query(r#"services NOT provider=cloudflare"#, 20).unwrap();
    let result = execute_query(&graph, &request).unwrap();
    assert_eq!(result.summary.total_matches, 0);
}

#[test]
fn relation_filters_work() {
    let graph = sample_graph();
    let request = parse_query(
        r#"services connected_to=admin.example.com AND in_episode=true AND edge_kind=participates_in"#,
        20,
    )
    .unwrap();

    let result = execute_query(&graph, &request).unwrap();
    assert_eq!(result.summary.total_matches, 1);
}

#[test]
fn time_filters_work() {
    let graph = sample_graph();
    let threshold = chrono::DateTime::from_timestamp(now() - 2 * DAY, 0)
        .unwrap()
        .format("%Y-%m-%d")
        .to_string();
    let query = format!("services last_seen>={threshold}");
    let request = parse_query(&query, 20).unwrap();
    let result = execute_query(&graph, &request).unwrap();
    assert_eq!(result.summary.total_matches, 1);
}

#[test]
fn bad_values_are_errors() {
    let graph = sample_graph();
    let request = parse_query("services last_seen>=yesterday", 20).unwrap();
    let err = execute_query(&graph, &request).unwrap_err();
    assert_eq!(err, "fecha inválida: yesterday. Usa RFC3339 o YYYY-MM-DD");

    let request = parse_query("degree>=many", 20).unwrap();
    let err = execute_query(&graph, &request).unwrap_err();
    assert_eq!(err, "degree debe ser numérico");

    let request = parse_query("kind=router", 20).unwrap();
    let err = execute_query(&graph, &request).unwrap_err();
    assert_eq!(err, "node kind no soportado: router");
}

#[test]
fn explain_populates_reasons() {
    let graph = sample_graph();
    let request = parse_query(r#"EXPLAIN services technology=cloudflare"#, 20).unwrap();
    let result = execute_query(&graph, &request).unwrap();
    assert!(result.explain);
    assert!(!result.matched_nodes[0].explanations.is_empty());
    assert_eq!(
        result.matched_nodes[0].explanations,
        vec![
            "preset matched: services".to_string(),
            "matched clause: technology=cloudflare".to_string(),
        ]
    );
}

#[test]
fn order_limit_offset_work() {
    let graph = sample_graph();
    let request = parse_query(
        r#"kind=service OR kind=subdomain ORDER BY label ASC LIMIT 1 OFFSET 1"#,
        50,
    )
    .unwrap();

    let result = execute_query(&graph, &request).unwrap();
    assert_eq!(result.summary.total_matches, 2);
    assert_eq!(result.summary.returned_matches, 1);
    assert_eq!(result.matched_nodes[0].label, "https://admin.example.com");
    assert_eq!(result.offset, 1);
}

#[test]
fn summary_counts_kinds_in_name_order() {
    let graph = sample_graph();
    let request = parse_query("kind=service OR kind=subdomain OR kind=episode", 50).unwrap();
    let result = execute_query(&graph, &request).unwrap();
    assert_eq!(
        result.summary.kind_counts,
        vec![
            ("Episode".to_string(), 1),
            ("Service".to_string(), 1),
            ("Subdomain".to_string(), 1),
        ]
    );
    assert_eq!(result.summary.max_degree, 3);
}

#[test]
fn full_phase14_query_dsl_works() {
    let graph = phase14_graph();

    let request = parse_query(
        r#"EXPLAIN services (technology=cloudflare OR title~"admin panel") AND in_episode=true ORDER BY degree DESC LIMIT 10 OFFSET 0"#,
        25,
    )
    .unwrap();

    let result = execute_query(&graph, &request).unwrap();

    assert_eq!(result.summary.total_matches, 1);
    assert_eq!(result.summary.returned_matches, 1);
    assert_eq!(result.matched_nodes[0].label, "https://admin.example.com");
    assert!(result.explain);
    assert!(!result.matched_nodes[0].explanations.is_empty());
}

#[test]
fn phase14_episode_numeric_and_rank_filters_work() {
    let graph = phase14_graph();

    let request = parse_query(r#"episodes criticality>=high AND score>=100 AND resource_count>=2"#, 25).unwrap();

    let result = execute_query(&graph, &request).unwrap();
    assert_eq!(result.summary.total_matches, 1);
    assert_eq!(result.matched_nodes[0].kind, NodeKind::Episode);
}

#[test]
fn phase14_not_and_sort_work() {
    let graph = phase14_graph();

    let request = parse_query(r#"services NOT tls_enabled=true ORDER BY label ASC LIMIT 5"#, 25).unwrap();

    let result = execute_query(&graph, &request).unwrap();
    assert_eq!(result.summary.total_matches, 1);
    assert_eq!(result.matched_nodes[0].label, "http://api.example.com");
}

#[test]
fn compare_string_matches_list_items() {
    assert!(compare_string("Nginx, Cloudflare", "cloudflare", Comparator::Eq));
    assert!(!compare_string("nginx", "ngin", Comparator::Eq));
    assert!(compare_string("nginx", "GIN", Comparator::Contains));
    assert!(!compare_string("b", "a", Comparator::Gt));
}

#[test]
fn parses_dates_and_instants() {
    assert_eq!(parse_datetime("1970-01-02").unwrap(), (86_400, 0));
    assert_eq!(parse_datetime("1970-01-01T00:00:10.5Z").unwrap(), (10, 500_000_000));
    assert!(parse_datetime("not a date").is_err());
}

#[test]
fn stats_report_copies_the_graph_metadata() {
    let graph = sample_graph();
    let report = build_graph_stats_report(&graph);
    assert_eq!(report.node_count, graph.node_count);
    assert_eq!(report.edge_count, graph.edge_count);
    assert_eq!(report.topology.max_degree, graph.topology.max_degree);
    assert_eq!(report.stats, graph.stats);
}

fn matched_ids(graph: &ExposureGraph, query: &str) -> Vec<String> {
    let request = parse_query(query, 100).unwrap();
    let result = execute_query(graph, &request).unwrap();
    let mut ids: Vec<String> = result.matched_nodes.iter().map(|m| m.node_id.clone()).collect();
    ids.sort();
    ids
}

#[test]
fn negation_laws_hold_on_queries() {
    let graph = sample_graph();
    let not_and = matched_ids(&graph, "NOT (kind=service AND label~admin)");
    let or_nots = matched_ids(&graph, "(NOT kind=service) OR (NOT label~admin)");
    assert_eq!(not_and, or_nots);
    let not_or = matched_ids(&graph, "NOT (kind=service OR kind=subdomain)");
    let and_nots = matched_ids(&graph, "(NOT kind=service) AND (NOT kind=subdomain)");
    assert_eq!(not_or, and_nots);
    let double = matched_ids(&graph, "NOT (NOT kind=service)");
    let plain = matched_ids(&graph, "kind=service");
    assert_eq!(double, plain);
    assert!(!plain.is_empty());
}
