use atlas::common::{ScanResult, SecurityHeaders};
use atlas::classify::classify_service_change;
use atlas::correlation::{build_cluster_id, CorrelationKind};
use atlas::diff::{ServiceChange, Snapshot};
use atlas::graph::{build_graph_from_snapshot_at, NodeKind};
use sha2::{Digest, Sha256};

const NOW: i64 = 1_700_000_000;

fn change(before_server: Option<&str>, after_server: Option<&str>, before: Vec<&str>, after: Vec<&str>) -> ServiceChange {
    ServiceChange {
        host: "example.com".to_string(),
        url: "https://example.com".to_string(),
        scheme: "https".to_string(),
        before_status: 200,
        after_status: 200,
        before_server: before_server.map(ToString::to_string),
        after_server: after_server.map(ToString::to_string),
        before_provider: None,
        after_provider: Some("Cloudflare".to_string()),
        before_technologies: before.into_iter().map(ToString::to_string).collect(),
        after_technologies: after.into_iter().map(ToString::to_string).collect(),
        before_security_headers: SecurityHeaders::default(),
        after_security_headers: SecurityHeaders::default(),
    }
}

#[test]
fn backend_change_is_described_with_debug_texts() {
    let findings = classify_service_change(&change(Some("nginx"), None, vec!["a"], vec!["a", "b"]), None);
    let backend = findings.iter().find(|f| f.category == "service_backend_changed").unwrap();
    assert_eq!(
        backend.description,
        "El servicio https://example.com cambió backend/provider/server de Some(\"nginx\")/None a None/Some(\"Cloudflare\")."
    );
    let tech = findings.iter().find(|f| f.description.contains("cambió de tecnologías")).unwrap();
    assert!(tech.description.contains("[\"a\"] a [\"a\", \"b\"]"));
}

#[test]
fn snapshot_graph_records_the_snapshot_time() {
    let snap = Snapshot::taken_at(
        ScanResult { target: "example.com".to_string(), ..ScanResult::default() },
        NOW,
    );
    let graph = build_graph_from_snapshot_at(&snap, NOW);
    let target = graph.nodes.iter().find(|n| n.kind == NodeKind::Target).unwrap();
    let ts = target.attributes.iter().find(|(k, _)| k == "snapshot_timestamp").unwrap();
    assert_eq!(ts.1, "2023-11-14T22:13:20+00:00");
}

#[test]
fn cluster_id_digests_the_displayed_times() {
    let id = build_cluster_id(
        "example.com",
        &vec!["a.example.com".to_string(), "b.example.com".to_string()],
        &vec!["cat".to_string()],
        NOW,
        NOW + 60,
        &CorrelationKind::AdministrativeExposure,
    );
    let raw = "example.com|a.example.com,b.example.com|cat|2023-11-14 22:13:20 UTC|2023-11-14 22:14:20 UTC|AdministrativeExposure";
    let expected = hex::encode(Sha256::digest(raw.as_bytes()));
    assert_eq!(id, expected[..24]);
}
