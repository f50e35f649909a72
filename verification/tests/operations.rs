use atlas::operations::{
    build_owner_operational_summaries, incident_changed, incidents_to_resolve, reconcile_incident,
    reconcile_incidents, watch_cycles, AssetOwnerRecord, CurrentFindingRecord, IncidentAction, IncidentRecord,
};

fn finding(owner: Option<&str>, state: &str, score: u32, resource: &str) -> CurrentFindingRecord {
    CurrentFindingRecord {
        owner: owner.map(ToString::to_string),
        operational_state: state.to_string(),
        score,
        resource: resource.to_string(),
    }
}

fn incident(id: &str, state: &str, owner: Option<&str>, score: u32, resource: &str) -> IncidentRecord {
    IncidentRecord {
        incident_id: id.to_string(),
        target: "example.com".to_string(),
        source_kind: "episode".to_string(),
        source_id: "ep1".to_string(),
        title: "Exposición administrativa".to_string(),
        severity: "HIGH".to_string(),
        score,
        state: state.to_string(),
        owner: owner.map(ToString::to_string),
        notes: None,
        resource: resource.to_string(),
        context_json: "{}".to_string(),
        created_at: "2024-01-01T00:00:00+00:00".to_string(),
        updated_at: "2024-01-01T00:00:00+00:00".to_string(),
    }
}

#[test]
fn owner_summaries_count_open_work_and_sort() {
    let findings = vec![
        finding(Some("ana"), "open", 40, "admin.example.com"),
        finding(Some("ana"), "RESOLVED", 90, "old.example.com"),
        finding(Some("bob"), "acknowledged", 30, "api.example.com"),
        finding(None, "open", 99, "nobody.example.com"),
        finding(Some("ana"), "open", 20, "admin.example.com"),
    ];
    let incidents = vec![
        incident("i1", "open", Some("bob"), 50, "api.example.com"),
        incident("i2", "resolved", Some("ana"), 70, "vpn.example.com"),
        incident("i3", "open", Some("carl"), 10, "dev.example.com"),
    ];
    let owners = vec![
        AssetOwnerRecord { owner: "ana".to_string(), team: Some("old".to_string()) },
        AssetOwnerRecord { owner: "ana".to_string(), team: Some("platform".to_string()) },
        AssetOwnerRecord { owner: "bob".to_string(), team: None },
    ];
    let summaries = build_owner_operational_summaries(&findings, &incidents, &owners);
    let order: Vec<&str> = summaries.iter().map(|s| s.owner.as_str()).collect();
    assert_eq!(order, vec!["bob", "ana", "carl"]);
    let bob = &summaries[0];
    assert_eq!((bob.open_findings, bob.open_incidents, bob.total_risk_score), (1, 1, 80));
    assert_eq!(bob.team, None);
    assert_eq!(bob.resources, vec!["api.example.com".to_string()]);
    let ana = &summaries[1];
    assert_eq!((ana.open_findings, ana.open_incidents, ana.total_risk_score), (2, 0, 60));
    assert_eq!(ana.team, Some("platform".to_string()));
    assert_eq!(
        ana.resources,
        vec!["admin.example.com".to_string(), "old.example.com".to_string(), "vpn.example.com".to_string()]
    );
    assert_eq!(summaries[2].team, None);
}

#[test]
fn owner_scores_saturate() {
    let findings = vec![finding(Some("ana"), "open", u32::MAX, "a"), finding(Some("ana"), "open", 5, "b")];
    let summaries = build_owner_operational_summaries(&findings, &vec![], &vec![]);
    assert_eq!(summaries[0].total_risk_score, u32::MAX);
}

#[test]
fn new_candidate_creates_incident() {
    let cand = incident("i1", "open", None, 50, "a");
    match reconcile_incident(None, cand) {
        IncidentAction::Create(x) => assert_eq!(x.incident_id, "i1"),
        other => panic!("unexpected {other:?}"),
    }
}

#[test]
fn resolved_incident_is_reopened_with_alert() {
    let mut prev = incident("i1", "Resolved", Some("ana"), 50, "a");
    prev.notes = Some("visto".to_string());
    prev.created_at = "2023-05-05T00:00:00+00:00".to_string();
    let cand = incident("i1", "open", None, 60, "a");
    match reconcile_incident(Some(&prev), cand) {
        IncidentAction::Update { incident, reopened } => {
            assert!(reopened);
            assert_eq!(incident.state, "reopened");
            assert_eq!(incident.owner, Some("ana".to_string()));
            assert_eq!(incident.notes, Some("visto".to_string()));
            assert_eq!(incident.created_at, "2023-05-05T00:00:00+00:00");
            assert_eq!(incident.score, 60);
        }
        other => panic!("unexpected {other:?}"),
    }
}

#[test]
fn unchanged_candidate_keeps_incident() {
    let prev = incident("i1", "acknowledged", Some("ana"), 50, "a");
    let mut cand = incident("i1", "open", None, 50, "a");
    cand.updated_at = "2024-02-02T00:00:00+00:00".to_string();
    assert!(matches!(reconcile_incident(Some(&prev), cand), IncidentAction::Keep));
    let changed = incident("i1", "acknowledged", Some("ana"), 51, "a");
    assert!(incident_changed(&prev, &changed));
    assert!(!incident_changed(&prev, &prev.clone()));
}

#[test]
fn stale_open_incidents_are_resolved() {
    let existing = vec![
        incident("i1", "open", None, 1, "a"),
        incident("i2", "resolved", None, 1, "b"),
        incident("i3", "acknowledged", None, 1, "c"),
    ];
    let active = vec!["i1".to_string()];
    assert_eq!(incidents_to_resolve(&existing, &active), vec!["i3".to_string()]);
}

#[test]
fn watch_cycles_follow_the_flags() {
    assert_eq!(watch_cycles(0, false, Some(3)), Err("interval debe ser > 0".to_string()));
    assert_eq!(
        watch_cycles(60, true, None),
        Err("watch con --json requiere --iterations para producir una salida finita".to_string())
    );
    assert_eq!(watch_cycles(60, true, Some(2)), Ok(2));
    assert_eq!(watch_cycles(60, false, None), Ok(usize::MAX));
}

fn stored(kind: &str, state: &str, resources_json: &str) -> atlas::operations::StoredEpisodeRecord {
    atlas::operations::StoredEpisodeRecord {
        episode_id: "ep1".to_string(),
        target: "example.com".to_string(),
        title: "Exposición administrativa".to_string(),
        kind: kind.to_string(),
        severity: "high".to_string(),
        criticality: "Critical".to_string(),
        score: 180,
        state: state.to_string(),
        resource_count: 2,
        resources_json: resources_json.to_string(),
        cluster_ids_json: "[\"c1\"]".to_string(),
        started_at: "2023-11-14T22:13:20+00:00".to_string(),
        ended_at: "2023-11-14T23:13:20+01:00".to_string(),
        summary: "sum".to_string(),
        explanation_json: "[]".to_string(),
    }
}

#[test]
fn stored_episodes_map_back() {
    let rec = stored("AdministrativeExposure", "Active", "[\"admin.example.com\",\"vpn.example.com\"]");
    let e = atlas::operations::map_stored_episode_to_risk_episode(&rec).unwrap();
    assert_eq!(e.kind, atlas::correlation::CorrelationKind::AdministrativeExposure);
    assert_eq!(e.severity, atlas::drift::Severity::High);
    assert_eq!(e.criticality, atlas::drift::Criticality::Critical);
    assert_eq!(e.state, atlas::correlation::EpisodeState::New);
    assert_eq!(e.resources, vec!["admin.example.com".to_string(), "vpn.example.com".to_string()]);
    assert_eq!(e.started_at, 1_700_000_000);
    assert_eq!(e.ended_at, 1_700_000_000);
    assert!(e.explanation.is_empty());
}

#[test]
fn unreadable_stored_episodes_are_skipped() {
    let map = atlas::operations::map_stored_episode_to_risk_episode;
    assert!(map(&stored("administrativeexposure", "new", "[]")).is_none());
    assert!(map(&stored("ServiceExpansion", "recurring", "[]")).is_none());
    assert!(map(&stored("ServiceExpansion", "new", "not json")).is_none());
    assert!(map(&stored("ServiceExpansion", "PERSISTENT", "[]")).is_some());
}

#[test]
fn reconciling_all_candidates_counts_each_outcome() {
    let stored = vec![
        incident("i1", "open", Some("bob"), 50, "api.example.com"),
        incident("i2", "resolved", None, 70, "vpn.example.com"),
        incident("i3", "open", None, 30, "old.example.com"),
        incident("i4", "open", None, 10, "same.example.com"),
    ];
    let candidates = vec![
        incident("i1", "open", None, 60, "api.example.com"),
        incident("i2", "open", None, 70, "vpn.example.com"),
        incident("i4", "open", None, 10, "same.example.com"),
        incident("i5", "open", None, 40, "new.example.com"),
        incident("i5", "open", None, 45, "new.example.com"),
    ];
    let r = reconcile_incidents(&stored, &candidates);
    assert_eq!(r.actions.len(), 5);
    assert!(matches!(&r.actions[0], IncidentAction::Update { incident, reopened: false } if incident.owner.as_deref() == Some("bob") && incident.score == 60));
    assert!(matches!(&r.actions[1], IncidentAction::Update { incident, reopened: true } if incident.state == "reopened"));
    assert!(matches!(&r.actions[2], IncidentAction::Keep));
    assert!(matches!(&r.actions[3], IncidentAction::Create(x) if x.incident_id == "i5"));
    assert!(matches!(&r.actions[4], IncidentAction::Update { incident, reopened: false } if incident.score == 45));
    assert_eq!((r.created, r.updated, r.reopened, r.resolved), (1, 3, 1, 1));
    assert_eq!(r.to_resolve, vec!["i3".to_string()]);
    assert_eq!(r.stored.len(), 5);
    assert_eq!(r.stored[4].score, 45);
}
