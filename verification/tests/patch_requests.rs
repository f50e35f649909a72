use atlas::api::{FindingPatchRequest, IncidentPatchRequest};

#[test]
fn finding_patch_records_each_change_in_order() {
    let patch = FindingPatchRequest {
        operational_state: Some("accepted".to_string()),
        owner: Some("team-a".to_string()),
        note: Some("looked at it".to_string()),
    };
    assert_eq!(
        patch.changes(),
        vec!["operational_state=accepted".to_string(), "owner=team-a".to_string(), "note".to_string()]
    );
}

#[test]
fn finding_patch_without_fields_records_nothing() {
    let patch = FindingPatchRequest { operational_state: None, owner: None, note: None };
    assert!(patch.changes().is_empty());
}

#[test]
fn incident_patch_records_only_given_fields() {
    let patch = IncidentPatchRequest {
        state: Some("resolved".to_string()),
        owner: None,
        notes: Some("fixed".to_string()),
    };
    assert_eq!(patch.changes(), vec!["state=resolved".to_string(), "notes".to_string()]);
    let owner_only = IncidentPatchRequest { state: None, owner: Some("ops".to_string()), notes: None };
    assert_eq!(owner_only.changes(), vec!["owner=ops".to_string()]);
}
