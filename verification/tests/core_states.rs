use atlas::common::{
    AlertChannelKind, AlertDeliveryStatus, AtlasScope, IncidentState, OperationalState,
};

#[test]
fn atlas_scope_global_is_stable() {
    let scope = AtlasScope::global();
    assert_eq!(scope.tenant_id, "default");
    assert_eq!(scope.project_id, "default");
    assert!(scope.is_global());
}

#[test]
fn operational_state_parses_canonical_values() {
    assert_eq!(
        OperationalState::from_str("open").unwrap(),
        OperationalState::Open
    );
    assert_eq!(
        OperationalState::from_str("accepted").unwrap(),
        OperationalState::Accepted
    );
    assert_eq!(
        OperationalState::from_str("mitigated").unwrap(),
        OperationalState::Mitigated
    );
    assert_eq!(
        OperationalState::from_str("false_positive").unwrap(),
        OperationalState::FalsePositive
    );
}

#[test]
fn operational_state_accepts_legacy_aliases() {
    assert_eq!(
        OperationalState::from_str("ack").unwrap(),
        OperationalState::Accepted
    );
    assert_eq!(
        OperationalState::from_str("acknowledged").unwrap(),
        OperationalState::Accepted
    );
    assert_eq!(
        OperationalState::from_str("resolve").unwrap(),
        OperationalState::Mitigated
    );
    assert_eq!(
        OperationalState::from_str("resolved").unwrap(),
        OperationalState::Mitigated
    );
}

#[test]
fn incident_state_accepts_legacy_aliases() {
    assert_eq!(
        IncidentState::from_str("ack").unwrap(),
        IncidentState::Acknowledged
    );
    assert_eq!(
        IncidentState::from_str("resolved").unwrap(),
        IncidentState::Resolved
    );
}

#[test]
fn alert_status_parses_values() {
    assert_eq!(
        AlertDeliveryStatus::from_str("pending").unwrap(),
        AlertDeliveryStatus::Pending
    );
    assert_eq!(
        AlertDeliveryStatus::from_str("dead-letter").unwrap(),
        AlertDeliveryStatus::DeadLetter
    );
}

#[test]
fn states_trim_and_ignore_case() {
    assert_eq!(
        OperationalState::from_str("  FALSE-Positive \t").unwrap(),
        OperationalState::FalsePositive
    );
    assert_eq!(
        IncidentState::from_str(" Open ").unwrap(),
        IncidentState::Open
    );
    assert_eq!(
        AlertChannelKind::from_str("SLACK").unwrap(),
        AlertChannelKind::Slack
    );
}

#[test]
fn unknown_states_are_rejected_with_message() {
    assert_eq!(
        OperationalState::from_str(" Maybe ").unwrap_err(),
        "operational_state no soportado: maybe"
    );
    assert_eq!(
        IncidentState::from_str("closed").unwrap_err(),
        "incident_state no soportado: closed"
    );
    assert_eq!(
        AlertChannelKind::from_str("pager").unwrap_err(),
        "alert channel no soportado: pager"
    );
    assert_eq!(
        AlertDeliveryStatus::from_str("lost").unwrap_err(),
        "alert delivery status no soportado: lost"
    );
}

#[test]
fn normalize_str_gives_canonical_names() {
    assert_eq!(OperationalState::normalize_str("ack").unwrap(), "accepted");
    assert_eq!(OperationalState::normalize_str("resolved").unwrap(), "mitigated");
    assert!(OperationalState::normalize_str("x").is_err());
    assert!(OperationalState::Mitigated.is_terminal());
    assert!(!OperationalState::Open.is_terminal());
    assert_eq!(OperationalState::FalsePositive.to_string(), "false_positive");
    assert_eq!(AlertDeliveryStatus::DeadLetter.as_str(), "dead_letter");
}

#[test]
fn scope_validation_rejects_blank_ids() {
    let ok = AtlasScope::new("tenant-a".to_string(), "project-x".to_string());
    assert!(ok.validate().is_ok());
    assert!(!ok.is_global());
    let blank_tenant = AtlasScope::new("  ".to_string(), "p".to_string());
    assert_eq!(
        blank_tenant.validate().unwrap_err(),
        "tenant_id no puede estar vacío"
    );
    let blank_project = AtlasScope::new("t".to_string(), "".to_string());
    assert_eq!(
        blank_project.validate().unwrap_err(),
        "project_id no puede estar vacío"
    );
}
