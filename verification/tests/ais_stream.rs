use harbor::ais::{
    cert_validation_disabled, clean_string, message_action, message_kind, next_reconnect_delay_secs, next_run_number,
    AisMessageKind, AuthError, MessageAction,
};

#[test]
fn cleans_text_for_log_lines() {
    assert_eq!(clean_string("  POROS\r\nII  "), "POROS  II");
    assert_eq!(clean_string("\n"), "");
    assert_eq!(clean_string("A\rB"), "A B");
}

#[test]
fn tells_message_kinds_apart() {
    assert_eq!(message_kind("PositionReport"), AisMessageKind::PositionReport);
    assert_eq!(message_kind("StandardClassBPositionReport"), AisMessageKind::StandardClassBPositionReport);
    assert_eq!(message_kind("ShipStaticData"), AisMessageKind::ShipStaticData);
    assert_eq!(message_kind("UnknownMessage"), AisMessageKind::UnknownMessage);
    assert_eq!(message_kind("AidsToNavigationReport"), AisMessageKind::Other);
    assert_eq!(AisMessageKind::ShipStaticData.name(), Some("ShipStaticData"));
    assert_eq!(AisMessageKind::Other.name(), None);
}

#[test]
fn decides_what_to_do_with_each_message() {
    assert_eq!(message_action(AisMessageKind::PositionReport), MessageAction::RecordPosition);
    assert_eq!(message_action(AisMessageKind::StandardClassBPositionReport), MessageAction::RecordPosition);
    assert_eq!(message_action(AisMessageKind::ShipStaticData), MessageAction::RecordStaticData);
    assert_eq!(message_action(AisMessageKind::UnknownMessage), MessageAction::ReportUnknown);
    assert_eq!(message_action(AisMessageKind::Other), MessageAction::Ignore);
}

#[test]
fn numbers_log_runs() {
    let names: Vec<String> = [
        "run_0001_location_reports.jsonl",
        "run_0012_ship_static_data.jsonl",
        "run_x_location_reports.jsonl",
        "notes.txt",
        "run_0007",
        "run_+3_a",
    ]
    .iter()
    .map(|s| s.to_string())
    .collect();
    assert_eq!(next_run_number(&names), 13);
    assert_eq!(next_run_number(&[]), 1);
}

#[test]
fn reads_the_certificate_switch() {
    assert!(cert_validation_disabled(Some(" TRUE ")));
    assert!(cert_validation_disabled(Some("1")));
    assert!(cert_validation_disabled(Some("On")));
    assert!(cert_validation_disabled(Some("yes")));
    assert!(!cert_validation_disabled(Some("no")));
    assert!(!cert_validation_disabled(Some("")));
    assert!(!cert_validation_disabled(None));
}

#[test]
fn backs_off_between_reconnections() {
    assert_eq!(next_reconnect_delay_secs(1), 2);
    assert_eq!(next_reconnect_delay_secs(8), 16);
    assert_eq!(next_reconnect_delay_secs(16), 30);
    assert_eq!(next_reconnect_delay_secs(30), 30);
}

#[test]
fn auth_errors_show_their_text() {
    let error = AuthError { error: "Api Key Is Not Valid".to_string() };
    assert_eq!(error.message(), "Api Key Is Not Valid");
}
