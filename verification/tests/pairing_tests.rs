use unpeel_ui::pairing::{host_row_state, pairing_submission, HostRowState, PairingStatus};

#[test]
fn pasted_code_is_trimmed_and_submitted_when_idle() {
    assert_eq!(pairing_submission(&PairingStatus::Idle, "  UNPEEL:1:h:1:abc \n"), Some("UNPEEL:1:h:1:abc".to_string()));
    assert_eq!(pairing_submission(&PairingStatus::Failed("x".to_string()), "code"), Some("code".to_string()));
}

#[test]
fn nothing_is_submitted_while_working_or_blank() {
    assert_eq!(pairing_submission(&PairingStatus::Working, "code"), None);
    assert_eq!(pairing_submission(&PairingStatus::Idle, "   "), None);
    assert_eq!(pairing_submission(&PairingStatus::default(), ""), None);
}

#[test]
fn host_rows_read_viewing_connected_or_connect() {
    let connected = vec!["a".to_string(), "b".to_string()];
    assert_eq!(host_row_state("a", &connected, Some("a")), HostRowState::Viewing);
    assert_eq!(host_row_state("b", &connected, Some("a")), HostRowState::Connected);
    assert_eq!(host_row_state("c", &connected, Some("a")), HostRowState::Disconnected);
    assert_eq!(host_row_state("c", &connected, None), HostRowState::Disconnected);
    assert_eq!(host_row_state("c", &vec![], Some("c")), HostRowState::Viewing);
}
