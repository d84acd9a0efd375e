use unpeel_ui::push_events::{
    authorization_event, delegate_installed_event, ingest_apns_error, ingest_apns_token,
    install_response_delegate, notification_opened_event, register_for_remote_notifications,
    registration_event, request_authorization,
};

const UNAVAILABLE: &str =
    "{\"kind\":\"error\",\"message\":\"notifications unavailable: not an Apple target\"}";

#[test]
fn entry_points_report_unavailable_off_apple() {
    assert_eq!(request_authorization(), UNAVAILABLE);
    assert_eq!(register_for_remote_notifications(), UNAVAILABLE);
    assert_eq!(install_response_delegate(), UNAVAILABLE);
}

#[test]
fn token_is_trimmed_lowercased_and_reflected() {
    assert_eq!(
        ingest_apns_token(Some("  ABcd09ef \n")),
        "{\"kind\":\"apns_token\",\"token\":\"abcd09ef\"}"
    );
}

#[test]
fn token_validation_is_strict() {
    let bad = "{\"kind\":\"error\",\"message\":\"apns token was not even-length hex\"}";
    assert_eq!(ingest_apns_token(Some("abc")), bad);
    assert_eq!(ingest_apns_token(Some("")), bad);
    assert_eq!(ingest_apns_token(Some("   ")), bad);
    assert_eq!(ingest_apns_token(Some("zz")), bad);
    assert_eq!(ingest_apns_token(Some("ab cd")), bad);
    assert_eq!(
        ingest_apns_token(None),
        "{\"kind\":\"error\",\"message\":\"apns token pointer was null\"}"
    );
}

#[test]
fn authorization_answers() {
    assert_eq!(
        authorization_event(true, None),
        "{\"kind\":\"notification_authorization\",\"granted\":true}"
    );
    assert_eq!(
        authorization_event(false, Some("denied \"x\"")),
        "{\"kind\":\"notification_authorization\",\"granted\":false,\"error\":\"denied \\\"x\\\"\"}"
    );
}

#[test]
fn registration_needs_the_main_thread() {
    assert_eq!(registration_event(true), "{\"kind\":\"apns_registration_requested\"}");
    assert_eq!(
        registration_event(false),
        "{\"kind\":\"error\",\"message\":\"register_for_remote_notifications must run on the main thread\"}"
    );
}

#[test]
fn apns_errors_are_escaped() {
    assert_eq!(
        ingest_apns_error(Some("no \"network\"")),
        "{\"kind\":\"apns_error\",\"message\":\"no \\\"network\\\"\"}"
    );
    assert_eq!(ingest_apns_error(None), "{\"kind\":\"apns_error\",\"message\":\"unknown\"}");
}

#[test]
fn delegate_and_taps() {
    assert_eq!(delegate_installed_event(), "{\"kind\":\"notification_delegate_installed\"}");
    assert_eq!(
        notification_opened_event("req-1", "{\"sessionID\":\"s\"}"),
        "{\"kind\":\"notification_opened\",\"identifier\":\"req-1\",\"user_info\":{\"sessionID\":\"s\"}}"
    );
}
