use unpeel_ui::turns::{stop_turn_request, turn_poll_step, turn_running, StopTurnRequest, TurnEvent};

#[test]
fn resync_restarts_the_cursor_and_forgets_the_turn() {
    assert_eq!(turn_poll_step(Some(true), true, 40, &[TurnEvent::Started]), (0, None));
}

#[test]
fn the_last_turn_event_decides() {
    assert_eq!(
        turn_poll_step(None, false, 7, &[TurnEvent::Started, TurnEvent::Other, TurnEvent::Finished]),
        (7, Some(false))
    );
    assert_eq!(turn_poll_step(Some(false), false, 9, &[TurnEvent::Finished, TurnEvent::Started]), (9, Some(true)));
    assert_eq!(turn_poll_step(Some(true), false, 3, &[TurnEvent::Other]), (3, Some(true)));
    assert_eq!(turn_poll_step(None, false, 0, &[]), (0, None));
}

#[test]
fn the_stream_outranks_the_snapshot() {
    assert!(turn_running(Some(true), false));
    assert!(!turn_running(Some(false), true));
    assert!(turn_running(None, true));
    assert!(!turn_running(None, false));
}

#[test]
fn stop_uses_the_protocol_cancel_or_one_ctrl_c() {
    assert_eq!(stop_turn_request(true), StopTurnRequest::Cancel { reason: "composer stop".to_string() });
    assert_eq!(stop_turn_request(false), StopTurnRequest::Write { data: "\u{3}".to_string() });
}
