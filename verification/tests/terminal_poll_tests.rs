use unpeel_ui::terminal_poll::{
    after_chunk, poll_gate, ChunkOutcome, PollGate, PollStep, ERROR_BACKOFF_MS, LOCKED_WAIT_MS,
};

#[test]
fn gate_stops_waits_or_polls() {
    assert_eq!(poll_gate(false, false), PollGate::Stop);
    assert_eq!(poll_gate(false, true), PollGate::Stop);
    assert_eq!(poll_gate(true, true), PollGate::Wait(250));
    assert_eq!(LOCKED_WAIT_MS, 250);
    assert_eq!(poll_gate(true, false), PollGate::Poll);
}

#[test]
fn chunk_outcomes_move_the_offset() {
    assert_eq!(
        after_chunk(Some(40), ChunkOutcome::Truncated),
        PollStep { offset: None, reset_model: true, publish: false, backoff_ms: 0 }
    );
    assert_eq!(
        after_chunk(None, ChunkOutcome::Delivered(128)),
        PollStep { offset: Some(128), reset_model: false, publish: true, backoff_ms: 0 }
    );
    assert_eq!(
        after_chunk(Some(128), ChunkOutcome::Failed),
        PollStep { offset: Some(128), reset_model: false, publish: false, backoff_ms: 2000 }
    );
    assert_eq!(ERROR_BACKOFF_MS, 2000);
}
