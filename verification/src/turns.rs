//! Whether a session's turn is running, as the Host's typed session-event
//! stream reports it: the composer's Send/Stop authority. The stream is
//! polled with a cursor; a resync restarts it, and the activity snapshot
//! answers until the stream has reported.
use vstd::prelude::*;

verus! {

/// A session event, as far as turn state reads it.
#[derive(Debug, Clone, Copy, PartialEq, Eq, Structural)]
pub enum TurnEvent {
    Started,
    Finished,
    Other,
}

/// The turn state after `events`, starting from `running`: the last start
/// or finish decides.
pub open spec fn after_events(running: Option<bool>, events: Seq<TurnEvent>) -> Option<bool>
    decreases events.len(),
{
    if events.len() == 0 {
        running
    } else {
        let before = after_events(running, events.drop_last());
        match events.last() {
            TurnEvent::Started => Some(true),
            TurnEvent::Finished => Some(false),
            TurnEvent::Other => before,
        }
    }
}

/// One poll of a session's stream from `cursor`: on a resync the cursor
/// restarts at 0 and the turn state is unknown again; otherwise the cursor
/// moves to `next_seq` and the events update the state. Gives the new
/// cursor and turn state.
pub fn turn_poll_step(
    running: Option<bool>,
    resync: bool,
    next_seq: u64,
    events: &[TurnEvent],
) -> (r: (u64, Option<bool>))
    ensures
        resync ==> r == (0u64, None::<bool>),
        !resync ==> r == (next_seq, after_events(running, events@)),
{
    if resync {
        return (0, None);
    }
    let mut state = running;
    let mut i: usize = 0;
    while i < events.len()
        invariant
            i <= events@.len(),
            state == after_events(running, events@.take(i as int)),
        decreases events@.len() - i,
    {
        assert(events@.take(i as int + 1).drop_last() =~= events@.take(i as int));
        match events[i] {
            TurnEvent::Started => state = Some(true),
            TurnEvent::Finished => state = Some(false),
            TurnEvent::Other => {},
        }
        i += 1;
    }
    assert(events@.take(events@.len() as int) =~= events@);
    (next_seq, state)
}

/// Whether the composer shows Stop: what the stream reported, else
/// whether the activity snapshot shows the session working.
pub fn turn_running(reported: Option<bool>, snapshot_working: bool) -> (r: bool)
    ensures
        r == match reported {
            Some(b) => b,
            None => snapshot_working,
        },
{
    match reported {
        Some(b) => b,
        None => snapshot_working,
    }
}

/// A poll whose last turn event is a start leaves the turn running, and
/// one whose last is a finish leaves it stopped, whatever came before.
pub proof fn lemma_last_turn_event_decides(running: Option<bool>, events: Seq<TurnEvent>)
    requires
        events.len() > 0,
        events.last() != TurnEvent::Other,
    ensures
        after_events(running, events) == Some(events.last() == TurnEvent::Started),
{
}

/// Events that say nothing about turns leave the state as it was.
pub proof fn lemma_other_events_keep_state(running: Option<bool>, events: Seq<TurnEvent>)
    requires
        forall|i: int| 0 <= i < events.len() ==> events[i] == TurnEvent::Other,
    ensures
        after_events(running, events) == running,
    decreases events.len(),
{
    if events.len() > 0 {
        lemma_other_events_keep_state(running, events.drop_last());
        assert(events.last() == TurnEvent::Other);
    }
}

/// The request that stops a running turn.
#[derive(Debug, Clone, PartialEq, Eq)]
pub enum StopTurnRequest {
    /// The protocol's turn cancel, with its reason.
    Cancel { reason: String },
    /// Raw bytes through the terminal's write channel.
    Write { data: String },
}

/// The Stop verb's transport: exactly one protocol cancel when the Host
/// advertises turn cancelling, else exactly one Ctrl-C through the write
/// channel; the two never mix.
pub fn stop_turn_request(use_protocol_cancel: bool) -> (r: StopTurnRequest)
    ensures
        use_protocol_cancel ==> (r matches StopTurnRequest::Cancel { reason } && reason@
            == "composer stop"@),
        !use_protocol_cancel ==> (r matches StopTurnRequest::Write { data } && data@ == seq!['\u{3}']),
{
    if use_protocol_cancel {
        StopTurnRequest::Cancel { reason: crate::text::owned("composer stop") }
    } else {
        let mut data = String::new();
        crate::text::push_char(&mut data, '\u{3}');
        StopTurnRequest::Write { data }
    }
}

} // verus!
