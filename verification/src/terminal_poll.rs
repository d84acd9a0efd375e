//! The output poll loop of an open terminal, as a step function: before
//! each poll the loop stops once the view no longer expects it, and waits
//! while the app-lock cover is up; after each chunk it moves its offset,
//! restarts from the tail when the Host rotated its log, and backs off
//! after an error.
use vstd::prelude::*;

verus! {

/// How long the loop sleeps while the app-lock cover is up.
pub const LOCKED_WAIT_MS: u64 = 250;

/// How long the loop backs off after a failed poll.
pub const ERROR_BACKOFF_MS: u64 = 2000;

/// What the loop does before polling.
#[derive(Debug, Clone, Copy, PartialEq, Eq, Structural)]
pub enum PollGate {
    /// The view moved on (another session, or the Host went away): stop.
    Stop,
    /// Sleep this long, then check again.
    Wait(u64),
    /// Poll the next chunk.
    Poll,
}

/// Before a poll: stop when the loop is no longer the live one, wait
/// while locked, else poll.
pub open spec fn gate_spec(alive: bool, locked: bool) -> PollGate {
    if !alive {
        PollGate::Stop
    } else if locked {
        PollGate::Wait(LOCKED_WAIT_MS)
    } else {
        PollGate::Poll
    }
}

/// Decide what happens before a poll (see [`gate_spec`]).
pub fn poll_gate(alive: bool, locked: bool) -> (r: PollGate)
    ensures
        r == gate_spec(alive, locked),
{
    if !alive {
        PollGate::Stop
    } else if locked {
        PollGate::Wait(LOCKED_WAIT_MS)
    } else {
        PollGate::Poll
    }
}

/// How one output poll ended.
#[derive(Debug, Clone, Copy, PartialEq, Eq, Structural)]
pub enum ChunkOutcome {
    /// The Host rotated its output log: what was read is gone.
    Truncated,
    /// A chunk arrived; the next poll continues at `next_offset`.
    Delivered(u64),
    /// The poll failed.
    Failed,
}

/// The loop's next move after a poll.
#[derive(Debug, Clone, Copy, PartialEq, Eq, Structural)]
pub struct PollStep {
    /// Where the next poll reads from (`None`: the tail).
    pub offset: Option<u64>,
    /// Rebuild the terminal model (and drop the predictions on it).
    pub reset_model: bool,
    /// Feed the chunk to the model and publish the new snapshot.
    pub publish: bool,
    /// Surface the error and sleep this long first (0: poll again at once).
    pub backoff_ms: u64,
}

/// After a poll from `offset`: a truncation restarts from the tail with a
/// fresh model, a delivered chunk is published and moves the offset, a
/// failure keeps the offset and backs off.
pub open spec fn after_chunk_spec(offset: Option<u64>, outcome: ChunkOutcome) -> PollStep {
    match outcome {
        ChunkOutcome::Truncated => PollStep { offset: None, reset_model: true, publish: false, backoff_ms: 0 },
        ChunkOutcome::Delivered(next) => PollStep {
            offset: Some(next),
            reset_model: false,
            publish: true,
            backoff_ms: 0,
        },
        ChunkOutcome::Failed => PollStep {
            offset,
            reset_model: false,
            publish: false,
            backoff_ms: ERROR_BACKOFF_MS,
        },
    }
}

/// Decide the move after a poll (see [`after_chunk_spec`]).
pub fn after_chunk(offset: Option<u64>, outcome: ChunkOutcome) -> (r: PollStep)
    ensures
        r == after_chunk_spec(offset, outcome),
{
    match outcome {
        ChunkOutcome::Truncated => PollStep { offset: None, reset_model: true, publish: false, backoff_ms: 0 },
        ChunkOutcome::Delivered(next) => PollStep {
            offset: Some(next),
            reset_model: false,
            publish: true,
            backoff_ms: 0,
        },
        ChunkOutcome::Failed => PollStep {
            offset,
            reset_model: false,
            publish: false,
            backoff_ms: ERROR_BACKOFF_MS,
        },
    }
}

} // verus!
