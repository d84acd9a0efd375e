//! Resizing a session's remote terminal to the viewport: each viewport
//! change claims the new grid size under a fresh generation, a debounced
//! worker resizes the remote PTY, and only the worker that still owns the
//! newest claim may act on the outcome. A failed resize reverts the claim
//! so the next viewport change retries.
use vstd::prelude::*;

verus! {

/// A terminal grid size.
#[derive(Debug, Clone, Copy, PartialEq, Eq, Structural)]
pub struct GridSize {
    pub cols: u16,
    pub rows: u16,
}

/// The claimed grid size of a terminal and the generation of the claim.
#[derive(Debug, Clone, Copy, PartialEq, Eq, Structural)]
pub struct PtyResize {
    /// The size the terminal is claimed to have.
    pub size: GridSize,
    /// Bumped by every claim; a worker owns the resize while it matches.
    pub generation: u64,
    /// The remote grid moved: the local model is rebuilt on the next poll.
    pub remodel: bool,
}

/// A claim a worker carries: its generation, the size before and the size
/// claimed.
#[derive(Debug, Clone, Copy, PartialEq, Eq, Structural)]
pub struct ResizeClaim {
    pub generation: u64,
    pub previous: GridSize,
    pub next: GridSize,
}

/// The state after claiming `next` (see [`PtyResize::claim`]).
pub open spec fn claimed(s: PtyResize, next: GridSize) -> PtyResize {
    PtyResize { size: next, generation: (s.generation + 1) as u64, remodel: s.remodel }
}

/// The state after the outcome of `c` (see [`PtyResize::finish`]).
pub open spec fn finished(s: PtyResize, c: ResizeClaim, ok: bool) -> PtyResize {
    if s.generation != c.generation {
        s
    } else if ok {
        PtyResize { remodel: true, ..s }
    } else if s.size == c.next {
        PtyResize { size: c.previous, ..s }
    } else {
        s
    }
}

impl PtyResize {
    /// The viewport now fits `next`. When the remote should be resized and
    /// a terminal is open, claim `next` under a new generation and give the
    /// claim for the worker; otherwise nothing changes.
    pub fn claim(&mut self, next: GridSize, resize_needed: bool, terminal_open: bool) -> (r: Option<
        ResizeClaim,
    >)
        requires
            old(self).generation < u64::MAX,
        ensures
            !(resize_needed && terminal_open) ==> r is None && *final(self) == *old(self),
            resize_needed && terminal_open ==> r == Some(
                ResizeClaim {
                    generation: (old(self).generation + 1) as u64,
                    previous: old(self).size,
                    next,
                },
            ) && *final(self) == claimed(*old(self), next),
    {
        if !(resize_needed && terminal_open) {
            return None;
        }
        let previous = self.size;
        self.generation = self.generation + 1;
        self.size = next;
        Some(ResizeClaim { generation: self.generation, previous, next })
    }

    /// Whether the worker holding `claim` still owns the resize.
    pub fn owns(&self, claim: &ResizeClaim) -> (r: bool)
        ensures
            r == (self.generation == claim.generation),
    {
        self.generation == claim.generation
    }

    /// The remote resize of `claim` finished: on success the local model is
    /// rebuilt; on failure the claim is reverted while the size is still the
    /// one claimed. A worker that no longer owns the resize changes nothing.
    pub fn finish(&mut self, claim: &ResizeClaim, ok: bool)
        ensures
            *final(self) == finished(*old(self), *claim, ok),
    {
        if self.generation != claim.generation {
            return;
        }
        if ok {
            self.remodel = true;
        } else if self.size == claim.next {
            self.size = claim.previous;
        }
    }
}

/// A newer claim supersedes an older one: once the size is claimed again,
/// the outcome of any earlier claim changes nothing.
pub proof fn lemma_newer_claim_supersedes(s: PtyResize, earlier: ResizeClaim, next: GridSize, ok: bool)
    requires
        earlier.generation <= s.generation,
        s.generation < u64::MAX,
    ensures
        finished(claimed(s, next), earlier, ok) == claimed(s, next),
{
}

/// A failed resize gives the size back when nothing newer was claimed: the
/// claim and its failure leave the size as it was.
pub proof fn lemma_failed_claim_reverts(s: PtyResize, next: GridSize)
    requires
        s.generation < u64::MAX,
    ensures
        finished(
            claimed(s, next),
            ResizeClaim { generation: (s.generation + 1) as u64, previous: s.size, next },
            false,
        ).size == s.size,
{
}

} // verus!
