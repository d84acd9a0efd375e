//! Chat composer state: per-session drafts and the follow-up queue.
//!
//! While a turn runs, the primary control stops it and anything typed is
//! queued instead of sent; when the turn finishes the queue drains in
//! order. Drafts are kept per session id, so switching sessions keeps
//! in-progress text; blank drafts are dropped.
use vstd::prelude::*;
use crate::text::{is_blank, is_blank_str, str_eq};

verus! {

broadcast use vstd::string::group_string_axioms;

/// Index of the last draft for `k`, or `-1`.
pub open spec fn last_draft(s: Seq<(String, String)>, k: Seq<char>) -> int
    decreases s.len(),
{
    if s.len() == 0 {
        -1
    } else if s.last().0@ == k {
        s.len() - 1
    } else {
        last_draft(s.drop_last(), k)
    }
}

/// The drafts as a map from session id to text.
pub open spec fn drafts_of(s: Seq<(String, String)>) -> Map<Seq<char>, Seq<char>>
    decreases s.len(),
{
    if s.len() == 0 {
        Map::empty()
    } else {
        drafts_of(s.drop_last()).insert(s.last().0@, s.last().1@)
    }
}

/// No two drafts share a session id.
pub open spec fn distinct_keys(s: Seq<(String, String)>) -> bool {
    forall|i: int, j: int| 0 <= i < j < s.len() ==> (#[trigger] s[i]).0@ != (#[trigger] s[j]).0@
}

proof fn lemma_drafts_of(s: Seq<(String, String)>, k: Seq<char>)
    ensures
        -1 <= last_draft(s, k) < s.len(),
        last_draft(s, k) >= 0 ==> s[last_draft(s, k)].0@ == k,
        forall|j: int| last_draft(s, k) < j < s.len() ==> (#[trigger] s[j]).0@ != k,
        drafts_of(s).dom().contains(k) == (last_draft(s, k) >= 0),
        last_draft(s, k) >= 0 ==> drafts_of(s)[k] == s[last_draft(s, k)].1@,
    decreases s.len(),
{
    if s.len() > 0 {
        lemma_drafts_of(s.drop_last(), k);
        assert forall|j: int| 0 <= j < s.len() - 1 implies #[trigger] s[j] == s.drop_last()[j] by {}
    }
}

proof fn lemma_drafts_update(s: Seq<(String, String)>, i: int, e: (String, String))
    requires
        0 <= i < s.len(),
        s[i].0@ == e.0@,
        forall|j: int| i < j < s.len() ==> (#[trigger] s[j]).0@ != e.0@,
    ensures
        drafts_of(s.update(i, e)) == drafts_of(s).insert(e.0@, e.1@),
    decreases s.len(),
{
    let u = s.update(i, e);
    if i == s.len() - 1 {
        assert(u.drop_last() =~= s.drop_last());
        assert(drafts_of(u) =~= drafts_of(s).insert(e.0@, e.1@));
    } else {
        assert(u.drop_last() =~= s.drop_last().update(i, e));
        lemma_drafts_update(s.drop_last(), i, e);
        assert(drafts_of(u) =~= drafts_of(s).insert(e.0@, e.1@));
    }
}

proof fn lemma_drafts_remove(s: Seq<(String, String)>, i: int)
    requires
        0 <= i < s.len(),
        distinct_keys(s),
    ensures
        drafts_of(s.remove(i)) == drafts_of(s).remove(s[i].0@),
        distinct_keys(s.remove(i)),
    decreases s.len(),
{
    let r = s.remove(i);
    let k = s[i].0@;
    if i == s.len() - 1 {
        assert(r =~= s.drop_last());
        lemma_drafts_of(s.drop_last(), k);
        assert(last_draft(s.drop_last(), k) < 0) by {
            if last_draft(s.drop_last(), k) >= 0 {
                let j = last_draft(s.drop_last(), k);
                assert(s[j].0@ == k);
            }
        }
        assert(drafts_of(r) =~= drafts_of(s).remove(k));
    } else {
        assert(r.drop_last() =~= s.drop_last().remove(i));
        assert(distinct_keys(s.drop_last())) by {
            assert forall|a: int, b: int| 0 <= a < b < s.drop_last().len() implies (
            #[trigger] s.drop_last()[a]).0@ != (#[trigger] s.drop_last()[b]).0@ by {
                assert(s.drop_last()[a] == s[a] && s.drop_last()[b] == s[b]);
            }
        }
        lemma_drafts_remove(s.drop_last(), i);
        assert(r.last() == s.last());
        assert(s.last().0@ != k);
        assert(drafts_of(r) =~= drafts_of(s).remove(k));
    }
    assert forall|a: int, b: int| 0 <= a < b < r.len() implies (#[trigger] r[a]).0@ != (
    #[trigger] r[b]).0@ by {
        let a0 = if a < i {
            a
        } else {
            a + 1
        };
        let b0 = if b < i {
            b
        } else {
            b + 1
        };
        assert(r[a] == s[a0] && r[b] == s[b0]);
    }
}

/// The composer's state: drafts by session id, and the queue.
pub struct ComposerModel {
    pub drafts: Map<Seq<char>, Seq<char>>,
    pub queue: Seq<Seq<char>>,
}

/// The drafts after saving `text` for session `k`: a blank text drops
/// the session's draft.
pub open spec fn saved(m: Map<Seq<char>, Seq<char>>, k: Seq<char>, text: Seq<char>) -> Map<
    Seq<char>,
    Seq<char>,
> {
    if is_blank(text) {
        m.remove(k)
    } else {
        m.insert(k, text)
    }
}

/// The queue after typing `msg` while a turn runs: blank text is ignored.
pub open spec fn queued(q: Seq<Seq<char>>, msg: Seq<char>) -> Seq<Seq<char>> {
    if is_blank(msg) {
        q
    } else {
        q.push(msg)
    }
}

/// What the primary control asks the app shell to do.
#[derive(Debug, Clone, PartialEq, Eq)]
pub enum ComposerIntent {
    /// Stop the running turn.
    Stop,
    /// Send this message.
    Send(String),
    /// Nothing to send.
    Nothing,
}

/// Drafts per session and the follow-ups typed while a turn ran.
#[derive(Debug)]
pub struct ComposerState {
    drafts: Vec<(String, String)>,
    followup_queue: Vec<String>,
}

impl ComposerState {
    #[verifier::type_invariant]
    spec fn well_formed(&self) -> bool {
        distinct_keys(self.drafts@)
    }
}

impl View for ComposerState {
    type V = ComposerModel;

    closed spec fn view(&self) -> ComposerModel {
        ComposerModel {
            drafts: drafts_of(self.drafts@),
            queue: self.followup_queue@.map_values(|s: String| s@),
        }
    }
}

impl Default for ComposerState {
    fn default() -> (r: Self)
        ensures
            r@.drafts == Map::<Seq<char>, Seq<char>>::empty(),
            r@.queue.len() == 0,
    {
        ComposerState { drafts: Vec::new(), followup_queue: Vec::new() }
    }
}

impl ComposerState {
    /// The last draft index for `session_id`, if any.
    fn find_draft(&self, session_id: &str) -> (r: Option<usize>)
        ensures
            match r {
                Some(i) => i as int == last_draft(self.drafts@, session_id@),
                None => last_draft(self.drafts@, session_id@) < 0,
            },
    {
        proof {
            lemma_drafts_of(self.drafts@, session_id@);
        }
        let mut k = self.drafts.len();
        while k > 0
            invariant
                k <= self.drafts@.len(),
                forall|j: int| k <= j < self.drafts@.len() ==> (#[trigger] self.drafts@[j]).0@ != session_id@,
                -1 <= last_draft(self.drafts@, session_id@) < self.drafts@.len(),
                last_draft(self.drafts@, session_id@) >= 0 ==> self.drafts@[last_draft(
                    self.drafts@,
                    session_id@,
                )].0@ == session_id@,
                forall|j: int|
                    last_draft(self.drafts@, session_id@) < j < self.drafts@.len() ==> (
                    #[trigger] self.drafts@[j]).0@ != session_id@,
            decreases k,
        {
            let (id, _) = &self.drafts[k - 1];
            if str_eq(id.as_str(), session_id) {
                return Some(k - 1);
            }
            k -= 1;
        }
        None
    }

    /// The draft held for `session_id`, or empty.
    pub fn draft_for(&self, session_id: &str) -> (r: String)
        ensures
            r@ == if self@.drafts.dom().contains(session_id@) {
                self@.drafts[session_id@]
            } else {
                Seq::empty()
            },
    {
        proof {
            lemma_drafts_of(self.drafts@, session_id@);
        }
        match self.find_draft(session_id) {
            Some(i) => self.drafts[i].1.clone(),
            None => String::new(),
        }
    }

    /// Save `text` as the draft for `session_id`; a blank draft removes it.
    pub fn save_draft(&mut self, session_id: &str, text: String)
        ensures
            final(self)@.queue == old(self)@.queue,
            final(self)@.drafts == saved(old(self)@.drafts, session_id@, text@),
    {
        proof {
            use_type_invariant(&*self);
            lemma_drafts_of(self.drafts@, session_id@);
        }
        let found = self.find_draft(session_id);
        if is_blank_str(text.as_str()) {
            match found {
                Some(i) => {
                    proof {
                        lemma_drafts_remove(self.drafts@, i as int);
                    }
                    let mut d: Vec<(String, String)> = Vec::new();
                    std::mem::swap(&mut d, &mut self.drafts);
                    d.remove(i);
                    self.drafts = d;
                },
                None => {
                    assert(drafts_of(self.drafts@).remove(session_id@) =~= drafts_of(self.drafts@));
                },
            }
        } else {
            match found {
                Some(i) => {
                    let key = crate::text::owned(session_id);
                    proof {
                        lemma_drafts_update(self.drafts@, i as int, (key, text));
                        assert forall|a: int, b: int| 0 <= a < b < self.drafts@.update(i as int, (key, text)).len()
                            implies (#[trigger] self.drafts@.update(i as int, (key, text))[a]).0@ != (
                        #[trigger] self.drafts@.update(i as int, (key, text))[b]).0@ by {
                            assert(self.drafts@[a].0@ != self.drafts@[b].0@);
                        }
                    }
                    let mut d: Vec<(String, String)> = Vec::new();
                    std::mem::swap(&mut d, &mut self.drafts);
                    d.set(i, (key, text));
                    self.drafts = d;
                },
                None => {
                    let key = crate::text::owned(session_id);
                    let ghost before = self.drafts@;
                    proof {
                        assert forall|a: int, b: int| 0 <= a < b < before.push((key, text)).len() implies (
                        #[trigger] before.push((key, text))[a]).0@ != (#[trigger] before.push(
                            (key, text),
                        )[b]).0@ by {
                            if b == before.len() {
                                assert(before[a].0@ != session_id@);
                            } else {
                                assert(before[a].0@ != before[b].0@);
                            }
                        }
                    }
                    let mut d: Vec<(String, String)> = Vec::new();
                    std::mem::swap(&mut d, &mut self.drafts);
                    d.push((key, text));
                    assert(d@.drop_last() =~= before);
                    self.drafts = d;
                },
            }
        }
    }

    /// Whether `session_id` has a non-blank draft.
    pub fn has_draft(&self, session_id: &str) -> (r: bool)
        ensures
            r == (self@.drafts.dom().contains(session_id@) && !is_blank(self@.drafts[session_id@])),
    {
        proof {
            lemma_drafts_of(self.drafts@, session_id@);
        }
        match self.find_draft(session_id) {
            Some(i) => !is_blank_str(self.drafts[i].1.as_str()),
            None => false,
        }
    }

    /// Queue a follow-up typed while a turn runs: blank ones are ignored;
    /// gives the index of the queued item.
    pub fn queue_followup(&mut self, msg: String) -> (r: Option<usize>)
        ensures
            final(self)@.drafts == old(self)@.drafts,
            final(self)@.queue == queued(old(self)@.queue, msg@),
            r == if is_blank(msg@) {
                None
            } else {
                Some(old(self)@.queue.len() as usize)
            },
    {
        proof {
            use_type_invariant(&*self);
        }
        if is_blank_str(msg.as_str()) {
            return None;
        }
        let ghost before = self.followup_queue@;
        let ghost m = msg@;
        let mut q: Vec<String> = Vec::new();
        std::mem::swap(&mut q, &mut self.followup_queue);
        q.push(msg);
        self.followup_queue = q;
        assert(self.followup_queue@.map_values(|s: String| s@) =~= before.map_values(|s: String| s@).push(m));
        Some(self.followup_queue.len() - 1)
    }

    /// Remove the queued follow-up at `index`, if there.
    pub fn remove_queued(&mut self, index: usize) -> (r: Option<String>)
        ensures
            final(self)@.drafts == old(self)@.drafts,
            index < old(self)@.queue.len() ==> (r matches Some(m) && m@ == old(self)@.queue[index as int]
                && final(self)@.queue == old(self)@.queue.remove(index as int)),
            index >= old(self)@.queue.len() ==> r is None && final(self)@.queue == old(self)@.queue,
    {
        proof {
            use_type_invariant(&*self);
        }
        if index < self.followup_queue.len() {
            let ghost before = self.followup_queue@;
            let mut q: Vec<String> = Vec::new();
            std::mem::swap(&mut q, &mut self.followup_queue);
            let m = q.remove(index);
            self.followup_queue = q;
            assert(self.followup_queue@.map_values(|s: String| s@) =~= before.map_values(|s: String| s@).remove(
                index as int,
            ));
            Some(m)
        } else {
            None
        }
    }

    /// Replace the queued follow-up at `index`: `false` when out of range
    /// or the new text is blank.
    pub fn edit_queued(&mut self, index: usize, msg: String) -> (r: bool)
        ensures
            final(self)@.drafts == old(self)@.drafts,
            r == (!is_blank(msg@) && index < old(self)@.queue.len()),
            r ==> final(self)@.queue == old(self)@.queue.update(index as int, msg@),
            !r ==> final(self)@.queue == old(self)@.queue,
    {
        proof {
            use_type_invariant(&*self);
        }
        if is_blank_str(msg.as_str()) {
            return false;
        }
        if index >= self.followup_queue.len() {
            return false;
        }
        let ghost before = self.followup_queue@;
        let ghost m = msg@;
        let mut q: Vec<String> = Vec::new();
        std::mem::swap(&mut q, &mut self.followup_queue);
        q.set(index, msg);
        self.followup_queue = q;
        assert(self.followup_queue@.map_values(|s: String| s@) =~= before.map_values(|s: String| s@).update(
            index as int,
            m,
        ));
        true
    }

    /// The queue, oldest first.
    pub fn queue(&self) -> (r: &[String])
        ensures
            r@.map_values(|s: String| s@) == self@.queue,
    {
        self.followup_queue.as_slice()
    }

    /// Take the whole queue, oldest first, leaving it empty.
    pub fn drain_queue(&mut self) -> (r: Vec<String>)
        ensures
            r@.map_values(|s: String| s@) == old(self)@.queue,
            final(self)@.queue.len() == 0,
            final(self)@.drafts == old(self)@.drafts,
    {
        proof {
            use_type_invariant(&*self);
        }
        let mut out: Vec<String> = Vec::new();
        std::mem::swap(&mut out, &mut self.followup_queue);
        assert(self.followup_queue@.map_values(|s: String| s@) =~= Seq::<Seq<char>>::empty());
        out
    }

    /// Switching sessions: the outgoing text becomes the draft of `prev`
    /// (or removes it when blank), and the draft of `current` comes back.
    /// Staying on the same session changes nothing and keeps the text.
    pub fn switch_session(&mut self, prev: &str, current: &str, text: String) -> (r: String)
        ensures
            prev@ == current@ ==> final(self)@ == old(self)@ && r@ == text@,
            prev@ != current@ ==> {
                &&& final(self)@.queue == old(self)@.queue
                &&& final(self)@.drafts == saved(old(self)@.drafts, prev@, text@)
                &&& r@ == if final(self)@.drafts.dom().contains(current@) {
                    final(self)@.drafts[current@]
                } else {
                    Seq::empty()
                }
            },
    {
        if str_eq(prev, current) {
            return text;
        }
        self.save_draft(prev, text);
        self.draft_for(current)
    }

    /// The primary control (Send/Stop, or Enter while idle): a running turn
    /// is stopped; otherwise a non-blank message is sent and the session's
    /// draft cleared.
    pub fn primary_action(&mut self, session_id: &str, text: &str, turn_running: bool) -> (r:
        ComposerIntent)
        ensures
            turn_running ==> r is Stop && final(self)@ == old(self)@,
            !turn_running && is_blank(text@) ==> r is Nothing && final(self)@ == old(self)@,
            !turn_running && !is_blank(text@) ==> (r matches ComposerIntent::Send(m) && m@ == text@
                && final(self)@.drafts == old(self)@.drafts.remove(session_id@) && final(self)@.queue
                == old(self)@.queue),
    {
        if turn_running {
            return ComposerIntent::Stop;
        }
        if is_blank_str(text) {
            return ComposerIntent::Nothing;
        }
        self.save_draft(session_id, String::new());
        assert(is_blank(Seq::<char>::empty())) by {
            assert(crate::text::trim(Seq::<char>::empty()) =~= Seq::<char>::empty());
        }
        ComposerIntent::Send(crate::text::owned(text))
    }

    /// Queue the typed text while a turn runs (the Queue control, or Enter):
    /// when queued, the session's draft is cleared; gives whether it was.
    pub fn queue_action(&mut self, session_id: &str, text: &str) -> (r: bool)
        ensures
            r == !is_blank(text@),
            r ==> final(self)@.queue == old(self)@.queue.push(text@) && final(self)@.drafts
                == old(self)@.drafts.remove(session_id@),
            !r ==> final(self)@ == old(self)@,
    {
        if self.queue_followup(crate::text::owned(text)).is_some() {
            self.save_draft(session_id, String::new());
            assert(is_blank(Seq::<char>::empty())) by {
                assert(crate::text::trim(Seq::<char>::empty()) =~= Seq::<char>::empty());
            }
            true
        } else {
            false
        }
    }
}

/// What Enter in the message field did.
#[derive(Debug, Clone, PartialEq, Eq)]
pub enum EnterOutcome {
    /// Shift+Enter: the field keeps its newline.
    Newline,
    /// While a turn runs: whether the text was queued.
    Queued(bool),
    /// While idle: the primary control's intent.
    Intent(ComposerIntent),
}

impl ComposerState {
    /// Enter in the message field: Shift+Enter keeps the newline; otherwise
    /// the text is queued while a turn runs and sent while idle.
    pub fn enter_key(&mut self, session_id: &str, text: &str, turn_running: bool, shift: bool) -> (r:
        EnterOutcome)
        ensures
            shift ==> r == EnterOutcome::Newline && final(self)@ == old(self)@,
            !shift && turn_running ==> {
                &&& r == EnterOutcome::Queued(!is_blank(text@))
                &&& !is_blank(text@) ==> final(self)@.queue == old(self)@.queue.push(text@)
                    && final(self)@.drafts == old(self)@.drafts.remove(session_id@)
                &&& is_blank(text@) ==> final(self)@ == old(self)@
            },
            !shift && !turn_running && is_blank(text@) ==> r == EnterOutcome::Intent(
                ComposerIntent::Nothing,
            ) && final(self)@ == old(self)@,
            !shift && !turn_running && !is_blank(text@) ==> (r matches EnterOutcome::Intent(
                ComposerIntent::Send(m),
            ) && m@ == text@ && final(self)@.drafts == old(self)@.drafts.remove(session_id@)
                && final(self)@.queue == old(self)@.queue),
    {
        if shift {
            return EnterOutcome::Newline;
        }
        if turn_running {
            EnterOutcome::Queued(self.queue_action(session_id, text))
        } else {
            EnterOutcome::Intent(self.primary_action(session_id, text, false))
        }
    }
}

/// Drafts are per session: leaving session `a` with `text` and later
/// leaving session `b` with anything keeps `a`'s draft, so switching back
/// to `a` gives `text` again (when it was not blank).
pub proof fn lemma_switch_back_restores_draft(
    m: Map<Seq<char>, Seq<char>>,
    a: Seq<char>,
    b: Seq<char>,
    text: Seq<char>,
    other: Seq<char>,
)
    requires
        a != b,
        !is_blank(text),
    ensures
        saved(saved(m, a, text), b, other).dom().contains(a),
        saved(saved(m, a, text), b, other)[a] == text,
{
}

/// Saving one session's draft leaves every other session's draft as it was.
pub proof fn lemma_drafts_are_per_session(
    m: Map<Seq<char>, Seq<char>>,
    a: Seq<char>,
    b: Seq<char>,
    text: Seq<char>,
)
    requires
        a != b,
    ensures
        saved(m, a, text).dom().contains(b) == m.dom().contains(b),
        m.dom().contains(b) ==> saved(m, a, text)[b] == m[b],
{
}

/// The queue drains in the order it was filled: queueing two non-blank
/// follow-ups puts them after what was there, first one first.
pub proof fn lemma_queue_is_fifo(q: Seq<Seq<char>>, a: Seq<char>, b: Seq<char>)
    requires
        !is_blank(a),
        !is_blank(b),
    ensures
        queued(queued(q, a), b) == q + seq![a, b],
{
    assert(queued(queued(q, a), b) =~= q + seq![a, b]);
}

} // verus!
