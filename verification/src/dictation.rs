//! Voice dictation: the platform-independent half.
//!
//! The recording/refining state machine, the commit decision (short
//! utterances skip the reflection pass), the reflection-output sanitizer,
//! the speech-backend message protocol and the scripts handed to a native
//! shell. A reflection answer commits only when it carries the live nonce
//! while refining, so it commits at most once and never after a cancel.
use vstd::prelude::*;
use vstd::utf8::encode_utf8;
use crate::text::{
    starts_with, is_ws, trim, has_char, owned, str_eq, chars_of, push_str, trim_str, is_blank,
    is_blank_str, contains_char, byte_len, string_from_chars, decimal, decimal_string,
};
use crate::json::{json_string, json_quote, json_string_value, json_unquote};

verus! {

broadcast use vstd::string::group_string_axioms;

/// Minimum word count for the reflection pass: menu answers and
/// confirmations ("yes", "2", "continue") skip it.
pub const REFLECTION_MIN_WORDS: usize = 5;

/// Launcher-side backstop for a native reflection pass, in milliseconds.
pub const REFINE_TIMEOUT_MS: u64 = 6000;

/// Dictation lifecycle.
#[derive(Debug, Clone, Copy, PartialEq, Eq, Structural)]
pub enum DictationPhase {
    /// Nothing happening.
    Idle,
    /// Mic open, live transcript accumulating.
    Recording,
    /// Recording stopped; the reflection model is polishing the transcript.
    Refining,
}

impl Default for DictationPhase {
    fn default() -> (r: Self)
        ensures
            r == DictationPhase::Idle,
    {
        DictationPhase::Idle
    }
}

impl DictationPhase {
    /// Anything but idle.
    pub fn is_active(&self) -> (r: bool)
        ensures
            r == !(*self is Idle),
    {
        match self {
            DictationPhase::Idle => false,
            _ => true,
        }
    }
}

/// User-facing dictation preferences; the reflection pass is on by
/// default (it always falls back to the verbatim transcript).
#[derive(Debug, Clone, Copy, PartialEq, Eq, Structural)]
pub struct DictationSettings {
    pub reflection_enabled: bool,
}

impl Default for DictationSettings {
    fn default() -> (r: Self)
        ensures
            r.reflection_enabled,
    {
        DictationSettings { reflection_enabled: true }
    }
}

/// The number of whitespace-separated words of `s`.
pub open spec fn word_count(s: Seq<char>) -> nat
    decreases s.len(),
{
    if s.len() == 0 {
        0
    } else {
        let starts = !is_ws(s.last()) && (s.len() == 1 || is_ws(s[s.len() - 2]));
        word_count(s.drop_last()) + if starts {
            1nat
        } else {
            0nat
        }
    }
}

fn count_words(s: &str) -> (r: usize)
    ensures
        r == word_count(s@),
{
    let v = chars_of(s);
    let mut n: usize = 0;
    let mut i: usize = 0;
    assert(v@.subrange(0, 0) =~= Seq::<char>::empty());
    while i < v.len()
        invariant
            i <= v.len(),
            v@ == s@,
            n == word_count(v@.subrange(0, i as int)),
            n <= i,
        decreases v.len() - i,
    {
        proof {
            assert(v@.subrange(0, i + 1).drop_last() =~= v@.subrange(0, i as int));
        }
        let starts = !crate::text::is_whitespace(v[i]) && (i == 0 || crate::text::is_whitespace(v[i - 1]));
        if starts {
            n += 1;
        }
        i += 1;
    }
    assert(v@.subrange(0, v.len() as int) =~= v@);
    n
}

/// Whether a finished transcript goes through the reflection pass:
/// enabled, a reflector available, and at least five words.
pub fn should_refine(text: &str, settings: &DictationSettings, reflector_available: bool) -> (r: bool)
    ensures
        r == (settings.reflection_enabled && reflector_available && word_count(text@)
            >= REFLECTION_MIN_WORDS),
{
    settings.reflection_enabled && reflector_available && count_words(text) >= REFLECTION_MIN_WORDS
}

/// `t` with one pair of wrapping double quotes removed, if it has them.
pub open spec fn unquoted(t: Seq<char>) -> Seq<char> {
    if t.len() >= 2 && t[0] == '"' && t.last() == '"' {
        t.subrange(1, t.len() - 1)
    } else {
        t
    }
}

/// The reflection output to commit, or `None` to commit the verbatim text:
/// the trimmed output with wrapping quotes removed; `None` when it is
/// missing or blank, longer (in UTF-8 bytes) than twice the original plus
/// 40 (the model answered instead of cleaning), or spans lines.
pub open spec fn sanitized(output: Option<Seq<char>>, original: Seq<char>) -> Option<Seq<char>> {
    match output {
        None => None,
        Some(o) => {
            let t = trim(o);
            let u = unquoted(t);
            if t.len() == 0 {
                None
            } else if encode_utf8(u).len() > encode_utf8(original).len() * 2 + 40 {
                None
            } else if has_char(u, '\n') {
                None
            } else {
                Some(u)
            }
        },
    }
}

/// Sanitize a reflection output (see [`sanitized`]).
pub fn sanitize_reflection(output: Option<&str>, original: &str) -> (r: Option<String>)
    ensures
        match sanitized(
            match output {
                Some(o) => Some(o@),
                None => None,
            },
            original@,
        ) {
            Some(t) => r is Some && r->0@ == t,
            None => r is None,
        },
{
    let o = match output {
        Some(o) => o,
        None => {
            return None;
        },
    };
    let t = trim_str(o);
    let v = chars_of(t.as_str());
    if v.len() == 0 {
        return None;
    }
    let text = if v.len() >= 2 && v[0] == '"' && v[v.len() - 1] == '"' {
        string_from_chars(&v, 1, v.len() - 1)
    } else {
        t
    };
    assert(text@ == unquoted(trim(o@)));
    let limit: u128 = (byte_len(original) as u128) * 2 + 40;
    if byte_len(text.as_str()) as u128 > limit {
        return None;
    }
    if contains_char(text.as_str(), '\n') {
        return None;
    }
    Some(text)
}

/// What the recording and refining state amounts to.
pub struct DictationModel {
    pub phase: DictationPhase,
    pub transcript: Seq<char>,
    pub error: Option<Seq<char>>,
    pub refine_original: Seq<char>,
    pub refine_nonce: u64,
    pub refine_counter: u64,
}

/// The mic button's effect, decided by the phase before the tap.
#[derive(Debug, Clone, PartialEq, Eq)]
pub enum DictationAction {
    /// Idle to recording: the backend must start listening.
    Started,
    /// Recording to idle with a transcript: the backend must stop, then
    /// the transcript commits.
    Stopped(String),
    /// Recording to idle with nothing captured: the backend must still
    /// stop, but nothing commits.
    StoppedEmpty,
    /// Tap while refining: ignored.
    Ignored,
}

/// The message of an interrupted recognizer.
pub open spec fn interrupted_message() -> Seq<char> {
    "Dictation was interrupted"@
}

/// A tap on the mic: idle starts recording (transcript and error
/// cleared); recording stops (error cleared, transcript handed back unless
/// blank); refining ignores it. Gives the state after and the transcript
/// handed back, if any.
pub open spec fn toggle_spec(m: DictationModel) -> (DictationModel, Option<Seq<char>>) {
    match m.phase {
        DictationPhase::Idle => (
            DictationModel {
                phase: DictationPhase::Recording,
                transcript: Seq::empty(),
                error: None,
                ..m
            },
            None,
        ),
        DictationPhase::Recording => (
            DictationModel { phase: DictationPhase::Idle, transcript: Seq::empty(), error: None, ..m },
            if is_blank(m.transcript) {
                None
            } else {
                Some(m.transcript)
            },
        ),
        DictationPhase::Refining => (m, None),
    }
}

/// Entering the refining phase: only from idle; the counter advances
/// (wrapping) and becomes the live nonce.
pub open spec fn begin_spec(m: DictationModel, original: Seq<char>) -> (DictationModel, Option<u64>) {
    if m.phase is Idle {
        let c = m.refine_counter.wrapping_add(1);
        (
            DictationModel {
                phase: DictationPhase::Refining,
                refine_counter: c,
                refine_nonce: c,
                refine_original: original,
                ..m
            },
            Some(c),
        )
    } else {
        (m, None)
    }
}

/// Completing a reflection: only the answer with the live nonce, while
/// refining, commits the sanitized refinement or else the verbatim
/// original, and returns to idle; anything else changes nothing.
pub open spec fn complete_spec(m: DictationModel, nonce: u64, refined: Seq<char>) -> (
    DictationModel,
    Option<Seq<char>>,
) {
    if m.phase is Refining && nonce == m.refine_nonce {
        (
            DictationModel {
                phase: DictationPhase::Idle,
                refine_nonce: 0,
                refine_original: Seq::empty(),
                ..m
            },
            Some(
                match sanitized(Some(refined), m.refine_original) {
                    Some(t) => t,
                    None => m.refine_original,
                },
            ),
        )
    } else {
        (m, None)
    }
}

/// Dropping everything without committing.
pub open spec fn cancel_spec(m: DictationModel) -> DictationModel {
    DictationModel {
        phase: DictationPhase::Idle,
        transcript: Seq::empty(),
        error: None,
        refine_original: Seq::empty(),
        refine_nonce: 0,
        ..m
    }
}

/// The recording side of dictation: the live transcript, the last error,
/// and the reflection in flight.
pub struct DictationSession {
    phase: DictationPhase,
    transcript: String,
    error: Option<String>,
    refine_original: String,
    refine_nonce: u64,
    refine_counter: u64,
}

impl View for DictationSession {
    type V = DictationModel;

    closed spec fn view(&self) -> DictationModel {
        DictationModel {
            phase: self.phase,
            transcript: self.transcript@,
            error: match self.error {
                Some(e) => Some(e@),
                None => None,
            },
            refine_original: self.refine_original@,
            refine_nonce: self.refine_nonce,
            refine_counter: self.refine_counter,
        }
    }
}

impl DictationSession {
    /// Idle, empty, nothing in flight.
    pub fn new() -> (r: Self)
        ensures
            r@ == (DictationModel {
                phase: DictationPhase::Idle,
                transcript: Seq::empty(),
                error: None,
                refine_original: Seq::empty(),
                refine_nonce: 0,
                refine_counter: 0,
            }),
    {
        DictationSession {
            phase: DictationPhase::Idle,
            transcript: String::new(),
            error: None,
            refine_original: String::new(),
            refine_nonce: 0,
            refine_counter: 0,
        }
    }

    pub fn phase(&self) -> (r: DictationPhase)
        ensures
            r == self@.phase,
    {
        self.phase
    }

    pub fn transcript(&self) -> (r: &str)
        ensures
            r@ == self@.transcript,
    {
        self.transcript.as_str()
    }

    pub fn error(&self) -> (r: Option<&str>)
        ensures
            match self@.error {
                Some(e) => r is Some && r->0@ == e,
                None => r is None,
            },
    {
        match &self.error {
            Some(e) => Some(e.as_str()),
            None => None,
        }
    }

    /// The mic button (see [`toggle_spec`]).
    pub fn toggle(&mut self) -> (r: DictationAction)
        ensures
            final(self)@ == toggle_spec(old(self)@).0,
            match old(self)@.phase {
                DictationPhase::Idle => r is Started,
                DictationPhase::Refining => r is Ignored,
                DictationPhase::Recording => match toggle_spec(old(self)@).1 {
                    Some(t) => r matches DictationAction::Stopped(s) && s@ == t,
                    None => r is StoppedEmpty,
                },
            },
    {
        match self.phase {
            DictationPhase::Idle => {
                self.phase = DictationPhase::Recording;
                self.transcript = String::new();
                self.error = None;
                DictationAction::Started
            },
            DictationPhase::Recording => {
                self.phase = DictationPhase::Idle;
                self.error = None;
                let mut text = String::new();
                std::mem::swap(&mut text, &mut self.transcript);
                if is_blank_str(text.as_str()) {
                    DictationAction::StoppedEmpty
                } else {
                    DictationAction::Stopped(text)
                }
            },
            DictationPhase::Refining => DictationAction::Ignored,
        }
    }

    /// A live transcript update: latest wins, only while recording.
    pub fn on_transcript(&mut self, text: &str)
        ensures
            final(self)@ == (if old(self)@.phase is Recording {
                DictationModel { transcript: text@, ..old(self)@ }
            } else {
                old(self)@
            }),
    {
        if self.phase == DictationPhase::Recording {
            self.transcript = owned(text);
        }
    }

    /// The recognizer died mid-recording: keep the transcript, drop back
    /// to idle and surface an error (so the kept text can be pasted).
    pub fn backend_interrupted(&mut self)
        ensures
            final(self)@ == (if old(self)@.phase is Recording {
                DictationModel {
                    phase: DictationPhase::Idle,
                    error: Some(interrupted_message()),
                    ..old(self)@
                }
            } else {
                old(self)@
            }),
    {
        if self.phase == DictationPhase::Recording {
            self.phase = DictationPhase::Idle;
            self.error = Some(owned("Dictation was interrupted"));
        }
    }

    /// Commit a transcript kept across an interruption: idle with a
    /// non-blank transcript hands it back and clears it and the error.
    pub fn take_kept(&mut self) -> (r: Option<String>)
        ensures
            if old(self)@.phase is Idle && !is_blank(old(self)@.transcript) {
                &&& r is Some && r->0@ == old(self)@.transcript
                &&& final(self)@ == (DictationModel {
                    transcript: Seq::empty(),
                    error: None,
                    ..old(self)@
                })
            } else {
                r is None && final(self)@ == old(self)@
            },
    {
        if self.phase == DictationPhase::Idle && !is_blank_str(self.transcript.as_str()) {
            self.error = None;
            let mut text = String::new();
            std::mem::swap(&mut text, &mut self.transcript);
            Some(text)
        } else {
            None
        }
    }

    /// The backend reported a problem; the transcript is untouched.
    pub fn note_error(&mut self, message: String)
        ensures
            final(self)@ == (DictationModel { error: Some(message@), ..old(self)@ }),
    {
        self.error = Some(message);
    }

    pub fn clear_error(&mut self)
        ensures
            final(self)@ == (DictationModel { error: None, ..old(self)@ }),
    {
        self.error = None;
    }

    /// Drop everything without committing, abandoning any reflection in
    /// flight (see [`cancel_spec`]).
    pub fn cancel(&mut self)
        ensures
            final(self)@ == cancel_spec(old(self)@),
    {
        self.phase = DictationPhase::Idle;
        self.transcript = String::new();
        self.error = None;
        self.refine_original = String::new();
        self.refine_nonce = 0;
    }

    /// Enter the refining phase, keeping the verbatim text for the
    /// fallback commit; gives the nonce the answer must carry, or `None`
    /// when not idle (see [`begin_spec`]).
    pub fn begin_refining(&mut self, original: &str) -> (r: Option<u64>)
        ensures
            (final(self)@, r) == begin_spec(old(self)@, original@),
    {
        if self.phase != DictationPhase::Idle {
            return None;
        }
        self.phase = DictationPhase::Refining;
        self.refine_counter = self.refine_counter.wrapping_add(1);
        self.refine_nonce = self.refine_counter;
        self.refine_original = owned(original);
        Some(self.refine_nonce)
    }

    /// Complete a reflection (see [`complete_spec`]).
    pub fn complete_refining(&mut self, nonce: u64, refined: &str) -> (r: Option<String>)
        ensures
            final(self)@ == complete_spec(old(self)@, nonce, refined@).0,
            match complete_spec(old(self)@, nonce, refined@).1 {
                Some(t) => r is Some && r->0@ == t,
                None => r is None,
            },
    {
        if self.phase != DictationPhase::Refining || nonce != self.refine_nonce {
            return None;
        }
        self.phase = DictationPhase::Idle;
        self.refine_nonce = 0;
        let mut original = String::new();
        std::mem::swap(&mut original, &mut self.refine_original);
        match sanitize_reflection(Some(refined), original.as_str()) {
            Some(t) => Some(t),
            None => Some(original),
        }
    }
}

/// What becomes of a stopped recording's transcript.
#[derive(Debug, Clone, PartialEq, Eq)]
pub enum StopOutcome {
    /// Commit this text now.
    Commit(String),
    /// A reflection pass with this nonce is under way; its answer commits.
    Reflect(u64),
}

/// Whether a stopped transcript goes through a reflection pass: only on
/// the native shell with a reflector, with reflection enabled and a long
/// enough transcript (see [`should_refine`]).
pub open spec fn wants_reflection(text: Seq<char>, settings: DictationSettings, native: bool, has_reflector: bool) -> bool {
    native && has_reflector && settings.reflection_enabled && word_count(text) >= REFLECTION_MIN_WORDS
}

impl DictationSession {
    /// After a recording stopped with `text`: when a reflection pass is
    /// wanted (see [`wants_reflection`]) and one can begin (see
    /// [`begin_spec`]), the session starts refining and the outcome is its
    /// nonce; otherwise the text commits verbatim and the session is
    /// unchanged.
    pub fn after_stop(
        &mut self,
        text: String,
        settings: &DictationSettings,
        native: bool,
        has_reflector: bool,
    ) -> (r: StopOutcome)
        ensures
            ({
                let want = wants_reflection(text@, *settings, native, has_reflector);
                let begun = begin_spec(old(self)@, text@);
                &&& final(self)@ == (if want { begun.0 } else { old(self)@ })
                &&& match (if want { begun.1 } else { None }) {
                    Some(n) => r matches StopOutcome::Reflect(m) && m == n,
                    None => r matches StopOutcome::Commit(t) && t@ == text@,
                }
            }),
    {
        let want = native && has_reflector && should_refine(text.as_str(), settings, true);
        if want {
            match self.begin_refining(text.as_str()) {
                Some(nonce) => StopOutcome::Reflect(nonce),
                None => StopOutcome::Commit(text),
            }
        } else {
            StopOutcome::Commit(text)
        }
    }
}

impl Default for DictationSession {
    fn default() -> (r: Self)
        ensures
            r@ == (DictationModel {
                phase: DictationPhase::Idle,
                transcript: Seq::empty(),
                error: None,
                refine_original: Seq::empty(),
                refine_nonce: 0,
                refine_counter: 0,
            }),
    {
        DictationSession::new()
    }
}

/// A reflection commits at most once: after an answer commits, any answer
/// with the same nonce commits nothing.
pub proof fn lemma_refinement_commits_once(m: DictationModel, nonce: u64, a: Seq<char>, b: Seq<char>)
    ensures
        complete_spec(m, nonce, a).1 is Some ==> complete_spec(complete_spec(m, nonce, a).0, nonce, b).1 is None,
{
}

/// After a cancel, no answer commits.
pub proof fn lemma_cancel_ignores_late_answers(m: DictationModel, nonce: u64, a: Seq<char>)
    ensures
        complete_spec(cancel_spec(m), nonce, a).1 is None,
        complete_spec(cancel_spec(m), nonce, a).0 == cancel_spec(m),
{
}

/// An answer that does not carry the live nonce commits nothing and
/// changes nothing.
pub proof fn lemma_stale_nonce_ignored(m: DictationModel, nonce: u64, a: Seq<char>)
    requires
        nonce != m.refine_nonce,
    ensures
        complete_spec(m, nonce, a) == (m, None::<Seq<char>>),
{
}

/// A committed reflection is never empty and never spans lines: it is the
/// sanitized refinement, or the verbatim original.
pub proof fn lemma_commit_is_refinement_or_original(m: DictationModel, nonce: u64, a: Seq<char>)
    requires
        complete_spec(m, nonce, a).1 is Some,
    ensures
        complete_spec(m, nonce, a).1 == Some(m.refine_original) || (sanitized(Some(a), m.refine_original)
            is Some && complete_spec(m, nonce, a).1 == sanitized(Some(a), m.refine_original)),
{
}

/// Stopping a recording never hands back a blank transcript.
pub proof fn lemma_stop_never_commits_blank(m: DictationModel)
    ensures
        toggle_spec(m).1 matches Some(t) ==> !is_blank(t),
{
}

/// The script that sends `cmd` to the native speech backend.
pub open spec fn speech_cmd_spec(cmd: Seq<char>) -> Option<Seq<char>> {
    if cmd == "start"@ || cmd == "stop"@ || cmd == "cancel"@ {
        Some("window.__unpeelNativeSpeech(\""@ + cmd + "\");"@)
    } else {
        None
    }
}

/// The one-shot script driving the native speech backend; `None` for
/// anything but `start`, `stop` and `cancel`, so a command string is never
/// interpolated unchecked.
pub fn native_speech_cmd_js(cmd: &str) -> (r: Option<String>)
    ensures
        match speech_cmd_spec(cmd@) {
            Some(t) => r is Some && r->0@ == t,
            None => r is None,
        },
{
    if str_eq(cmd, "start") || str_eq(cmd, "stop") || str_eq(cmd, "cancel") {
        let mut js = owned("window.__unpeelNativeSpeech(\"");
        push_str(&mut js, cmd);
        push_str(&mut js, "\");");
        Some(js)
    } else {
        None
    }
}

/// The script that starts a native reflection pass for `text` under
/// `nonce`: the text goes in as one JSON string literal, and a timer
/// answers empty (the verbatim fallback) if the shell never does.
pub open spec fn reflect_js_spec(nonce: u64, text: Seq<char>) -> Seq<char> {
    "(function() {\n  var nonce = "@ + decimal(nonce as nat)
        + ";\n  function answer(t) {\n    try { dioxus.send('dictation:refined:' + nonce + ':' + JSON.stringify(t)); } catch (e) {}\n  }\n  try { window.__unpeelNativeReflect(nonce, "@
        + json_string(text)
        + "); }\n  catch (e) { answer(\"\"); }\n  setTimeout(function() { answer(\"\"); }, 6000);\n})()"@
}

/// Build the script that starts a native reflection pass (see
/// [`reflect_js_spec`]).
pub fn native_reflect_js(nonce: u64, text: &str) -> (r: String)
    ensures
        r@ == reflect_js_spec(nonce, text@),
{
    let mut js = owned("(function() {\n  var nonce = ");
    push_str(&mut js, decimal_string(nonce).as_str());
    push_str(
        &mut js,
        ";\n  function answer(t) {\n    try { dioxus.send('dictation:refined:' + nonce + ':' + JSON.stringify(t)); } catch (e) {}\n  }\n  try { window.__unpeelNativeReflect(nonce, ",
    );
    push_str(&mut js, json_quote(text).as_str());
    push_str(&mut js, "); }\n  catch (e) { answer(\"\"); }\n  setTimeout(function() { answer(\"\"); }, 6000);\n})()");
    js
}

/// An ASCII decimal digit.
pub open spec fn is_digit(c: char) -> bool {
    '0' <= c && c <= '9'
}

/// The value of a run of decimal digits.
pub open spec fn digits_value(d: Seq<char>) -> nat
    decreases d.len(),
{
    if d.len() == 0 {
        0
    } else {
        digits_value(d.drop_last()) * 10 + ((d.last() as u32) - 48) as nat
    }
}

/// The digits part of a decimal: `s` without one leading `+`.
pub open spec fn unsigned_digits(s: Seq<char>) -> Seq<char> {
    if s.len() > 0 && s[0] == '+' {
        s.drop_first()
    } else {
        s
    }
}

/// Every character of `d` is a decimal digit.
pub open spec fn all_digits(d: Seq<char>) -> bool {
    forall|i: int| 0 <= i < d.len() ==> is_digit(#[trigger] d[i])
}

/// `u64::from_str`: an optional `+`, then at least one decimal digit,
/// whose value fits in 64 bits.
pub open spec fn parsed_u64(s: Seq<char>) -> Option<u64> {
    let d = unsigned_digits(s);
    if d.len() > 0 && all_digits(d) && digits_value(d) <= u64::MAX {
        Some(digits_value(d) as u64)
    } else {
        None
    }
}

/// Parse an unsigned 64-bit decimal (see [`parsed_u64`]).
pub fn parse_u64(s: &str) -> (r: Option<u64>)
    ensures
        r == parsed_u64(s@),
{
    let v = chars_of(s);
    let start: usize = if v.len() > 0 && v[0] == '+' {
        1
    } else {
        0
    };
    let ghost d = unsigned_digits(s@);
    assert(d =~= v@.skip(start as int));
    if start >= v.len() {
        return None;
    }
    let mut value: u64 = 0;
    let mut i = start;
    assert(d.subrange(0, 0) =~= Seq::<char>::empty());
    while i < v.len()
        invariant
            start <= i <= v.len(),
            v@ == s@,
            d == v@.skip(start as int),
            d == unsigned_digits(s@),
            value == digits_value(d.subrange(0, i - start)),
            forall|k: int| 0 <= k < i - start ==> is_digit(#[trigger] d[k]),
        decreases v.len() - i,
    {
        let c = v[i];
        proof {
            assert(d[i - start] == c);
            assert(d.subrange(0, i - start + 1).drop_last() =~= d.subrange(0, i - start));
        }
        if !('0' <= c && c <= '9') {
            assert(!is_digit(d[i - start]));
            return None;
        }
        let digit = (c as u32 - 48) as u64;
        if value > (u64::MAX - digit) / 10 {
            proof {
                assert(digits_value(d.subrange(0, i - start + 1)) > u64::MAX) by (nonlinear_arith)
                    requires
                        digits_value(d.subrange(0, i - start + 1)) == value * 10 + digit,
                        value > (u64::MAX - digit) / 10,
                        digit <= 9,
                ;
                if all_digits(d) {
                    lemma_digits_value_monotone(d, i - start + 1);
                }
            }
            return None;
        }
        value = value * 10 + digit;
        i += 1;
    }
    assert(d.subrange(0, d.len() as int) =~= d);
    Some(value)
}

proof fn lemma_digits_value_monotone(d: Seq<char>, k: int)
    requires
        0 <= k <= d.len(),
        all_digits(d),
    ensures
        digits_value(d.subrange(0, k)) <= digits_value(d),
    decreases d.len() - k,
{
    if k < d.len() {
        lemma_digits_value_monotone(d, k + 1);
        assert(d.subrange(0, k + 1).drop_last() =~= d.subrange(0, k));
        assert(is_digit(d[k]));
    } else {
        assert(d.subrange(0, k) =~= d);
    }
}

/// Index of the first `:` of `s`, or `-1`.
pub open spec fn first_colon(s: Seq<char>) -> int
    decreases s.len(),
{
    if s.len() == 0 {
        -1
    } else if s[0] == ':' {
        0
    } else {
        let r = first_colon(s.drop_first());
        if r < 0 {
            -1
        } else {
            r + 1
        }
    }
}

proof fn lemma_first_colon(s: Seq<char>)
    ensures
        -1 <= first_colon(s) < s.len(),
        first_colon(s) >= 0 ==> s[first_colon(s)] == ':',
        forall|j: int| 0 <= j < s.len() && (first_colon(s) < 0 || j < first_colon(s)) ==> #[trigger] s[j] != ':',
    decreases s.len(),
{
    if s.len() > 0 && s[0] != ':' {
        lemma_first_colon(s.drop_first());
        assert forall|j: int| 0 < j < s.len() implies #[trigger] s[j] == s.drop_first()[j - 1] by {}
    }
}

/// Position of the first `:` in `v`, if any.
fn find_colon(v: &Vec<char>) -> (r: Option<usize>)
    ensures
        match r {
            Some(k) => k as int == first_colon(v@) && k < v@.len(),
            None => first_colon(v@) < 0,
        },
{
    proof {
        lemma_first_colon(v@);
    }
    let mut i: usize = 0;
    while i < v.len()
        invariant
            i <= v.len(),
            forall|j: int| 0 <= j < i ==> v@[j] != ':',
            -1 <= first_colon(v@) < v@.len(),
            first_colon(v@) >= 0 ==> v@[first_colon(v@)] == ':',
            forall|j: int| 0 <= j < v@.len() && (first_colon(v@) < 0 || j < first_colon(v@)) ==> #[trigger] v@[j] != ':',
        decreases v.len() - i,
    {
        if v[i] == ':' {
            return Some(i);
        }
        i += 1;
    }
    None
}

/// The body of a `dictation:refined:` message, `{nonce}:{json string}`,
/// read as the nonce and the text (colons inside the JSON survive).
pub open spec fn refined_spec(body: Seq<char>) -> Option<(u64, Seq<char>)> {
    let k = first_colon(body);
    if k < 0 {
        None
    } else {
        match (parsed_u64(body.subrange(0, k)), json_string_value(body.skip(k + 1))) {
            (Some(n), Some(t)) => Some((n, t)),
            _ => None,
        }
    }
}

/// Parse the body of a `dictation:refined:` message (see
/// [`refined_spec`]).
pub fn parse_native_refined(body: &str) -> (r: Option<(u64, String)>)
    ensures
        match refined_spec(body@) {
            Some((n, t)) => r matches Some((m, u)) && m == n && u@ == t,
            None => r is None,
        },
{
    let v = chars_of(body);
    let k = match find_colon(&v) {
        Some(k) => k,
        None => {
            return None;
        },
    };
    let head = string_from_chars(&v, 0, k);
    let tail = string_from_chars(&v, k + 1, v.len());
    assert(tail@ =~= body@.skip(k + 1));
    let n = match parse_u64(head.as_str()) {
        Some(n) => n,
        None => {
            return None;
        },
    };
    match json_unquote(tail.as_str()) {
        Some(t) => Some((n, t)),
        None => None,
    }
}

/// A native live transcript once its JSON is read: `final` must be 0 or 1.
pub fn accept_native_text(is_final: u8, text: String) -> (r: Option<(bool, String)>)
    ensures
        is_final <= 1 ==> (r matches Some((f, t)) && f == (is_final == 1) && t == text),
        is_final > 1 ==> r is None,
{
    if is_final > 1 {
        None
    } else {
        Some((is_final == 1, text))
    }
}


/// Whether `v[at..]` starts with `p`.
fn has_prefix_at(v: &Vec<char>, at: usize, p: &str) -> (r: bool)
    requires
        at <= v@.len(),
    ensures
        r == starts_with(v@.skip(at as int), p@),
{
    let q = chars_of(p);
    if v.len() - at < q.len() {
        return false;
    }
    let mut i: usize = 0;
    while i < q.len()
        invariant
            i <= q@.len(),
            at + q@.len() <= v@.len(),
            at + q@.len() <= usize::MAX,
            q@ == p@,
            forall|j: int| 0 <= j < i ==> v@[at + j] == q@[j],
        decreases q@.len() - i,
    {
        if v[at + i] != q[i] {
            assert(v@.skip(at as int).subrange(0, q@.len() as int)[i as int] != q@[i as int]);
            return false;
        }
        i += 1;
    }
    assert(v@.skip(at as int).subrange(0, q@.len() as int) =~= q@);
    true
}

/// A message from the speech backend.
#[derive(Debug, Clone, PartialEq, Eq)]
pub enum DictationMessage {
    /// `text:<final>:<transcript>`: a live transcript (colons in it kept).
    Text(String),
    /// `ntext:<json>`: a native live transcript, as JSON for the caller to
    /// read.
    NativeText(String),
    /// `refined:<nonce>:<json string>`: a reflection answer.
    Refined(String),
    /// The backend is installed.
    Ready,
    /// No speech recognition in this webview.
    Unavailable,
    /// The recognizer stopped on its own.
    Ended,
    /// `error:<kind>`: `microphone`, or a recognizer failure.
    Error(String),
}

/// What a backend message says.
pub enum MessageView {
    Text(Seq<char>),
    NativeText(Seq<char>),
    Refined(Seq<char>),
    Ready,
    Unavailable,
    Ended,
    Error(Seq<char>),
}

pub open spec fn message_view(m: DictationMessage) -> MessageView {
    match m {
        DictationMessage::Text(t) => MessageView::Text(t@),
        DictationMessage::NativeText(t) => MessageView::NativeText(t@),
        DictationMessage::Refined(t) => MessageView::Refined(t@),
        DictationMessage::Ready => MessageView::Ready,
        DictationMessage::Unavailable => MessageView::Unavailable,
        DictationMessage::Ended => MessageView::Ended,
        DictationMessage::Error(t) => MessageView::Error(t@),
    }
}

/// Classify a `dictation:` message; anything else is `None`.
pub open spec fn classify(m: Seq<char>) -> Option<MessageView> {
    let pre = "dictation:"@;
    if !starts_with(m, pre) {
        None
    } else {
        let rest = m.skip(pre.len() as int);
        if starts_with(rest, "text:"@) {
            let t = rest.skip(5);
            let k = first_colon(t);
            Some(
                MessageView::Text(
                    if k < 0 {
                        t
                    } else {
                        t.skip(k + 1)
                    },
                ),
            )
        } else if starts_with(rest, "ntext:"@) {
            Some(MessageView::NativeText(rest.skip(6)))
        } else if starts_with(rest, "refined:"@) {
            Some(MessageView::Refined(rest.skip(8)))
        } else if rest == "ready"@ {
            Some(MessageView::Ready)
        } else if rest == "unavailable"@ {
            Some(MessageView::Unavailable)
        } else if rest == "ended"@ {
            Some(MessageView::Ended)
        } else if starts_with(rest, "error:"@) {
            Some(MessageView::Error(rest.skip(6)))
        } else {
            None
        }
    }
}

/// Read a backend message (see [`classify`]).
pub fn parse_dictation_message(msg: &str) -> (r: Option<DictationMessage>)
    ensures
        match classify(msg@) {
            Some(v) => r is Some && message_view(r->0) == v,
            None => r is None,
        },
{
    proof {
        reveal_strlit("dictation:");
        reveal_strlit("text:");
        reveal_strlit("ntext:");
        reveal_strlit("refined:");
        reveal_strlit("error:");
    }
    let v = chars_of(msg);
    if !has_prefix_at(&v, 0, "dictation:") {
        assert(v@.skip(0) =~= v@);
        return None;
    }
    assert(v@.skip(0) =~= v@);
    let rest = string_from_chars(&v, 10, v.len());
    let ghost r = msg@.skip(10);
    assert(rest@ =~= r);
    if has_prefix_at(&v, 10, "text:") {
        assert(v@.skip(10) =~= r);
        let t = chars_of(string_from_chars(&v, 15, v.len()).as_str());
        assert(t@ =~= r.skip(5));
        let text = match find_colon(&t) {
            Some(k) => {
                let s = string_from_chars(&t, k + 1, t.len());
                assert(s@ =~= t@.skip(k + 1));
                s
            },
            None => string_from_chars(&t, 0, t.len()),
        };
        proof {
            assert(t@.subrange(0, t@.len() as int) =~= t@);
        }
        return Some(DictationMessage::Text(text));
    }
    assert(v@.skip(10) =~= r);
    if has_prefix_at(&v, 10, "ntext:") {
        let t = string_from_chars(&v, 16, v.len());
        assert(t@ =~= r.skip(6));
        return Some(DictationMessage::NativeText(t));
    }
    if has_prefix_at(&v, 10, "refined:") {
        let t = string_from_chars(&v, 18, v.len());
        assert(t@ =~= r.skip(8));
        return Some(DictationMessage::Refined(t));
    }
    if str_eq(rest.as_str(), "ready") {
        return Some(DictationMessage::Ready);
    }
    if str_eq(rest.as_str(), "unavailable") {
        return Some(DictationMessage::Unavailable);
    }
    if str_eq(rest.as_str(), "ended") {
        return Some(DictationMessage::Ended);
    }
    if has_prefix_at(&v, 10, "error:") {
        let t = string_from_chars(&v, 16, v.len());
        assert(t@ =~= r.skip(6));
        return Some(DictationMessage::Error(t));
    }
    None
}

/// The error shown for a backend error of `kind`.
pub open spec fn error_message(kind: Seq<char>) -> Seq<char> {
    if kind == "microphone"@ {
        "Microphone unavailable — check permission"@
    } else {
        "Speech recognizer failed"@
    }
}

/// What a backend message does to the session, and the text it commits:
/// a transcript updates it, a reflection answer completes (see
/// [`complete_spec`]), readiness clears the error, unavailability and
/// errors set one, and an end, or an error while recording, is an
/// interruption. A native transcript carries a JSON body, which the caller
/// reads and hands to [`DictationSession::apply_native_text`].
pub open spec fn apply_spec(m: DictationModel, msg: MessageView) -> (DictationModel, Option<Seq<char>>) {
    match msg {
        MessageView::Text(t) => (
            if m.phase is Recording {
                DictationModel { transcript: t, ..m }
            } else {
                m
            },
            None,
        ),
        MessageView::NativeText(_) => (m, None),
        MessageView::Refined(body) => match refined_spec(body) {
            Some((n, t)) => complete_spec(m, n, t),
            None => (m, None),
        },
        MessageView::Ready => (DictationModel { error: None, ..m }, None),
        MessageView::Unavailable => (
            DictationModel { error: Some("Speech recognition isn't available here"@), ..m },
            None,
        ),
        MessageView::Ended => (
            if m.phase is Recording {
                DictationModel { phase: DictationPhase::Idle, error: Some(interrupted_message()), ..m }
            } else {
                m
            },
            None,
        ),
        MessageView::Error(kind) => (
            DictationModel {
                phase: if m.phase is Recording {
                    DictationPhase::Idle
                } else {
                    m.phase
                },
                error: Some(error_message(kind)),
                ..m
            },
            None,
        ),
    }
}

/// A native live transcript once its JSON body is read: a well-formed one
/// updates the transcript like any live transcript (its final flag changes
/// nothing), a malformed one is ignored.
pub open spec fn native_text_spec(m: DictationModel, parsed: Option<(bool, Seq<char>)>) -> DictationModel {
    match parsed {
        Some((_, t)) => if m.phase is Recording {
            DictationModel { transcript: t, ..m }
        } else {
            m
        },
        None => m,
    }
}

impl DictationSession {
    /// Apply a native live transcript, `parsed` being what its JSON body
    /// read as (see [`native_text_spec`] and [`accept_native_text`]).
    pub fn apply_native_text(&mut self, parsed: Option<(bool, String)>)
        ensures
            final(self)@ == native_text_spec(
                old(self)@,
                match parsed {
                    Some((f, t)) => Some((f, t@)),
                    None => None,
                },
            ),
    {
        match parsed {
            Some((_, text)) => self.on_transcript(text.as_str()),
            None => {},
        }
    }
}

impl DictationSession {
    /// Apply a backend message (see [`apply_spec`]); gives the text to
    /// commit, if any.
    pub fn apply_message(&mut self, msg: DictationMessage) -> (r: Option<String>)
        ensures
            final(self)@ == apply_spec(old(self)@, message_view(msg)).0,
            match apply_spec(old(self)@, message_view(msg)).1 {
                Some(t) => r is Some && r->0@ == t,
                None => r is None,
            },
    {
        match msg {
            DictationMessage::Text(t) => {
                self.on_transcript(t.as_str());
                None
            },
            DictationMessage::NativeText(_) => None,
            DictationMessage::Refined(body) => match parse_native_refined(body.as_str()) {
                Some((n, t)) => self.complete_refining(n, t.as_str()),
                None => None,
            },
            DictationMessage::Ready => {
                self.clear_error();
                None
            },
            DictationMessage::Unavailable => {
                self.note_error(owned("Speech recognition isn't available here"));
                None
            },
            DictationMessage::Ended => {
                self.backend_interrupted();
                None
            },
            DictationMessage::Error(kind) => {
                let message = if str_eq(kind.as_str(), "microphone") {
                    owned("Microphone unavailable — check permission")
                } else {
                    owned("Speech recognizer failed")
                };
                if self.phase == DictationPhase::Recording {
                    self.backend_interrupted();
                }
                self.note_error(message);
                None
            },
        }
    }
}

} // verus!
