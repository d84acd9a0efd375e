//! Optional biometric app lock.
//!
//! When armed, the app covers itself on every backgrounding and on cold
//! launch, and clears the cover only after a successful authentication.
//! The prompt itself belongs to the platform, behind [`BiometricBackend`];
//! everything around it is this state machine. Cancellations are silent,
//! genuine failures are kept for the overlay, and each foreground gets at
//! most one automatic prompt.
use vstd::prelude::*;
use crate::i18n::{t, message_spec};
use crate::text::{owned, push_str};

verus! {

/// Which biometric (if any) the device offers.
#[derive(Debug, Clone, Copy, PartialEq, Eq, Structural)]
pub enum BiometryType {
    /// No biometry: passcode only, or nothing.
    NoBiometry,
    TouchId,
    FaceId,
    OpticId,
}

impl Default for BiometryType {
    fn default() -> (r: Self)
        ensures
            r == BiometryType::NoBiometry,
    {
        BiometryType::NoBiometry
    }
}

/// Whether the device can authenticate at all (biometry enrolled or a
/// passcode set), and which biometry it offers; no biometry with
/// `available` means passcode only.
#[derive(Debug, Clone, Copy, PartialEq, Eq, Structural)]
pub struct AppLockCapability {
    pub available: bool,
    pub biometry: BiometryType,
}

impl AppLockCapability {
    /// Nothing can authenticate.
    pub fn unavailable() -> (r: Self)
        ensures
            r == (AppLockCapability { available: false, biometry: BiometryType::NoBiometry }),
    {
        AppLockCapability { available: false, biometry: BiometryType::NoBiometry }
    }
}

/// Outcome of a failed authentication attempt.
#[derive(Debug, Clone, PartialEq, Eq)]
pub enum AuthError {
    /// No authenticator is plugged in.
    Unavailable,
    /// The user dismissed the prompt (silent).
    UserCancel,
    /// The system took the prompt away (silent).
    SystemCancel,
    /// A genuine failure, surfaced on the overlay.
    Failed(String),
}

impl AuthError {
    /// The text of an error: the catalog's message for the first three, the
    /// carried message for a failure.
    pub fn message(&self) -> (r: String)
        ensures
            r@ == match self {
                AuthError::Unavailable => message_spec("app_lock.biometric_unlock_is_not_available_in_thi"@),
                AuthError::UserCancel => message_spec("app_lock.authentication_was_cancelled"@),
                AuthError::SystemCancel => message_spec("app_lock.authentication_was_interrupted"@),
                AuthError::Failed(m) => m@,
            },
    {
        match self {
            AuthError::Unavailable => t("app_lock.biometric_unlock_is_not_available_in_thi"),
            AuthError::UserCancel => t("app_lock.authentication_was_cancelled"),
            AuthError::SystemCancel => t("app_lock.authentication_was_interrupted"),
            AuthError::Failed(m) => m.clone(),
        }
    }
}

/// The user-facing name of the unlock method.
pub open spec fn method_label_spec(c: AppLockCapability) -> Seq<char> {
    match c.biometry {
        BiometryType::FaceId => message_spec("app_lock.face_id"@),
        BiometryType::TouchId => message_spec("app_lock.touch_id"@),
        BiometryType::OpticId => message_spec("app_lock.optic_id"@),
        BiometryType::NoBiometry => if c.available {
            message_spec("app_lock.passcode"@)
        } else {
            message_spec("app_lock.face_id"@)
        },
    }
}

/// User-facing name of the unlock method on this device (see
/// [`method_label_spec`]).
pub fn method_label(capability: &AppLockCapability) -> (r: String)
    ensures
        r@ == method_label_spec(*capability),
{
    match capability.biometry {
        BiometryType::FaceId => t("app_lock.face_id"),
        BiometryType::TouchId => t("app_lock.touch_id"),
        BiometryType::OpticId => t("app_lock.optic_id"),
        BiometryType::NoBiometry => if capability.available {
            t("app_lock.passcode")
        } else {
            t("app_lock.face_id")
        },
    }
}

/// The platform's authenticator. What it reports is the platform's
/// business: nothing here is assumed of it.
pub trait BiometricBackend {
    /// Whether authentication is possible and which biometry is offered.
    fn capability(&self) -> AppLockCapability;

    /// Present the system prompt with `reason`; blocks until the user
    /// answers.
    fn authenticate(&self, reason: &str) -> Result<(), AuthError>;
}

/// A backend with no authenticator: unavailable, every prompt refused.
#[derive(Debug, Clone, Copy, Default)]
pub struct NoBiometricBackend;

impl BiometricBackend for NoBiometricBackend {
    fn capability(&self) -> (r: AppLockCapability)
        ensures
            r == (AppLockCapability { available: false, biometry: BiometryType::NoBiometry }),
    {
        AppLockCapability::unavailable()
    }

    fn authenticate(&self, reason: &str) -> (r: Result<(), AuthError>)
        ensures
            r == Err::<(), AuthError>(AuthError::Unavailable),
    {
        Err(AuthError::Unavailable)
    }
}

/// The backend of builds without the platform's authenticator linked in:
/// it reports unavailable, so the lock cannot be armed.
#[derive(Debug, Clone, Copy, Default)]
pub struct ShellBiometricBackend;

impl BiometricBackend for ShellBiometricBackend {
    fn capability(&self) -> (r: AppLockCapability)
        ensures
            r == (AppLockCapability { available: false, biometry: BiometryType::NoBiometry }),
    {
        AppLockCapability::unavailable()
    }

    fn authenticate(&self, reason: &str) -> (r: Result<(), AuthError>)
        ensures
            r == Err::<(), AuthError>(AuthError::Unavailable),
    {
        Err(AuthError::Unavailable)
    }
}

/// The capability behind a platform capability code: `1` passcode only,
/// `2` Touch ID, `3` Face ID, `4` Optic ID, anything else unavailable.
pub open spec fn capability_of_code(code: i32) -> AppLockCapability {
    if code == 1 {
        AppLockCapability { available: true, biometry: BiometryType::NoBiometry }
    } else if code == 2 {
        AppLockCapability { available: true, biometry: BiometryType::TouchId }
    } else if code == 3 {
        AppLockCapability { available: true, biometry: BiometryType::FaceId }
    } else if code == 4 {
        AppLockCapability { available: true, biometry: BiometryType::OpticId }
    } else {
        AppLockCapability { available: false, biometry: BiometryType::NoBiometry }
    }
}

/// Decode the capability code a platform authenticator reports (see
/// [`capability_of_code`]).
pub fn capability_from_code(code: i32) -> (r: AppLockCapability)
    ensures
        r == capability_of_code(code),
{
    if code == 1 {
        AppLockCapability { available: true, biometry: BiometryType::NoBiometry }
    } else if code == 2 {
        AppLockCapability { available: true, biometry: BiometryType::TouchId }
    } else if code == 3 {
        AppLockCapability { available: true, biometry: BiometryType::FaceId }
    } else if code == 4 {
        AppLockCapability { available: true, biometry: BiometryType::OpticId }
    } else {
        AppLockCapability::unavailable()
    }
}

/// Decode the outcome code of a platform prompt: `0` success, `1` the user
/// cancelled, `2` the system cancelled, anything else a failure carrying
/// the catalog's "authentication failed" message.
pub fn auth_outcome_from_code(code: i32) -> (r: Result<(), AuthError>)
    ensures
        code == 0 ==> r is Ok,
        code == 1 ==> r == Err::<(), AuthError>(AuthError::UserCancel),
        code == 2 ==> r == Err::<(), AuthError>(AuthError::SystemCancel),
        code != 0 && code != 1 && code != 2 ==> (r matches Err(AuthError::Failed(m))
            && m@ == message_spec("app_lock.authentication_failed"@)),
{
    if code == 0 {
        Ok(())
    } else if code == 1 {
        Err(AuthError::UserCancel)
    } else if code == 2 {
        Err(AuthError::SystemCancel)
    } else {
        Err(AuthError::Failed(t("app_lock.authentication_failed")))
    }
}

/// The lock's state.
pub struct LockModel {
    pub enabled: bool,
    pub locked: bool,
    pub auth_in_flight: bool,
    pub last_error: Option<Seq<char>>,
    pub auto_prompted: bool,
    /// The reason shown by the last prompt presented to the backend.
    pub last_prompt: Option<Seq<char>>,
}

/// One guarded authentication round prompting with `reason`, with outcome
/// `out`: refused while a prompt is up; otherwise the prompt is presented,
/// the error is cleared, success gives `true`, cancellations and
/// unavailability give `false` silently, and a failure keeps its message.
pub open spec fn auth_spec(m: LockModel, reason: Seq<char>, out: Result<(), AuthError>) -> (
    LockModel,
    bool,
) {
    if m.auth_in_flight {
        (m, false)
    } else {
        let p = LockModel { last_prompt: Some(reason), ..m };
        match out {
            Ok(()) => (LockModel { last_error: None, ..p }, true),
            Err(AuthError::Failed(msg)) => (LockModel { last_error: Some(msg@), ..p }, false),
            Err(_) => (LockModel { last_error: None, ..p }, false),
        }
    }
}

/// Arming: already armed stays armed without a prompt; otherwise a prompt
/// with outcome `out`, and success arms the lock uncovered.
pub open spec fn enable_spec(m: LockModel, reason: Seq<char>, out: Result<(), AuthError>) -> (
    LockModel,
    bool,
) {
    if m.enabled {
        (m, true)
    } else {
        let (a, ok) = auth_spec(m, reason, out);
        if ok {
            (LockModel { enabled: true, locked: false, ..a }, true)
        } else {
            (a, false)
        }
    }
}

/// Unlocking: already uncovered is done without a prompt; otherwise a
/// prompt with outcome `out`, and success uncovers.
pub open spec fn unlock_spec(m: LockModel, reason: Seq<char>, out: Result<(), AuthError>) -> (
    LockModel,
    bool,
) {
    if !m.locked {
        (m, true)
    } else {
        let (a, ok) = auth_spec(m, reason, out);
        if ok {
            (LockModel { locked: false, ..a }, true)
        } else {
            (a, false)
        }
    }
}

/// Going to the background: an armed lock covers and re-arms the one
/// automatic prompt.
pub open spec fn background_spec(m: LockModel) -> LockModel {
    if m.enabled {
        LockModel { locked: true, auto_prompted: false, ..m }
    } else {
        m
    }
}

/// Coming to the foreground: `true` once per foreground while covered.
pub open spec fn foreground_spec(m: LockModel) -> (LockModel, bool) {
    if !m.locked || m.auto_prompted {
        (m, false)
    } else {
        (LockModel { auto_prompted: true, ..m }, true)
    }
}

/// The confirmation prompt shown when arming.
pub open spec fn enable_reason(c: AppLockCapability) -> Seq<char> {
    "Confirm "@ + method_label_spec(c) + " to lock Unpeel when you leave the app"@
}

/// The app-lock state machine over a backend.
pub struct AppLockManager<B: BiometricBackend> {
    backend: B,
    is_enabled: bool,
    is_locked: bool,
    auth_in_flight: bool,
    last_error: Option<String>,
    auto_prompted_this_foreground: bool,
    last_prompt: Ghost<Option<Seq<char>>>,
}

impl<B: BiometricBackend> View for AppLockManager<B> {
    type V = LockModel;

    closed spec fn view(&self) -> LockModel {
        LockModel {
            enabled: self.is_enabled,
            locked: self.is_locked,
            auth_in_flight: self.auth_in_flight,
            last_error: match self.last_error {
                Some(e) => Some(e@),
                None => None,
            },
            auto_prompted: self.auto_prompted_this_foreground,
            last_prompt: self.last_prompt@,
        }
    }
}

impl<B: BiometricBackend> AppLockManager<B> {
    /// Cold launch starts covered when armed.
    pub fn new(backend: B, enabled: bool) -> (r: Self)
        ensures
            r@ == (LockModel {
                enabled,
                locked: enabled,
                auth_in_flight: false,
                last_error: None,
                auto_prompted: false,
                last_prompt: None,
            }),
    {
        AppLockManager {
            backend,
            is_enabled: enabled,
            is_locked: enabled,
            auth_in_flight: false,
            last_error: None,
            auto_prompted_this_foreground: false,
            last_prompt: Ghost(None),
        }
    }

    pub fn is_enabled(&self) -> (r: bool)
        ensures
            r == self@.enabled,
    {
        self.is_enabled
    }

    pub fn is_locked(&self) -> (r: bool)
        ensures
            r == self@.locked,
    {
        self.is_locked
    }

    pub fn auth_in_flight(&self) -> (r: bool)
        ensures
            r == self@.auth_in_flight,
    {
        self.auth_in_flight
    }

    pub fn last_error(&self) -> (r: Option<&str>)
        ensures
            match self@.last_error {
                Some(e) => r is Some && r->0@ == e,
                None => r is None,
            },
    {
        match &self.last_error {
            Some(e) => Some(e.as_str()),
            None => None,
        }
    }

    /// What the backend reports.
    pub fn capability(&self) -> AppLockCapability {
        self.backend.capability()
    }

    /// Apply the outcome of an authentication round (see [`auth_spec`]).
    fn settle(&mut self, out: Result<(), AuthError>) -> (r: bool)
        requires
            !old(self)@.auth_in_flight,
            old(self)@.last_prompt is Some,
        ensures
            (final(self)@, r) == auth_spec(old(self)@, old(self)@.last_prompt->0, out),
    {
        self.last_error = None;
        match out {
            Ok(()) => true,
            Err(AuthError::Failed(msg)) => {
                self.last_error = Some(msg);
                false
            },
            Err(_) => false,
        }
    }

    /// One guarded authentication round: the backend's outcome decides
    /// (see [`auth_spec`]).
    fn authenticate(&mut self, reason: &str) -> (r: bool)
        ensures
            exists|out: Result<(), AuthError>| (final(self)@, r) == auth_spec(old(self)@, reason@, out),
    {
        if self.auth_in_flight {
            assert((self@, false) == auth_spec(old(self)@, reason@, Ok(())));
            return false;
        }
        self.auth_in_flight = true;
        self.last_error = None;
        self.last_prompt = Ghost(Some(reason@));
        let result = self.backend.authenticate(reason);
        self.auth_in_flight = false;
        let ghost out = result;
        let r = self.settle(result);
        assert((self@, r) == auth_spec(old(self)@, reason@, out));
        r
    }

    /// Arm the lock, confirming the method works first with a prompt that
    /// names the method the backend reports: `true` only when the lock is
    /// now armed (see [`enable_with_capability`](Self::enable_with_capability);
    /// the backend decides both what it reports and the prompt's outcome).
    pub fn enable(&mut self) -> (r: bool)
        ensures
            exists|cap: AppLockCapability, out: Result<(), AuthError>|
                (final(self)@, r) == enable_spec(old(self)@, enable_reason(cap), out),
    {
        if self.is_enabled {
            let ghost cap = AppLockCapability { available: false, biometry: BiometryType::NoBiometry };
            assert((self@, true) == enable_spec(old(self)@, enable_reason(cap), Ok(())));
            return true;
        }
        let cap = self.capability();
        self.enable_with_capability(cap)
    }

    /// Arm the lock on a device that reports `capability`: the confirmation
    /// prompt names that capability's method (see [`enable_spec`]; the
    /// backend decides the prompt's outcome).
    pub fn enable_with_capability(&mut self, capability: AppLockCapability) -> (r: bool)
        ensures
            exists|out: Result<(), AuthError>|
                (final(self)@, r) == enable_spec(old(self)@, enable_reason(capability), out),
    {
        if self.is_enabled {
            assert((self@, true) == enable_spec(old(self)@, enable_reason(capability), Ok(())));
            return true;
        }
        let mut reason = owned("Confirm ");
        push_str(&mut reason, method_label(&capability).as_str());
        push_str(&mut reason, " to lock Unpeel when you leave the app");
        assert(reason@ == enable_reason(capability));
        let ghost before = self@;
        let ok = self.authenticate(reason.as_str());
        let ghost out = choose|out: Result<(), AuthError>| (self@, ok) == auth_spec(before, reason@, out);
        if !ok {
            assert((self@, false) == enable_spec(old(self)@, enable_reason(capability), out));
            return false;
        }
        self.is_enabled = true;
        self.is_locked = false;
        assert((self@, true) == enable_spec(old(self)@, enable_reason(capability), out));
        true
    }

    /// Disarm; reaching the toggle already required an unlock.
    pub fn disable(&mut self)
        ensures
            final(self)@ == (LockModel { enabled: false, locked: false, ..old(self)@ }),
    {
        self.is_enabled = false;
        self.is_locked = false;
    }

    /// The app went to the background (see [`background_spec`]).
    pub fn lock_if_enabled(&mut self)
        ensures
            final(self)@ == background_spec(old(self)@),
    {
        if !self.is_enabled {
            return;
        }
        self.is_locked = true;
        self.auto_prompted_this_foreground = false;
    }

    /// The app became visible: `true` exactly once per foreground while
    /// covered, for the single automatic prompt (see [`foreground_spec`]).
    pub fn begin_foreground_unlock(&mut self) -> (r: bool)
        ensures
            (final(self)@, r) == foreground_spec(old(self)@),
    {
        if !self.is_locked || self.auto_prompted_this_foreground {
            return false;
        }
        self.auto_prompted_this_foreground = true;
        true
    }

    /// Uncover after a successful prompt: `true` when the app is now
    /// uncovered (see [`unlock_spec`]; the backend decides the outcome).
    pub fn unlock(&mut self) -> (r: bool)
        ensures
            exists|out: Result<(), AuthError>|
                (final(self)@, r) == unlock_spec(old(self)@, message_spec("app_lock.unlock_unpeel"@), out),
    {
        let ghost reason_text = message_spec("app_lock.unlock_unpeel"@);
        if !self.is_locked {
            assert((self@, true) == unlock_spec(old(self)@, reason_text, Ok(())));
            return true;
        }
        let reason = t("app_lock.unlock_unpeel");
        let ghost before = self@;
        let ok = self.authenticate(reason.as_str());
        let ghost out = choose|out: Result<(), AuthError>| (self@, ok) == auth_spec(before, reason@, out);
        if ok {
            self.is_locked = false;
            assert((self@, true) == unlock_spec(old(self)@, reason_text, out));
            true
        } else {
            assert((self@, false) == unlock_spec(old(self)@, reason_text, out));
            false
        }
    }
}

/// One automatic prompt per foreground: a second call without a trip to
/// the background never asks again.
pub proof fn lemma_one_prompt_per_foreground(m: LockModel)
    ensures
        !foreground_spec(foreground_spec(m).0).1,
{
}

/// Cancellations and unavailability never surface an error.
pub proof fn lemma_cancel_is_silent(m: LockModel, reason: Seq<char>, e: AuthError)
    requires
        !(e is Failed),
    ensures
        auth_spec(m, reason, Err(e)).0.last_error == (if m.auth_in_flight {
            m.last_error
        } else {
            None
        }),
        !auth_spec(m, reason, Err(e)).1,
{
}

/// Whatever the backend answers, the cover stays on unless the answer was
/// a success: a failed unlock leaves the app covered, and a successful one
/// uncovers it.
pub proof fn lemma_unlock_uncovers_only_on_success(
    m: LockModel,
    reason: Seq<char>,
    out: Result<(), AuthError>,
)
    requires
        m.locked,
    ensures
        unlock_spec(m, reason, out).0.locked == !unlock_spec(m, reason, out).1,
{
}

/// An armed lock covers the app whenever it goes to the background.
pub proof fn lemma_background_covers(m: LockModel)
    requires
        m.enabled,
    ensures
        background_spec(m).locked,
        foreground_spec(background_spec(m)).1,
{
}

/// The keychain account the armed flag persists under.
pub const APP_LOCK_ENABLED_ACCOUNT: &'static str = "unpeel.app_lock_enabled";

/// The persisted armed flag: armed exactly when the stored value is `1`; a
/// missing or unreadable entry means disarmed (the preference fails open,
/// never the lock itself).
pub fn armed_from_stored(stored: Option<&[u8]>) -> (r: bool)
    ensures
        r == (stored matches Some(v) && v@ == seq![49u8]),
{
    match stored {
        Some(v) => {
            let one = v.len() == 1 && v[0] == 49u8;
            proof {
                if one {
                    assert(v@ =~= seq![49u8]);
                }
            }
            one
        },
        None => false,
    }
}

} // verus!
