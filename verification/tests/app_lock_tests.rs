use std::sync::{Arc, Mutex};
use unpeel_ui::app_lock::{
    auth_outcome_from_code, capability_from_code, method_label, AppLockCapability, AppLockManager,
    AuthError, BiometricBackend, BiometryType, NoBiometricBackend, ShellBiometricBackend,
};

/// Scripted backend: each `authenticate` pops the next outcome; records
/// the reasons it was asked for.
struct FakeBackend {
    outcomes: Mutex<Vec<Result<(), AuthError>>>,
    reasons: Mutex<Vec<String>>,
    capability: AppLockCapability,
}

#[derive(Clone)]
struct Shared(Arc<FakeBackend>);

impl FakeBackend {
    fn succeeding() -> Shared {
        Shared(Arc::new(Self {
            outcomes: Mutex::new(vec![Ok(())]),
            reasons: Mutex::new(vec![]),
            capability: AppLockCapability {
                available: true,
                biometry: BiometryType::FaceId,
            },
        }))
    }

    fn failing(outcomes: Vec<Result<(), AuthError>>) -> Shared {
        Shared(Arc::new(Self {
            outcomes: Mutex::new(outcomes),
            reasons: Mutex::new(vec![]),
            capability: AppLockCapability {
                available: true,
                biometry: BiometryType::FaceId,
            },
        }))
    }
}

impl BiometricBackend for Shared {
    fn capability(&self) -> AppLockCapability {
        self.0.capability
    }

    fn authenticate(&self, reason: &str) -> Result<(), AuthError> {
        self.0.reasons.lock().unwrap().push(reason.to_string());
        self.0
            .outcomes
            .lock()
            .unwrap()
            .pop()
            .unwrap_or(Err(AuthError::Failed("out of scripted outcomes".into())))
    }
}

#[test]
fn cold_launch_starts_covered_when_armed() {
    let lock = AppLockManager::new(FakeBackend::succeeding(), true);
    assert!(lock.is_enabled());
    assert!(lock.is_locked());
}

#[test]
fn cold_launch_starts_open_when_disarmed() {
    let lock = AppLockManager::new(FakeBackend::succeeding(), false);
    assert!(!lock.is_locked());
}

#[test]
fn enable_authenticates_first() {
    let backend = FakeBackend::succeeding();
    let mut lock = AppLockManager::new(backend.clone(), false);
    assert!(lock.enable());
    assert!(lock.is_enabled());
    assert!(!lock.is_locked());
    let reasons = backend.0.reasons.lock().unwrap();
    assert_eq!(reasons.len(), 1);
    assert!(
        reasons[0].contains("Face ID"),
        "confirm reason names the method"
    );
    assert_eq!(reasons[0], "Confirm Face ID to lock Unpeel when you leave the app");
}

#[test]
fn enable_fails_when_auth_fails() {
    let mut lock = AppLockManager::new(
        FakeBackend::failing(vec![Err(AuthError::Failed("nope".into()))]),
        false,
    );
    assert!(!lock.enable());
    assert!(!lock.is_enabled());
    assert!(!lock.is_locked());
    assert_eq!(lock.last_error(), Some("nope"));
}

#[test]
fn enable_is_idempotent_when_already_armed() {
    let backend = FakeBackend::succeeding();
    let mut lock = AppLockManager::new(backend.clone(), true);
    // Already enabled: no second prompt.
    assert!(lock.enable());
    assert!(backend.0.reasons.lock().unwrap().is_empty());
}

#[test]
fn disable_needs_no_auth() {
    let backend = FakeBackend::succeeding();
    let mut lock = AppLockManager::new(backend.clone(), true);
    lock.disable();
    assert!(!lock.is_enabled());
    assert!(!lock.is_locked());
    assert!(backend.0.reasons.lock().unwrap().is_empty());
}

#[test]
fn background_covers_and_foreground_prompts_once() {
    let mut lock = AppLockManager::new(FakeBackend::succeeding(), true);
    // Fresh launch is already covered; foreground fires one prompt.
    assert!(lock.begin_foreground_unlock());
    assert!(!lock.begin_foreground_unlock(), "no second auto-prompt");
    // Unlock, background, foreground: the cycle repeats exactly once.
    assert!(lock.unlock());
    assert!(!lock.is_locked());
    lock.lock_if_enabled();
    assert!(lock.is_locked());
    assert!(lock.begin_foreground_unlock());
    assert!(!lock.begin_foreground_unlock());
}

#[test]
fn lock_if_enabled_is_noop_when_disarmed() {
    let mut lock = AppLockManager::new(FakeBackend::succeeding(), false);
    lock.lock_if_enabled();
    assert!(!lock.is_locked());
    assert!(!lock.begin_foreground_unlock());
}

#[test]
fn user_cancel_is_silent_stays_locked() {
    let mut lock =
        AppLockManager::new(FakeBackend::failing(vec![Err(AuthError::UserCancel)]), true);
    assert!(!lock.unlock());
    assert!(lock.is_locked());
    assert_eq!(lock.last_error(), None, "cancels never surface an error");
}

#[test]
fn failed_auth_surfaces_last_error() {
    let mut lock = AppLockManager::new(
        FakeBackend::failing(vec![Err(AuthError::Failed("biometry lockout".into()))]),
        true,
    );
    assert!(!lock.unlock());
    assert!(lock.is_locked());
    assert_eq!(lock.last_error(), Some("biometry lockout"));
    // A later successful attempt clears the error.
    let mut lock2 = AppLockManager::new(FakeBackend::succeeding(), true);
    assert!(lock2.unlock());
    assert_eq!(lock2.last_error(), None);
}

#[test]
fn unlock_is_noop_when_already_unlocked() {
    let backend = FakeBackend::succeeding();
    let mut lock = AppLockManager::new(backend.clone(), false);
    assert!(lock.unlock());
    assert!(backend.0.reasons.lock().unwrap().is_empty());
}

#[test]
fn method_labels_match_swift() {
    let face = AppLockCapability {
        available: true,
        biometry: BiometryType::FaceId,
    };
    let touch = AppLockCapability {
        available: true,
        biometry: BiometryType::TouchId,
    };
    let optic = AppLockCapability {
        available: true,
        biometry: BiometryType::OpticId,
    };
    let passcode = AppLockCapability {
        available: true,
        biometry: BiometryType::NoBiometry,
    };
    assert_eq!(method_label(&face), "Face ID");
    assert_eq!(method_label(&touch), "Touch ID");
    assert_eq!(method_label(&optic), "Optic ID");
    assert_eq!(method_label(&passcode), "Passcode");
    assert_eq!(method_label(&AppLockCapability::unavailable()), "Face ID");
}

#[test]
fn shell_backend_reports_unavailable_without_feature() {
    let backend = ShellBiometricBackend;
    assert_eq!(backend.capability(), AppLockCapability::unavailable());
    assert_eq!(
        backend.authenticate("x"),
        Err(AuthError::Unavailable),
        "plain webview/dev builds never prompt"
    );
    let backend = NoBiometricBackend;
    assert_eq!(backend.capability(), AppLockCapability::unavailable());
}

#[test]
fn error_messages() {
    assert_eq!(AuthError::UserCancel.message(), "Authentication was cancelled");
    assert_eq!(AuthError::SystemCancel.message(), "Authentication was interrupted");
    assert_eq!(
        AuthError::Unavailable.message(),
        "Biometric unlock is not available in this build"
    );
    assert_eq!(AuthError::Failed("x".into()).message(), "x");
}

#[test]
fn armed_flag_reads_one_only() {
    assert!(unpeel_ui::app_lock::armed_from_stored(Some(b"1")));
    assert!(!unpeel_ui::app_lock::armed_from_stored(Some(b"0")));
    assert!(!unpeel_ui::app_lock::armed_from_stored(Some(b"11")));
    assert!(!unpeel_ui::app_lock::armed_from_stored(Some(b"")));
    assert!(!unpeel_ui::app_lock::armed_from_stored(None));
}

#[test]
fn enable_with_capability_names_that_method() {
    let backend = FakeBackend::succeeding();
    let mut lock = AppLockManager::new(backend.clone(), false);
    let touch = AppLockCapability {
        available: true,
        biometry: BiometryType::TouchId,
    };
    assert!(lock.enable_with_capability(touch));
    assert!(lock.is_enabled());
    assert!(!lock.is_locked());
    let reasons = backend.0.reasons.lock().unwrap();
    assert_eq!(reasons.as_slice(), ["Confirm Touch ID to lock Unpeel when you leave the app"]);
}

#[test]
fn enable_with_capability_when_armed_asks_nothing() {
    let backend = FakeBackend::succeeding();
    let mut lock = AppLockManager::new(backend.clone(), true);
    assert!(lock.enable_with_capability(AppLockCapability::unavailable()));
    assert!(backend.0.reasons.lock().unwrap().is_empty());
}

#[test]
fn capability_codes() {
    let cap = |available, biometry| AppLockCapability { available, biometry };
    assert_eq!(capability_from_code(0), cap(false, BiometryType::NoBiometry));
    assert_eq!(capability_from_code(1), cap(true, BiometryType::NoBiometry));
    assert_eq!(capability_from_code(2), cap(true, BiometryType::TouchId));
    assert_eq!(capability_from_code(3), cap(true, BiometryType::FaceId));
    assert_eq!(capability_from_code(4), cap(true, BiometryType::OpticId));
    assert_eq!(capability_from_code(5), cap(false, BiometryType::NoBiometry));
    assert_eq!(capability_from_code(-1), cap(false, BiometryType::NoBiometry));
}

#[test]
fn auth_outcome_codes() {
    assert_eq!(auth_outcome_from_code(0), Ok(()));
    assert_eq!(auth_outcome_from_code(1), Err(AuthError::UserCancel));
    assert_eq!(auth_outcome_from_code(2), Err(AuthError::SystemCancel));
    assert_eq!(
        auth_outcome_from_code(3),
        Err(AuthError::Failed("Authentication failed".into()))
    );
    assert_eq!(
        auth_outcome_from_code(-7),
        Err(AuthError::Failed("Authentication failed".into()))
    );
}
