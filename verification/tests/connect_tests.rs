use unpeel_ui::connect::{after_direct_failure, relay_failed_message, DirectFallback};

#[test]
fn only_reachability_failures_fall_back() {
    assert_eq!(
        after_direct_failure("pin mismatch", false, true, true),
        DirectFallback::Fail(
            "Direct failed (pin mismatch); not a reachability failure, relay not attempted.".into()
        )
    );
    assert_eq!(
        after_direct_failure("timed out", true, false, true),
        DirectFallback::Fail("Direct failed (timed out); Link is disabled for this host.".into())
    );
    assert_eq!(
        after_direct_failure("timed out", true, true, false),
        DirectFallback::Fail("Direct failed (timed out); no device identity for relay.".into())
    );
    assert_eq!(after_direct_failure("timed out", true, true, true), DirectFallback::TryRelay);
}

#[test]
fn relay_failure_names_both_errors() {
    assert_eq!(
        relay_failed_message("timed out", "refused"),
        "Direct failed (timed out); relay failed (refused)"
    );
}
