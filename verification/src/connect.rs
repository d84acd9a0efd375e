//! Choosing the route to a Host: Direct first; the relay (`Link`) only when
//! Direct failed on reachability, Link is enabled for the Host and the
//! device has an identity to open the tunnel with. Any other Direct failure
//! (a TLS pin, an HTTP status, a decode error) is a hard error: falling
//! back would route around a security decision.
use vstd::prelude::*;
use crate::text::{owned, push_str};

verus! {

/// What to do after the Direct route failed.
#[derive(Debug, Clone, PartialEq, Eq)]
pub enum DirectFallback {
    /// Try the relay.
    TryRelay,
    /// Give up with this message.
    Fail(String),
}

/// `Direct failed (<err>); <why>`.
pub open spec fn direct_failed(direct_err: Seq<char>, why: Seq<char>) -> Seq<char> {
    "Direct failed ("@ + direct_err + "); "@ + why
}

/// The message to give up with after Direct failed with `direct_err`, or
/// `None` when the relay may be tried: only a reachability failure, with
/// Link enabled and a device identity, falls back.
pub open spec fn fallback_refusal(
    direct_err: Seq<char>,
    reachability_failure: bool,
    link_enabled: bool,
    has_device: bool,
) -> Option<Seq<char>> {
    if !reachability_failure {
        Some(direct_failed(direct_err, "not a reachability failure, relay not attempted."@))
    } else if !link_enabled {
        Some(direct_failed(direct_err, "Link is disabled for this host."@))
    } else if !has_device {
        Some(direct_failed(direct_err, "no device identity for relay."@))
    } else {
        None
    }
}

fn direct_failed_message(direct_err: &str, why: &str) -> (r: String)
    ensures
        r@ == direct_failed(direct_err@, why@),
{
    let mut m = owned("Direct failed (");
    push_str(&mut m, direct_err);
    push_str(&mut m, "); ");
    push_str(&mut m, why);
    m
}

/// Decide the fallback after the Direct route failed with `direct_err`
/// (see [`fallback_refusal`]).
pub fn after_direct_failure(
    direct_err: &str,
    reachability_failure: bool,
    link_enabled: bool,
    has_device: bool,
) -> (r: DirectFallback)
    ensures
        match fallback_refusal(direct_err@, reachability_failure, link_enabled, has_device) {
            Some(m) => r matches DirectFallback::Fail(s) && s@ == m,
            None => r is TryRelay,
        },
{
    if !reachability_failure {
        DirectFallback::Fail(direct_failed_message(direct_err, "not a reachability failure, relay not attempted."))
    } else if !link_enabled {
        DirectFallback::Fail(direct_failed_message(direct_err, "Link is disabled for this host."))
    } else if !has_device {
        DirectFallback::Fail(direct_failed_message(direct_err, "no device identity for relay."))
    } else {
        DirectFallback::TryRelay
    }
}

/// The message when the relay failed too: `Direct failed (<direct>); relay
/// failed (<relay>)`.
pub fn relay_failed_message(direct_err: &str, relay_err: &str) -> (r: String)
    ensures
        r@ == direct_failed(direct_err@, "relay failed ("@ + relay_err@ + ")"@),
{
    let mut m = owned("Direct failed (");
    push_str(&mut m, direct_err);
    push_str(&mut m, "); relay failed (");
    push_str(&mut m, relay_err);
    push_str(&mut m, ")");
    proof {
        reveal_strlit("); relay failed (");
        reveal_strlit("); ");
        reveal_strlit("relay failed (");
    }
    assert(m@ =~= direct_failed(direct_err@, "relay failed ("@ + relay_err@ + ")"@));
    m
}

} // verus!
