//! The JSON events the iOS notification bridge reflects to the app:
//! notification authorization, the APNs handshake, the device token the
//! shell forwards (validated and normalized here), registration errors,
//! and notification taps.
//!
//! On targets without Apple's notification frameworks every entry point
//! reports the frameworks unavailable.
use vstd::prelude::*;
use crate::json::{json_quote, json_string};
use crate::text::{chars_of, lowercase, owned, push_str, to_lowercase, trim, trim_str};

verus! {

/// The event every entry point reflects where the notification
/// frameworks do not exist.
pub open spec fn unavailable_spec() -> Seq<char> {
    "{\"kind\":\"error\",\"message\":\"notifications unavailable: not an Apple target\"}"@
}

/// The event reporting the notification frameworks unavailable.
pub fn unavailable_event() -> (r: String)
    ensures
        r@ == unavailable_spec(),
{
    owned("{\"kind\":\"error\",\"message\":\"notifications unavailable: not an Apple target\"}")
}

/// Asking for notification authorization where the frameworks do not
/// exist: the unavailable event.
pub fn request_authorization() -> (r: String)
    ensures
        r@ == unavailable_spec(),
{
    unavailable_event()
}

/// Starting the APNs handshake where the frameworks do not exist: the
/// unavailable event.
pub fn register_for_remote_notifications() -> (r: String)
    ensures
        r@ == unavailable_spec(),
{
    unavailable_event()
}

/// Installing the notification-response delegate where the frameworks do
/// not exist: the unavailable event.
pub fn install_response_delegate() -> (r: String)
    ensures
        r@ == unavailable_spec(),
{
    unavailable_event()
}

/// The answer to the authorization request: whether it was granted and,
/// when the framework reported one, the error's description.
pub open spec fn authorization_spec(granted: bool, error: Option<Seq<char>>) -> Seq<char> {
    "{\"kind\":\"notification_authorization\",\"granted\":"@ + (if granted {
        "true"@
    } else {
        "false"@
    }) + match error {
        Some(e) => ",\"error\":"@ + json_string(e),
        None => Seq::empty(),
    } + "}"@
}

/// The event for the authorization request's answer.
pub fn authorization_event(granted: bool, error: Option<&str>) -> (r: String)
    ensures
        r@ == authorization_spec(
            granted,
            match error {
                Some(e) => Some(e@),
                None => None,
            },
        ),
{
    let mut j = owned("{\"kind\":\"notification_authorization\",\"granted\":");
    push_str(&mut j, if granted { "true" } else { "false" });
    match error {
        Some(e) => {
            push_str(&mut j, ",\"error\":");
            push_str(&mut j, json_quote(e).as_str());
        },
        None => {},
    }
    push_str(&mut j, "}");
    j
}

/// The APNs handshake runs only on the main thread.
pub open spec fn registration_spec(on_main_thread: bool) -> Seq<char> {
    if on_main_thread {
        "{\"kind\":\"apns_registration_requested\"}"@
    } else {
        "{\"kind\":\"error\",\"message\":\"register_for_remote_notifications must run on the main thread\"}"@
    }
}

/// The event for a request to start the APNs handshake.
pub fn registration_event(on_main_thread: bool) -> (r: String)
    ensures
        r@ == registration_spec(on_main_thread),
{
    if on_main_thread {
        owned("{\"kind\":\"apns_registration_requested\"}")
    } else {
        owned(
            "{\"kind\":\"error\",\"message\":\"register_for_remote_notifications must run on the main thread\"}",
        )
    }
}

/// An ASCII hex digit.
pub open spec fn is_hex_digit(c: char) -> bool {
    ('0' <= c && c <= '9') || ('a' <= c && c <= 'f') || ('A' <= c && c <= 'F')
}

/// A device token as the bridge accepts it: non-empty, of even length,
/// hex digits only.
pub open spec fn valid_token(t: Seq<char>) -> bool {
    &&& t.len() > 0
    &&& t.len() % 2 == 0
    &&& forall|i: int| 0 <= i < t.len() ==> is_hex_digit(#[trigger] t[i])
}

/// The device token the shell forwards (`None` when its pointer was
/// null): trimmed and lowercased, it is reflected when valid.
pub open spec fn token_spec(hex: Option<Seq<char>>) -> Seq<char> {
    match hex {
        None => "{\"kind\":\"error\",\"message\":\"apns token pointer was null\"}"@,
        Some(h) => {
            let clean = lowercase(trim(h));
            if valid_token(clean) {
                "{\"kind\":\"apns_token\",\"token\":\""@ + clean + "\"}"@
            } else {
                "{\"kind\":\"error\",\"message\":\"apns token was not even-length hex\"}"@
            }
        },
    }
}

/// The event for the APNs device token the shell forwards, as hex.
/// Validates strictly (even length, hex only) after trimming and
/// lowercasing.
pub fn ingest_apns_token(hex: Option<&str>) -> (r: String)
    ensures
        r@ == token_spec(
            match hex {
                Some(h) => Some(h@),
                None => None,
            },
        ),
{
    let h = match hex {
        Some(h) => h,
        None => {
            return owned("{\"kind\":\"error\",\"message\":\"apns token pointer was null\"}");
        },
    };
    let trimmed = trim_str(h);
    let clean = to_lowercase(trimmed.as_str());
    let v = chars_of(clean.as_str());
    let mut all_hex = true;
    let mut i: usize = 0;
    while i < v.len()
        invariant
            i <= v@.len(),
            v@ == clean@,
            all_hex == (forall|k: int| 0 <= k < i ==> is_hex_digit(#[trigger] v@[k])),
        decreases v@.len() - i,
    {
        let c = v[i];
        let hex_digit = ('0' <= c && c <= '9') || ('a' <= c && c <= 'f') || ('A' <= c && c <= 'F');
        if !hex_digit {
            all_hex = false;
        }
        i += 1;
    }
    if v.len() == 0 || v.len() % 2 != 0 || !all_hex {
        return owned("{\"kind\":\"error\",\"message\":\"apns token was not even-length hex\"}");
    }
    let mut j = owned("{\"kind\":\"apns_token\",\"token\":\"");
    push_str(&mut j, clean.as_str());
    push_str(&mut j, "\"}");
    j
}

/// APNs registration failed: the message (`unknown` when its pointer was
/// null) as a JSON string.
pub open spec fn apns_error_spec(msg: Option<Seq<char>>) -> Seq<char> {
    "{\"kind\":\"apns_error\",\"message\":"@ + json_string(
        match msg {
            Some(m) => m,
            None => "unknown"@,
        },
    ) + "}"@
}

/// The event for a failed APNs registration.
pub fn ingest_apns_error(msg: Option<&str>) -> (r: String)
    ensures
        r@ == apns_error_spec(
            match msg {
                Some(m) => Some(m@),
                None => None,
            },
        ),
{
    let mut j = owned("{\"kind\":\"apns_error\",\"message\":");
    match msg {
        Some(m) => push_str(&mut j, json_quote(m).as_str()),
        None => push_str(&mut j, json_quote("unknown").as_str()),
    }
    push_str(&mut j, "}");
    j
}

/// The event once the response delegate is installed.
pub fn delegate_installed_event() -> (r: String)
    ensures
        r@ == "{\"kind\":\"notification_delegate_installed\"}"@,
{
    owned("{\"kind\":\"notification_delegate_installed\"}")
}

/// A tap on a notification: the request's identifier as a JSON string and
/// the `userInfo` payload, already a JSON object.
pub open spec fn opened_spec(identifier: Seq<char>, user_info_json: Seq<char>) -> Seq<char> {
    "{\"kind\":\"notification_opened\",\"identifier\":"@ + json_string(identifier)
        + ",\"user_info\":"@ + user_info_json + "}"@
}

/// The event for a tap on a notification.
pub fn notification_opened_event(identifier: &str, user_info_json: &str) -> (r: String)
    ensures
        r@ == opened_spec(identifier@, user_info_json@),
{
    let mut j = owned("{\"kind\":\"notification_opened\",\"identifier\":");
    push_str(&mut j, json_quote(identifier).as_str());
    push_str(&mut j, ",\"user_info\":");
    push_str(&mut j, user_info_json);
    push_str(&mut j, "}");
    j
}

} // verus!
