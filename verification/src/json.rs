//! JSON text through `serde_json`: quoting a string as a JSON string
//! literal, and reading one back.
use vstd::prelude::*;

verus! {

/// Lowercase hex digit for `d < 16`.
pub open spec fn lower_hex_digit(d: u32) -> char {
    if d < 10 {
        ((48 + d) as u32) as char
    } else {
        ((87 + d) as u32) as char
    }
}

/// How `serde_json` writes one character inside a string literal: `"`
/// and `\` behind a backslash; backspace, form feed, line feed, carriage
/// return and tab as `\b`, `\f`, `\n`, `\r`, `\t`; any other control
/// character below U+0020 as `\u00` and two lowercase hex digits; every
/// other character as itself.
pub open spec fn json_escape_char(c: char) -> Seq<char> {
    if c == '"' {
        seq!['\\', '"']
    } else if c == '\\' {
        seq!['\\', '\\']
    } else if c == '\u{8}' {
        seq!['\\', 'b']
    } else if c == '\u{c}' {
        seq!['\\', 'f']
    } else if c == '\n' {
        seq!['\\', 'n']
    } else if c == '\r' {
        seq!['\\', 'r']
    } else if c == '\t' {
        seq!['\\', 't']
    } else if (c as u32) < 0x20 {
        seq!['\\', 'u', '0', '0', lower_hex_digit((c as u32) / 16), lower_hex_digit((c as u32) % 16)]
    } else {
        seq![c]
    }
}

/// The characters of `s`, each written as in [`json_escape_char`].
pub open spec fn json_escaped(s: Seq<char>) -> Seq<char>
    decreases s.len(),
{
    if s.len() == 0 {
        Seq::empty()
    } else {
        json_escape_char(s[0]) + json_escaped(s.drop_first())
    }
}

/// The JSON string literal `serde_json::to_string` gives for a string: a
/// quote, the escaped characters, a quote.
#[verifier::opaque]
pub open spec fn json_string(s: Seq<char>) -> Seq<char> {
    seq!['"'] + json_escaped(s) + seq!['"']
}

/// `serde_json::to_string` on a `str`: the JSON string literal for `s`
/// (see [`json_string`]; the escapes are those of serde_json's `ESCAPE`
/// table and its `write_char_escape`). Serializing a `str` into the
/// in-memory buffer cannot fail, so the error arm never runs.
#[verifier::external_body]
pub(crate) fn json_quote(s: &str) -> (r: String)
    ensures
        r@ == json_string(s@),
{
    match serde_json::to_string(s) {
        Ok(v) => v,
        Err(_) => String::new(),
    }
}

/// What `serde_json::from_str::<String>` gives for a text: the string a
/// JSON string literal denotes, or `None` when the text is not one.
pub uninterp spec fn json_string_value(s: Seq<char>) -> Option<Seq<char>>;

/// `serde_json::from_str::<String>`. The contract only names the result:
/// the string the JSON text denotes, `None` on a parse error.
#[verifier::external_body]
pub(crate) fn json_unquote(s: &str) -> (r: Option<String>)
    ensures
        match json_string_value(s@) {
            Some(t) => r is Some && r->0@ == t,
            None => r is None,
        },
{
    match serde_json::from_str::<String>(s) {
        Ok(v) => Some(v),
        Err(_) => None,
    }
}

} // verus!
