//! Pane and group ids: the canonical lowercase UUID form that durable
//! layouts are keyed by.
use vstd::prelude::*;
use crate::text::{
    trim, trim_start, trim_end, trim_str, lowercase, to_lowercase, push_char, all_ascii, ascii_lower,
    chars_of,
};
use vstd::utf8::{
    encode_utf8, encode_scalar, is_ascii_chars, is_ascii_chars_encode_utf8, has_width_1_encoding,
    has_width_2_encoding, has_width_3_encoding, leading_byte_width_2, leading_byte_width_3,
    leading_byte_width_4,
};
use vstd::string::StringSliceAdditionalSpecFns;

verus! {



/// An ASCII hex digit byte.
pub open spec fn is_hex_byte(b: u8) -> bool {
    (48 <= b && b <= 57) || (97 <= b && b <= 102) || (65 <= b && b <= 70)
}

/// Byte positions of the hyphens in a UUID.
pub open spec fn is_hyphen_slot(i: int) -> bool {
    i == 8 || i == 13 || i == 18 || i == 23
}

/// `8-4-4-4-12` hex digits separated by hyphens.
#[verifier::opaque]
pub open spec fn uuid_shaped(b: Seq<u8>) -> bool {
    &&& b.len() == 36
    &&& forall|i: int|
        0 <= i < 36 ==> if is_hyphen_slot(i) {
            b[i] == 45u8
        } else {
            is_hex_byte(#[trigger] b[i])
        }
}

/// One round of the id hash.
#[verifier::opaque]
pub open spec fn hash_step(h: u128, b: u8) -> u128 {
    let h1 = h.wrapping_mul(0x100000001b3).wrapping_add(b as u128);
    let h2 = h1 ^ (h1 >> 29u128);
    h2.wrapping_mul(0xbf58476d1ce4e5b9)
}

/// The deterministic hash of an id's bytes.
pub open spec fn id_hash(bytes: Seq<u8>) -> u128
    decreases bytes.len(),
{
    if bytes.len() == 0 {
        0xcbf29ce484222325
    } else {
        hash_step(id_hash(bytes.drop_last()), bytes.last())
    }
}

/// Lowercase hex digit for `d < 16`.
pub open spec fn hex_char(d: int) -> char {
    if d < 10 {
        ((48 + d) as u32) as char
    } else {
        ((87 + d) as u32) as char
    }
}

/// The low `n` hex digits of `h`, most significant first.
pub open spec fn hex_of(h: nat, n: nat) -> Seq<char>
    decreases n,
{
    if n == 0 {
        Seq::empty()
    } else {
        hex_of(h / 16, (n - 1) as nat).push(hex_char((h % 16) as int))
    }
}

/// Which of the 32 hex digits stands at position `i` of the UUID
/// (positions of hyphens and of the version nibble excluded).
pub open spec fn uuid_source(i: int) -> int {
    if i < 8 {
        i
    } else if i < 13 {
        i - 1
    } else if i < 18 {
        i - 2
    } else if i < 23 {
        i - 3
    } else {
        i - 4
    }
}

/// A v4-shaped UUID made from 32 hex digits: `hex[0..8]-hex[8..12]-4hex[13..16]-hex[16..20]-hex[20..32]`
/// (digit 12 is replaced by the version nibble `4`).
pub open spec fn uuid_from_hex(hex: Seq<char>) -> Seq<char> {
    Seq::new(
        36,
        |i: int|
            if is_hyphen_slot(i) {
                '-'
            } else if i == 14 {
                '4'
            } else {
                hex[uuid_source(i)]
            },
    )
}

/// The canonical form of a trimmed, lowercased id: itself when
/// UUID-shaped (with any ASCII capital lowered), else a UUID derived
/// deterministically from its hash.
#[verifier::opaque]
pub open spec fn canonical_from(v: Seq<char>) -> Seq<char> {
    if uuid_shaped(encode_utf8(v)) {
        v.map_values(|c: char| ascii_lower(c))
    } else {
        uuid_from_hex(hex_of(id_hash(encode_utf8(v)) as nat, 32))
    }
}

/// `str::to_lowercase` of `t`: the ASCII lowercase when `t` is ASCII.
pub open spec fn lowered(t: Seq<char>) -> Seq<char> {
    if all_ascii(t) {
        t.map_values(|c: char| ascii_lower(c))
    } else {
        lowercase(t)
    }
}

/// The canonical form of an id: trimmed and lowercased; when that is not
/// UUID-shaped, a UUID derived deterministically from its hash.
pub open spec fn canonical_spec(value: Seq<char>) -> Seq<char> {
    canonical_from(lowered(trim(value)))
}

/// Whether the string is UUID-shaped (see [`uuid_shaped`]).
pub fn is_uuid(v: &str) -> (r: bool)
    ensures
        r == uuid_shaped(v.spec_bytes()),
{
    reveal(uuid_shaped);
    let b = v.as_bytes();
    if b.len() != 36 {
        return false;
    }
    let mut i: usize = 0;
    while i < 36
        invariant
            i <= 36,
            b@.len() == 36,
            b@ == v.spec_bytes(),
            forall|j: int|
                0 <= j < i ==> if is_hyphen_slot(j) {
                    b@[j] == 45u8
                } else {
                    is_hex_byte(#[trigger] b@[j])
                },
        decreases 36 - i,
    {
        proof {
            reveal(uuid_shaped);
        }
        let c = b[i];
        let ok = if i == 8 || i == 13 || i == 18 || i == 23 {
            c == 45u8
        } else {
            (48 <= c && c <= 57) || (97 <= c && c <= 102) || (65 <= c && c <= 70)
        };
        if !ok {
            return false;
        }
        i += 1;
    }
    true
}

/// The 32 lowercase hex digits of `h` (`format!("{h:032x}")`).
fn hex32(h: u128) -> (r: Vec<char>)
    ensures
        r@ == hex_of(h as nat, 32),
        r@.len() == 32,
{
    proof {
        lemma_hex_of(h as nat, 32);
    }
    let mut digits: Vec<char> = Vec::new();
    let mut m = h;
    let mut i: u32 = 0;
    while i < 32
        invariant
            i <= 32,
            digits@.len() == i,
            hex_of(h as nat, 32) == hex_of(m as nat, (32 - i) as nat) + digits@.reverse(),
        decreases 32 - i,
    {
        let d = (m % 16) as u32;
        let c: char = if d < 10 {
            ((48 + d) as u8) as char
        } else {
            ((87 + d) as u8) as char
        };
        proof {
            assert(c == hex_char(d as int));
            assert(hex_of(m as nat, (32 - i) as nat) == hex_of((m / 16) as nat, (32 - i - 1) as nat).push(c));
            assert(digits@.push(c).reverse() =~= seq![c] + digits@.reverse());
            assert(hex_of((m / 16) as nat, (32 - i - 1) as nat).push(c) + digits@.reverse() =~= hex_of(
                (m / 16) as nat,
                (32 - i - 1) as nat,
            ) + digits@.push(c).reverse());
        }
        digits.push(c);
        m = m / 16;
        i += 1;
    }
    assert(hex_of(m as nat, 0) =~= Seq::<char>::empty());
    let mut out: Vec<char> = Vec::new();
    let mut k = digits.len();
    while k > 0
        invariant
            k <= digits.len(),
            out@ == digits@.reverse().subrange(0, digits.len() - k),
        decreases k,
    {
        k -= 1;
        out.push(digits[k]);
        assert(out@ =~= digits@.reverse().subrange(0, digits.len() - k));
    }
    assert(digits@.reverse().subrange(0, digits.len() as int) =~= digits@.reverse());
    assert(out@ =~= hex_of(h as nat, 32));
    out
}

/// The hash of the UTF-8 bytes of `v`.
fn hash_bytes(b: &[u8]) -> (h: u128)
    ensures
        h == id_hash(b@),
{
    let mut h: u128 = 0xcbf29ce484222325;
    let mut i: usize = 0;
    assert(b@.subrange(0, 0) =~= Seq::<u8>::empty());
    while i < b.len()
        invariant
            i <= b.len(),
            h == id_hash(b@.subrange(0, i as int)),
        decreases b.len() - i,
    {
        let x = b[i];
        proof {
            assert(b@.subrange(0, i + 1).drop_last() =~= b@.subrange(0, i as int));
        }
        let h1 = h.wrapping_mul(0x100000001b3).wrapping_add(x as u128);
        let h2 = h1 ^ (h1 >> 29u128);
        h = h2.wrapping_mul(0xbf58476d1ce4e5b9);
        proof {
            reveal(hash_step);
        }
        i += 1;
    }
    assert(b@.subrange(0, b@.len() as int) =~= b@);
    h
}

/// The UUID string laid out from 32 hex digits.
fn uuid_from_digits(hex: &Vec<char>) -> (r: String)
    requires
        hex@.len() == 32,
    ensures
        r@ == uuid_from_hex(hex@),
{
    let mut out = String::new();
    let mut i: usize = 0;
    while i < 36
        invariant
            i <= 36,
            hex@.len() == 32,
            out@ == uuid_from_hex(hex@).subrange(0, i as int),
        decreases 36 - i,
    {
        let c = if i == 8 || i == 13 || i == 18 || i == 23 {
            '-'
        } else if i == 14 {
            '4'
        } else if i < 8 {
            hex[i]
        } else if i < 13 {
            hex[i - 1]
        } else if i < 18 {
            hex[i - 2]
        } else if i < 23 {
            hex[i - 3]
        } else {
            hex[i - 4]
        };
        push_char(&mut out, c);
        assert(out@ =~= uuid_from_hex(hex@).subrange(0, i + 1));
        i += 1;
    }
    assert(out@ =~= uuid_from_hex(hex@));
    out
}

/// The ASCII lowercase of `v`; other characters are kept.
fn ascii_lowercase(v: &str) -> (r: String)
    ensures
        r@ == v@.map_values(|c: char| ascii_lower(c)),
{
    let cs = chars_of(v);
    let mut out = String::new();
    let mut i: usize = 0;
    while i < cs.len()
        invariant
            i <= cs@.len(),
            cs@ == v@,
            out@ == cs@.subrange(0, i as int).map_values(|c: char| ascii_lower(c)),
        decreases cs.len() - i,
    {
        let c = cs[i];
        let d = if 'A' <= c && c <= 'Z' {
            ((c as u8) + 32) as char
        } else {
            c
        };
        assert(d == ascii_lower(c));
        push_char(&mut out, d);
        assert(cs@.subrange(0, i + 1).map_values(|c: char| ascii_lower(c)) =~= cs@.subrange(
            0,
            i as int,
        ).map_values(|c: char| ascii_lower(c)).push(d));
        i += 1;
    }
    assert(cs@.subrange(0, cs@.len() as int) =~= cs@);
    out
}

/// The canonical id for an already trimmed and lowercased `v`.
fn canonical_of_lowered(v: String) -> (r: String)
    ensures
        r@ == canonical_from(v@),
{
    let shaped = is_uuid(v.as_str());
    if shaped {
        proof {
            reveal(canonical_from);
        }
        ascii_lowercase(v.as_str())
    } else {
        let h = hash_bytes(v.as_str().as_bytes());
        let hex = hex32(h);
        let r = uuid_from_digits(&hex);
        proof {
            reveal(canonical_from);
        }
        r
    }
}

/// Canonical lowercase UUID for an id: trimmed and lowercased, and when
/// that is not UUID-shaped, replaced by a UUID derived deterministically
/// from its hash.
pub fn canonical_id(value: &str) -> (r: String)
    ensures
        r@ == canonical_spec(value@),
{
    let t = trim_str(value);
    let v = to_lowercase(t.as_str());
    assert(v@ == lowered(t@));
    canonical_of_lowered(v)
}

/// A lowercase hex digit character.
pub open spec fn is_hex_char(c: char) -> bool {
    ('0' <= c && c <= '9') || ('a' <= c && c <= 'f')
}

proof fn lemma_hex_of(h: nat, n: nat)
    ensures
        hex_of(h, n).len() == n,
        forall|i: int| 0 <= i < n ==> is_hex_char(#[trigger] hex_of(h, n)[i]),
    decreases n,
{
    if n > 0 {
        lemma_hex_of(h / 16, (n - 1) as nat);
        let d = (h % 16) as int;
        assert(hex_of(h, n)[n - 1] == hex_char(d));
        assert forall|i: int| 0 <= i < n - 1 implies hex_of(h, n)[i] == hex_of(
            h / 16,
            (n - 1) as nat,
        )[i] by {}
    }
}

proof fn lemma_uuid_from_hex_shaped(hex: Seq<char>)
    requires
        hex.len() == 32,
        forall|k: int| 0 <= k < 32 ==> is_hex_char(#[trigger] hex[k]),
    ensures
        uuid_shaped(encode_utf8(uuid_from_hex(hex))),
{
    reveal(uuid_shaped);
    let u = uuid_from_hex(hex);
    assert forall|i: int| 0 <= i < u.len() implies '\0' <= #[trigger] u[i] <= '\u{7f}' && (
    is_hyphen_slot(i) ==> u[i] == '-') && (!is_hyphen_slot(i) ==> is_hex_char(u[i])) by {
        if !is_hyphen_slot(i) && i != 14 {
            assert(is_hex_char(hex[uuid_source(i)]));
        }
    }
    assert(is_ascii_chars(u));
    is_ascii_chars_encode_utf8(u);
    let b = encode_utf8(u);
    assert forall|i: int| 0 <= i < 36 implies if is_hyphen_slot(i) {
        b[i] == 45u8
    } else {
        is_hex_byte(#[trigger] b[i])
    } by {
        assert(u[i] as u8 == b[i]);
        assert(0 <= i < u.len());
    }
}

/// Canonical ids are always UUID-shaped: an id that is not becomes the
/// hash-derived UUID.
pub proof fn lemma_canonical_is_uuid(value: Seq<char>)
    ensures
        uuid_shaped(encode_utf8(canonical_spec(value))),
{
    lemma_canonical_idempotent(value);
    lemma_lowercase_uuid_shaped(canonical_spec(value));
}


/// A canonical id: a UUID in lowercase (`8-4-4-4-12` lowercase hex digits
/// and hyphens).
pub open spec fn lowercase_uuid(c: Seq<char>) -> bool {
    &&& c.len() == 36
    &&& forall|i: int|
        0 <= i < 36 ==> if is_hyphen_slot(i) {
            c[i] == '-'
        } else {
            is_hex_char(#[trigger] c[i])
        }
}

/// Canonicalizing is idempotent on canonical ids: a lowercase UUID is its
/// own canonical form.
pub proof fn lemma_canonical_fixes_lowercase_uuid(c: Seq<char>)
    requires
        lowercase_uuid(c),
    ensures
        canonical_spec(c) == c,
{
    reveal(canonical_from);
    reveal(uuid_shaped);
    assert(trim_start(c) == c);
    assert(trim_end(c) == c);
    assert(trim(c) == c);
    assert forall|i: int| 0 <= i < c.len() implies (#[trigger] c[i] as u32) < 128 by {}
    assert(all_ascii(c));
    assert(c.map_values(|ch: char| ascii_lower(ch)) =~= c);
    assert(c.map_values(|ch: char| ascii_lower(ch)) == c);
    assert(lowered(c) == c);
    lemma_lowercase_uuid_shaped(c);
}

/// A lowercase UUID is UUID-shaped.
proof fn lemma_lowercase_uuid_shaped(c: Seq<char>)
    requires
        lowercase_uuid(c),
    ensures
        uuid_shaped(encode_utf8(c)),
{
    reveal(uuid_shaped);
    assert forall|i: int| 0 <= i < c.len() implies (#[trigger] c[i] as u32) < 128 by {}
    assert(is_ascii_chars(c));
    is_ascii_chars_encode_utf8(c);
    let b = encode_utf8(c);
    assert forall|i: int| 0 <= i < 36 implies if is_hyphen_slot(i) {
        b[i] == 45u8
    } else {
        is_hex_byte(#[trigger] b[i])
    } by {
        assert(c[i] as u8 == b[i]);
    }
}

/// A character whose code is below 128 is an ASCII character.
proof fn lemma_ascii_code_is_ascii_char(c: char)
    requires
        (c as u32) < 128,
    ensures
        '\0' <= c <= '\u{7f}',
{
    assert(c as int == (c as u32) as int);
}

/// A character sequence whose UTF-8 encoding is all ASCII bytes is ASCII.
proof fn lemma_ascii_bytes_ascii_chars(v: Seq<char>)
    requires
        forall|i: int| 0 <= i < encode_utf8(v).len() ==> #[trigger] encode_utf8(v)[i] < 128,
    ensures
        is_ascii_chars(v),
    decreases v.len(),
{
    if v.len() > 0 {
        let c0 = v[0] as u32;
        let e = encode_scalar(c0);
        let rest = v.drop_first();
        assert(encode_utf8(v) == e + encode_utf8(rest));
        assert(e.len() >= 1);
        assert(encode_utf8(v)[0] == e[0]);
        if !has_width_1_encoding(c0) {
            if has_width_2_encoding(c0) {
                assert(leading_byte_width_2(c0) >= 0xC0) by (bit_vector);
            } else if has_width_3_encoding(c0) {
                assert(leading_byte_width_3(c0) >= 0xE0) by (bit_vector);
            } else {
                assert(leading_byte_width_4(c0) >= 0xF0) by (bit_vector);
            }
        }
        assert(c0 <= 0x7f);
        assert forall|i: int| 0 <= i < encode_utf8(rest).len() implies #[trigger] encode_utf8(rest)[i]
            < 128 by {
            assert(encode_utf8(v)[e.len() + i] == encode_utf8(rest)[i]);
        }
        lemma_ascii_bytes_ascii_chars(rest);
        assert forall|i: int| 0 <= i < v.len() implies '\0' <= #[trigger] v[i] <= '\u{7f}' by {
            if i > 0 {
                assert(v[i] == rest[i - 1]);
            } else {
                lemma_ascii_code_is_ascii_char(v[0]);
            }
        }
    }
}

/// A UUID-shaped id with its ASCII capitals lowered is a lowercase UUID.
proof fn lemma_shaped_lowers_to_lowercase_uuid(v: Seq<char>)
    requires
        uuid_shaped(encode_utf8(v)),
    ensures
        lowercase_uuid(v.map_values(|c: char| ascii_lower(c))),
{
    reveal(uuid_shaped);
    let b = encode_utf8(v);
    assert forall|i: int| 0 <= i < b.len() implies #[trigger] b[i] < 128 by {
        if is_hyphen_slot(i) {
        } else {
            assert(is_hex_byte(b[i]));
        }
    }
    lemma_ascii_bytes_ascii_chars(v);
    is_ascii_chars_encode_utf8(v);
    let u = v.map_values(|c: char| ascii_lower(c));
    assert forall|i: int| 0 <= i < 36 implies if is_hyphen_slot(i) {
        u[i] == '-'
    } else {
        is_hex_char(#[trigger] u[i])
    } by {
        assert(v[i] as u8 == b[i]);
        assert('\0' <= v[i] <= '\u{7f}');
        if is_hyphen_slot(i) {
            assert(b[i] == 45u8);
        } else {
            assert(is_hex_byte(b[i]));
        }
    }
}

/// A canonical id is a lowercase UUID, and canonicalizing it again gives it
/// back unchanged.
pub proof fn lemma_canonical_idempotent(value: Seq<char>)
    ensures
        lowercase_uuid(canonical_spec(value)),
        canonical_spec(canonical_spec(value)) == canonical_spec(value),
{
    reveal(canonical_from);
    let v = lowered(trim(value));
    if uuid_shaped(encode_utf8(v)) {
        lemma_shaped_lowers_to_lowercase_uuid(v);
    } else {
        let h = id_hash(encode_utf8(v)) as nat;
        lemma_hex_of(h, 32);
        let u = uuid_from_hex(hex_of(h, 32));
        assert forall|i: int| 0 <= i < 36 implies if is_hyphen_slot(i) {
            u[i] == '-'
        } else {
            is_hex_char(#[trigger] u[i])
        } by {
            if !is_hyphen_slot(i) && i != 14 {
                assert(is_hex_char(hex_of(h, 32)[uuid_source(i)]));
            }
        }
    }
    lemma_canonical_fixes_lowercase_uuid(canonical_spec(value));
}

} // verus!
