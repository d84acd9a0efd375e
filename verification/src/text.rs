//! Character and string helpers shared by the UI logic.
//!
//! Everything here works on the `Seq<char>` view of strings: `is_ws` is the
//! Unicode `White_Space` property that `char::is_whitespace` documents, and
//! `trim` is the `str::trim` that strips it from both ends.
use vstd::prelude::*;
use vstd::string::*;
use vstd::std_specs::iter::IteratorSpec;

verus! {

broadcast use vstd::string::group_string_axioms;

/// Unicode `White_Space`, the set that `char::is_whitespace` tests.
pub open spec fn is_ws(c: char) -> bool {
    let u = c as u32;
    (0x09 <= u && u <= 0x0d) || u == 0x20 || u == 0x85 || u == 0xa0 || u == 0x1680 || (0x2000
        <= u && u <= 0x200a) || u == 0x2028 || u == 0x2029 || u == 0x202f || u == 0x205f || u
        == 0x3000
}

/// `s` with its leading whitespace removed.
pub open spec fn trim_start(s: Seq<char>) -> Seq<char>
    decreases s.len(),
{
    if s.len() > 0 && is_ws(s[0]) {
        trim_start(s.drop_first())
    } else {
        s
    }
}

/// `s` with its trailing whitespace removed.
pub open spec fn trim_end(s: Seq<char>) -> Seq<char>
    decreases s.len(),
{
    if s.len() > 0 && is_ws(s.last()) {
        trim_end(s.drop_last())
    } else {
        s
    }
}

/// `s` with whitespace removed from both ends (`str::trim`).
pub open spec fn trim(s: Seq<char>) -> Seq<char> {
    trim_end(trim_start(s))
}

/// Whether `s` holds nothing but whitespace (`s.trim().is_empty()`).
pub open spec fn is_blank(s: Seq<char>) -> bool {
    trim(s).len() == 0
}

/// Whether `c` occurs in `s`.
pub open spec fn has_char(s: Seq<char>, c: char) -> bool {
    exists|i: int| 0 <= i < s.len() && s[i] == c
}

pub proof fn lemma_trim_start_suffix(s: Seq<char>)
    ensures
        exists|i: int|
            0 <= i <= s.len() && trim_start(s) == s.subrange(i, s.len() as int) && (forall|j: int|
                0 <= j < i ==> is_ws(#[trigger] s[j])),
        trim_start(s).len() > 0 ==> !is_ws(trim_start(s)[0]),
    decreases s.len(),
{
    if s.len() > 0 && is_ws(s[0]) {
        lemma_trim_start_suffix(s.drop_first());
        let i = choose|i: int|
            0 <= i <= s.drop_first().len() && trim_start(s.drop_first()) == s.drop_first().subrange(
                i,
                s.drop_first().len() as int,
            ) && (forall|j: int| 0 <= j < i ==> is_ws(#[trigger] s.drop_first()[j]));
        assert(s.drop_first().subrange(i, s.drop_first().len() as int) =~= s.subrange(
            i + 1,
            s.len() as int,
        ));
        assert forall|j: int| 0 <= j < i + 1 implies is_ws(#[trigger] s[j]) by {
            if j > 0 {
                assert(s[j] == s.drop_first()[j - 1]);
            }
        }
    } else {
        assert(s.subrange(0, s.len() as int) =~= s);
    }
}

pub proof fn lemma_trim_end_prefix(s: Seq<char>)
    ensures
        exists|i: int|
            0 <= i <= s.len() && trim_end(s) == s.subrange(0, i) && (forall|j: int|
                i <= j < s.len() ==> is_ws(#[trigger] s[j])),
        trim_end(s).len() > 0 ==> !is_ws(trim_end(s).last()),
    decreases s.len(),
{
    if s.len() > 0 && is_ws(s.last()) {
        lemma_trim_end_prefix(s.drop_last());
        let i = choose|i: int|
            0 <= i <= s.drop_last().len() && trim_end(s.drop_last()) == s.drop_last().subrange(
                0,
                i,
            ) && (forall|j: int| i <= j < s.drop_last().len() ==> is_ws(#[trigger] s.drop_last()[j]));
        assert(s.drop_last().subrange(0, i) =~= s.subrange(0, i));
        assert forall|j: int| i <= j < s.len() implies is_ws(#[trigger] s[j]) by {
            if j < s.len() - 1 {
                assert(s[j] == s.drop_last()[j]);
            }
        }
    } else {
        assert(s.subrange(0, s.len() as int) =~= s);
    }
}

/// `char::is_whitespace`.
pub fn is_whitespace(c: char) -> (r: bool)
    ensures
        r == is_ws(c),
{
    let u = c as u32;
    (0x09 <= u && u <= 0x0d) || u == 0x20 || u == 0x85 || u == 0xa0 || u == 0x1680 || (0x2000
        <= u && u <= 0x200a) || u == 0x2028 || u == 0x2029 || u == 0x202f || u == 0x205f || u
        == 0x3000
}

/// The characters of `s`, in order.
pub fn chars_of(s: &str) -> (v: Vec<char>)
    ensures
        v@ == s@,
{
    let mut it = s.chars();
    let mut v: Vec<char> = Vec::new();
    loop
        invariant
            it.obeys_prophetic_iter_laws(),
            v@ + it.remaining() == s@,
            it.decrease() is Some,
        decreases it.decrease()->0,
    {
        let ghost before = it.remaining();
        match it.next() {
            Some(c) => {
                proof {
                    assert(before.len() > 0);
                    assert(before =~= seq![c] + it.remaining());
                }
                v.push(c);
                proof {
                    assert(v@ + it.remaining() =~= s@);
                }
            },
            None => {
                proof {
                    assert(before.len() == 0);
                    assert(v@ =~= s@);
                }
                return v;
            },
        }
    }
}

/// `String::push`: the contract claims the string afterwards is the old
/// one with `c` appended.
#[verifier::external_body]
pub(crate) fn push_char(s: &mut String, c: char)
    ensures
        final(s)@ == old(s)@.push(c),
{
    s.push(c);
}

/// Appends a string slice to `s`.
pub fn push_str(s: &mut String, t: &str)
    ensures
        final(s)@ == old(s)@ + t@,
{
    s.append(t);
}

/// A fresh `String` holding `t`.
pub fn owned(t: &str) -> (s: String)
    ensures
        s@ == t@,
{
    t.to_owned()
}

/// The string whose characters are `v[from..to]`.
pub fn string_from_chars(v: &Vec<char>, from: usize, to: usize) -> (s: String)
    requires
        from <= to <= v.len(),
    ensures
        s@ == v@.subrange(from as int, to as int),
{
    let mut s = String::new();
    let mut i = from;
    while i < to
        invariant
            from <= i <= to <= v.len(),
            s@ == v@.subrange(from as int, i as int),
        decreases to - i,
    {
        push_char(&mut s, v[i]);
        assert(s@ =~= v@.subrange(from as int, i + 1));
        i += 1;
    }
    s
}

/// Equality of two string slices, by characters.
pub fn str_eq(a: &str, b: &str) -> (r: bool)
    ensures
        r == (a@ == b@),
{
    let x = a.to_owned();
    let y = b.to_owned();
    x == y
}

/// Index of the first non-whitespace character of `v`, or `v.len()`.
pub fn first_non_ws(v: &Vec<char>) -> (i: usize)
    ensures
        i <= v.len(),
        trim_start(v@) == v@.subrange(i as int, v@.len() as int),
        forall|j: int| 0 <= j < i ==> is_ws(#[trigger] v@[j]),
        i < v.len() ==> !is_ws(v@[i as int]),
{
    let mut i: usize = 0;
    assert(v@.subrange(0, v@.len() as int) =~= v@);
    while i < v.len() && is_whitespace(v[i])
        invariant
            i <= v.len(),
            trim_start(v@) == trim_start(v@.subrange(i as int, v@.len() as int)),
            forall|j: int| 0 <= j < i ==> is_ws(#[trigger] v@[j]),
        decreases v.len() - i,
    {
        assert(v@.subrange(i as int, v@.len() as int).drop_first() =~= v@.subrange(
            i + 1,
            v@.len() as int,
        ));
        i += 1;
    }
    if i == v.len() {
        assert(v@.subrange(i as int, v@.len() as int) =~= Seq::<char>::empty());
    }
    i
}

/// `trim_end(v[from..])` is `v[from..e]` for the returned `e`.
pub fn end_of_trimmed(v: &Vec<char>, from: usize) -> (e: usize)
    requires
        from <= v.len(),
    ensures
        from <= e <= v.len(),
        trim_end(v@.subrange(from as int, v@.len() as int)) == v@.subrange(from as int, e as int),
{
    let mut e: usize = v.len();
    while e > from && is_whitespace(v[e - 1])
        invariant
            from <= e <= v.len(),
            trim_end(v@.subrange(from as int, v@.len() as int)) == trim_end(
                v@.subrange(from as int, e as int),
            ),
        decreases e - from,
    {
        assert(v@.subrange(from as int, e as int).drop_last() =~= v@.subrange(
            from as int,
            e - 1,
        ));
        e -= 1;
    }
    e
}

/// `str::trim`, as an owned string.
pub fn trim_str(s: &str) -> (r: String)
    ensures
        r@ == trim(s@),
{
    let v = chars_of(s);
    let b = first_non_ws(&v);
    let e = end_of_trimmed(&v, b);
    string_from_chars(&v, b, e)
}

/// `s.trim().is_empty()`.
pub fn is_blank_str(s: &str) -> (r: bool)
    ensures
        r == is_blank(s@),
{
    let v = chars_of(s);
    let b = first_non_ws(&v);
    proof {
        lemma_trim_start_suffix(s@);
        if b == v.len() {
            assert(v@.subrange(b as int, v@.len() as int) =~= Seq::<char>::empty());
            assert(trim_end(Seq::<char>::empty()) =~= Seq::<char>::empty());
        } else {
            let t = trim_start(s@);
            assert(t[0] == v@[b as int]);
            lemma_trim_end_prefix(t);
            if trim_end(t).len() == 0 {
                let i = choose|i: int|
                    0 <= i <= t.len() && trim_end(t) == t.subrange(0, i) && (forall|j: int|
                        i <= j < t.len() ==> is_ws(#[trigger] t[j]));
                assert(is_ws(t[0]));
            }
        }
    }
    b == v.len()
}


/// `str::to_lowercase` of a character sequence (full Unicode mapping).
pub uninterp spec fn lowercase(s: Seq<char>) -> Seq<char>;

/// ASCII lowercase of one character.
pub open spec fn ascii_lower(c: char) -> char {
    if 'A' <= c && c <= 'Z' {
        ((c as u32) + 32) as char
    } else {
        c
    }
}

/// All characters are ASCII.
pub open spec fn all_ascii(s: Seq<char>) -> bool {
    forall|i: int| 0 <= i < s.len() ==> (#[trigger] s[i] as u32) < 128
}

/// `str::to_lowercase`. Its result is named by [`lowercase`]; for an ASCII
/// string it is the ASCII lowercase (the Unicode lowercase mapping of an
/// ASCII letter is its ASCII lowercase, and other ASCII characters map to
/// themselves).
#[verifier::external_body]
pub(crate) fn to_lowercase(s: &str) -> (r: String)
    ensures
        r@ == lowercase(s@),
        all_ascii(s@) ==> r@ == s@.map_values(|c: char| ascii_lower(c)),
{
    s.to_lowercase()
}

/// Decimal digits of `n`, most significant first (`"0"` for zero).
pub open spec fn decimal(n: nat) -> Seq<char>
    decreases n,
{
    if n < 10 {
        seq![digit_char(n)]
    } else {
        decimal(n / 10).push(digit_char(n % 10))
    }
}

/// The ASCII digit for `d < 10`.
pub open spec fn digit_char(d: nat) -> char {
    (('0' as u32) + d) as char
}

/// `n.to_string()` for an unsigned integer.
pub fn decimal_string(n: u64) -> (r: String)
    ensures
        r@ == decimal(n as nat),
{
    let mut digits: Vec<char> = Vec::new();
    let mut m = n;
    assert(digits@.reverse() =~= Seq::<char>::empty());
    assert(decimal(n as nat) =~= decimal(m as nat) + digits@.reverse());
    // `digits` holds the low-order digits of n, least significant first.
    while m >= 10
        invariant
            decimal(n as nat) == decimal(m as nat) + digits@.reverse(),
        decreases m,
    {
        let d = m % 10;
        let c = ((('0' as u32) + (d as u32)) as u8) as char;
        proof {
            assert(c == digit_char(d as nat));
            assert(decimal(m as nat) == decimal((m / 10) as nat).push(c));
            assert(digits@.push(c).reverse() =~= seq![c] + digits@.reverse());
            assert(decimal((m / 10) as nat).push(c) + digits@.reverse() =~= decimal(
                (m / 10) as nat,
            ) + digits@.push(c).reverse());
        }
        digits.push(c);
        m = m / 10;
    }
    let c = ((('0' as u32) + (m as u32)) as u8) as char;
    proof {
        assert(c == digit_char(m as nat));
        assert(decimal(m as nat) == seq![c]);
        assert(digits@.push(c).reverse() =~= seq![c] + digits@.reverse());
    }
    digits.push(c);
    let mut s = String::new();
    let mut i = digits.len();
    while i > 0
        invariant
            i <= digits.len(),
            s@ == digits@.reverse().subrange(0, digits.len() - i),
        decreases i,
    {
        i -= 1;
        push_char(&mut s, digits[i]);
        assert(s@ =~= digits@.reverse().subrange(0, digits.len() - i));
    }
    assert(digits@.reverse().subrange(0, digits.len() as int) =~= digits@.reverse());
    s
}

/// `a` sorts strictly before `b`: character by character by code point,
/// a proper prefix first. (For valid text this is the byte order of the
/// UTF-8 encodings.)
pub open spec fn lex_lt(a: Seq<char>, b: Seq<char>) -> bool
    decreases a.len(),
{
    if a.len() == 0 {
        b.len() > 0
    } else if b.len() == 0 {
        false
    } else if a[0] != b[0] {
        a[0] < b[0]
    } else {
        lex_lt(a.drop_first(), b.drop_first())
    }
}

pub proof fn lemma_lex_irreflexive(a: Seq<char>)
    ensures
        !lex_lt(a, a),
    decreases a.len(),
{
    if a.len() > 0 {
        lemma_lex_irreflexive(a.drop_first());
    }
}

pub proof fn lemma_lex_transitive(a: Seq<char>, b: Seq<char>, c: Seq<char>)
    requires
        lex_lt(a, b),
        lex_lt(b, c),
    ensures
        lex_lt(a, c),
    decreases a.len(),
{
    if a.len() > 0 && b.len() > 0 && c.len() > 0 && a[0] == b[0] && b[0] == c[0] {
        lemma_lex_transitive(a.drop_first(), b.drop_first(), c.drop_first());
    }
}

pub proof fn lemma_lex_total(a: Seq<char>, b: Seq<char>)
    ensures
        lex_lt(a, b) || lex_lt(b, a) || a == b,
    decreases a.len(),
{
    if a.len() > 0 && b.len() > 0 && a[0] == b[0] {
        lemma_lex_total(a.drop_first(), b.drop_first());
        if a.drop_first() == b.drop_first() {
            assert(a =~= seq![a[0]] + a.drop_first());
            assert(b =~= seq![b[0]] + b.drop_first());
        }
    } else if a.len() == 0 && b.len() == 0 {
        assert(a =~= b);
    }
}

/// Whether `a` sorts strictly before `b` (see [`lex_lt`]).
pub fn str_less(a: &str, b: &str) -> (r: bool)
    ensures
        r == lex_lt(a@, b@),
{
    let x = chars_of(a);
    let y = chars_of(b);
    let mut i: usize = 0;
    assert(x@.skip(0) =~= x@);
    assert(y@.skip(0) =~= y@);
    while i < x.len() && i < y.len() && x[i] == y[i]
        invariant
            i <= x.len(),
            i <= y.len(),
            x@ == a@,
            y@ == b@,
            lex_lt(a@, b@) == lex_lt(x@.skip(i as int), y@.skip(i as int)),
        decreases x.len() - i,
    {
        proof {
            assert(x@.skip(i as int).drop_first() =~= x@.skip(i + 1));
            assert(y@.skip(i as int).drop_first() =~= y@.skip(i + 1));
        }
        i += 1;
    }
    if i == x.len() {
        i < y.len()
    } else if i == y.len() {
        false
    } else {
        assert(x@.skip(i as int)[0] == x@[i as int]);
        assert(y@.skip(i as int)[0] == y@[i as int]);
        x[i] < y[i]
    }
}

/// The strings are in ascending order (see [`lex_lt`]).
pub open spec fn sorted_views(s: Seq<Seq<char>>) -> bool {
    forall|i: int, j: int| 0 <= i < j < s.len() ==> !lex_lt(#[trigger] s[j], #[trigger] s[i])
}

/// The character views of a sequence of string slices.
pub open spec fn str_views(v: Seq<&str>) -> Seq<Seq<char>> {
    v.map_values(|s: &str| s@)
}

/// Sort string slices ascending (see [`lex_lt`]), keeping equal ones in
/// their order.
pub fn sort_strs<'a>(v: Vec<&'a str>) -> (r: Vec<&'a str>)
    ensures
        str_views(r@).to_multiset() == str_views(v@).to_multiset(),
        sorted_views(str_views(r@)),
{
    broadcast use vstd::seq_lib::group_to_multiset_ensures;
    let mut out: Vec<&'a str> = Vec::new();
    let mut i: usize = 0;
    assert(str_views(v@.subrange(0, 0)) =~= str_views(out@));
    while i < v.len()
        invariant
            i <= v.len(),
            str_views(out@).to_multiset() == str_views(v@.subrange(0, i as int)).to_multiset(),
            sorted_views(str_views(out@)),
        decreases v.len() - i,
    {
        let x = v[i];
        let mut p = out.len();
        while p > 0 && str_less(x, out[p - 1])
            invariant
                p <= out.len(),
                sorted_views(str_views(out@)),
                forall|k: int| p <= k < out.len() ==> lex_lt(x@, (#[trigger] out@[k])@),
            decreases p,
        {
            p -= 1;
        }
        let ghost before = out@;
        proof {
            assert(p == 0 || !lex_lt(x@, before[p - 1]@));
        }
        out.insert(p, x);
        proof {
            let sv = str_views(before);
            assert(str_views(out@) =~= sv.insert(p as int, x@));
            vstd::seq_lib::to_multiset_insert(sv, p as int, x@);
            assert(str_views(v@.subrange(0, i + 1)) =~= str_views(v@.subrange(0, i as int)).push(x@));
            vstd::seq_lib::to_multiset_build(str_views(v@.subrange(0, i as int)), x@);
            let nv = str_views(out@);
            assert forall|a: int, b: int| 0 <= a < b < nv.len() implies !lex_lt(
                #[trigger] nv[b],
                #[trigger] nv[a],
            ) by {
                if a < p && b == p {
                    assert(nv[a] == before[a]@ && nv[b] == x@);
                    assert(!lex_lt(before[p - 1]@, before[a]@)) by {
                        if a < p - 1 {
                            assert(sv[a] == before[a]@ && sv[p - 1] == before[p - 1]@);
                        } else {
                            lemma_lex_irreflexive(before[a]@);
                        }
                    }
                    if lex_lt(x@, before[a]@) {
                        lemma_lex_total(before[a]@, before[p - 1]@);
                        if lex_lt(before[a]@, before[p - 1]@) {
                            lemma_lex_transitive(x@, before[a]@, before[p - 1]@);
                        }
                    }
                } else if a == p && b > p {
                    assert(nv[a] == x@ && nv[b] == before[b - 1]@);
                    assert(lex_lt(x@, before[b - 1]@));
                    if lex_lt(before[b - 1]@, x@) {
                        lemma_lex_transitive(x@, before[b - 1]@, x@);
                        lemma_lex_irreflexive(x@);
                    }
                } else if a < p && b > p {
                    assert(nv[a] == sv[a] && nv[b] == sv[b - 1]);
                } else if b < p {
                    assert(nv[a] == sv[a] && nv[b] == sv[b]);
                } else {
                    assert(nv[a] == sv[a - 1] && nv[b] == sv[b - 1]);
                }
            }
        }
        i += 1;
    }
    assert(v@.subrange(0, v.len() as int) =~= v@);
    out
}

/// Whether `c` occurs in `s`.
pub fn contains_char(s: &str, c: char) -> (r: bool)
    ensures
        r == has_char(s@, c),
{
    let v = chars_of(s);
    let mut i: usize = 0;
    while i < v.len()
        invariant
            i <= v.len(),
            v@ == s@,
            forall|j: int| 0 <= j < i ==> v@[j] != c,
        decreases v.len() - i,
    {
        if v[i] == c {
            return true;
        }
        i += 1;
    }
    false
}

/// The length of the UTF-8 encoding of `s` (`str::len`).
pub fn byte_len(s: &str) -> (r: usize)
    ensures
        r == s.spec_bytes().len(),
{
    s.as_bytes().len()
}


/// `s` starts with `p`.
pub open spec fn starts_with(s: Seq<char>, p: Seq<char>) -> bool {
    s.len() >= p.len() && s.subrange(0, p.len() as int) == p
}

/// `str::starts_with` for a string prefix.
pub fn str_starts_with(s: &str, p: &str) -> (r: bool)
    ensures
        r == starts_with(s@, p@),
{
    let v = chars_of(s);
    let q = chars_of(p);
    if v.len() < q.len() {
        return false;
    }
    let mut i: usize = 0;
    while i < q.len()
        invariant
            i <= q@.len(),
            q@.len() <= v@.len(),
            v@ == s@,
            q@ == p@,
            forall|j: int| 0 <= j < i ==> v@[j] == q@[j],
        decreases q@.len() - i,
    {
        if v[i] != q[i] {
            assert(v@.subrange(0, q@.len() as int)[i as int] != q@[i as int]);
            return false;
        }
        i += 1;
    }
    assert(v@.subrange(0, q@.len() as int) =~= q@);
    true
}

/// `s` ends with `p`.
pub open spec fn ends_with(s: Seq<char>, p: Seq<char>) -> bool {
    s.len() >= p.len() && s.subrange(s.len() - p.len(), s.len() as int) == p
}

/// `str::ends_with` for a string suffix.
pub fn str_ends_with(s: &str, p: &str) -> (r: bool)
    ensures
        r == ends_with(s@, p@),
{
    let v = chars_of(s);
    let q = chars_of(p);
    if v.len() < q.len() {
        return false;
    }
    let off = v.len() - q.len();
    let mut i: usize = 0;
    while i < q.len()
        invariant
            i <= q@.len(),
            off + q@.len() == v@.len(),
            off + q.len() == v.len(),
            v@ == s@,
            q@ == p@,
            forall|j: int| 0 <= j < i ==> v@[off + j] == q@[j],
        decreases q@.len() - i,
    {
        if v[off + i] != q[i] {
            assert(v@.subrange(off as int, v@.len() as int)[i as int] != q@[i as int]);
            return false;
        }
        i += 1;
    }
    assert(v@.subrange(off as int, v@.len() as int) =~= q@);
    true
}

} // verus!
