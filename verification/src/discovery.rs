//! Nearby-host discovery over mDNS: the query packet, the response parser
//! and the host catalog.
//!
//! Discovery is only a hint: choosing a row never grants access, and the
//! one-time pairing code still authenticates the host. The service type is
//! `_unpeel-remote._tcp.local`; a host's identity is the `macid` key of its
//! TXT record.
use vstd::prelude::*;
use crate::text::{
    owned, str_eq, chars_of, push_char, push_str, trim, trim_str, lowercase, to_lowercase, lex_lt,
    str_less, lemma_lex_irreflexive, lemma_lex_transitive, lemma_lex_total,
};
use crate::i18n::{t, message_spec};
use crate::panes::views;
use vstd::string::StringSliceAdditionalSpecFns;

verus! {

broadcast use vstd::string::group_string_axioms;

/// The mDNS service type hosts advertise.
pub const MDNS_SERVICE_TYPE: &'static str = "_unpeel-remote._tcp.local";

/// The mDNS port.
pub const MDNS_PORT: u16 = 5353;

/// One discovered host: its stable identity and a display name.
#[derive(Debug, PartialEq, Eq)]
pub struct NearbyHostCandidate {
    pub host_id: String,
    pub name: String,
}

impl Clone for NearbyHostCandidate {
    fn clone(&self) -> (r: Self)
        ensures
            r == *self,
    {
        NearbyHostCandidate { host_id: self.host_id.clone(), name: self.name.clone() }
    }
}

impl NearbyHostCandidate {
    pub fn id(&self) -> (r: &str)
        ensures
            r@ == self.host_id@,
    {
        self.host_id.as_str()
    }
}

/// A TXT record's pairs, in order; a later pair for a key replaces an
/// earlier one.
pub open spec fn txt_value(txt: Seq<(String, String)>, key: Seq<char>) -> Option<Seq<char>>
    decreases txt.len(),
{
    if txt.len() == 0 {
        None
    } else if txt.last().0@ == key {
        Some(txt.last().1@)
    } else {
        txt_value(txt.drop_last(), key)
    }
}

/// The value of `key` in a TXT record (the last pair with that key).
pub fn txt_get<'a>(txt: &'a Vec<(String, String)>, key: &str) -> (r: Option<&'a String>)
    ensures
        match txt_value(txt@, key@) {
            Some(v) => r is Some && r->0@ == v,
            None => r is None,
        },
{
    let mut k = txt.len();
    assert(txt@.subrange(0, k as int) =~= txt@);
    while k > 0
        invariant
            k <= txt@.len(),
            txt_value(txt@, key@) == txt_value(txt@.subrange(0, k as int), key@),
        decreases k,
    {
        let (name, value) = &txt[k - 1];
        proof {
            assert(txt@.subrange(0, k as int).last() == txt@[k - 1]);
            assert(txt@.subrange(0, k as int).drop_last() =~= txt@.subrange(0, k - 1));
        }
        if str_eq(name.as_str(), key) {
            return Some(value);
        }
        k -= 1;
    }
    None
}

/// The candidate a service instance and its TXT record make: the trimmed
/// `macid` (none when missing or blank) and the trimmed instance name,
/// or the catalog's host name when that is blank.
pub open spec fn candidate_spec(service_name: Seq<char>, txt: Seq<(String, String)>) -> Option<
    (Seq<char>, Seq<char>),
> {
    match txt_value(txt, "macid"@) {
        None => None,
        Some(id) => if trim(id).len() == 0 {
            None
        } else {
            Some(
                (
                    trim(id),
                    if trim(service_name).len() == 0 {
                        message_spec("discovery.unpeel_host"@)
                    } else {
                        trim(service_name)
                    },
                ),
            )
        },
    }
}

/// Build a candidate from a service instance name and its TXT record (see
/// [`candidate_spec`]).
pub fn candidate(service_name: &str, txt: &Vec<(String, String)>) -> (r: Option<NearbyHostCandidate>)
    ensures
        match candidate_spec(service_name@, txt@) {
            Some((id, name)) => r is Some && r->0.host_id@ == id && r->0.name@ == name,
            None => r is None,
        },
{
    let id = match txt_get(txt, "macid") {
        Some(v) => trim_str(v.as_str()),
        None => {
            return None;
        },
    };
    if chars_of(id.as_str()).len() == 0 {
        return None;
    }
    let n = trim_str(service_name);
    let name = if chars_of(n.as_str()).len() == 0 {
        t("discovery.unpeel_host")
    } else {
        n
    };
    Some(NearbyHostCandidate { host_id: id, name })
}

/// The sort key of a candidate: its lowercase name, then its host id.
pub open spec fn key_lt(a: NearbyHostCandidate, b: NearbyHostCandidate) -> bool {
    lex_lt(lowercase(a.name@), lowercase(b.name@)) || (lowercase(a.name@) == lowercase(b.name@)
        && lex_lt(a.host_id@, b.host_id@))
}

/// The candidates kept when merging: in order, each not the excluded host
/// and not a host already kept (host ids compared lowercase).
pub open spec fn kept(cs: Seq<NearbyHostCandidate>, excluded: Option<Seq<char>>) -> Seq<NearbyHostCandidate>
    decreases cs.len(),
{
    if cs.len() == 0 {
        Seq::empty()
    } else {
        let prev = kept(cs.drop_last(), excluded);
        let c = cs.last();
        let key = lowercase(c.host_id@);
        if excluded == Some(key) || exists|i: int|
            0 <= i < prev.len() && lowercase(#[trigger] prev[i].host_id@) == key {
            prev
        } else {
            prev.push(c)
        }
    }
}

/// The excluded host id, normalized: trimmed and lowercase, `None` when
/// blank or absent.
pub open spec fn excluded_key(excluding: Option<Seq<char>>) -> Option<Seq<char>> {
    match excluding {
        Some(e) => if lowercase(trim(e)).len() == 0 {
            None
        } else {
            Some(lowercase(trim(e)))
        },
        None => None,
    }
}

/// The candidates are in ascending order of [`key_lt`].
pub open spec fn sorted_by_key(s: Seq<NearbyHostCandidate>) -> bool {
    forall|i: int, j: int| 0 <= i < j < s.len() ==> !key_lt(#[trigger] s[j], #[trigger] s[i])
}

proof fn lemma_key_total(a: NearbyHostCandidate, b: NearbyHostCandidate)
    ensures
        key_lt(a, b) || key_lt(b, a) || (lowercase(a.name@) == lowercase(b.name@) && a.host_id@
            == b.host_id@),
{
    lemma_lex_total(lowercase(a.name@), lowercase(b.name@));
    lemma_lex_total(a.host_id@, b.host_id@);
}

proof fn lemma_key_transitive(a: NearbyHostCandidate, b: NearbyHostCandidate, c: NearbyHostCandidate)
    requires
        key_lt(a, b),
        key_lt(b, c),
    ensures
        key_lt(a, c),
{
    let (x, y, z) = (lowercase(a.name@), lowercase(b.name@), lowercase(c.name@));
    if lex_lt(x, y) && lex_lt(y, z) {
        lemma_lex_transitive(x, y, z);
    } else if lex_lt(x, y) && y == z {
    } else if x == y && lex_lt(y, z) {
    } else {
        lemma_lex_transitive(a.host_id@, b.host_id@, c.host_id@);
    }
}

proof fn lemma_key_irreflexive(a: NearbyHostCandidate)
    ensures
        !key_lt(a, a),
{
    lemma_lex_irreflexive(lowercase(a.name@));
    lemma_lex_irreflexive(a.host_id@);
}

/// Whether `a` sorts before `b` (see [`key_lt`]).
fn candidate_less(a: &NearbyHostCandidate, b: &NearbyHostCandidate) -> (r: bool)
    ensures
        r == key_lt(*a, *b),
{
    let an = to_lowercase(a.name.as_str());
    let bn = to_lowercase(b.name.as_str());
    if str_less(an.as_str(), bn.as_str()) {
        true
    } else if str_eq(an.as_str(), bn.as_str()) {
        str_less(a.host_id.as_str(), b.host_id.as_str())
    } else {
        false
    }
}

/// Merge candidates: drop the excluded host (this controller), keep the
/// first of each host id (compared lowercase), and sort by lowercase name
/// with the host id as the tiebreak.
pub fn merging(candidates: Vec<NearbyHostCandidate>, excluding_host_id: Option<&str>) -> (r: Vec<
    NearbyHostCandidate,
>)
    ensures
        r@.to_multiset() == kept(
            candidates@,
            excluded_key(
                match excluding_host_id {
                    Some(e) => Some(e@),
                    None => None,
                },
            ),
        ).to_multiset(),
        sorted_by_key(r@),
{
    broadcast use vstd::seq_lib::group_to_multiset_ensures;
    let ghost ex = excluded_key(
        match excluding_host_id {
            Some(e) => Some(e@),
            None => None,
        },
    );
    let excluded: Option<String> = match excluding_host_id {
        Some(e) => {
            let k = to_lowercase(trim_str(e).as_str());
            if chars_of(k.as_str()).len() == 0 {
                None
            } else {
                Some(k)
            }
        },
        None => None,
    };
    assert(match excluded {
        Some(k) => ex == Some(k@),
        None => ex is None,
    });
    // First occurrences, in order.
    let mut firsts: Vec<NearbyHostCandidate> = Vec::new();
    let mut keys: Vec<String> = Vec::new();
    let mut i: usize = 0;
    assert(candidates@.subrange(0, 0) =~= Seq::<NearbyHostCandidate>::empty());
    while i < candidates.len()
        invariant
            i <= candidates@.len(),
            match excluded {
                Some(k) => ex == Some(k@),
                None => ex is None,
            },
            firsts@ == kept(candidates@.subrange(0, i as int), ex),
            keys@.len() == firsts@.len(),
            forall|j: int| 0 <= j < keys@.len() ==> (#[trigger] keys@[j])@ == lowercase(firsts@[j].host_id@),
        decreases candidates@.len() - i,
    {
        let c = &candidates[i];
        let key = to_lowercase(c.host_id.as_str());
        proof {
            assert(candidates@.subrange(0, i + 1).drop_last() =~= candidates@.subrange(0, i as int));
            assert(candidates@.subrange(0, i + 1).last() == *c);
        }
        let is_excluded = match &excluded {
            Some(k) => str_eq(k.as_str(), key.as_str()),
            None => false,
        };
        let mut seen = false;
        let mut j: usize = 0;
        while j < keys.len()
            invariant
                j <= keys@.len(),
                keys@.len() == firsts@.len(),
                forall|m: int| 0 <= m < keys@.len() ==> (#[trigger] keys@[m])@ == lowercase(firsts@[m].host_id@),
                seen == exists|m: int| 0 <= m < j && lowercase(#[trigger] firsts@[m].host_id@) == key@,
            decreases keys@.len() - j,
        {
            if str_eq(keys[j].as_str(), key.as_str()) {
                seen = true;
            }
            proof {
                assert(keys@[j as int]@ == lowercase(firsts@[j as int].host_id@));
            }
            j += 1;
        }
        if !is_excluded && !seen {
            firsts.push(c.clone());
            keys.push(key);
        }
        proof {
            if is_excluded || seen {
                assert(firsts@ == kept(candidates@.subrange(0, i + 1), ex));
            }
        }
        i += 1;
    }
    assert(candidates@.subrange(0, candidates@.len() as int) =~= candidates@);
    // Insertion sort by key.
    let mut out: Vec<NearbyHostCandidate> = Vec::new();
    let mut k: usize = 0;
    assert(firsts@.subrange(0, 0) =~= Seq::<NearbyHostCandidate>::empty());
    while k < firsts.len()
        invariant
            k <= firsts@.len(),
            out@.to_multiset() == firsts@.subrange(0, k as int).to_multiset(),
            sorted_by_key(out@),
        decreases firsts@.len() - k,
    {
        let x = firsts[k].clone();
        let mut p = out.len();
        while p > 0 && candidate_less(&x, &out[p - 1])
            invariant
                p <= out@.len(),
                sorted_by_key(out@),
                forall|q: int| p <= q < out@.len() ==> key_lt(x, #[trigger] out@[q]),
            decreases p,
        {
            p -= 1;
        }
        let ghost before = out@;
        proof {
            assert(p == 0 || !key_lt(x, before[p - 1]));
        }
        out.insert(p, x);
        proof {
            vstd::seq_lib::to_multiset_insert(before, p as int, x);
            assert(firsts@.subrange(0, k + 1) =~= firsts@.subrange(0, k as int).push(x));
            vstd::seq_lib::to_multiset_build(firsts@.subrange(0, k as int), x);
            let nv = out@;
            assert forall|a: int, b: int| 0 <= a < b < nv.len() implies !key_lt(
                #[trigger] nv[b],
                #[trigger] nv[a],
            ) by {
                if a < p && b == p {
                    assert(nv[a] == before[a] && nv[b] == x);
                    assert(!key_lt(before[p - 1], before[a])) by {
                        if a < p - 1 {
                        } else {
                            lemma_key_irreflexive(before[a]);
                        }
                    }
                    if key_lt(x, before[a]) {
                        lemma_key_total(before[a], before[p - 1]);
                        if key_lt(before[a], before[p - 1]) {
                            lemma_key_transitive(x, before[a], before[p - 1]);
                        }
                        assert(key_lt(x, before[p - 1]));
                        assert(false);
                    }
                } else if a == p && b > p {
                    assert(nv[a] == x && nv[b] == before[b - 1]);
                    assert(key_lt(x, before[b - 1]));
                    if key_lt(before[b - 1], x) {
                        lemma_key_transitive(x, before[b - 1], x);
                        lemma_key_irreflexive(x);
                    }
                } else if a < p && b > p {
                    assert(nv[a] == before[a] && nv[b] == before[b - 1]);
                } else if b < p {
                    assert(nv[a] == before[a] && nv[b] == before[b]);
                } else {
                    assert(nv[a] == before[a - 1] && nv[b] == before[b - 1]);
                }
            }
        }
        k += 1;
    }
    assert(firsts@.subrange(0, firsts@.len() as int) =~= firsts@);
    out
}

/// Walk the bytes of a dotted name: the finished labels and the label
/// being read.
pub open spec fn split_walk(b: Seq<u8>) -> (Seq<Seq<u8>>, Seq<u8>)
    decreases b.len(),
{
    if b.len() == 0 {
        (Seq::empty(), Seq::empty())
    } else {
        let prev = split_walk(b.drop_last());
        if b.last() == 46u8 {
            (prev.0.push(prev.1), Seq::empty())
        } else {
            (prev.0, prev.1.push(b.last()))
        }
    }
}

/// The labels of a dotted name (`str::split('.')`: empty labels kept).
pub open spec fn split_dots(b: Seq<u8>) -> Seq<Seq<u8>> {
    split_walk(b).0.push(split_walk(b).1)
}

/// Labels on the wire: each as its length byte (mod 256) and its bytes.
pub open spec fn wire_labels(ls: Seq<Seq<u8>>) -> Seq<u8>
    decreases ls.len(),
{
    if ls.len() == 0 {
        Seq::empty()
    } else {
        wire_labels(ls.drop_last()) + seq![(ls.last().len() % 256) as u8] + ls.last()
    }
}

/// A standard query for the PTR records of `service`: a zero id and
/// flags, one question, no other records, the name's labels, the root,
/// type PTR, class IN.
pub open spec fn ptr_query_spec(service: Seq<u8>) -> Seq<u8> {
    seq![0u8, 0u8, 0u8, 0u8, 0u8, 1u8, 0u8, 0u8, 0u8, 0u8, 0u8, 0u8] + wire_labels(split_dots(service))
        + seq![0u8, 0u8, 12u8, 0u8, 1u8]
}

/// Append the wire form of one label.
fn push_label(out: &mut Vec<u8>, b: &[u8], from: usize, to: usize)
    requires
        from <= to <= b@.len(),
    ensures
        final(out)@ == old(out)@ + seq![((to - from) % 256) as u8] + b@.subrange(from as int, to as int),
{
    let n = to - from;
    out.push((n % 256) as u8);
    let ghost base = out@;
    let mut i = from;
    while i < to
        invariant
            from <= i <= to <= b@.len(),
            out@ == base + b@.subrange(from as int, i as int),
        decreases to - i,
    {
        out.push(b[i]);
        assert(out@ =~= base + b@.subrange(from as int, i + 1));
        i += 1;
    }
}

/// The PTR query for `service` (see [`ptr_query_spec`]).
pub fn build_ptr_query(service: &str) -> (r: Vec<u8>)
    ensures
        r@ == ptr_query_spec(service.spec_bytes()),
{
    let b = service.as_bytes();
    let mut out: Vec<u8> = Vec::new();
    out.push(0);
    out.push(0);
    out.push(0);
    out.push(0);
    out.push(0);
    out.push(1);
    out.push(0);
    out.push(0);
    out.push(0);
    out.push(0);
    out.push(0);
    out.push(0);
    let ghost header = out@;
    let mut start: usize = 0;
    let mut i: usize = 0;
    assert(b@.subrange(0, 0) =~= Seq::<u8>::empty());
    while i < b.len()
        invariant
            start <= i <= b@.len(),
            split_walk(b@.subrange(0, i as int)).1 == b@.subrange(start as int, i as int),
            out@ == header + wire_labels(split_walk(b@.subrange(0, i as int)).0),
        decreases b@.len() - i,
    {
        proof {
            assert(b@.subrange(0, i + 1).drop_last() =~= b@.subrange(0, i as int));
        }
        if b[i] == 46u8 {
            let ghost done = split_walk(b@.subrange(0, i as int)).0;
            push_label(&mut out, b, start, i);
            proof {
                assert(done.push(b@.subrange(start as int, i as int)).drop_last() =~= done);
                assert(out@ =~= header + wire_labels(done.push(b@.subrange(start as int, i as int))));
            }
            start = i + 1;
            assert(b@.subrange(start as int, i + 1) =~= Seq::<u8>::empty());
        } else {
            assert(b@.subrange(start as int, i + 1) =~= b@.subrange(start as int, i as int).push(b[i as int]));
        }
        i += 1;
    }
    assert(b@.subrange(0, b@.len() as int) =~= b@);
    let ghost done = split_walk(b@).0;
    push_label(&mut out, b, start, b.len());
    proof {
        assert(done.push(b@.subrange(start as int, b@.len() as int)).drop_last() =~= done);
        assert(out@ =~= header + wire_labels(split_dots(b@)));
    }
    out.push(0);
    out.push(0);
    out.push(12);
    out.push(0);
    out.push(1);
    assert(out@ =~= ptr_query_spec(b@));
    out
}

/// What `String::from_utf8_lossy` gives for a byte string: its text, with
/// each invalid sequence replaced by U+FFFD.
pub uninterp spec fn utf8_lossy(b: Seq<u8>) -> Seq<char>;

/// `String::from_utf8_lossy`, owned. The contract only names the result.
#[verifier::external_body]
fn lossy_string(b: &[u8]) -> (r: String)
    ensures
        r@ == utf8_lossy(b@),
{
    String::from_utf8_lossy(b).into_owned()
}

/// The big-endian 16-bit value at `i`, if two bytes are there.
pub open spec fn u16_at(b: Seq<u8>, i: int) -> Option<int> {
    if 0 <= i && i + 2 <= b.len() {
        Some(b[i] * 256 + b[i + 1])
    } else {
        None
    }
}

/// Read a possibly compressed domain name at `pos`, having followed
/// `jumps` pointers: the raw labels, and where reading resumes (after the
/// root byte, or after the first pointer). More than 16 pointers, or
/// running off the packet, is a failure.
pub open spec fn name_walk(b: Seq<u8>, pos: int, jumps: int) -> Option<(Seq<Seq<u8>>, int)>
    decreases 17 - jumps, b.len() - pos,
{
    if jumps > 16 || jumps < 0 || pos < 0 || pos >= b.len() {
        None
    } else {
        let len = b[pos];
        if len >= 0xC0 {
            if pos + 1 >= b.len() {
                None
            } else {
                let target = (len - 0xC0) * 256 + b[pos + 1];
                match name_walk(b, target, jumps + 1) {
                    Some((ls, _)) => Some((ls, pos + 2)),
                    None => None,
                }
            }
        } else if len == 0 {
            Some((Seq::empty(), pos + 1))
        } else if pos + 1 + len > b.len() {
            None
        } else {
            match name_walk(b, pos + 1 + len, jumps) {
                Some((ls, e)) => Some((seq![b.subrange(pos + 1, pos + 1 + len)] + ls, e)),
                None => None,
            }
        }
    }
}

/// Labels joined by dots, each read as (lossy) UTF-8.
pub open spec fn join_labels(ls: Seq<Seq<u8>>) -> Seq<char>
    decreases ls.len(),
{
    if ls.len() == 0 {
        Seq::empty()
    } else if ls.len() == 1 {
        utf8_lossy(ls[0])
    } else {
        join_labels(ls.drop_last()) + seq!['.'] + utf8_lossy(ls.last())
    }
}

/// The name at `pos` and where reading resumes.
pub open spec fn name_at(b: Seq<u8>, pos: int) -> Option<(Seq<char>, int)> {
    match name_walk(b, pos, 0) {
        Some((ls, e)) => Some((join_labels(ls), e)),
        None => None,
    }
}

/// Read the name at `pos` (see [`name_at`]).
fn read_name(b: &[u8], start: usize) -> (r: Option<(String, usize)>)
    ensures
        match name_at(b@, start as int) {
            Some((n, e)) => r matches Some((s, p)) && s@ == n && p == e,
            None => r is None,
        },
{
    let mut labels: Vec<Vec<u8>> = Vec::new();
    let mut pos: usize = start;
    let mut jumped = false;
    let mut resume: usize = 0;
    let mut jumps: usize = 0;
    loop
        invariant
            jumps <= 17,
            jumped ==> resume <= b@.len() + 1,
            name_walk(b@, start as int, 0) == match name_walk(b@, pos as int, jumps as int) {
                Some((ls, e)) => Some(
                    (
                        labels@.map_values(|l: Vec<u8>| l@) + ls,
                        if jumped {
                            resume as int
                        } else {
                            e
                        },
                    ),
                ),
                None => None::<(Seq<Seq<u8>>, int)>,
            },
        decreases 17 - jumps, b@.len() - pos,
    {
        let ghost lv = labels@.map_values(|l: Vec<u8>| l@);
        if jumps > 16 {
            return None;
        }
        if pos >= b.len() {
            return None;
        }
        let len = b[pos];
        if len >= 0xC0 {
            if pos + 1 >= b.len() {
                return None;
            }
            let target: usize = ((len - 0xC0) as usize) * 256 + b[pos + 1] as usize;
            if !jumped {
                resume = pos + 2;
                jumped = true;
            }
            pos = target;
            jumps += 1;
            continue;
        }
        if len == 0 {
            let end = if jumped {
                resume
            } else {
                pos + 1
            };
            let mut out = String::new();
            let mut k: usize = 0;
            while k < labels.len()
                invariant
                    k <= labels@.len(),
                    lv == labels@.map_values(|l: Vec<u8>| l@),
                    out@ == join_labels(lv.subrange(0, k as int)),
                decreases labels@.len() - k,
            {
                if k > 0 {
                    push_char(&mut out, '.');
                }
                let piece = lossy_string(labels[k].as_slice());
                push_str(&mut out, piece.as_str());
                proof {
                    assert(lv.subrange(0, k + 1).drop_last() =~= lv.subrange(0, k as int));
                    assert(lv[k as int] == labels@[k as int]@);
                }
                k += 1;
            }
            proof {
                assert(lv.subrange(0, labels@.len() as int) =~= lv);
                assert(lv + Seq::<Seq<u8>>::empty() =~= lv);
            }
            return Some((out, end));
        }
        let l = len as usize;
        if l > b.len() - pos - 1 {
            return None;
        }
        let label_end = pos + 1 + l;
        let mut label: Vec<u8> = Vec::new();
        let mut k = pos + 1;
        while k < label_end
            invariant
                pos + 1 <= k <= label_end <= b@.len(),
                label_end == pos + 1 + l,
                label@ == b@.subrange(pos + 1, k as int),
            decreases label_end - k,
        {
            label.push(b[k]);
            assert(label@ =~= b@.subrange(pos + 1, k + 1));
            k += 1;
        }
        let ghost piece = label@;
        labels.push(label);
        proof {
            assert(labels@.map_values(|l: Vec<u8>| l@) =~= lv.push(piece));
            match name_walk(b@, pos + 1 + l, jumps as int) {
                Some((ls, e)) => {
                    assert(lv + (seq![piece] + ls) =~= lv.push(piece) + ls);
                },
                None => {},
            }
        }
        pos = label_end;
    }
}

/// Index of the first `=` of `s`, or `-1`.
pub open spec fn first_eq(s: Seq<char>) -> int
    decreases s.len(),
{
    if s.len() == 0 {
        -1
    } else if s[0] == '=' {
        0
    } else {
        let r = first_eq(s.drop_first());
        if r < 0 {
            -1
        } else {
            r + 1
        }
    }
}

proof fn lemma_first_eq(s: Seq<char>)
    ensures
        -1 <= first_eq(s) < s.len(),
        first_eq(s) >= 0 ==> s[first_eq(s)] == '=',
        forall|j: int| 0 <= j < s.len() && (first_eq(s) < 0 || j < first_eq(s)) ==> #[trigger] s[j] != '=',
    decreases s.len(),
{
    if s.len() > 0 && s[0] != '=' {
        lemma_first_eq(s.drop_first());
        assert forall|j: int| 0 < j < s.len() implies #[trigger] s[j] == s.drop_first()[j - 1] by {}
    }
}

/// A TXT string as a pair: split at the first `=`, or the whole string
/// with an empty value.
pub open spec fn split_pair(s: Seq<char>) -> (Seq<char>, Seq<char>) {
    let k = first_eq(s);
    if k < 0 {
        (s, Seq::empty())
    } else {
        (s.subrange(0, k), s.skip(k + 1))
    }
}

/// Split a TXT string (see [`split_pair`]).
fn split_pair_exec(s: &str) -> (r: (String, String))
    ensures
        (r.0@, r.1@) == split_pair(s@),
{
    let v = chars_of(s);
    proof {
        lemma_first_eq(v@);
    }
    let mut i: usize = 0;
    while i < v.len()
        invariant
            i <= v.len(),
            v@ == s@,
            forall|j: int| 0 <= j < i ==> v@[j] != '=',
            -1 <= first_eq(v@) < v@.len(),
            first_eq(v@) >= 0 ==> v@[first_eq(v@)] == '=',
            forall|j: int| 0 <= j < v@.len() && (first_eq(v@) < 0 || j < first_eq(v@)) ==> #[trigger] v@[j] != '=',
        decreases v.len() - i,
    {
        if v[i] == '=' {
            let k = crate::text::string_from_chars(&v, 0, i);
            let rest = crate::text::string_from_chars(&v, i + 1, v.len());
            assert(rest@ =~= v@.skip(i + 1));
            return (k, rest);
        }
        i += 1;
    }
    let whole = crate::text::string_from_chars(&v, 0, v.len());
    assert(whole@ =~= v@);
    (whole, String::new())
}

/// The TXT strings from `pos` up to `end`: each a length byte and that
/// many bytes, read as a pair; running off the packet is a failure.
pub open spec fn txt_pairs(b: Seq<u8>, pos: int, end: int) -> Option<(Seq<(Seq<char>, Seq<char>)>, int)>
    decreases b.len() - pos,
{
    if pos >= end {
        Some((Seq::empty(), pos))
    } else if pos < 0 || pos >= b.len() {
        None
    } else if pos + 1 + b[pos] > b.len() {
        None
    } else {
        let p = pos + 1 + b[pos];
        let pair = split_pair(utf8_lossy(b.subrange(pos + 1, p)));
        match txt_pairs(b, p, end) {
            Some((ps, e)) => Some((seq![pair] + ps, e)),
            None => None,
        }
    }
}

/// A resource record, as read.
pub enum DnsRecordView {
    /// A PTR record's target.
    Ptr(Seq<char>),
    /// A TXT record's owner name and pairs.
    Txt(Seq<char>, Seq<(Seq<char>, Seq<char>)>),
    /// Any other record.
    Other,
}

/// The record at `pos` and where the next begins: owner name, type,
/// class, TTL, data length; a PTR's target name, a TXT's strings, any
/// other type skipped by its data length.
pub open spec fn record_at(b: Seq<u8>, pos: int) -> Option<(DnsRecordView, int)> {
    match name_at(b, pos) {
        None => None,
        Some((name, p1)) => {
            if u16_at(b, p1) is None || u16_at(b, p1 + 2) is None || p1 + 8 > b.len() || u16_at(
                b,
                p1 + 8,
            ) is None {
                None
            } else {
                let rtype = u16_at(b, p1)->0;
                let p2 = p1 + 10;
                let end = p2 + u16_at(b, p1 + 8)->0;
                if rtype == 12 {
                    match name_at(b, p2) {
                        Some((t, p3)) => Some((DnsRecordView::Ptr(t), p3)),
                        None => None,
                    }
                } else if rtype == 16 {
                    match txt_pairs(b, p2, end) {
                        Some((ps, p3)) => Some((DnsRecordView::Txt(name, ps), p3)),
                        None => None,
                    }
                } else {
                    Some((DnsRecordView::Other, end))
                }
            }
        },
    }
}

/// `n` records from `pos`.
pub open spec fn records_from(b: Seq<u8>, pos: int, n: nat) -> Option<Seq<DnsRecordView>>
    decreases n,
{
    if n == 0 {
        Some(Seq::empty())
    } else {
        match record_at(b, pos) {
            None => None,
            Some((r, p)) => match records_from(b, p, (n - 1) as nat) {
                Some(rs) => Some(seq![r] + rs),
                None => None,
            },
        }
    }
}

/// Where `n` questions from `pos` end.
pub open spec fn questions_end(b: Seq<u8>, pos: int, n: nat) -> Option<int>
    decreases n,
{
    if n == 0 {
        Some(pos)
    } else {
        match name_at(b, pos) {
            None => None,
            Some((_, p)) => if u16_at(b, p) is None || u16_at(b, p + 2) is None {
                None
            } else {
                questions_end(b, p + 4, (n - 1) as nat)
            },
        }
    }
}

/// The records of a DNS response: `None` for a query (the response bit of
/// the flags clear) or a malformed packet; the questions are skipped and
/// the answer, authority and additional records read in order.
pub open spec fn parse_records(b: Seq<u8>) -> Option<Seq<DnsRecordView>> {
    if b.len() < 12 {
        None
    } else if u16_at(b, 2)->0 < 0x8000 {
        None
    } else {
        let qd = u16_at(b, 4)->0;
        let total = u16_at(b, 6)->0 + u16_at(b, 8)->0 + u16_at(b, 10)->0;
        match questions_end(b, 12, qd as nat) {
            None => None,
            Some(q) => records_from(b, q, total as nat),
        }
    }
}

/// The character views of TXT pairs.
pub open spec fn pair_views(v: Seq<(String, String)>) -> Seq<(Seq<char>, Seq<char>)> {
    v.map_values(|p: (String, String)| (p.0@, p.1@))
}

/// The big-endian 16-bit value at `i` (see [`u16_at`]).
fn read_u16(b: &[u8], i: u128) -> (r: Option<u16>)
    ensures
        match u16_at(b@, i as int) {
            Some(v) => r == Some(v as u16),
            None => r is None,
        },
{
    if i >= b.len() as u128 || b.len() as u128 - i < 2 {
        return None;
    }
    let k = i as usize;
    Some((b[k] as u16) * 256 + b[k + 1] as u16)
}

/// Read the name at `pos` (see [`name_at`]).
fn read_name_at(b: &[u8], pos: u128) -> (r: Option<(String, u128)>)
    ensures
        match name_at(b@, pos as int) {
            Some((n, e)) => r matches Some((s, p)) && s@ == n && p == e,
            None => r is None,
        },
        r matches Some((_, p)) ==> p <= b@.len(),
{
    if pos >= b.len() as u128 {
        return None;
    }
    proof {
        lemma_name_walk_end(b@, pos as int, 0);
    }
    match read_name(b, pos as usize) {
        Some((s, e)) => Some((s, e as u128)),
        None => None,
    }
}

proof fn lemma_name_walk_end(b: Seq<u8>, pos: int, jumps: int)
    ensures
        name_walk(b, pos, jumps) matches Some((_, e)) ==> e <= b.len(),
    decreases 17 - jumps, b.len() - pos,
{
    if !(jumps > 16 || jumps < 0 || pos < 0 || pos >= b.len()) {
        let len = b[pos];
        if len >= 0xC0 {
        } else if len != 0 && pos + 1 + len <= b.len() {
            lemma_name_walk_end(b, pos + 1 + len, jumps);
        }
    }
}

/// The TXT strings from `start` up to `end` (see [`txt_pairs`]).
fn read_txt_pairs(b: &[u8], start: u128, end: u128) -> (r: Option<(Vec<(String, String)>, u128)>)
    requires
        start <= b@.len() + 16,
    ensures
        match txt_pairs(b@, start as int, end as int) {
            Some((ps, e)) => r matches Some((v, p)) && pair_views(v@) == ps && p == e,
            None => r is None,
        },
        r matches Some((_, p)) ==> p <= b@.len() + 16,
{
    let mut out: Vec<(String, String)> = Vec::new();
    let mut pos = start;
    assert(pair_views(out@) =~= Seq::<(Seq<char>, Seq<char>)>::empty());
    while pos < end
        invariant
            pos <= b@.len() + 16,
            txt_pairs(b@, start as int, end as int) == match txt_pairs(b@, pos as int, end as int) {
                Some((ps, e)) => Some((pair_views(out@) + ps, e)),
                None => None::<(Seq<(Seq<char>, Seq<char>)>, int)>,
            },
        decreases b@.len() - pos,
    {
        if pos >= b.len() as u128 {
            return None;
        }
        let k = pos as usize;
        let len = b[k] as usize;
        if len > b.len() - k - 1 {
            return None;
        }
        let text = lossy_string(&b[k + 1..k + 1 + len]);
        let ghost bytes = b@.subrange(k + 1, k + 1 + len);
        let pair = split_pair_exec(text.as_str());
        let ghost pv = (pair.0@, pair.1@);
        let ghost before = pair_views(out@);
        out.push(pair);
        proof {
            assert(pair_views(out@) =~= before.push(pv));
            match txt_pairs(b@, (k + 1 + len) as int, end as int) {
                Some((ps, e)) => {
                    assert(before + (seq![pv] + ps) =~= before.push(pv) + ps);
                },
                None => {},
            }
        }
        pos = (k + 1 + len) as u128;
    }
    assert(pair_views(out@) + Seq::<(Seq<char>, Seq<char>)>::empty() =~= pair_views(out@));
    Some((out, pos))
}

/// A resource record as read.
#[derive(Debug, PartialEq, Eq)]
pub enum DnsRecord {
    Ptr { target: String },
    Txt { name: String, txt: Vec<(String, String)> },
    Other,
}

pub open spec fn record_view(r: DnsRecord) -> DnsRecordView {
    match r {
        DnsRecord::Ptr { target } => DnsRecordView::Ptr(target@),
        DnsRecord::Txt { name, txt } => DnsRecordView::Txt(name@, pair_views(txt@)),
        DnsRecord::Other => DnsRecordView::Other,
    }
}

pub open spec fn record_views(v: Seq<DnsRecord>) -> Seq<DnsRecordView> {
    v.map_values(|r: DnsRecord| record_view(r))
}

/// Read the record at `pos` (see [`record_at`]).
fn read_record(b: &[u8], pos: u128) -> (r: Option<(DnsRecord, u128)>)
    requires
        pos <= b@.len() + 0x1_0000,
    ensures
        match record_at(b@, pos as int) {
            Some((v, e)) => r matches Some((rec, p)) && record_view(rec) == v && p == e,
            None => r is None,
        },
        r matches Some((_, p)) ==> p <= b@.len() + 0x1_0000,
{
    let (name, p1) = match read_name_at(b, pos) {
        Some(x) => x,
        None => {
            return None;
        },
    };
    let blen: usize = b.len();
    assert(p1 <= blen);
    let rtype = match read_u16(b, p1) {
        Some(v) => v,
        None => {
            return None;
        },
    };
    if read_u16(b, p1 + 2).is_none() {
        return None;
    }
    if p1 + 8 > b.len() as u128 {
        return None;
    }
    let rdlen = match read_u16(b, p1 + 8) {
        Some(v) => v,
        None => {
            return None;
        },
    };
    let p2 = p1 + 10;
    let end = p2 + rdlen as u128;
    if rtype == 12 {
        match read_name_at(b, p2) {
            Some((t, p3)) => Some((DnsRecord::Ptr { target: t }, p3)),
            None => None,
        }
    } else if rtype == 16 {
        match read_txt_pairs(b, p2, end) {
            Some((ps, p3)) => Some((DnsRecord::Txt { name, txt: ps }, p3)),
            None => None,
        }
    } else {
        Some((DnsRecord::Other, end))
    }
}

/// Where `n` questions from `start` end (see [`questions_end`]).
fn skip_questions(b: &[u8], start: u128, n: u16) -> (r: Option<u128>)
    requires
        start <= b@.len() + 0x1_0000,
    ensures
        match questions_end(b@, start as int, n as nat) {
            Some(q) => r matches Some(p) && p == q,
            None => r is None,
        },
        r matches Some(p) ==> p <= b@.len() + 0x1_0000,
        n == 0 ==> r == Some(start),
{
    let mut pos = start;
    let mut k: u16 = 0;
    let blen: usize = b.len();
    while k < n
        invariant
            k <= n,
            blen == b@.len(),
            pos <= b@.len() + 0x1_0000,
            k > 0 ==> pos <= b@.len(),
            k == 0 ==> pos == start,
            questions_end(b@, start as int, n as nat) == questions_end(b@, pos as int, (n - k) as nat),
        decreases n - k,
    {
        let p = match read_name_at(b, pos) {
            Some((_, p)) => p,
            None => {
                return None;
            },
        };
        if read_u16(b, p).is_none() || read_u16(b, p + 2).is_none() {
            return None;
        }
        pos = p + 4;
        k += 1;
    }
    Some(pos)
}

/// Read `n` records from `start` (see [`records_from`]).
fn read_records(b: &[u8], start: u128, n: u32) -> (r: Option<Vec<DnsRecord>>)
    requires
        start <= b@.len() + 0x1_0000,
    ensures
        match records_from(b@, start as int, n as nat) {
            Some(rs) => r matches Some(v) && record_views(v@) == rs,
            None => r is None,
        },
{
    let mut out: Vec<DnsRecord> = Vec::new();
    let mut pos = start;
    let mut k: u32 = 0;
    assert(record_views(out@) =~= Seq::<DnsRecordView>::empty());
    while k < n
        invariant
            k <= n,
            pos <= b@.len() + 0x1_0000,
            records_from(b@, start as int, n as nat) == match records_from(b@, pos as int, (n - k) as nat) {
                Some(rs) => Some(record_views(out@) + rs),
                None => None::<Seq<DnsRecordView>>,
            },
        decreases n - k,
    {
        let (rec, p) = match read_record(b, pos) {
            Some(x) => x,
            None => {
                return None;
            },
        };
        let ghost rv = record_view(rec);
        let ghost before = record_views(out@);
        out.push(rec);
        proof {
            assert(record_views(out@) =~= before.push(rv));
            match records_from(b@, p as int, (n - k - 1) as nat) {
                Some(rs) => {
                    assert(before + (seq![rv] + rs) =~= before.push(rv) + rs);
                },
                None => {},
            }
        }
        pos = p;
        k += 1;
    }
    assert(record_views(out@) + Seq::<DnsRecordView>::empty() =~= record_views(out@));
    Some(out)
}

/// Read the records of a DNS response (see [`parse_records`]).
pub fn parse_dns_records(b: &[u8]) -> (r: Option<Vec<DnsRecord>>)
    ensures
        match parse_records(b@) {
            Some(rs) => r matches Some(v) && record_views(v@) == rs,
            None => r is None,
        },
{
    if b.len() < 12 {
        return None;
    }
    let flags = match read_u16(b, 2) {
        Some(v) => v,
        None => {
            return None;
        },
    };
    if flags < 0x8000 {
        return None;
    }
    let (qd, an, ns, ar) = match (read_u16(b, 4), read_u16(b, 6), read_u16(b, 8), read_u16(b, 10)) {
        (Some(a), Some(c), Some(d), Some(e)) => (a, c, d, e),
        _ => {
            return None;
        },
    };
    let q = match skip_questions(b, 12, qd) {
        Some(q) => q,
        None => {
            return None;
        },
    };
    read_records(b, q, an as u32 + ns as u32 + ar as u32)
}

/// The PTR targets, in order.
pub open spec fn ptr_targets(rs: Seq<DnsRecordView>) -> Seq<Seq<char>>
    decreases rs.len(),
{
    if rs.len() == 0 {
        Seq::empty()
    } else {
        match rs.last() {
            DnsRecordView::Ptr(t) => ptr_targets(rs.drop_last()).push(t),
            _ => ptr_targets(rs.drop_last()),
        }
    }
}

/// The TXT owner names, each once, in order of first appearance.
pub open spec fn txt_names(rs: Seq<DnsRecordView>) -> Seq<Seq<char>>
    decreases rs.len(),
{
    if rs.len() == 0 {
        Seq::empty()
    } else {
        let prev = txt_names(rs.drop_last());
        match rs.last() {
            DnsRecordView::Txt(n, _) => if prev.contains(n) {
                prev
            } else {
                prev.push(n)
            },
            _ => prev,
        }
    }
}

/// All TXT pairs recorded for `name`, in order.
pub open spec fn merged_txt(rs: Seq<DnsRecordView>, name: Seq<char>) -> Seq<(Seq<char>, Seq<char>)>
    decreases rs.len(),
{
    if rs.len() == 0 {
        Seq::empty()
    } else {
        let prev = merged_txt(rs.drop_last(), name);
        match rs.last() {
            DnsRecordView::Txt(n, ps) => if n == name {
                prev + ps
            } else {
                prev
            },
            _ => prev,
        }
    }
}

/// Instances found in a response: each PTR target with the TXT pairs of
/// that name (only for its first PTR), then each TXT name no PTR named,
/// with its pairs.
pub open spec fn response_spec(rs: Seq<DnsRecordView>) -> Seq<(Seq<char>, Seq<(Seq<char>, Seq<char>)>)> {
    let ts = ptr_targets(rs);
    let ns = txt_names(rs);
    Seq::new(
        ts.len(),
        |i: int|
            (
                ts[i],
                if ns.contains(ts[i]) && !ts.subrange(0, i).contains(ts[i]) {
                    merged_txt(rs, ts[i])
                } else {
                    Seq::empty()
                },
            ),
    ) + ns.filter(|n: Seq<char>| !ts.contains(n)).map_values(
        |n: Seq<char>| (n, merged_txt(rs, n)),
    )
}

/// The character views of found instances.
pub open spec fn instance_views(v: Seq<(String, Vec<(String, String)>)>) -> Seq<
    (Seq<char>, Seq<(Seq<char>, Seq<char>)>),
> {
    v.map_values(|x: (String, Vec<(String, String)>)| (x.0@, pair_views(x.1@)))
}

proof fn lemma_txt_names_distinct(rs: Seq<DnsRecordView>)
    ensures
        forall|a: int, b: int|
            0 <= a < b < txt_names(rs).len() ==> #[trigger] txt_names(rs)[a] != #[trigger] txt_names(rs)[b],
    decreases rs.len(),
{
    if rs.len() > 0 {
        lemma_txt_names_distinct(rs.drop_last());
        let prev = txt_names(rs.drop_last());
        if let DnsRecordView::Txt(n, _) = rs.last() {
            if !prev.contains(n) {
                assert forall|a: int| 0 <= a < prev.len() implies prev[a] != n by {
                    if prev[a] == n {
                        assert(prev.contains(n));
                    }
                }
            }
        }
    }
}

/// A copy of TXT pairs.
fn clone_pairs(v: &Vec<(String, String)>) -> (r: Vec<(String, String)>)
    ensures
        pair_views(r@) == pair_views(v@),
{
    let mut out: Vec<(String, String)> = Vec::new();
    let mut i: usize = 0;
    while i < v.len()
        invariant
            i <= v@.len(),
            pair_views(out@) == pair_views(v@.subrange(0, i as int)),
        decreases v@.len() - i,
    {
        let (k, x) = &v[i];
        let ghost before = pair_views(out@);
        let kc = k.clone();
        let xc = x.clone();
        out.push((kc, xc));
        proof {
            assert(pair_views(out@) =~= before.push((k@, x@)));
            assert(v@.subrange(0, i + 1) =~= v@.subrange(0, i as int).push(v@[i as int]));
            assert(pair_views(v@.subrange(0, i + 1)) =~= pair_views(v@.subrange(0, i as int)).push((k@, x@)));
        }
        i += 1;
    }
    assert(v@.subrange(0, v@.len() as int) =~= v@);
    out
}

/// Position of `x` in `names`, if there.
fn position_of(names: &Vec<String>, x: &String) -> (r: Option<usize>)
    ensures
        match r {
            Some(j) => j < names@.len() && names@[j as int]@ == x@,
            None => !views(names@).contains(x@),
        },
{
    let mut j: usize = 0;
    while j < names.len()
        invariant
            j <= names@.len(),
            forall|k: int| 0 <= k < j ==> names@[k]@ != x@,
        decreases names@.len() - j,
    {
        if str_eq(names[j].as_str(), x.as_str()) {
            return Some(j);
        }
        j += 1;
    }
    proof {
        if views(names@).contains(x@) {
            let k = choose|k: int| 0 <= k < views(names@).len() && views(names@)[k] == x@;
            assert(names@[k]@ == x@);
        }
    }
    None
}

/// Group the records of a response by owner name.
fn group_records(recs: &Vec<DnsRecord>) -> (r: (Vec<String>, Vec<String>, Vec<Vec<(String, String)>>))
    ensures
        views(r.0@) == ptr_targets(record_views(recs@)),
        views(r.1@) == txt_names(record_views(recs@)),
        r.2@.len() == r.1@.len(),
        forall|j: int|
            0 <= j < r.1@.len() ==> pair_views(#[trigger] r.2@[j]@) == merged_txt(
                record_views(recs@),
                r.1@[j]@,
            ),
{
    let ghost rs = record_views(recs@);
    let mut targets: Vec<String> = Vec::new();
    let mut names: Vec<String> = Vec::new();
    let mut pairs: Vec<Vec<(String, String)>> = Vec::new();
    let mut i: usize = 0;
    while i < recs.len()
        invariant
            i <= recs@.len(),
            rs == record_views(recs@),
            views(targets@) == ptr_targets(rs.subrange(0, i as int)),
            views(names@) == txt_names(rs.subrange(0, i as int)),
            pairs@.len() == names@.len(),
            forall|j: int|
                0 <= j < names@.len() ==> pair_views(#[trigger] pairs@[j]@) == merged_txt(
                    rs.subrange(0, i as int),
                    names@[j]@,
                ),
        decreases recs@.len() - i,
    {
        let ghost pre = rs.subrange(0, i as int);
        let ghost cur = rs.subrange(0, i + 1);
        proof {
            assert(cur.drop_last() =~= pre);
            assert(cur.last() == record_view(recs@[i as int]));
            lemma_txt_names_distinct(pre);
        }
        match &recs[i] {
            DnsRecord::Ptr { target } => {
                let ghost before = views(targets@);
                targets.push(target.clone());
                assert(views(targets@) =~= before.push(target@));
                assert forall|j: int| 0 <= j < names@.len() implies pair_views(#[trigger] pairs@[j]@)
                    == merged_txt(cur, names@[j]@) by {}
            },
            DnsRecord::Txt { name, txt } => {
                match position_of(&names, name) {
                    Some(j) => {
                        let mut merged = pairs.remove(j);
                        let mut k: usize = 0;
                        let ghost base = pair_views(merged@);
                        while k < txt.len()
                            invariant
                                k <= txt@.len(),
                                pair_views(merged@) == base + pair_views(txt@.subrange(0, k as int)),
                            decreases txt@.len() - k,
                        {
                            let (a, b) = &txt[k];
                            let ghost before = pair_views(merged@);
                            let ac = a.clone();
                            let bc = b.clone();
                            merged.push((ac, bc));
                            proof {
                                assert(pair_views(merged@) =~= before.push((a@, b@)));
                                assert(txt@.subrange(0, k + 1) =~= txt@.subrange(0, k as int).push(txt@[k as int]));
                                assert(pair_views(txt@.subrange(0, k + 1)) =~= pair_views(txt@.subrange(0, k as int)).push(
                                    (a@, b@),
                                ));
                            }
                            assert(pair_views(merged@) =~= base + pair_views(txt@.subrange(0, k + 1)));
                            k += 1;
                        }
                        assert(txt@.subrange(0, txt@.len() as int) =~= txt@);
                        let ghost old_pairs = pairs@;
                        pairs.insert(j, merged);
                        proof {
                            assert(views(names@).contains(name@)) by {
                                assert(views(names@)[j as int] == name@);
                            }
                            assert forall|m: int| 0 <= m < names@.len() implies pair_views(
                                #[trigger] pairs@[m]@,
                            ) == merged_txt(cur, names@[m]@) by {
                                if m == j {
                                } else {
                                    assert(views(names@)[m] != views(names@)[j as int]);
                                    if m < j {
                                        assert(pairs@[m] == old_pairs[m]);
                                    } else {
                                        assert(pairs@[m] == old_pairs[m - 1]);
                                    }
                                }
                            }
                        }
                    },
                    None => {
                        let ghost before = views(names@);
                        names.push(name.clone());
                        pairs.push(clone_pairs(txt));
                        proof {
                            assert(views(names@) =~= before.push(name@));
                            assert forall|m: int| 0 <= m < names@.len() implies pair_views(
                                #[trigger] pairs@[m]@,
                            ) == merged_txt(cur, names@[m]@) by {
                                if m < names@.len() - 1 {
                                    assert(views(names@)[m] != name@);
                                } else {
                                    assert(merged_txt(pre, name@) =~= Seq::<(Seq<char>, Seq<char>)>::empty())
                                        by {
                                        lemma_merged_absent(pre, name@);
                                    }
                                }
                            }
                        }
                    },
                }
            },
            DnsRecord::Other => {
                assert forall|j: int| 0 <= j < names@.len() implies pair_views(#[trigger] pairs@[j]@)
                    == merged_txt(cur, names@[j]@) by {}
            },
        }
        i += 1;
    }
    assert(rs.subrange(0, recs@.len() as int) =~= rs);
    (targets, names, pairs)
}

proof fn lemma_merged_absent(rs: Seq<DnsRecordView>, name: Seq<char>)
    requires
        !txt_names(rs).contains(name),
    ensures
        merged_txt(rs, name) == Seq::<(Seq<char>, Seq<char>)>::empty(),
    decreases rs.len(),
{
    if rs.len() > 0 {
        let prev = txt_names(rs.drop_last());
        match rs.last() {
            DnsRecordView::Txt(n, _) => {
                if !prev.contains(n) {
                    assert(txt_names(rs)[prev.len() as int] == n);
                }
                assert(!prev.contains(name)) by {
                    if prev.contains(name) {
                        let k = choose|k: int| 0 <= k < prev.len() && prev[k] == name;
                        assert(txt_names(rs)[k] == name);
                    }
                }
            },
            _ => {},
        }
        lemma_merged_absent(rs.drop_last(), name);
    }
}

proof fn lemma_push_contains(s: Seq<Seq<char>>, x: Seq<char>, y: Seq<char>)
    ensures
        s.push(x).contains(y) == (s.contains(y) || x == y),
{
    if s.contains(y) {
        let k = choose|k: int| 0 <= k < s.len() && s[k] == y;
        assert(s.push(x)[k] == y);
    }
    if x == y {
        assert(s.push(x)[s.len() as int] == y);
    }
    if s.push(x).contains(y) {
        let k = choose|k: int| 0 <= k < s.push(x).len() && s.push(x)[k] == y;
        if k < s.len() {
            assert(s[k] == y);
        }
    }
}

/// Parse an mDNS response into the instances it names and their TXT pairs
/// (see [`response_spec`]); a packet that is not a well-formed response
/// names none.
pub fn parse_mdns_response(packet: &[u8]) -> (r: Vec<(String, Vec<(String, String)>)>)
    ensures
        instance_views(r@) == match parse_records(packet@) {
            Some(rs) => response_spec(rs),
            None => Seq::empty(),
        },
{
    let recs = match parse_dns_records(packet) {
        Some(v) => v,
        None => {
            let out: Vec<(String, Vec<(String, String)>)> = Vec::new();
            assert(instance_views(out@) =~= Seq::<(Seq<char>, Seq<(Seq<char>, Seq<char>)>)>::empty());
            return out;
        },
    };
    let ghost rs = record_views(recs@);
    let (targets, names, pairs) = group_records(&recs);
    let ghost ts = ptr_targets(rs);
    let ghost ns = txt_names(rs);
    let ghost part1 = Seq::new(
        ts.len(),
        |i: int|
            (
                ts[i],
                if ns.contains(ts[i]) && !ts.subrange(0, i).contains(ts[i]) {
                    merged_txt(rs, ts[i])
                } else {
                    Seq::<(Seq<char>, Seq<char>)>::empty()
                },
            ),
    );
    let mut removed: Vec<bool> = Vec::new();
    let mut j: usize = 0;
    while j < names.len()
        invariant
            j <= names@.len(),
            removed@.len() == j,
            forall|m: int| 0 <= m < j ==> !(#[trigger] removed@[m]),
        decreases names@.len() - j,
    {
        removed.push(false);
        j += 1;
    }
    let mut out: Vec<(String, Vec<(String, String)>)> = Vec::new();
    let mut i: usize = 0;
    assert(instance_views(out@) =~= part1.subrange(0, 0));
    proof {
        lemma_txt_names_distinct(rs);
    }
    while i < targets.len()
        invariant
            i <= targets@.len(),
            views(targets@) == ts,
            views(names@) == ns,
            forall|a: int, b: int| 0 <= a < b < ns.len() ==> #[trigger] ns[a] != #[trigger] ns[b],
            pairs@.len() == names@.len(),
            removed@.len() == names@.len(),
            forall|m: int|
                0 <= m < names@.len() ==> pair_views(#[trigger] pairs@[m]@) == merged_txt(rs, names@[m]@),
            forall|m: int|
                0 <= m < names@.len() ==> #[trigger] removed@[m] == ts.subrange(0, i as int).contains(
                    names@[m]@,
                ),
            part1.len() == ts.len(),
            forall|k: int| 0 <= k < ts.len() ==> #[trigger] part1[k] == (
                ts[k],
                if ns.contains(ts[k]) && !ts.subrange(0, k).contains(ts[k]) {
                    merged_txt(rs, ts[k])
                } else {
                    Seq::<(Seq<char>, Seq<char>)>::empty()
                },
            ),
            instance_views(out@) == part1.subrange(0, i as int),
        decreases targets@.len() - i,
    {
        let t = &targets[i];
        assert(ts[i as int] == t@);
        let ghost before = instance_views(out@);
        let ghost old_removed = removed@;
        match position_of(&names, t) {
            Some(m) => {
                if !removed[m] {
                    let copy = clone_pairs(&pairs[m]);
                    out.push((t.clone(), copy));
                    removed.set(m, true);
                    proof {
                        assert(views(names@)[m as int] == t@);
                        assert(ns.contains(t@));
                    }
                } else {
                    let empty: Vec<(String, String)> = Vec::new();
                    assert(pair_views(empty@) =~= Seq::<(Seq<char>, Seq<char>)>::empty());
                    out.push((t.clone(), empty));
                }
            },
            None => {
                let empty: Vec<(String, String)> = Vec::new();
                assert(pair_views(empty@) =~= Seq::<(Seq<char>, Seq<char>)>::empty());
                out.push((t.clone(), empty));
            },
        }
        proof {
            assert(ts.subrange(0, i + 1) =~= ts.subrange(0, i as int).push(t@));
            assert forall|m: int| 0 <= m < names@.len() implies #[trigger] removed@[m]
                == ts.subrange(0, i + 1).contains(names@[m]@) by {
                lemma_push_contains(ts.subrange(0, i as int), t@, names@[m]@);
                assert(views(names@)[m] == names@[m]@);
            }
            assert(instance_views(out@) =~= before.push(part1[i as int]));
            assert(part1.subrange(0, i + 1) =~= part1.subrange(0, i as int).push(part1[i as int]));
        }
        i += 1;
    }
    assert(part1.subrange(0, ts.len() as int) =~= part1);
    assert(ts.subrange(0, ts.len() as int) =~= ts);
    let ghost pred = |n: Seq<char>| !ts.contains(n);
    let ghost f = |n: Seq<char>| (n, merged_txt(rs, n));
    let mut m: usize = 0;
    assert(ns.subrange(0, 0).filter(pred) =~= Seq::<Seq<char>>::empty());
    assert(instance_views(out@) =~= part1 + ns.subrange(0, 0).filter(pred).map_values(f));
    while m < names.len()
        invariant
            m <= names@.len(),
            views(names@) == ns,
            pairs@.len() == names@.len(),
            removed@.len() == names@.len(),
            forall|k: int|
                0 <= k < names@.len() ==> pair_views(#[trigger] pairs@[k]@) == merged_txt(rs, names@[k]@),
            forall|k: int| 0 <= k < names@.len() ==> #[trigger] removed@[k] == ts.contains(names@[k]@),
            pred == (|n: Seq<char>| !ts.contains(n)),
            f == (|n: Seq<char>| (n, merged_txt(rs, n))),
            instance_views(out@) == part1 + ns.subrange(0, m as int).filter(pred).map_values(f),
        decreases names@.len() - m,
    {
        let ghost pre = ns.subrange(0, m as int);
        let ghost before = instance_views(out@);
        proof {
            assert(ns.subrange(0, m + 1) =~= pre + seq![ns[m as int]]);
            Seq::filter_distributes_over_add(pre, seq![ns[m as int]], pred);
            reveal_with_fuel(Seq::filter, 2);
            assert(ns[m as int] == names@[m as int]@);
        }
        if !removed[m] {
            let copy = clone_pairs(&pairs[m]);
            out.push((names[m].clone(), copy));
            proof {
                assert(pred(ns[m as int]));
                assert(ns.subrange(0, m + 1).filter(pred) =~= pre.filter(pred).push(ns[m as int]));
                assert(instance_views(out@) =~= before.push(f(ns[m as int])));
                assert(ns.subrange(0, m + 1).filter(pred).map_values(f) =~= pre.filter(pred).map_values(f).push(
                    f(ns[m as int]),
                ));
            }
        } else {
            proof {
                assert(!pred(ns[m as int]));
                assert(ns.subrange(0, m + 1).filter(pred) =~= pre.filter(pred));
            }
        }
        m += 1;
    }
    assert(ns.subrange(0, ns.len() as int) =~= ns);
    out
}

/// Index of the entry named `n` in a table of instances, or `-1`.
pub open spec fn entry_index(t: Seq<(Seq<char>, Seq<(Seq<char>, Seq<char>)>)>, n: Seq<char>) -> int
    decreases t.len(),
{
    if t.len() == 0 {
        -1
    } else if t.last().0 == n {
        t.len() - 1
    } else {
        entry_index(t.drop_last(), n)
    }
}

/// Add found instances to a table: an instance already there gains the
/// new pairs after its own; a new one is appended.
pub open spec fn table_add(
    t: Seq<(Seq<char>, Seq<(Seq<char>, Seq<char>)>)>,
    found: Seq<(Seq<char>, Seq<(Seq<char>, Seq<char>)>)>,
) -> Seq<(Seq<char>, Seq<(Seq<char>, Seq<char>)>)>
    decreases found.len(),
{
    if found.len() == 0 {
        t
    } else {
        let prev = table_add(t, found.drop_last());
        let (n, ps) = found.last();
        let k = entry_index(prev, n);
        if k >= 0 {
            prev.update(k, (n, prev[k].1 + ps))
        } else {
            prev.push((n, ps))
        }
    }
}

proof fn lemma_entry_index(t: Seq<(Seq<char>, Seq<(Seq<char>, Seq<char>)>)>, n: Seq<char>)
    ensures
        -1 <= entry_index(t, n) < t.len(),
        entry_index(t, n) >= 0 ==> t[entry_index(t, n)].0 == n,
        entry_index(t, n) < 0 ==> forall|j: int| 0 <= j < t.len() ==> (#[trigger] t[j]).0 != n,
    decreases t.len(),
{
    if t.len() > 0 && t.last().0 != n {
        lemma_entry_index(t.drop_last(), n);
        assert forall|j: int| 0 <= j < t.len() - 1 implies #[trigger] t[j] == t.drop_last()[j] by {}
    }
}

/// Add the instances found in one response to those found before (see
/// [`table_add`]).
pub fn add_instances(
    table: &mut Vec<(String, Vec<(String, String)>)>,
    found: Vec<(String, Vec<(String, String)>)>,
)
    ensures
        instance_views(final(table)@) == table_add(instance_views(old(table)@), instance_views(found@)),
{
    let ghost fv = instance_views(found@);
    let mut i: usize = 0;
    assert(fv.subrange(0, 0) =~= Seq::<(Seq<char>, Seq<(Seq<char>, Seq<char>)>)>::empty());
    while i < found.len()
        invariant
            i <= found@.len(),
            fv == instance_views(found@),
            instance_views(table@) == table_add(instance_views(old(table)@), fv.subrange(0, i as int)),
        decreases found@.len() - i,
    {
        let (name, ps) = &found[i];
        let ghost tv = instance_views(table@);
        proof {
            assert(fv.subrange(0, i + 1).drop_last() =~= fv.subrange(0, i as int));
            assert(fv.subrange(0, i + 1).last() == (name@, pair_views(ps@)));
            lemma_entry_index(tv, name@);
        }
        let mut k = table.len();
        let mut hit = false;
        while k > 0 && !hit
            invariant
                k <= table@.len(),
                tv == instance_views(table@),
                hit ==> k < table@.len() && k as int == entry_index(tv, name@),
                !hit ==> forall|j: int| k <= j < tv.len() ==> (#[trigger] tv[j]).0 != name@,
                -1 <= entry_index(tv, name@) < tv.len(),
                entry_index(tv, name@) >= 0 ==> tv[entry_index(tv, name@)].0 == name@,
                entry_index(tv, name@) < 0 ==> forall|j: int| 0 <= j < tv.len() ==> (#[trigger] tv[j]).0 != name@,
            decreases k, if hit { 0int } else { 1int },
        {
            let (n, _) = &table[k - 1];
            assert(tv[k - 1].0 == n@);
            if str_eq(n.as_str(), name.as_str()) {
                hit = true;
                proof {
                    lemma_last_entry(tv, name@, k - 1);
                }
            }
            k -= 1;
        }
        if hit {
            let (n, mut merged) = table.remove(k);
            let extra = clone_pairs(ps);
            let mut j: usize = 0;
            let ghost base = pair_views(merged@);
            while j < extra.len()
                invariant
                    j <= extra@.len(),
                    pair_views(merged@) == base + pair_views(extra@.subrange(0, j as int)),
                decreases extra@.len() - j,
            {
                let (a, b) = &extra[j];
                let ghost before = pair_views(merged@);
                let ac = a.clone();
                let bc = b.clone();
                merged.push((ac, bc));
                proof {
                    assert(pair_views(merged@) =~= before.push((a@, b@)));
                    assert(extra@.subrange(0, j + 1) =~= extra@.subrange(0, j as int).push(extra@[j as int]));
                    assert(pair_views(extra@.subrange(0, j + 1)) =~= pair_views(extra@.subrange(0, j as int)).push(
                        (a@, b@),
                    ));
                }
                j += 1;
            }
            assert(extra@.subrange(0, extra@.len() as int) =~= extra@);
            let ghost nv = n@;
            table.insert(k, (n, merged));
            proof {
                assert(instance_views(table@) =~= tv.update(k as int, (name@, tv[k as int].1 + pair_views(ps@))));
            }
        } else {
            let copy = clone_pairs(ps);
            let ghost item = (name@, pair_views(ps@));
            table.push((name.clone(), copy));
            proof {
                assert(entry_index(tv, name@) < 0) by {
                    if entry_index(tv, name@) >= 0 {
                        assert(tv[entry_index(tv, name@)].0 == name@);
                    }
                }
                assert(instance_views(table@) =~= tv.push(item));
            }
        }
        i += 1;
    }
    assert(fv.subrange(0, fv.len() as int) =~= fv);
}

proof fn lemma_last_entry(t: Seq<(Seq<char>, Seq<(Seq<char>, Seq<char>)>)>, n: Seq<char>, k: int)
    requires
        0 <= k < t.len(),
        t[k].0 == n,
        forall|j: int| k < j < t.len() ==> (#[trigger] t[j]).0 != n,
    ensures
        entry_index(t, n) == k,
    decreases t.len(),
{
    if k < t.len() - 1 {
        assert(t.last().0 != n);
        lemma_last_entry(t.drop_last(), n, k);
    }
}

/// `s` without `suffix` at its end, when it ends with it.
pub open spec fn strip_suffix(s: Seq<char>, suffix: Seq<char>) -> Seq<char> {
    if s.len() >= suffix.len() && s.subrange(s.len() - suffix.len(), s.len() as int) == suffix {
        s.subrange(0, s.len() - suffix.len())
    } else {
        s
    }
}

/// The instance name of a service instance: its full name without the
/// service suffix.
fn instance_name(full: &str) -> (r: String)
    ensures
        r@ == strip_suffix(full@, "._unpeel-remote._tcp.local"@),
{
    let v = chars_of(full);
    let suf = chars_of("._unpeel-remote._tcp.local");
    if v.len() < suf.len() {
        return crate::text::string_from_chars(&v, 0, v.len());
    }
    let off = v.len() - suf.len();
    let mut i: usize = 0;
    while i < suf.len()
        invariant
            i <= suf@.len(),
            off + suf@.len() == v@.len(),
            v@.len() <= usize::MAX,
            v@ == full@,
            suf@ == "._unpeel-remote._tcp.local"@,
            forall|j: int| 0 <= j < i ==> v@[off + j] == suf@[j],
        decreases suf@.len() - i,
    {
        if v[off + i] != suf[i] {
            assert(v@.subrange(off as int, v@.len() as int)[i as int] != suf@[i as int]);
            let r = crate::text::string_from_chars(&v, 0, v.len());
            assert(r@ =~= full@);
            return r;
        }
        i += 1;
    }
    assert(v@.subrange(off as int, v@.len() as int) =~= suf@);
    crate::text::string_from_chars(&v, 0, off)
}

/// The candidates a table of instances makes, in table order (see
/// [`candidate_spec`]): instances without a usable `macid` make none.
pub open spec fn table_candidates(t: Seq<(String, Vec<(String, String)>)>) -> Seq<(Seq<char>, Seq<char>)>
    decreases t.len(),
{
    if t.len() == 0 {
        Seq::empty()
    } else {
        let prev = table_candidates(t.drop_last());
        match candidate_spec(strip_suffix(t.last().0@, "._unpeel-remote._tcp.local"@), t.last().1@) {
            Some(c) => prev.push(c),
            None => prev,
        }
    }
}

/// The candidates of the instances found by a browse pass.
pub fn candidates_from(table: &Vec<(String, Vec<(String, String)>)>) -> (r: Vec<NearbyHostCandidate>)
    ensures
        r@.map_values(|c: NearbyHostCandidate| (c.host_id@, c.name@)) == table_candidates(table@),
{
    let mut out: Vec<NearbyHostCandidate> = Vec::new();
    let mut i: usize = 0;
    assert(table@.subrange(0, 0) =~= Seq::<(String, Vec<(String, String)>)>::empty());
    while i < table.len()
        invariant
            i <= table@.len(),
            out@.map_values(|c: NearbyHostCandidate| (c.host_id@, c.name@)) == table_candidates(
                table@.subrange(0, i as int),
            ),
        decreases table@.len() - i,
    {
        let (full, txt) = &table[i];
        proof {
            assert(table@.subrange(0, i + 1).drop_last() =~= table@.subrange(0, i as int));
            assert(table@.subrange(0, i + 1).last() == table@[i as int]);
        }
        let name = instance_name(full.as_str());
        let ghost before = out@.map_values(|c: NearbyHostCandidate| (c.host_id@, c.name@));
        match candidate(name.as_str(), txt) {
            Some(c) => {
                let ghost cv = (c.host_id@, c.name@);
                out.push(c);
                assert(out@.map_values(|c: NearbyHostCandidate| (c.host_id@, c.name@)) =~= before.push(cv));
            },
            None => {},
        }
        i += 1;
    }
    assert(table@.subrange(0, table@.len() as int) =~= table@);
    out
}

/// Browser state.
#[derive(Clone, Debug, PartialEq, Eq)]
pub enum DiscoveryState {
    Idle,
    Searching,
    Unavailable(String),
}

/// Why a browse pass found nothing.
#[derive(Clone, Debug, PartialEq, Eq)]
pub enum DiscoveryError {
    /// The socket failed, with the system's message.
    Socket(String),
    /// No host answered in time.
    Timeout,
}

impl DiscoveryError {
    /// The text of an error.
    pub fn message(&self) -> (r: String)
        ensures
            r@ == match self {
                DiscoveryError::Socket(e) => "discovery socket: "@ + e@,
                DiscoveryError::Timeout => message_spec("discovery.discovery_timed_out"@),
            },
    {
        match self {
            DiscoveryError::Socket(e) => {
                let mut m = owned("discovery socket: ");
                push_str(&mut m, e.as_str());
                m
            },
            DiscoveryError::Timeout => t("discovery.discovery_timed_out"),
        }
    }
}

/// The outcome of a browse pass: a timeout when no instance answered,
/// else the candidates of what did (see [`candidates_from`]).
pub fn finish_browse(table: &Vec<(String, Vec<(String, String)>)>) -> (r: Result<Vec<NearbyHostCandidate>, DiscoveryError>)
    ensures
        table@.len() == 0 ==> r == Err::<Vec<NearbyHostCandidate>, DiscoveryError>(DiscoveryError::Timeout),
        table@.len() > 0 ==> (r matches Ok(v) && v@.map_values(|c: NearbyHostCandidate| (c.host_id@, c.name@))
            == table_candidates(table@)),
{
    if table.len() == 0 {
        Err(DiscoveryError::Timeout)
    } else {
        Ok(candidates_from(table))
    }
}

} // verus!
