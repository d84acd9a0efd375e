//! Terminal find over the visible rows of a terminal snapshot.
//!
//! Case-insensitive substring search (both sides lowercased), leftmost
//! non-overlapping matches in row-major order, with character offsets so a
//! renderer can split style runs at match boundaries. The counter reads ""
//! for an empty query, "No results" for none, "3 of 17" while a match is
//! selected, and "17" otherwise; next and previous wrap around.
use vstd::prelude::*;
use crate::text::{owned, chars_of, push_str, lowercase, to_lowercase, decimal, decimal_string};
use crate::i18n::{t, message_spec};

verus! {

broadcast use vstd::string::group_string_axioms;

/// One match: a row, and the character offset and length within the
/// row's (lowercased) text.
#[derive(Debug, Clone, Copy, PartialEq, Eq, Structural)]
pub struct FindMatch {
    pub row: usize,
    pub col: usize,
    pub len: usize,
}

/// `needle` occurs in `hay` at `k`.
pub open spec fn occurs_at(hay: Seq<char>, needle: Seq<char>, k: int) -> bool {
    0 <= k && k + needle.len() <= hay.len() && hay.subrange(k, k + needle.len()) == needle
}

/// The leftmost occurrence of `needle` in `hay` at or after `from`, or
/// `-1`.
pub open spec fn first_occurrence(hay: Seq<char>, needle: Seq<char>, from: int) -> int
    decreases hay.len() + 1 - from,
{
    if from < 0 || from + needle.len() > hay.len() {
        -1
    } else if occurs_at(hay, needle, from) {
        from
    } else {
        first_occurrence(hay, needle, from + 1)
    }
}

/// The columns of the leftmost non-overlapping occurrences of a non-empty
/// `needle` in `hay`, from `from` on.
pub open spec fn occurrences(hay: Seq<char>, needle: Seq<char>, from: int) -> Seq<int>
    decreases hay.len() - from,
{
    if needle.len() == 0 || from < 0 {
        Seq::empty()
    } else {
        let k = first_occurrence(hay, needle, from);
        if k < 0 || k < from || k + needle.len() > hay.len() {
            Seq::empty()
        } else {
            seq![k] + occurrences(hay, needle, k + needle.len())
        }
    }
}

/// The matches of a (lowercased) needle in one row.
pub open spec fn row_matches(row: int, hay: Seq<char>, needle: Seq<char>) -> Seq<FindMatch> {
    occurrences(hay, needle, 0).map_values(
        |c: int| FindMatch { row: row as usize, col: c as usize, len: needle.len() as usize },
    )
}

/// All matches of `query` in `rows`, row-major; none for an empty query.
pub open spec fn all_matches(rows: Seq<Seq<char>>, query: Seq<char>) -> Seq<FindMatch>
    decreases rows.len(),
{
    if query.len() == 0 || rows.len() == 0 {
        Seq::empty()
    } else {
        all_matches(rows.drop_last(), query) + row_matches(
            rows.len() - 1,
            lowercase(rows.last()),
            lowercase(query),
        )
    }
}

proof fn lemma_first_occurrence(hay: Seq<char>, needle: Seq<char>, from: int)
    requires
        from >= 0,
    ensures
        first_occurrence(hay, needle, from) == -1 || (from <= first_occurrence(hay, needle, from)
            && occurs_at(hay, needle, first_occurrence(hay, needle, from))),
        forall|j: int|
            from <= j && (first_occurrence(hay, needle, from) == -1 || j < first_occurrence(hay, needle, from))
                ==> !#[trigger] occurs_at(hay, needle, j),
    decreases hay.len() + 1 - from,
{
    if !(from < 0 || from + needle.len() > hay.len()) && !occurs_at(hay, needle, from) {
        lemma_first_occurrence(hay, needle, from + 1);
    }
}

/// Whether `needle` occurs in `hay` at `k`.
fn occurs_at_exec(hay: &Vec<char>, needle: &Vec<char>, k: usize) -> (r: bool)
    requires
        k + needle@.len() <= hay@.len(),
    ensures
        r == occurs_at(hay@, needle@, k as int),
{
    let mut j: usize = 0;
    let hl = hay.len();
    while j < needle.len()
        invariant
            j <= needle@.len(),
            k + needle@.len() <= hay@.len(),
            hl == hay@.len(),
            forall|m: int| 0 <= m < j ==> hay@[k + m] == needle@[m],
        decreases needle@.len() - j,
    {
        if hay[k + j] != needle[j] {
            assert(hay@.subrange(k as int, k + needle@.len())[j as int] != needle@[j as int]);
            return false;
        }
        j += 1;
    }
    assert(hay@.subrange(k as int, k + needle@.len()) =~= needle@);
    true
}

/// The matches in one row (see [`row_matches`]).
fn matches_in_row(row: usize, hay: &Vec<char>, needle: &Vec<char>, out: &mut Vec<FindMatch>)
    requires
        needle@.len() > 0,
    ensures
        final(out)@ == old(out)@ + row_matches(row as int, hay@, needle@),
{
    let ghost all = occurrences(hay@, needle@, 0);
    let ghost f = |c: int| FindMatch { row: row as usize, col: c as usize, len: needle@.len() as usize };
    let ghost base = out@;
    let mut from: usize = 0;
    let mut k: usize = 0;
    let ghost mut done: Seq<int> = Seq::empty();
    let n = needle.len();
    let hl = hay.len();
    while k <= hl && n <= hl - k
        invariant
            n == needle@.len(),
            hl == hay@.len(),
            needle@.len() > 0,
            from <= k,
            k <= hay@.len(),
            all == done + occurrences(hay@, needle@, from as int),
            first_occurrence(hay@, needle@, from as int) == first_occurrence(hay@, needle@, k as int),
            forall|j: int| from <= j < k ==> !#[trigger] occurs_at(hay@, needle@, j),
            out@ == base + done.map_values(f),
            f == (|c: int| FindMatch { row: row as usize, col: c as usize, len: needle@.len() as usize }),
        decreases hay@.len() - k,
    {
        if occurs_at_exec(hay, needle, k) {
            proof {
                lemma_first_occurrence(hay@, needle@, from as int);
                assert(first_occurrence(hay@, needle@, k as int) == k);
                assert(occurrences(hay@, needle@, from as int) == seq![k as int] + occurrences(
                    hay@,
                    needle@,
                    k + needle@.len(),
                ));
                assert(done.push(k as int).map_values(f) =~= done.map_values(f).push(f(k as int)));
                assert(done + occurrences(hay@, needle@, from as int) =~= done.push(k as int) + occurrences(
                    hay@,
                    needle@,
                    k + needle@.len(),
                ));
            }
            out.push(FindMatch { row, col: k, len: needle.len() });
            proof {
                done = done.push(k as int);
            }
            k = k + n;
            from = k;
        } else {
            proof {
                assert(first_occurrence(hay@, needle@, k as int) == first_occurrence(hay@, needle@, k + 1));
            }
            k += 1;
        }
    }
    proof {
        assert(first_occurrence(hay@, needle@, k as int) == -1);
        lemma_first_occurrence(hay@, needle@, from as int);
        assert(occurrences(hay@, needle@, from as int) =~= Seq::<int>::empty());
        assert(all =~= done);
    }
}

/// Case-insensitive, non-overlapping matches over the rows' text, in
/// row-major order (see [`all_matches`]). An empty query matches nothing.
pub fn find_matches(rows: &Vec<String>, query: &str) -> (r: Vec<FindMatch>)
    ensures
        r@ == all_matches(rows@.map_values(|s: String| s@), query@),
{
    let ghost rv = rows@.map_values(|s: String| s@);
    let mut out: Vec<FindMatch> = Vec::new();
    if chars_of(query).len() == 0 {
        proof {
            reveal_with_fuel(all_matches, 1);
        }
        return out;
    }
    let needle = chars_of(to_lowercase(query).as_str());
    let mut i: usize = 0;
    assert(rv.subrange(0, 0) =~= Seq::<Seq<char>>::empty());
    while i < rows.len()
        invariant
            i <= rows@.len(),
            query@.len() > 0,
            rv == rows@.map_values(|s: String| s@),
            needle@ == lowercase(query@),
            out@ == all_matches(rv.subrange(0, i as int), query@),
        decreases rows@.len() - i,
    {
        let hay = chars_of(to_lowercase(rows[i].as_str()).as_str());
        proof {
            assert(rv.subrange(0, i + 1).drop_last() =~= rv.subrange(0, i as int));
            assert(rv.subrange(0, i + 1).last() == rows@[i as int]@);
        }
        if needle.len() > 0 {
            matches_in_row(i, &hay, &needle, &mut out);
        } else {
            proof {
                assert(row_matches(i as int, hay@, needle@) =~= Seq::<FindMatch>::empty());
                assert(out@ =~= out@ + row_matches(i as int, hay@, needle@));
            }
        }
        i += 1;
    }
    assert(rv.subrange(0, rows@.len() as int) =~= rv);
    out
}

/// The counter label.
pub open spec fn counter_spec(query: Seq<char>, total: usize, selected: Option<usize>) -> Seq<char> {
    if query.len() == 0 {
        Seq::empty()
    } else if total == 0 {
        message_spec("find.no_results"@)
    } else {
        match selected {
            Some(i) => decimal((i + 1) as nat) + " of "@ + decimal(total as nat),
            None => decimal(total as nat),
        }
    }
}

/// The counter label (see [`counter_spec`]).
pub fn find_counter_text(query: &str, total: usize, selected: Option<usize>) -> (r: String)
    requires
        selected matches Some(i) ==> i < usize::MAX,
    ensures
        r@ == counter_spec(query@, total, selected),
{
    if chars_of(query).len() == 0 {
        return String::new();
    }
    if total == 0 {
        return t("find.no_results");
    }
    match selected {
        Some(i) => {
            let mut s = decimal_string((i + 1) as u64);
            push_str(&mut s, " of ");
            push_str(&mut s, decimal_string(total as u64).as_str());
            s
        },
        None => decimal_string(total as u64),
    }
}

/// What the terminal renderer needs: every match and the current one.
#[derive(Debug, Clone, PartialEq, Eq)]
pub struct FindHighlight {
    pub matches: Vec<FindMatch>,
    pub selected: Option<usize>,
}

/// The find session's state.
pub struct FindModel {
    pub query: Seq<char>,
    pub matches: Seq<FindMatch>,
    pub selected: Option<usize>,
}

/// The find session: query, its matches, and the selected one (always a
/// valid index, or none).
pub struct FindState {
    query: String,
    matches: Vec<FindMatch>,
    selected: Option<usize>,
}

impl FindState {
    #[verifier::type_invariant]
    spec fn selection_in_range(&self) -> bool {
        self.selected matches Some(i) ==> i < self.matches@.len()
    }
}

impl View for FindState {
    type V = FindModel;

    closed spec fn view(&self) -> FindModel {
        FindModel { query: self.query@, matches: self.matches@, selected: self.selected }
    }
}

/// The selection after a search: the first match, or none.
pub open spec fn first_selection(matches: Seq<FindMatch>) -> Option<usize> {
    if matches.len() == 0 {
        None
    } else {
        Some(0)
    }
}

/// The index of the first match at `(row, col)`, or `-1`.
pub open spec fn anchor_index(ms: Seq<FindMatch>, row: usize, col: usize) -> int
    decreases ms.len(),
{
    if ms.len() == 0 {
        -1
    } else if ms[0].row == row && ms[0].col == col {
        0
    } else {
        let r = anchor_index(ms.drop_first(), row, col);
        if r < 0 {
            -1
        } else {
            r + 1
        }
    }
}

proof fn lemma_anchor_index(ms: Seq<FindMatch>, row: usize, col: usize)
    ensures
        -1 <= anchor_index(ms, row, col) < ms.len(),
        anchor_index(ms, row, col) >= 0 ==> ms[anchor_index(ms, row, col)].row == row && ms[anchor_index(
            ms,
            row,
            col,
        )].col == col,
        forall|j: int|
            0 <= j < ms.len() && (anchor_index(ms, row, col) < 0 || j < anchor_index(ms, row, col)) ==> !(
            #[trigger] ms[j].row == row && ms[j].col == col),
    decreases ms.len(),
{
    if ms.len() > 0 && !(ms[0].row == row && ms[0].col == col) {
        lemma_anchor_index(ms.drop_first(), row, col);
        assert forall|j: int| 0 < j < ms.len() implies #[trigger] ms[j] == ms.drop_first()[j - 1] by {}
    }
}

impl FindState {
    /// No query, no matches.
    pub fn new() -> (r: Self)
        ensures
            r@.query.len() == 0,
            r@.matches.len() == 0,
            r@.selected is None,
    {
        FindState { query: String::new(), matches: Vec::new(), selected: None }
    }

    pub fn query(&self) -> (r: &str)
        ensures
            r@ == self@.query,
    {
        self.query.as_str()
    }

    pub fn matches(&self) -> (r: &[FindMatch])
        ensures
            r@ == self@.matches,
    {
        self.matches.as_slice()
    }

    pub fn selected(&self) -> (r: Option<usize>)
        ensures
            r == self@.selected,
            r matches Some(i) ==> i < self@.matches.len(),
    {
        proof {
            use_type_invariant(self);
        }
        self.selected
    }

    /// The selected match, if any.
    pub fn selected_match(&self) -> (r: Option<FindMatch>)
        ensures
            r == match self@.selected {
                Some(i) => Some(self@.matches[i as int]),
                None => None,
            },
    {
        proof {
            use_type_invariant(self);
        }
        match self.selected {
            Some(i) => Some(self.matches[i]),
            None => None,
        }
    }

    /// The counter label for the current state.
    pub fn counter_text(&self) -> (r: String)
        ensures
            r@ == counter_spec(self@.query, self@.matches.len() as usize, self@.selected),
    {
        proof {
            use_type_invariant(self);
        }
        find_counter_text(self.query.as_str(), self.matches.len(), self.selected)
    }

    /// A new query: search the rows and select the first match.
    pub fn set_query(&mut self, rows: &Vec<String>, query: String)
        ensures
            final(self)@.query == query@,
            final(self)@.matches == all_matches(rows@.map_values(|s: String| s@), query@),
            final(self)@.selected == first_selection(final(self)@.matches),
    {
        let matches = find_matches(rows, query.as_str());
        let selected = if matches.len() == 0 {
            None
        } else {
            Some(0)
        };
        *self = FindState { query, matches, selected };
    }

    /// Re-run the query over fresh rows: keep the selected match when one
    /// at the same row and column still exists, else select the first.
    pub fn refresh(&mut self, rows: &Vec<String>)
        ensures
            old(self)@.query.len() == 0 ==> final(self)@ == old(self)@,
            old(self)@.query.len() > 0 ==> ({
                let ms = all_matches(rows@.map_values(|s: String| s@), old(self)@.query);
                &&& final(self)@.query == old(self)@.query
                &&& final(self)@.matches == ms
                &&& final(self)@.selected == if ms.len() == 0 {
                    None
                } else {
                    match old(self)@.selected {
                        Some(i) => {
                            let a = old(self)@.matches[i as int];
                            let k = anchor_index(ms, a.row, a.col);
                            if k >= 0 {
                                Some(k as usize)
                            } else {
                                Some(0usize)
                            }
                        },
                        None => Some(0usize),
                    }
                }
            }),
    {
        proof {
            use_type_invariant(&*self);
        }
        if chars_of(self.query.as_str()).len() == 0 {
            return;
        }
        let anchor = self.selected_match();
        let matches = find_matches(rows, self.query.as_str());
        let selected = if matches.len() == 0 {
            None
        } else {
            match anchor {
                Some(a) => {
                    proof {
                        lemma_anchor_index(matches@, a.row, a.col);
                    }
                    let mut k: usize = 0;
                    let mut found: Option<usize> = None;
                    while k < matches.len() && found.is_none()
                        invariant
                            k <= matches@.len(),
                            -1 <= anchor_index(matches@, a.row, a.col) < matches@.len(),
                            anchor_index(matches@, a.row, a.col) >= 0 ==> matches@[anchor_index(
                                matches@,
                                a.row,
                                a.col,
                            )].row == a.row && matches@[anchor_index(matches@, a.row, a.col)].col == a.col,
                            forall|j: int|
                                0 <= j < matches@.len() && (anchor_index(matches@, a.row, a.col) < 0 || j
                                    < anchor_index(matches@, a.row, a.col)) ==> !(#[trigger] matches@[j].row
                                    == a.row && matches@[j].col == a.col),
                            found is None ==> forall|j: int|
                                0 <= j < k ==> !(#[trigger] matches@[j].row == a.row && matches@[j].col
                                    == a.col),
                            found matches Some(f) ==> f as int == anchor_index(matches@, a.row, a.col),
                        decreases matches@.len() - k, if found is None { 1int } else { 0int },
                    {
                        if matches[k].row == a.row && matches[k].col == a.col {
                            found = Some(k);
                        } else {
                            k += 1;
                        }
                    }
                    match found {
                        Some(f) => Some(f),
                        None => Some(0),
                    }
                },
                None => Some(0),
            }
        };
        let query = self.query.clone();
        *self = FindState { query, matches, selected };
    }

    /// Drop the query and its matches.
    pub fn clear(&mut self)
        ensures
            final(self)@.query.len() == 0,
            final(self)@.matches.len() == 0,
            final(self)@.selected is None,
    {
        *self = FindState::new();
    }

    /// Select the next match, wrapping; nothing to do without matches.
    pub fn next(&mut self)
        ensures
            final(self)@.query == old(self)@.query,
            final(self)@.matches == old(self)@.matches,
            final(self)@.selected == if old(self)@.matches.len() == 0 {
                old(self)@.selected
            } else {
                match old(self)@.selected {
                    Some(i) => Some(((i + 1) % (old(self)@.matches.len() as int)) as usize),
                    None => Some(0usize),
                }
            },
    {
        proof {
            use_type_invariant(&*self);
        }
        let n = self.matches.len();
        if n == 0 {
            return;
        }
        let next = match self.selected {
            Some(i) => (i + 1) % n,
            None => 0,
        };
        self.selected = Some(next);
    }

    /// Select the previous match, wrapping; nothing to do without matches.
    pub fn prev(&mut self)
        ensures
            final(self)@.query == old(self)@.query,
            final(self)@.matches == old(self)@.matches,
            final(self)@.selected == if old(self)@.matches.len() == 0 {
                old(self)@.selected
            } else {
                match old(self)@.selected {
                    Some(i) => Some(((i + old(self)@.matches.len() - 1) % (old(self)@.matches.len() as int)) as usize),
                    None => Some((old(self)@.matches.len() - 1) as usize),
                }
            },
    {
        proof {
            use_type_invariant(&*self);
        }
        let n = self.matches.len();
        if n == 0 {
            return;
        }
        let prev = match self.selected {
            Some(i) => if i == 0 {
                n - 1
            } else {
                i - 1
            },
            None => n - 1,
        };
        assert(self.selected matches Some(i) ==> prev == (i + n - 1) % (n as int)) by (nonlinear_arith)
            requires
                self.selected matches Some(i) ==> (i < n && prev == if i == 0 {
                    n - 1
                } else {
                    i - 1
                }),
                n > 0,
        ;
        self.selected = Some(prev);
    }

    /// The highlight payload: none without a query.
    pub fn highlight(&self) -> (r: Option<FindHighlight>)
        ensures
            self@.query.len() == 0 ==> r is None,
            self@.query.len() > 0 ==> (r matches Some(h) && h.matches@ == self@.matches && h.selected
                == self@.selected),
    {
        if chars_of(self.query.as_str()).len() == 0 {
            None
        } else {
            let mut ms: Vec<FindMatch> = Vec::new();
            let mut i: usize = 0;
            while i < self.matches.len()
                invariant
                    i <= self.matches@.len(),
                    ms@ == self.matches@.subrange(0, i as int),
                decreases self.matches@.len() - i,
            {
                ms.push(self.matches[i]);
                assert(ms@ =~= self.matches@.subrange(0, i + 1));
                i += 1;
            }
            assert(self.matches@.subrange(0, self.matches@.len() as int) =~= self.matches@);
            Some(FindHighlight { matches: ms, selected: self.selected })
        }
    }
}

/// Consecutive selections of `next` over the same matches come back to
/// the start after one lap.
pub proof fn lemma_next_wraps(i: usize, n: usize)
    requires
        0 < n,
        i < n,
    ensures
        (i + 1) % (n as int) < n,
        i == n - 1 ==> (i + 1) % (n as int) == 0,
{
    assert((i + 1) % (n as int) < n) by (nonlinear_arith)
        requires
            0 < n,
    ;
    if i == n - 1 {
        assert((i + 1) % (n as int) == 0) by (nonlinear_arith)
            requires
                i + 1 == n,
                0 < n,
        ;
    }
}

/// `x` clamped into `[lo, hi]`.
pub open spec fn clamp_int(x: int, lo: int, hi: int) -> int {
    if x < lo {
        lo
    } else if x > hi {
        hi
    } else {
        x
    }
}

/// The cut points of a run of `n` characters starting at `start`: its two
/// ends and each range's ends clipped to the run (ranges that clip to
/// nothing add none).
pub open spec fn cut_set(start: int, n: int, ranges: Seq<(usize, usize, bool)>) -> Set<int> {
    cuts_upto(start, n, ranges, ranges.len() as int)
}

/// `c` is an end of range `r` clipped to the run, when that clip is not
/// empty.
pub open spec fn adds_cut(r: (usize, usize, bool), start: int, n: int, c: int) -> bool {
    let cs = clamp_int(r.0 as int, start, start + n) - start;
    let ce = clamp_int(r.1 as int, start, start + n) - start;
    cs < ce && (c == cs || c == ce)
}

/// The cut points from the run's ends and the first `k` ranges.
pub open spec fn cuts_upto(start: int, n: int, ranges: Seq<(usize, usize, bool)>, k: int) -> Set<int> {
    Set::new(
        |c: int|
            c == 0 || c == n || exists|i: int| 0 <= i < k && #[trigger] adds_cut(ranges[i], start, n, c),
    )
}

/// The current-flag of the first range containing `x`, if any.
pub open spec fn range_flag(ranges: Seq<(usize, usize, bool)>, x: int) -> Option<bool>
    decreases ranges.len(),
{
    if ranges.len() == 0 {
        None
    } else if ranges[0].0 <= x < ranges[0].1 {
        Some(ranges[0].2)
    } else {
        range_flag(ranges.drop_first(), x)
    }
}

/// `c` is strictly increasing.
pub open spec fn increasing(c: Seq<int>) -> bool {
    forall|i: int, j: int| 0 <= i < j < c.len() ==> c[i] < c[j]
}

/// The text segments of a run cut at `cuts`, each flagged by the range
/// containing its start.
pub open spec fn segments(
    text: Seq<char>,
    start: int,
    cuts: Seq<int>,
    ranges: Seq<(usize, usize, bool)>,
) -> Seq<(Seq<char>, Option<bool>)> {
    Seq::new(
        (cuts.len() - 1) as nat,
        |i: int| (text.subrange(cuts[i], cuts[i + 1]), range_flag(ranges, start + cuts[i])),
    )
}

/// The first range containing `x` (see [`range_flag`]).
fn flag_at(ranges: &[(usize, usize, bool)], x: usize) -> (r: Option<bool>)
    ensures
        r == range_flag(ranges@, x as int),
{
    let mut i: usize = 0;
    assert(ranges@.skip(0) =~= ranges@);
    while i < ranges.len()
        invariant
            i <= ranges@.len(),
            range_flag(ranges@, x as int) == range_flag(ranges@.skip(i as int), x as int),
        decreases ranges@.len() - i,
    {
        proof {
            assert(ranges@.skip(i as int).drop_first() =~= ranges@.skip(i + 1));
            assert(ranges@.skip(i as int)[0] == ranges@[i as int]);
        }
        let (s, e, cur) = ranges[i];
        if s <= x && x < e {
            return Some(cur);
        }
        i += 1;
    }
    None
}

/// Insert `c` into the strictly increasing `cuts`, unless present.
fn insert_cut(cuts: &mut Vec<usize>, c: usize)
    requires
        increasing(old(cuts)@.map_values(|x: usize| x as int)),
    ensures
        increasing(final(cuts)@.map_values(|x: usize| x as int)),
        final(cuts)@.map_values(|x: usize| x as int).to_set() == old(cuts)@.map_values(|x: usize| x as int).to_set().insert(
            c as int,
        ),
{
    let ghost before = cuts@.map_values(|x: usize| x as int);
    let mut p: usize = 0;
    while p < cuts.len() && cuts[p] < c
        invariant
            p <= cuts@.len(),
            forall|q: int| 0 <= q < p ==> cuts@[q] < c,
        decreases cuts@.len() - p,
    {
        p += 1;
    }
    if p < cuts.len() && cuts[p] == c {
        proof {
            assert(before[p as int] == c);
            assert(before.to_set().insert(c as int) =~= before.to_set());
        }
        return;
    }
    cuts.insert(p, c);
    proof {
        let now = cuts@.map_values(|x: usize| x as int);
        assert(now =~= before.insert(p as int, c as int));
        assert forall|i: int, j: int| 0 <= i < j < now.len() implies now[i] < now[j] by {
            if j == p {
                assert(now[i] == before[i]);
            } else if i == p {
                assert(now[j] == before[j - 1]);
                assert(before[p as int] > c);
                if j - 1 > p {
                    assert(before[p as int] < before[j - 1]);
                }
            } else if i < p && j > p {
                assert(now[i] == before[i] && now[j] == before[j - 1]);
            } else if j < p {
                assert(now[i] == before[i] && now[j] == before[j]);
            } else {
                assert(now[i] == before[i - 1] && now[j] == before[j - 1]);
            }
        }
        assert forall|x: int| now.to_set().contains(x) == before.to_set().insert(c as int).contains(x) by {
            if now.to_set().contains(x) {
                let k = choose|k: int| 0 <= k < now.len() && now[k] == x;
                if k < p {
                    assert(before[k] == x);
                } else if k > p {
                    assert(before[k - 1] == x);
                }
            }
            if before.to_set().contains(x) {
                let k = choose|k: int| 0 <= k < before.len() && before[k] == x;
                if k < p {
                    assert(now[k] == x);
                } else {
                    assert(now[k + 1] == x);
                }
            }
            if x == c {
                assert(now[p as int] == x);
            }
        }
        assert(now.to_set() =~= before.to_set().insert(c as int));
    }
}

/// Split one run's text at match boundaries: `(segment, flag)` pieces,
/// the flag `Some(is_current)` for a match and `None` for plain text.
/// `run_start` is the run's character offset in its row; `ranges` are
/// `(start, end, is_current)` character ranges in the row.
pub fn split_run_for_find(run_text: &str, run_start: usize, ranges: &[(usize, usize, bool)]) -> (r: Vec<
    (String, Option<bool>),
>)
    requires
        run_start + run_text@.len() <= usize::MAX,
    ensures
        run_text@.len() == 0 || ranges@.len() == 0 ==> (r@.len() == 1 && r@[0].0@ == run_text@
            && r@[0].1 is None),
        run_text@.len() > 0 && ranges@.len() > 0 ==> exists|cuts: Seq<int>|
            {
                &&& increasing(cuts)
                &&& cuts.to_set() == cut_set(run_start as int, run_text@.len() as int, ranges@)
                &&& r@.map_values(|x: (String, Option<bool>)| (x.0@, x.1)) == segments(
                    run_text@,
                    run_start as int,
                    cuts,
                    ranges@,
                )
            },
{
    let chars = chars_of(run_text);
    let n = chars.len();
    if n == 0 || ranges.len() == 0 {
        let mut out: Vec<(String, Option<bool>)> = Vec::new();
        out.push((owned(run_text), None));
        return out;
    }
    let run_end = run_start + n;
    let ghost cset = cut_set(run_start as int, n as int, ranges@);
    let mut cuts: Vec<usize> = Vec::new();
    cuts.push(0);
    assert(increasing(cuts@.map_values(|x: usize| x as int)));
    proof {
        let one = cuts@.map_values(|x: usize| x as int);
        assert(one =~= seq![0int]);
        assert forall|c: int| one.to_set().contains(c) == (c == 0) by {
            if c == 0 {
                assert(one[0] == c);
            }
        }
    }
    insert_cut(&mut cuts, n);
    assert(cuts@.map_values(|x: usize| x as int).to_set() =~= cuts_upto(run_start as int, n as int, ranges@, 0));
    let mut i: usize = 0;
    while i < ranges.len()
        invariant
            i <= ranges@.len(),
            n == chars@.len(),
            n > 0,
            run_end == run_start + n,
            cset == cut_set(run_start as int, n as int, ranges@),
            increasing(cuts@.map_values(|x: usize| x as int)),
            cuts@.map_values(|x: usize| x as int).to_set() == cuts_upto(run_start as int, n as int, ranges@, i as int),
        decreases ranges@.len() - i,
    {
        let (s, e, _) = ranges[i];
        let cs = (if s < run_start {
            run_start
        } else if s > run_end {
            run_end
        } else {
            s
        }) - run_start;
        let ce = (if e < run_start {
            run_start
        } else if e > run_end {
            run_end
        } else {
            e
        }) - run_start;
        let ghost before = cuts@.map_values(|x: usize| x as int).to_set();
        if cs < ce {
            insert_cut(&mut cuts, cs);
            insert_cut(&mut cuts, ce);
        }
        proof {
            let after = cuts@.map_values(|x: usize| x as int).to_set();
            let r = ranges@[i as int];
            assert(r == (s, e, r.2));
            assert forall|c: int| after.contains(c) == cuts_upto(run_start as int, n as int, ranges@, i + 1).contains(c) by {
                if adds_cut(r, run_start as int, n as int, c) {
                    assert(cuts_upto(run_start as int, n as int, ranges@, i + 1).contains(c));
                }
                if exists|k: int| 0 <= k < i + 1 && #[trigger] adds_cut(ranges@[k], run_start as int, n as int, c) {
                    let k = choose|k: int| 0 <= k < i + 1 && #[trigger] adds_cut(ranges@[k], run_start as int, n as int, c);
                    if k < i {
                        assert(cuts_upto(run_start as int, n as int, ranges@, i as int).contains(c));
                    }
                }
            }
            assert(after =~= cuts_upto(run_start as int, n as int, ranges@, i + 1));
        }
        i += 1;
    }
    let ghost cv = cuts@.map_values(|x: usize| x as int);
    assert(cv.to_set() =~= cset);
    proof {
        assert forall|q: int| 0 <= q < cv.len() implies 0 <= #[trigger] cv[q] <= n by {
            assert(cv.to_set().contains(cv[q]));
            assert(cset.contains(cv[q]));
            if cv[q] != 0 && cv[q] != n {
                let k = choose|k: int| 0 <= k < ranges@.len() && #[trigger] adds_cut(ranges@[k], run_start as int, n as int, cv[q]);
            }
        }
        assert(cset.contains(0));
        assert(cv.to_set().contains(n as int));
        assert(cv.to_set().contains(0));
        let k0 = choose|k: int| 0 <= k < cv.len() && cv[k] == 0;
        let kn = choose|k: int| 0 <= k < cv.len() && cv[k] == n;
        assert(k0 != kn);
    }
    let mut out: Vec<(String, Option<bool>)> = Vec::new();
    let mut w: usize = 0;
    let last = cuts.len() - 1;
    while w < last
        invariant
            last == cuts@.len() - 1,
            w <= last,
            cv == cuts@.map_values(|x: usize| x as int),
            increasing(cv),
            cv.to_set() == cset,
            n == chars@.len(),
            chars@ == run_text@,
            run_start + n <= usize::MAX,
            forall|q: int| 0 <= q < cv.len() ==> 0 <= #[trigger] cv[q] <= n,
            out@.map_values(|x: (String, Option<bool>)| (x.0@, x.1)) == segments(
                run_text@,
                run_start as int,
                cv,
                ranges@,
            ).subrange(0, w as int),
            cuts@.len() >= 2,
        decreases cuts@.len() - w,
    {
        let a = cuts[w];
        let b = cuts[w + 1];
        assert(cv[w as int] < cv[w + 1]);
        let seg = crate::text::string_from_chars(&chars, a, b);
        let hl = flag_at(ranges, run_start + a);
        assert(segments(run_text@, run_start as int, cv, ranges@)[w as int] == (seg@, hl));
        let ghost before = out@.map_values(|x: (String, Option<bool>)| (x.0@, x.1));
        let ghost sv = seg@;
        out.push((seg, hl));
        proof {
            let segs = segments(run_text@, run_start as int, cv, ranges@);
            assert(out@.map_values(|x: (String, Option<bool>)| (x.0@, x.1)) =~= before.push((sv, hl)));
            assert(segs.subrange(0, w + 1) =~= segs.subrange(0, w as int).push(segs[w as int]));
            assert(out@.map_values(|x: (String, Option<bool>)| (x.0@, x.1)) =~= segments(
                run_text@,
                run_start as int,
                cv,
                ranges@,
            ).subrange(0, w + 1));
        }
        w += 1;
    }
    assert(segments(run_text@, run_start as int, cv, ranges@).subrange(0, w as int) =~= segments(
        run_text@,
        run_start as int,
        cv,
        ranges@,
    ));
    out
}


/// A key pressed in the find field, as far as the bar reads it.
#[derive(Debug, Clone, Copy, PartialEq, Eq, Structural)]
pub enum FindBarKey {
    Enter,
    Escape,
    Other,
}

/// What a key in the find field asks for.
#[derive(Debug, Clone, Copy, PartialEq, Eq, Structural)]
pub enum FindBarCommand {
    Next,
    Prev,
    Close,
}

/// Enter goes to the next match (Shift+Enter to the previous one), Escape
/// closes the bar; other keys edit the query.
pub fn find_bar_key(key: FindBarKey, shift: bool) -> (r: Option<FindBarCommand>)
    ensures
        r == match key {
            FindBarKey::Enter => Some(
                if shift {
                    FindBarCommand::Prev
                } else {
                    FindBarCommand::Next
                },
            ),
            FindBarKey::Escape => Some(FindBarCommand::Close),
            FindBarKey::Other => None,
        },
{
    match key {
        FindBarKey::Enter => Some(
            if shift {
                FindBarCommand::Prev
            } else {
                FindBarCommand::Next
            },
        ),
        FindBarKey::Escape => Some(FindBarCommand::Close),
        FindBarKey::Other => None,
    }
}

/// The columns [`occurrences`] gives are occurrences at or after `from`,
/// and every occurrence at or after `from` overlaps one of them.
#[verifier::rlimit(50)]
#[verifier::spinoff_prover]
proof fn lemma_occurrences(hay: Seq<char>, needle: Seq<char>, from: int)
    requires
        needle.len() > 0,
        from >= 0,
    ensures
        forall|j: int|
            0 <= j < occurrences(hay, needle, from).len() ==> from <= #[trigger] occurrences(hay, needle, from)[j]
                && occurs_at(hay, needle, occurrences(hay, needle, from)[j]),
        forall|k: int|
            from <= k && #[trigger] occurs_at(hay, needle, k) ==> exists|j: int|
                0 <= j < occurrences(hay, needle, from).len() && occurrences(hay, needle, from)[j] <= k
                    < #[trigger] occurrences(hay, needle, from)[j] + needle.len(),
    decreases hay.len() - from,
{
    lemma_first_occurrence(hay, needle, from);
    let f = first_occurrence(hay, needle, from);
    let occ = occurrences(hay, needle, from);
    if f >= 0 {
        let next = f + needle.len();
        lemma_occurrences(hay, needle, next);
        let rest = occurrences(hay, needle, next);
        assert(occ == seq![f] + rest);
        assert forall|j: int| 0 <= j < occ.len() implies from <= #[trigger] occ[j] && occurs_at(hay, needle, occ[j]) by {
            if j > 0 {
                assert(occ[j] == rest[j - 1]);
            }
        }
        assert forall|k: int| from <= k && #[trigger] occurs_at(hay, needle, k) implies exists|j: int|
            0 <= j < occ.len() && occ[j] <= k < #[trigger] occ[j] + needle.len() by {
            if k < f {
            } else if k < next {
                assert(occ[0] == f);
            } else {
                let j2 = choose|j2: int| 0 <= j2 < rest.len() && rest[j2] <= k < #[trigger] rest[j2] + needle.len();
                assert(occ[j2 + 1] == rest[j2]);
            }
        }
    } else {
        assert(occ == Seq::<int>::empty());
    }
}

/// Find is case-insensitive on both sides: for a non-empty query, every
/// match is an occurrence of the lowercased query in its lowercased row,
/// with the query's lowercased length; and every such occurrence overlaps
/// a match in its row, so nothing is missed.
pub proof fn lemma_matches_are_lowercase_occurrences(rows: Seq<Seq<char>>, query: Seq<char>)
    requires
        query.len() > 0,
        lowercase(query).len() > 0,
        lowercase(query).len() <= usize::MAX,
        rows.len() <= usize::MAX,
        forall|r: int| 0 <= r < rows.len() ==> (#[trigger] lowercase(rows[r])).len() <= usize::MAX,
    ensures
        forall|i: int|
            0 <= i < all_matches(rows, query).len() ==> {
                let m = #[trigger] all_matches(rows, query)[i];
                &&& m.row < rows.len()
                &&& m.len == lowercase(query).len()
                &&& occurs_at(lowercase(rows[m.row as int]), lowercase(query), m.col as int)
            },
        forall|r: int, k: int|
            0 <= r < rows.len() && #[trigger] occurs_at(lowercase(rows[r]), lowercase(query), k) ==> exists|i: int|
                0 <= i < all_matches(rows, query).len() && (#[trigger] all_matches(rows, query)[i]).row == r
                    && all_matches(rows, query)[i].col <= k < all_matches(rows, query)[i].col
                    + all_matches(rows, query)[i].len,
    decreases rows.len(),
{
    let ms = all_matches(rows, query);
    let needle = lowercase(query);
    if rows.len() > 0 {
        let prev_rows = rows.drop_last();
        let last = rows.len() - 1;
        let hay = lowercase(rows.last());
        assert forall|r: int| 0 <= r < prev_rows.len() implies (#[trigger] lowercase(prev_rows[r])).len() <= usize::MAX by {
            assert(prev_rows[r] == rows[r]);
        }
        lemma_matches_are_lowercase_occurrences(prev_rows, query);
        let prev = all_matches(prev_rows, query);
        let occ = occurrences(hay, needle, 0);
        lemma_occurrences(hay, needle, 0);
        let here = row_matches(last, hay, needle);
        assert(ms == prev + here);
        assert(hay == lowercase(rows[last]));
        assert forall|i: int| 0 <= i < ms.len() implies {
            let m = #[trigger] ms[i];
            &&& m.row < rows.len()
            &&& m.len == needle.len()
            &&& occurs_at(lowercase(rows[m.row as int]), needle, m.col as int)
        } by {
            if i < prev.len() {
                assert(ms[i] == prev[i]);
                assert(rows[prev[i].row as int] == prev_rows[prev[i].row as int]);
            } else {
                let c = occ[i - prev.len()];
                assert(ms[i] == here[i - prev.len()]);
                assert(occurs_at(hay, needle, c));
                assert(here[i - prev.len()] == FindMatch { row: last as usize, col: c as usize, len: needle.len() as usize });
            }
        }
        assert forall|r: int, k: int|
            0 <= r < rows.len() && #[trigger] occurs_at(lowercase(rows[r]), needle, k) implies exists|i: int|
                0 <= i < ms.len() && (#[trigger] ms[i]).row == r && ms[i].col <= k < ms[i].col + ms[i].len by {
            if r < last {
                assert(prev_rows[r] == rows[r]);
                let i0 = choose|i0: int|
                    0 <= i0 < prev.len() && (#[trigger] prev[i0]).row == r && prev[i0].col <= k < prev[i0].col + prev[i0].len;
                assert(ms[i0] == prev[i0]);
            } else {
                assert(occurs_at(hay, needle, k));
                let j = choose|j: int| 0 <= j < occ.len() && occ[j] <= k < #[trigger] occ[j] + needle.len();
                assert(0 <= occ[j] && occ[j] < hay.len());
                assert(ms[prev.len() + j] == here[j]);
                assert(here[j] == FindMatch { row: last as usize, col: occ[j] as usize, len: needle.len() as usize });
            }
        }
    }
}

} // verus!
