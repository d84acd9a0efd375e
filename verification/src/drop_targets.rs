//! Terminal file-drop targets and path drag maps.
//!
//! A hosted terminal app publishes short-lived rectangles of terminal cells
//! that accept file and folder drops, and a short-lived map from visible
//! grid rows to host-local paths. Both maps are presentation-only and are
//! trusted only while fresh: version 1, a live process id, and an update
//! time within the age and future-skew windows (with wrapping bounds).
use vstd::prelude::*;
use crate::text::{chars_of, push_char};

verus! {

/// A rectangle of terminal cells, rows `[screen_row, end_row)` by columns
/// `[start_column, end_column)`.
#[derive(Clone, Debug, PartialEq, Eq, Structural)]
pub struct DropTargetRegion {
    pub screen_row: i64,
    pub start_column: i64,
    pub end_row: i64,
    pub end_column: i64,
}

impl DropTargetRegion {
    pub open spec fn contains_spec(self, row: i64, column: i64) -> bool {
        row >= self.screen_row && row < self.end_row && column >= self.start_column && column
            < self.end_column
    }

    /// Whether the cell lies in the region (end row and column exclusive).
    pub fn contains(&self, row: i64, column: i64) -> (r: bool)
        ensures
            r == self.contains_spec(row, column),
    {
        row >= self.screen_row && row < self.end_row && column >= self.start_column && column
            < self.end_column
    }
}

/// Which terminal cells accept file and folder drops right now.
#[derive(Clone, Debug, PartialEq, Eq)]
pub struct DropTargetMap {
    pub version: i64,
    pub process_id: i32,
    pub updated_at: u64,
    pub regions: Vec<DropTargetRegion>,
}

/// A map published at `updated_at` is fresh at `now_ms`: version 1, a
/// positive process id, not later than the future-skew window past now,
/// and now not later than the age window past it (both bounds wrapping).
pub open spec fn fresh(version: i64, process_id: i32, updated_at: u64, now_ms: u64) -> bool {
    &&& version == 1
    &&& process_id > 0
    &&& updated_at <= now_ms.wrapping_add(5000)
    &&& now_ms <= updated_at.wrapping_add(5000)
}

fn is_fresh(version: i64, process_id: i32, updated_at: u64, now_ms: u64) -> (r: bool)
    ensures
        r == fresh(version, process_id, updated_at, now_ms),
{
    if version != 1 || process_id <= 0 {
        return false;
    }
    if updated_at > now_ms.wrapping_add(DropTargetMap::MAXIMUM_FUTURE_SKEW_MS) {
        return false;
    }
    if now_ms > updated_at.wrapping_add(DropTargetMap::MAXIMUM_AGE_MS) {
        return false;
    }
    true
}

impl DropTargetMap {
    pub const FILENAME: &'static str = "terminal-drop-target-map.json";
    pub const EVENT_FILENAME: &'static str = "terminal-drop-target-event.json";
    pub const MAXIMUM_BYTES: u64 = 65536;
    pub const MAXIMUM_AGE_MS: u64 = 5000;
    pub const MAXIMUM_FUTURE_SKEW_MS: u64 = 5000;

    /// Whether a drop at `(row, column)` is accepted at `now_ms`: the map
    /// is fresh and some region contains the cell.
    pub fn accepts(&self, row: i64, column: i64, now_ms: u64) -> (r: bool)
        ensures
            r == (fresh(self.version, self.process_id, self.updated_at, now_ms) && exists|i: int|
                0 <= i < self.regions@.len() && (#[trigger] self.regions@[i]).contains_spec(
                    row,
                    column,
                )),
    {
        if !is_fresh(self.version, self.process_id, self.updated_at, now_ms) {
            return false;
        }
        let mut i: usize = 0;
        while i < self.regions.len()
            invariant
                fresh(self.version, self.process_id, self.updated_at, now_ms),
                i <= self.regions@.len(),
                forall|j: int| 0 <= j < i ==> !(#[trigger] self.regions@[j]).contains_spec(row, column),
            decreases self.regions@.len() - i,
        {
            if self.regions[i].contains(row, column) {
                assert(self.regions@[i as int].contains_spec(row, column));
                return true;
            }
            i += 1;
        }
        false
    }

    /// Whether a map of `len` bytes is small enough to read.
    pub fn admits_size(len: usize) -> (r: bool)
        ensures
            r == (len <= 65536),
    {
        len as u64 <= DropTargetMap::MAXIMUM_BYTES
    }
}

/// A drop event written back so the hosted app can move its caret or
/// scroll while a drag is in flight.
#[derive(Clone, Debug, PartialEq, Eq)]
pub struct DropTargetEvent {
    pub version: i64,
    pub event_id: String,
    pub updated_at: u64,
    pub kind: DropTargetEventKind,
    pub screen_row: Option<i64>,
    pub column: Option<i64>,
    pub text: Option<String>,
    pub references: Option<Vec<String>>,
}

#[derive(Clone, Copy, Debug, PartialEq, Eq, Structural)]
pub enum DropTargetEventKind {
    Hover,
    Leave,
    Drop,
}

/// An encoded event of `len` bytes may be written (at most 1 MiB).
pub fn event_size_ok(len: usize) -> (r: bool)
    ensures
        r == (len <= 1048576),
{
    len <= 1048576
}

/// A visible grid row span and the host-local path shown there.
#[derive(Clone, Debug, PartialEq, Eq)]
pub struct PathDragRow {
    pub screen_row: i64,
    pub start_column: i64,
    pub end_column: i64,
    pub path: String,
}

/// Visible grid rows mapped to host-local paths.
#[derive(Clone, Debug, PartialEq, Eq)]
pub struct PathDragMap {
    pub version: i64,
    pub process_id: i32,
    pub updated_at: u64,
    pub rows: Vec<PathDragRow>,
}

/// The row matches a drag starting at `(row, column)`.
pub open spec fn row_matches(r: PathDragRow, row: i64, column: i64) -> bool {
    r.screen_row == row && column >= r.start_column && column < r.end_column
}

/// Index of the first row matching `(row, column)`, or `-1`.
pub open spec fn first_match(rows: Seq<PathDragRow>, row: i64, column: i64) -> int
    decreases rows.len(),
{
    if rows.len() == 0 {
        -1
    } else if row_matches(rows[0], row, column) {
        0
    } else {
        let r = first_match(rows.drop_first(), row, column);
        if r < 0 {
            -1
        } else {
            r + 1
        }
    }
}

proof fn lemma_first_match(rows: Seq<PathDragRow>, row: i64, column: i64)
    ensures
        -1 <= first_match(rows, row, column) < rows.len(),
        first_match(rows, row, column) >= 0 ==> row_matches(rows[first_match(rows, row, column)], row, column),
        forall|j: int|
            0 <= j < rows.len() && (first_match(rows, row, column) < 0 || j < first_match(rows, row, column))
                ==> !row_matches(#[trigger] rows[j], row, column),
    decreases rows.len(),
{
    if rows.len() > 0 && !row_matches(rows[0], row, column) {
        lemma_first_match(rows.drop_first(), row, column);
        assert forall|j: int| 0 < j < rows.len() implies #[trigger] rows[j] == rows.drop_first()[j - 1] by {}
    }
}

/// Apply one path segment: empty and `.` segments are skipped, `..` drops
/// the last kept segment (none above the root), others are kept.
pub open spec fn apply_segment(stack: Seq<Seq<char>>, seg: Seq<char>) -> Seq<Seq<char>> {
    if seg.len() == 0 || seg == seq!['.'] {
        stack
    } else if seg == seq!['.', '.'] {
        if stack.len() > 0 {
            stack.drop_last()
        } else {
            stack
        }
    } else {
        stack.push(seg)
    }
}

/// Walk the characters of a path: the kept segments so far and the
/// segment being read.
pub open spec fn walk_path(p: Seq<char>) -> (Seq<Seq<char>>, Seq<char>)
    decreases p.len(),
{
    if p.len() == 0 {
        (Seq::empty(), Seq::empty())
    } else {
        let prev = walk_path(p.drop_last());
        if p.last() == '/' {
            (apply_segment(prev.0, prev.1), Seq::empty())
        } else {
            (prev.0, prev.1.push(p.last()))
        }
    }
}

/// The kept segments of a path.
pub open spec fn path_segments(p: Seq<char>) -> Seq<Seq<char>> {
    apply_segment(walk_path(p).0, walk_path(p).1)
}

/// `lead` followed by the segments joined with `/`.
pub open spec fn joined_from(lead: Seq<char>, segs: Seq<Seq<char>>) -> Seq<char>
    decreases segs.len(),
{
    if segs.len() == 0 {
        lead
    } else if segs.len() == 1 {
        lead + segs[0]
    } else {
        joined_from(lead, segs.drop_last()) + seq!['/'] + segs.last()
    }
}

/// A path is absolute when it starts at the root.
pub open spec fn is_absolute(p: Seq<char>) -> bool {
    p.len() > 0 && p[0] == '/'
}

/// Lexical normalization of a path, without touching the filesystem: `.`
/// and empty segments dropped, `..` removing the segment before it (never
/// above the root, and nothing when there is none); an absolute path stays
/// rooted at `/`, a relative one stays relative.
pub open spec fn normalized(p: Seq<char>) -> Seq<char> {
    joined_from(if is_absolute(p) { seq!['/'] } else { Seq::empty() }, path_segments(p))
}

/// Lexical normalization of a path (see [`normalized`]).
pub fn lexically_normalize(path: &str) -> (r: String)
    ensures
        r@ == normalized(path@),
{
    let v = chars_of(path);
    let mut stack: Vec<Vec<char>> = Vec::new();
    let mut cur: Vec<char> = Vec::new();
    let mut i: usize = 0;
    assert(v@.subrange(0, 0) =~= Seq::<char>::empty());
    while i < v.len()
        invariant
            i <= v.len(),
            v@ == path@,
            walk_path(v@.subrange(0, i as int)) == (stack@.map_values(|s: Vec<char>| s@), cur@),
        decreases v.len() - i,
    {
        let c = v[i];
        proof {
            assert(v@.subrange(0, i + 1).drop_last() =~= v@.subrange(0, i as int));
        }
        let ghost before = stack@.map_values(|s: Vec<char>| s@);
        if c == '/' {
            apply_segment_exec(&mut stack, cur);
            cur = Vec::new();
        } else {
            cur.push(c);
        }
        i += 1;
    }
    assert(v@.subrange(0, v.len() as int) =~= v@);
    apply_segment_exec(&mut stack, cur);
    let mut out = String::new();
    let absolute = v.len() > 0 && v[0] == '/';
    if absolute {
        push_char(&mut out, '/');
    }
    let ghost lead = out@;
    assert(lead == (if is_absolute(path@) { seq!['/'] } else { Seq::<char>::empty() }));
    let mut k: usize = 0;
    while k < stack.len()
        invariant
            k <= stack@.len(),
            lead == (if is_absolute(path@) { seq!['/'] } else { Seq::<char>::empty() }),
            out@ == joined_from(lead, stack@.map_values(|s: Vec<char>| s@).subrange(0, k as int)),
        decreases stack@.len() - k,
    {
        let ghost segs = stack@.map_values(|s: Vec<char>| s@);
        let seg = &stack[k];
        if k > 0 {
            push_char(&mut out, '/');
        }
        let mut j: usize = 0;
        let ghost base = out@;
        while j < seg.len()
            invariant
                j <= seg@.len(),
                out@ == base + seg@.subrange(0, j as int),
            decreases seg@.len() - j,
        {
            push_char(&mut out, seg[j]);
            assert(out@ =~= base + seg@.subrange(0, j + 1));
            j += 1;
        }
        proof {
            assert(seg@.subrange(0, seg@.len() as int) =~= seg@);
            assert(segs.subrange(0, k + 1).drop_last() =~= segs.subrange(0, k as int));
            assert(segs.subrange(0, k + 1).last() == seg@);
            if k == 0 {
                assert(out@ =~= lead + seg@);
                assert(segs.subrange(0, 1)[0] == seg@);
            }
        }
        k += 1;
    }
    proof {
        let segs = stack@.map_values(|s: Vec<char>| s@);
        assert(segs.subrange(0, stack@.len() as int) =~= segs);
    }
    out
}

/// Apply one segment to the kept segments (see [`apply_segment`]).
fn apply_segment_exec(stack: &mut Vec<Vec<char>>, seg: Vec<char>)
    ensures
        final(stack)@.map_values(|s: Vec<char>| s@) == apply_segment(
            old(stack)@.map_values(|s: Vec<char>| s@),
            seg@,
        ),
{
    let ghost before = stack@.map_values(|s: Vec<char>| s@);
    if seg.len() == 0 {
        return;
    }
    if seg.len() == 1 && seg[0] == '.' {
        assert(seg@ =~= seq!['.']);
        return;
    }
    if seg.len() == 2 && seg[0] == '.' && seg[1] == '.' {
        assert(seg@ =~= seq!['.', '.']);
        if stack.len() > 0 {
            stack.pop();
            assert(stack@.map_values(|s: Vec<char>| s@) =~= before.drop_last());
        }
        return;
    }
    assert(seg@ != seq!['.']) by {
        if seg@ == seq!['.'] {
            assert(seg@.len() == 1);
        }
    }
    assert(seg@ != seq!['.', '.']) by {
        if seg@ == seq!['.', '.'] {
            assert(seg@.len() == 2 && seg@[0] == '.' && seg@[1] == '.');
        }
    }
    let ghost sv = seg@;
    stack.push(seg);
    assert(stack@.map_values(|s: Vec<char>| s@) =~= before.push(sv));
}

impl PathDragMap {
    pub const FILENAME: &'static str = "terminal-drag-map.json";
    pub const MAXIMUM_BYTES: u64 = 65536;
    pub const MAXIMUM_AGE_MS: u64 = 5000;
    pub const MAXIMUM_FUTURE_SKEW_MS: u64 = 5000;

    /// Whether a map of `len` bytes is small enough to read.
    pub fn admits_size(len: usize) -> (r: bool)
        ensures
            r == (len <= 65536),
    {
        len as u64 <= PathDragMap::MAXIMUM_BYTES
    }

    /// The host-local path for a drag starting at `(row, column)`: when
    /// the map is fresh and the first row matching the cell holds an
    /// absolute path, that path lexically normalized; else `None`.
    pub fn path_at(&self, row: i64, column: i64, now_ms: u64) -> (r: Option<String>)
        ensures
            ({
                let k = first_match(self.rows@, row, column);
                if fresh(self.version, self.process_id, self.updated_at, now_ms) && k >= 0
                    && is_absolute(self.rows@[k].path@) {
                    r is Some && r->0@ == normalized(self.rows@[k].path@)
                } else {
                    r is None
                }
            }),
    {
        if !is_fresh(self.version, self.process_id, self.updated_at, now_ms) {
            return None;
        }
        proof {
            lemma_first_match(self.rows@, row, column);
        }
        let mut i: usize = 0;
        while i < self.rows.len()
            invariant
                fresh(self.version, self.process_id, self.updated_at, now_ms),
                i <= self.rows@.len(),
                forall|j: int| 0 <= j < i ==> !row_matches(#[trigger] self.rows@[j], row, column),
            decreases self.rows@.len() - i,
        {
            let r = &self.rows[i];
            if r.screen_row == row && column >= r.start_column && column < r.end_column {
                proof {
                    lemma_first_match(self.rows@, row, column);
                    assert(first_match(self.rows@, row, column) == i);
                }
                let p = chars_of(r.path.as_str());
                assert(self.rows@[i as int] == *r);
                if p.len() == 0 || p[0] != '/' {
                    assert(!is_absolute(r.path@));
                    return None;
                }
                return Some(lexically_normalize(r.path.as_str()));
            }
            i += 1;
        }
        proof {
            lemma_first_match(self.rows@, row, column);
            if first_match(self.rows@, row, column) >= 0 {
                let k = first_match(self.rows@, row, column);
                assert(!row_matches(self.rows@[k], row, column));
            }
        }
        None
    }
}

} // verus!
