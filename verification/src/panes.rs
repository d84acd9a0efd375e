//! The recursive split-tree pane model: a group is a binary tree whose
//! leaves are panes (a session or a launcher) and whose inner nodes split
//! their area horizontally (left|right) or vertically (top/bottom, the left
//! child on top) at a ratio.
//!
//! Ratios are exact fractions `num/den`, always clamped into
//! `[1/10, 9/10]`. The normative leaf order is preorder (left first); every
//! operation below is specified by what it does to that order.
use vstd::prelude::*;
use crate::text::{owned, str_eq};

verus! {

broadcast use vstd::string::group_string_axioms;

/// The session-leaf cap; canonicalization trims trailing preorder leaves.
pub const SESSION_LEAF_CAP: usize = 8;

/// The durable schema version written by [`encode_layout`].
pub const DURABLE_VERSION: u32 = 2;

/// A split ratio: the left (or top) child's share, `num / den`.
#[derive(Clone, Copy, Debug, PartialEq, Eq, Structural)]
pub struct Ratio {
    pub num: u64,
    pub den: u64,
}

impl Ratio {
    /// The ratio lies in `[1/10, 9/10]` (with a non-zero denominator).
    pub open spec fn clamped(self) -> bool {
        &&& self.den > 0
        &&& 10 * self.num >= self.den
        &&& 10 * self.num <= 9 * self.den
    }
}

/// The lower clamp bound, `1/10`.
pub open spec fn ratio_min() -> Ratio {
    Ratio { num: 1, den: 10 }
}

/// The upper clamp bound, `9/10`.
pub open spec fn ratio_max() -> Ratio {
    Ratio { num: 9, den: 10 }
}

/// The even split, `1/2`.
pub open spec fn ratio_half() -> Ratio {
    Ratio { num: 1, den: 2 }
}

/// Clamp `num / den` into `[1/10, 9/10]`; an undefined fraction (`den == 0`)
/// becomes the even split.
pub open spec fn clamp_spec(num: u64, den: u64) -> Ratio {
    if den == 0 {
        ratio_half()
    } else if 10 * num < den {
        ratio_min()
    } else if 10 * num > 9 * den {
        ratio_max()
    } else {
        Ratio { num, den }
    }
}

/// Clamp a ratio into `[1/10, 9/10]`.
pub fn clamp_ratio(num: u64, den: u64) -> (r: Ratio)
    ensures
        r == clamp_spec(num, den),
        r.clamped(),
{
    if den == 0 {
        Ratio { num: 1, den: 2 }
    } else if (num as u128) * 10 < den as u128 {
        Ratio { num: 1, den: 10 }
    } else if (num as u128) * 10 > (den as u128) * 9 {
        Ratio { num: 9, den: 10 }
    } else {
        Ratio { num, den }
    }
}

/// What a pane shows.
#[derive(Clone, Debug, PartialEq, Eq)]
pub enum PaneContent {
    Session { id: String },
    Launcher { project_id: String },
}

impl PaneContent {
    /// The session id, for a session pane.
    pub fn session_id(&self) -> (r: Option<&str>)
        ensures
            match self {
                PaneContent::Session { id } => r.is_some() && r.unwrap()@ == id@,
                PaneContent::Launcher { .. } => r.is_none(),
            },
    {
        match self {
            PaneContent::Session { id } => Some(id.as_str()),
            PaneContent::Launcher { .. } => None,
        }
    }

    pub fn is_launcher(&self) -> (r: bool)
        ensures
            r == (self is Launcher),
    {
        match self {
            PaneContent::Launcher { .. } => true,
            PaneContent::Session { .. } => false,
        }
    }
}

/// One leaf: a pane id and what it shows.
#[derive(Clone, Debug, PartialEq, Eq)]
pub struct Pane {
    pub id: String,
    pub content: PaneContent,
}

/// A horizontal split lays left|right; a vertical split lays top/bottom with
/// the left child on top.
#[derive(Clone, Copy, Debug, PartialEq, Eq, Structural)]
pub enum SplitDirection {
    Horizontal,
    Vertical,
}

/// A drop/split edge.
#[derive(Clone, Copy, Debug, PartialEq, Eq, Structural)]
pub enum PaneEdge {
    Left,
    Right,
    Up,
    Down,
}

impl PaneEdge {
    pub open spec fn direction_spec(self) -> SplitDirection {
        match self {
            PaneEdge::Left | PaneEdge::Right => SplitDirection::Horizontal,
            PaneEdge::Up | PaneEdge::Down => SplitDirection::Vertical,
        }
    }

    pub open spec fn new_leaf_left_spec(self) -> bool {
        self is Left || self is Up
    }

    pub fn split_direction(&self) -> (r: SplitDirection)
        ensures
            r == self.direction_spec(),
    {
        match self {
            PaneEdge::Left | PaneEdge::Right => SplitDirection::Horizontal,
            PaneEdge::Up | PaneEdge::Down => SplitDirection::Vertical,
        }
    }

    /// The new leaf becomes the left child for left/up edges, the right child
    /// for right/down edges.
    pub fn new_leaf_is_left_child(&self) -> (r: bool)
        ensures
            r == self.new_leaf_left_spec(),
    {
        match self {
            PaneEdge::Left | PaneEdge::Up => true,
            _ => false,
        }
    }
}

/// Where a dragged session would land (presentation state only).
#[derive(Clone, Debug, PartialEq, Eq)]
pub enum PaneDropTarget {
    Pane { pane_id: String, edge: PaneEdge },
    GroupEdge(PaneEdge),
}

#[derive(Clone, Copy, Debug, PartialEq, Eq, Structural)]
pub enum PaneSplitBranch {
    Left,
    Right,
}

/// Addresses a split node inside a group's tree. The empty path is the root.
#[derive(Clone, Debug, Default, PartialEq, Eq)]
pub struct PaneSplitPath {
    pub components: Vec<PaneSplitBranch>,
}

#[derive(Debug, PartialEq, Eq)]
pub struct PaneSplit {
    pub direction: SplitDirection,
    pub ratio: Ratio,
    pub left: Box<PaneNode>,
    pub right: Box<PaneNode>,
}

impl PaneSplit {
    /// A split whose ratio is clamped into `[1/10, 9/10]`.
    pub fn new(direction: SplitDirection, num: u64, den: u64, left: PaneNode, right: PaneNode) -> (r:
        Self)
        ensures
            r.direction == direction,
            r.ratio == clamp_spec(num, den),
            *r.left == left,
            *r.right == right,
    {
        PaneSplit { direction, ratio: clamp_ratio(num, den), left: Box::new(left), right: Box::new(right) }
    }
}

#[derive(Debug, PartialEq, Eq)]
pub enum PaneNode {
    Leaf(Pane),
    Split(PaneSplit),
}

/// Index of the first pane in `s` whose id is `id`, or `-1`.
pub open spec fn first_index(s: Seq<Pane>, id: Seq<char>) -> int
    decreases s.len(),
{
    if s.len() == 0 {
        -1
    } else if s[0].id@ == id {
        0
    } else {
        let r = first_index(s.drop_first(), id);
        if r < 0 {
            -1
        } else {
            r + 1
        }
    }
}

/// Index of the last pane in `s` whose id is `id`, or `-1`.
pub open spec fn last_index(s: Seq<Pane>, id: Seq<char>) -> int
    decreases s.len(),
{
    if s.len() == 0 {
        -1
    } else if s.last().id@ == id {
        s.len() - 1
    } else {
        last_index(s.drop_last(), id)
    }
}

/// Whether a pane shows a session.
pub open spec fn is_session_pane(p: Pane) -> bool {
    p.content is Session
}

/// The session panes of `s`, in order.
pub open spec fn session_panes(s: Seq<Pane>) -> Seq<Pane> {
    s.filter(|p: Pane| is_session_pane(p))
}

/// The ids of the panes in `s`.
pub open spec fn pane_ids(s: Seq<Pane>) -> Seq<Seq<char>> {
    s.map_values(|p: Pane| p.id@)
}

pub proof fn lemma_first_index(s: Seq<Pane>, id: Seq<char>)
    ensures
        -1 <= first_index(s, id) < s.len(),
        first_index(s, id) >= 0 ==> s[first_index(s, id)].id@ == id,
        first_index(s, id) >= 0 ==> forall|j: int|
            0 <= j < first_index(s, id) ==> (#[trigger] s[j]).id@ != id,
        first_index(s, id) < 0 ==> forall|j: int| 0 <= j < s.len() ==> (#[trigger] s[j]).id@ != id,
    decreases s.len(),
{
    if s.len() > 0 && s[0].id@ != id {
        lemma_first_index(s.drop_first(), id);
        assert forall|j: int| 0 < j < s.len() implies (#[trigger] s[j]).id@ == s.drop_first()[j
            - 1].id@ by {}
    }
}

pub proof fn lemma_first_index_concat(a: Seq<Pane>, b: Seq<Pane>, id: Seq<char>)
    ensures
        first_index(a + b, id) == (if first_index(a, id) >= 0 {
            first_index(a, id)
        } else if first_index(b, id) >= 0 {
            a.len() + first_index(b, id)
        } else {
            -1
        }),
    decreases a.len(),
{
    if a.len() == 0 {
        assert(a + b =~= b);
    } else {
        assert((a + b).drop_first() =~= a.drop_first() + b);
        lemma_first_index_concat(a.drop_first(), b, id);
    }
}

pub proof fn lemma_last_index(s: Seq<Pane>, id: Seq<char>)
    ensures
        -1 <= last_index(s, id) < s.len(),
        last_index(s, id) >= 0 ==> s[last_index(s, id)].id@ == id,
        last_index(s, id) >= 0 ==> forall|j: int|
            last_index(s, id) < j < s.len() ==> (#[trigger] s[j]).id@ != id,
        last_index(s, id) < 0 ==> forall|j: int| 0 <= j < s.len() ==> (#[trigger] s[j]).id@ != id,
    decreases s.len(),
{
    if s.len() > 0 && s.last().id@ != id {
        lemma_last_index(s.drop_last(), id);
        assert forall|j: int| 0 <= j < s.len() - 1 implies (#[trigger] s[j]).id@
            == s.drop_last()[j].id@ by {}
    }
}

/// The panes of a group tree in preorder, and the tree surgery the
/// operations are specified with.
impl PaneNode {
    /// Leaves in preorder (left first).
    pub open spec fn leaves_spec(self) -> Seq<Pane>
        decreases self,
    {
        match self {
            PaneNode::Leaf(p) => seq![p],
            PaneNode::Split(s) => s.left.leaves_spec() + s.right.leaves_spec(),
        }
    }

    /// Replace the `k`-th leaf (preorder) with the subtree `x`.
    pub open spec fn set_leaf(self, k: int, x: PaneNode) -> PaneNode
        decreases self,
    {
        match self {
            PaneNode::Leaf(_) => if k == 0 {
                x
            } else {
                self
            },
            PaneNode::Split(s) => {
                let lc = s.left.leaves_spec().len();
                if k < lc {
                    PaneNode::Split(
                        PaneSplit {
                            direction: s.direction,
                            ratio: s.ratio,
                            left: Box::new(s.left.set_leaf(k, x)),
                            right: s.right,
                        },
                    )
                } else {
                    PaneNode::Split(
                        PaneSplit {
                            direction: s.direction,
                            ratio: s.ratio,
                            left: s.left,
                            right: Box::new(s.right.set_leaf(k - lc, x)),
                        },
                    )
                }
            },
        }
    }

    /// Detach the `k`-th leaf: its parent split collapses to the surviving
    /// sibling. A lone leaf cannot be detached.
    pub open spec fn remove_leaf(self, k: int) -> PaneNode
        decreases self,
    {
        match self {
            PaneNode::Leaf(_) => self,
            PaneNode::Split(s) => {
                let lc = s.left.leaves_spec().len();
                if k < lc {
                    match *s.left {
                        PaneNode::Leaf(_) => *s.right,
                        PaneNode::Split(_) => PaneNode::Split(
                            PaneSplit {
                                direction: s.direction,
                                ratio: s.ratio,
                                left: Box::new(s.left.remove_leaf(k)),
                                right: s.right,
                            },
                        ),
                    }
                } else {
                    match *s.right {
                        PaneNode::Leaf(_) => *s.left,
                        PaneNode::Split(_) => PaneNode::Split(
                            PaneSplit {
                                direction: s.direction,
                                ratio: s.ratio,
                                left: s.left,
                                right: Box::new(s.right.remove_leaf(k - lc)),
                            },
                        ),
                    }
                }
            },
        }
    }

    /// Every split ratio in the tree is clamped.
    pub open spec fn ratios_clamped(self) -> bool
        decreases self,
    {
        match self {
            PaneNode::Leaf(_) => true,
            PaneNode::Split(s) => s.ratio.clamped() && s.left.ratios_clamped()
                && s.right.ratios_clamped(),
        }
    }

    /// Whether the tree holds a launcher leaf.
    pub open spec fn has_launcher(self) -> bool {
        exists|i: int|
            0 <= i < self.leaves_spec().len() && (#[trigger] self.leaves_spec()[i]).content is Launcher
    }

    /// Number of session leaves.
    pub open spec fn session_count(self) -> nat {
        session_panes(self.leaves_spec()).len()
    }
}

pub proof fn lemma_leaves_nonempty(n: PaneNode)
    ensures
        n.leaves_spec().len() >= 1,
    decreases n,
{
    if let PaneNode::Split(s) = n {
        lemma_leaves_nonempty(*s.left);
        lemma_leaves_nonempty(*s.right);
    }
}

pub proof fn lemma_set_leaf(n: PaneNode, k: int, x: PaneNode)
    requires
        0 <= k < n.leaves_spec().len(),
    ensures
        n.set_leaf(k, x).leaves_spec() == n.leaves_spec().subrange(0, k) + x.leaves_spec()
            + n.leaves_spec().subrange(k + 1, n.leaves_spec().len() as int),
    decreases n,
{
    match n {
        PaneNode::Leaf(_) => {
            assert(n.leaves_spec().subrange(0, 0) =~= Seq::<Pane>::empty());
            assert(n.leaves_spec().subrange(1, 1) =~= Seq::<Pane>::empty());
            assert(x.leaves_spec() =~= Seq::<Pane>::empty() + x.leaves_spec()
                + Seq::<Pane>::empty());
        },
        PaneNode::Split(s) => {
            let l = s.left.leaves_spec();
            let r = s.right.leaves_spec();
            if k < l.len() {
                lemma_set_leaf(*s.left, k, x);
                assert(n.set_leaf(k, x).leaves_spec() =~= n.leaves_spec().subrange(0, k)
                    + x.leaves_spec() + n.leaves_spec().subrange(k + 1, n.leaves_spec().len() as int));
            } else {
                lemma_set_leaf(*s.right, k - l.len(), x);
                assert(n.set_leaf(k, x).leaves_spec() =~= n.leaves_spec().subrange(0, k)
                    + x.leaves_spec() + n.leaves_spec().subrange(k + 1, n.leaves_spec().len() as int));
            }
        },
    }
}

pub proof fn lemma_remove_leaf(n: PaneNode, k: int)
    requires
        0 <= k < n.leaves_spec().len(),
        n is Split,
    ensures
        n.remove_leaf(k).leaves_spec() == n.leaves_spec().remove(k),
    decreases n,
{
    if let PaneNode::Split(s) = n {
        let l = s.left.leaves_spec();
        let r = s.right.leaves_spec();
        lemma_leaves_nonempty(*s.left);
        lemma_leaves_nonempty(*s.right);
        if k < l.len() {
            match *s.left {
                PaneNode::Leaf(_) => {
                    assert(n.leaves_spec().remove(k) =~= r);
                },
                PaneNode::Split(_) => {
                    lemma_remove_leaf(*s.left, k);
                    assert(n.remove_leaf(k).leaves_spec() =~= n.leaves_spec().remove(k));
                },
            }
        } else {
            match *s.right {
                PaneNode::Leaf(_) => {
                    assert(n.leaves_spec().remove(k) =~= l);
                },
                PaneNode::Split(_) => {
                    lemma_remove_leaf(*s.right, k - l.len());
                    assert(n.remove_leaf(k).leaves_spec() =~= n.leaves_spec().remove(k));
                },
            }
        }
    }
}

pub proof fn lemma_set_leaf_clamped(n: PaneNode, k: int, x: PaneNode)
    requires
        n.ratios_clamped(),
        x.ratios_clamped(),
    ensures
        n.set_leaf(k, x).ratios_clamped(),
    decreases n,
{
    if let PaneNode::Split(s) = n {
        lemma_set_leaf_clamped(*s.left, k, x);
        lemma_set_leaf_clamped(*s.right, k - s.left.leaves_spec().len(), x);
    }
}

pub proof fn lemma_remove_leaf_clamped(n: PaneNode, k: int)
    requires
        n.ratios_clamped(),
    ensures
        n.remove_leaf(k).ratios_clamped(),
    decreases n,
{
    if let PaneNode::Split(s) = n {
        lemma_remove_leaf_clamped(*s.left, k);
        lemma_remove_leaf_clamped(*s.right, k - s.left.leaves_spec().len());
    }
}

/// An exact copy of a pane.
pub fn copy_pane(p: &Pane) -> (r: Pane)
    ensures
        r == *p,
{
    let content = match &p.content {
        PaneContent::Session { id } => PaneContent::Session { id: id.clone() },
        PaneContent::Launcher { project_id } => PaneContent::Launcher {
            project_id: project_id.clone(),
        },
    };
    Pane { id: p.id.clone(), content }
}

/// The split that puts `new` beside `existing` on `edge` at the even ratio.
pub open spec fn split_beside(edge: PaneEdge, existing: Pane, new: Pane) -> PaneNode {
    PaneNode::Split(
        PaneSplit {
            direction: edge.direction_spec(),
            ratio: ratio_half(),
            left: Box::new(
                if edge.new_leaf_left_spec() {
                    PaneNode::Leaf(new)
                } else {
                    PaneNode::Leaf(existing)
                },
            ),
            right: Box::new(
                if edge.new_leaf_left_spec() {
                    PaneNode::Leaf(existing)
                } else {
                    PaneNode::Leaf(new)
                },
            ),
        },
    )
}

/// Build [`split_beside`].
fn make_split_beside(edge: PaneEdge, existing: Pane, new: Pane) -> (r: PaneNode)
    ensures
        r == split_beside(edge, existing, new),
        r.ratios_clamped(),
{
    let (left, right) = if edge.new_leaf_is_left_child() {
        (PaneNode::Leaf(new), PaneNode::Leaf(existing))
    } else {
        (PaneNode::Leaf(existing), PaneNode::Leaf(new))
    };
    let r = PaneNode::Split(PaneSplit::new(edge.split_direction(), 1, 2, left, right));
    assert(left.ratios_clamped() && right.ratios_clamped());
    r
}

impl Clone for PaneNode {
    fn clone(&self) -> (r: Self)
        ensures
            r == *self,
    {
        self.duplicate()
    }
}

impl Clone for PaneSplit {
    fn clone(&self) -> (r: Self)
        ensures
            r == *self,
    {
        PaneSplit {
            direction: self.direction,
            ratio: self.ratio,
            left: Box::new(self.left.duplicate()),
            right: Box::new(self.right.duplicate()),
        }
    }
}

impl PaneNode {
    /// An exact copy of the tree.
    pub fn duplicate(&self) -> (r: PaneNode)
        ensures
            r == *self,
        decreases self,
    {
        match self {
            PaneNode::Leaf(p) => PaneNode::Leaf(copy_pane(p)),
            PaneNode::Split(s) => PaneNode::Split(
                PaneSplit {
                    direction: s.direction,
                    ratio: s.ratio,
                    left: Box::new(s.left.duplicate()),
                    right: Box::new(s.right.duplicate()),
                },
            ),
        }
    }

    /// Number of leaves.
    pub fn leaf_count(&self) -> (r: usize)
        requires
            self.leaves_spec().len() <= usize::MAX,
        ensures
            r == self.leaves_spec().len(),
        decreases self,
    {
        match self {
            PaneNode::Leaf(_) => 1,
            PaneNode::Split(s) => {
                let a = s.left.leaf_count();
                let b = s.right.leaf_count();
                a + b
            },
        }
    }

    /// Whether a leaf with this id exists.
    pub fn has_pane(&self, pane_id: &str) -> (r: bool)
        ensures
            r == (first_index(self.leaves_spec(), pane_id@) >= 0),
        decreases self,
    {
        match self {
            PaneNode::Leaf(p) => {
                proof {
                    reveal_with_fuel(first_index, 2);
                }
                str_eq(p.id.as_str(), pane_id)
            },
            PaneNode::Split(s) => {
                proof {
                    lemma_first_index_concat(s.left.leaves_spec(), s.right.leaves_spec(), pane_id@);
                }
                s.left.has_pane(pane_id) || s.right.has_pane(pane_id)
            },
        }
    }

    /// Replace the first leaf with id `target` by the split that puts `new`
    /// beside it on `edge`. Returns the tree and whether the target existed.
    fn split_first(self, target: &str, edge: PaneEdge, new: &Pane) -> (res: (PaneNode, bool))
        ensures
            ({
                let k = first_index(self.leaves_spec(), target@);
                &&& k < 0 ==> res.0 == self && !res.1
                &&& k >= 0 ==> res.1 && res.0 == self.set_leaf(
                    k,
                    split_beside(edge, self.leaves_spec()[k], *new),
                )
            }),
        decreases self,
    {
        match self {
            PaneNode::Leaf(p) => {
                proof {
                    reveal_with_fuel(first_index, 2);
                }
                if str_eq(p.id.as_str(), target) {
                    (make_split_beside(edge, p, copy_pane(new)), true)
                } else {
                    (PaneNode::Leaf(p), false)
                }
            },
            PaneNode::Split(s) => {
                let ghost l = s.left.leaves_spec();
                let ghost r = s.right.leaves_spec();
                proof {
                    lemma_first_index_concat(l, r, target@);
                    lemma_first_index(l, target@);
                    lemma_first_index(r, target@);
                }
                let PaneSplit { direction, ratio, left, right } = s;
                let (nl, found) = (*left).split_first(target, edge, new);
                if found {
                    (PaneNode::Split(PaneSplit { direction, ratio, left: Box::new(nl), right }), true)
                } else {
                    let (nr, found_r) = (*right).split_first(target, edge, new);
                    (
                        PaneNode::Split(
                            PaneSplit { direction, ratio, left: Box::new(nl), right: Box::new(nr) },
                        ),
                        found_r,
                    )
                }
            },
        }
    }
}


/// The pane `p` rebound to show session `s` (same pane id).
pub open spec fn rebound(p: Pane, s: String) -> Pane {
    Pane { id: p.id, content: PaneContent::Session { id: s } }
}

pub proof fn lemma_set_leaf_out_of_range(n: PaneNode, k: int, x: PaneNode)
    requires
        k < 0 || k >= n.leaves_spec().len(),
    ensures
        n.set_leaf(k, x) == n,
    decreases n,
{
    if let PaneNode::Split(s) = n {
        lemma_leaves_nonempty(*s.left);
        lemma_leaves_nonempty(*s.right);
        let lc = s.left.leaves_spec().len();
        if k < lc {
            lemma_set_leaf_out_of_range(*s.left, k, x);
        } else {
            lemma_set_leaf_out_of_range(*s.right, k - lc, x);
        }
    }
}

pub proof fn lemma_set_leaf_with_leaf_len(n: PaneNode, k: int, p: Pane)
    ensures
        n.set_leaf(k, PaneNode::Leaf(p)).leaves_spec().len() == n.leaves_spec().len(),
    decreases n,
{
    if let PaneNode::Split(s) = n {
        lemma_set_leaf_with_leaf_len(*s.left, k, p);
        lemma_set_leaf_with_leaf_len(*s.right, k - s.left.leaves_spec().len(), p);
    }
}

impl PaneNode {
    /// Detach the first leaf with id `pane_id`, collapsing its parent split
    /// to the sibling. Returns the tree and whether a leaf was detached; a
    /// lone leaf is never detached.
    pub fn detach_first(self, pane_id: &str) -> (res: (PaneNode, bool))
        ensures
            ({
                let k = first_index(self.leaves_spec(), pane_id@);
                &&& (k < 0 || self is Leaf) ==> res.0 == self && !res.1
                &&& (k >= 0 && self is Split) ==> res.1 && res.0 == self.remove_leaf(k)
            }),
        decreases self,
    {
        match self {
            PaneNode::Leaf(p) => (PaneNode::Leaf(p), false),
            PaneNode::Split(s) => {
                let ghost l = s.left.leaves_spec();
                let ghost r = s.right.leaves_spec();
                proof {
                    lemma_first_index_concat(l, r, pane_id@);
                    lemma_first_index(l, pane_id@);
                    lemma_first_index(r, pane_id@);
                    reveal_with_fuel(first_index, 2);
                }
                let PaneSplit { direction, ratio, left, right } = s;
                if left.has_pane(pane_id) {
                    match *left {
                        PaneNode::Leaf(_) => (*right, true),
                        PaneNode::Split(ls) => {
                            let (nl, _) = PaneNode::Split(ls).detach_first(pane_id);
                            (PaneNode::Split(PaneSplit { direction, ratio, left: Box::new(nl), right }), true)
                        },
                    }
                } else if right.has_pane(pane_id) {
                    match *right {
                        PaneNode::Leaf(_) => (*left, true),
                        PaneNode::Split(rs) => {
                            let (nr, _) = PaneNode::Split(rs).detach_first(pane_id);
                            (PaneNode::Split(PaneSplit { direction, ratio, left, right: Box::new(nr) }), true)
                        },
                    }
                } else {
                    (PaneNode::Split(PaneSplit { direction, ratio, left, right }), false)
                }
            },
        }
    }

    /// Rebind the first leaf with id `pane_id` to session `session_id`, when
    /// that leaf is a launcher.
    fn rebind_first(self, pane_id: &str, session_id: &str) -> (res: (PaneNode, bool))
        ensures
            ({
                let k = first_index(self.leaves_spec(), pane_id@);
                &&& (k < 0 || !(self.leaves_spec()[k].content is Launcher)) ==> res.0 == self && !res.1
                &&& (k >= 0 && self.leaves_spec()[k].content is Launcher) ==> res.1 && exists|s: String|
                    s@ == session_id@ && res.0 == self.set_leaf(
                        k,
                        PaneNode::Leaf(rebound(self.leaves_spec()[k], s)),
                    )
            }),
        decreases self,
    {
        match self {
            PaneNode::Leaf(p) => {
                proof {
                    reveal_with_fuel(first_index, 2);
                }
                if str_eq(p.id.as_str(), pane_id) && p.content.is_launcher() {
                    let s = owned(session_id);
                    let ghost g = s;
                    let q = Pane { id: p.id, content: PaneContent::Session { id: s } };
                    proof {
                        assert(q == rebound(self.leaves_spec()[0], g));
                    }
                    (PaneNode::Leaf(q), true)
                } else {
                    (PaneNode::Leaf(p), false)
                }
            },
            PaneNode::Split(s) => {
                let ghost l = s.left.leaves_spec();
                let ghost r = s.right.leaves_spec();
                proof {
                    lemma_first_index_concat(l, r, pane_id@);
                    lemma_first_index(l, pane_id@);
                    lemma_first_index(r, pane_id@);
                }
                let PaneSplit { direction, ratio, left, right } = s;
                if left.has_pane(pane_id) {
                    let ghost old_left = *left;
                    let (nl, ok) = (*left).rebind_first(pane_id, session_id);
                    proof {
                        if ok {
                            let k = first_index(l, pane_id@);
                            let w = choose|w: String| w@ == session_id@ && nl == old_left.set_leaf(
                                k,
                                PaneNode::Leaf(rebound(l[k], w)),
                            );
                            assert(self.leaves_spec()[k] == l[k]);
                        }
                    }
                    (PaneNode::Split(PaneSplit { direction, ratio, left: Box::new(nl), right }), ok)
                } else {
                    let ghost old_right = *right;
                    let (nr, ok) = (*right).rebind_first(pane_id, session_id);
                    proof {
                        let k = first_index(r, pane_id@);
                        if k >= 0 {
                            assert(self.leaves_spec()[l.len() + k] == r[k]);
                        }
                        if ok {
                            let w = choose|w: String| w@ == session_id@ && nr == old_right.set_leaf(
                                k,
                                PaneNode::Leaf(rebound(r[k], w)),
                            );
                            assert(self.set_leaf(l.len() + k, PaneNode::Leaf(rebound(r[k], w)))
                                == PaneNode::Split(PaneSplit { direction, ratio, left, right: Box::new(nr) }));
                        }
                    }
                    (PaneNode::Split(PaneSplit { direction, ratio, left, right: Box::new(nr) }), ok)
                }
            },
        }
    }
}


/// `k` when not yet `done`, else `-1`: the position a one-shot replacement
/// still has to hit.
pub open spec fn pending_index(done: bool, k: int) -> int {
    if done {
        -1
    } else {
        k
    }
}

impl PaneNode {
    /// Exchange the first leaf with id `a` and the first leaf with id `b`
    /// (ids travel with their leaves). `da`/`db` say a side was already
    /// replaced earlier in the traversal.
    fn swap_rec(self, a: &str, b: &str, la: &Pane, lb: &Pane, da: bool, db: bool) -> (res: (
        PaneNode,
        bool,
        bool,
    ))
        requires
            a@ != b@,
        ensures
            ({
                let ka = pending_index(da, first_index(self.leaves_spec(), a@));
                let kb = pending_index(db, first_index(self.leaves_spec(), b@));
                &&& res.0 == self.set_leaf(ka, PaneNode::Leaf(*lb)).set_leaf(kb, PaneNode::Leaf(*la))
                &&& res.1 == (da || ka >= 0)
                &&& res.2 == (db || kb >= 0)
            }),
        decreases self,
    {
        match self {
            PaneNode::Leaf(p) => {
                proof {
                    reveal_with_fuel(first_index, 2);
                }
                let ghost me = self;
                let ghost xa = PaneNode::Leaf(*lb);
                let ghost xb = PaneNode::Leaf(*la);
                if !da && str_eq(p.id.as_str(), a) {
                    proof {
                        assert(first_index(me.leaves_spec(), a@) == 0);
                        assert(first_index(me.leaves_spec(), b@) == -1);
                        assert(me.set_leaf(0, xa) == xa);
                        assert(xa.set_leaf(-1, xb) == xa);
                    }
                    (PaneNode::Leaf(copy_pane(lb)), true, db)
                } else if !db && str_eq(p.id.as_str(), b) {
                    proof {
                        assert(first_index(me.leaves_spec(), b@) == 0);
                        let ka = pending_index(da, first_index(me.leaves_spec(), a@));
                        assert(ka < 0);
                        assert(me.set_leaf(ka, xa) == me);
                        assert(me.set_leaf(0, xb) == xb);
                    }
                    (PaneNode::Leaf(copy_pane(la)), da, true)
                } else {
                    proof {
                        let ka = pending_index(da, first_index(me.leaves_spec(), a@));
                        let kb = pending_index(db, first_index(me.leaves_spec(), b@));
                        assert(ka < 0);
                        assert(kb < 0);
                        assert(me.set_leaf(ka, xa) == me);
                        assert(me.set_leaf(kb, xb) == me);
                    }
                    (PaneNode::Leaf(p), da, db)
                }
            },
            PaneNode::Split(s) => {
                let ghost l = s.left.leaves_spec();
                let ghost r = s.right.leaves_spec();
                let ghost sl = *s.left;
                let ghost sr = *s.right;
                let ghost me = self;
                proof {
                    lemma_first_index_concat(l, r, a@);
                    lemma_first_index_concat(l, r, b@);
                    lemma_first_index(l, a@);
                    lemma_first_index(r, a@);
                    lemma_first_index(l, b@);
                    lemma_first_index(r, b@);
                    lemma_leaves_nonempty(sl);
                    lemma_leaves_nonempty(sr);
                }
                let PaneSplit { direction, ratio, left, right } = s;
                let (nl, da1, db1) = (*left).swap_rec(a, b, la, lb, da, db);
                let (nr, da2, db2) = (*right).swap_rec(a, b, la, lb, da1, db1);
                let res = PaneNode::Split(
                    PaneSplit { direction, ratio, left: Box::new(nl), right: Box::new(nr) },
                );
                proof {
                    let ka = pending_index(da, first_index(me.leaves_spec(), a@));
                    let kb = pending_index(db, first_index(me.leaves_spec(), b@));
                    let kla = pending_index(da, first_index(l, a@));
                    let klb = pending_index(db, first_index(l, b@));
                    let kra = pending_index(da1, first_index(r, a@));
                    let krb = pending_index(db1, first_index(r, b@));
                    let xa = PaneNode::Leaf(*lb);
                    let xb = PaneNode::Leaf(*la);
                    lemma_set_leaf_with_leaf_len(sl, kla, *lb);
                    lemma_set_leaf_with_leaf_len(me, ka, *lb);
                    let lc = l.len() as int;
                    // Replacements on the left half.
                    if kla >= 0 {
                        assert(ka == kla);
                    } else if kra >= 0 {
                        assert(ka == lc + kra);
                        lemma_set_leaf_out_of_range(sl, kla, xa);
                    } else {
                        assert(ka < 0);
                        lemma_set_leaf_out_of_range(sl, kla, xa);
                        lemma_set_leaf_out_of_range(me, ka, xa);
                        lemma_set_leaf_out_of_range(sr, kra, xa);
                    }
                    let m1 = me.set_leaf(ka, xa);
                    if klb >= 0 {
                        assert(kb == klb);
                    } else if krb >= 0 {
                        assert(kb == lc + krb);
                        lemma_set_leaf_out_of_range(sl.set_leaf(kla, xa), klb, xb);
                    } else {
                        assert(kb < 0);
                        lemma_set_leaf_out_of_range(sl.set_leaf(kla, xa), klb, xb);
                        lemma_set_leaf_out_of_range(m1, kb, xb);
                        lemma_set_leaf_out_of_range(sr.set_leaf(kra, xa), krb, xb);
                    }
                    if kra < 0 {
                        lemma_set_leaf_out_of_range(sr, kra, xa);
                    }
                    if krb < 0 {
                        lemma_set_leaf_out_of_range(sr.set_leaf(kra, xa), krb, xb);
                    }
                    if klb < 0 {
                        lemma_set_leaf_out_of_range(sl.set_leaf(kla, xa), klb, xb);
                    }
                    if kla < 0 {
                        lemma_set_leaf_out_of_range(sl, kla, xa);
                    }
                }
                (res, da2, db2)
            },
        }
    }

    /// The first leaf with id `pane_id`.
    pub fn leaf(&self, pane_id: &str) -> (r: Option<&Pane>)
        ensures
            ({
                let k = first_index(self.leaves_spec(), pane_id@);
                &&& k < 0 ==> r.is_none()
                &&& k >= 0 ==> r == Some(&self.leaves_spec()[k])
            }),
        decreases self,
    {
        match self {
            PaneNode::Leaf(p) => {
                proof {
                    reveal_with_fuel(first_index, 2);
                }
                if str_eq(p.id.as_str(), pane_id) {
                    Some(p)
                } else {
                    None
                }
            },
            PaneNode::Split(s) => {
                proof {
                    lemma_first_index_concat(s.left.leaves_spec(), s.right.leaves_spec(), pane_id@);
                    lemma_first_index(s.left.leaves_spec(), pane_id@);
                    lemma_first_index(s.right.leaves_spec(), pane_id@);
                }
                match s.left.leaf(pane_id) {
                    Some(p) => Some(p),
                    None => s.right.leaf(pane_id),
                }
            },
        }
    }
}


/// The panes of a borrowed-pane sequence.
pub open spec fn derefs(s: Seq<&Pane>) -> Seq<Pane> {
    s.map_values(|p: &Pane| *p)
}

/// Grid weight of a child for equalize: a leaf weighs 1, a split in the
/// parent's direction the sum of its children, a perpendicular split 1.
pub open spec fn weight(n: PaneNode, dir: SplitDirection) -> nat
    decreases n,
{
    match n {
        PaneNode::Leaf(_) => 1,
        PaneNode::Split(s) => if s.direction == dir {
            weight(*s.left, dir) + weight(*s.right, dir)
        } else {
            1
        },
    }
}

/// The tree with every split's ratio set to
/// `leftWeight / (leftWeight + rightWeight)` (clamped).
pub open spec fn equalized(n: PaneNode) -> PaneNode
    decreases n,
{
    match n {
        PaneNode::Leaf(_) => n,
        PaneNode::Split(s) => PaneNode::Split(
            PaneSplit {
                direction: s.direction,
                ratio: clamp_spec(
                    weight(*s.left, s.direction) as u64,
                    (weight(*s.left, s.direction) + weight(*s.right, s.direction)) as u64,
                ),
                left: Box::new(equalized(*s.left)),
                right: Box::new(equalized(*s.right)),
            },
        ),
    }
}

/// The artificial grid size `(width, height)` of a tree for the spatial
/// focus query: a leaf is 1x1; a horizontal split sums widths and maxes
/// heights; a vertical split maxes widths and sums heights.
pub open spec fn grid(n: PaneNode) -> (int, int)
    decreases n,
{
    match n {
        PaneNode::Leaf(_) => (1, 1),
        PaneNode::Split(s) => {
            let (lw, lh) = grid(*s.left);
            let (rw, rh) = grid(*s.right);
            match s.direction {
                SplitDirection::Horizontal => (lw + rw, if lh >= rh {
                    lh
                } else {
                    rh
                }),
                SplitDirection::Vertical => (if lw >= rw {
                    lw
                } else {
                    rw
                }, lh + rh),
            }
        },
    }
}

/// Grid cell of every leaf (preorder) when the tree's corner is at `(x, y)`.
pub open spec fn positions(n: PaneNode, x: int, y: int) -> Seq<(int, int)>
    decreases n,
{
    match n {
        PaneNode::Leaf(_) => seq![(x, y)],
        PaneNode::Split(s) => {
            let (lw, lh) = grid(*s.left);
            match s.direction {
                SplitDirection::Horizontal => positions(*s.left, x, y) + positions(
                    *s.right,
                    x + lw,
                    y,
                ),
                SplitDirection::Vertical => positions(*s.left, x, y) + positions(
                    *s.right,
                    x,
                    y + lh,
                ),
            }
        },
    }
}

/// The split node at `path`, if the path stays inside splits.
pub open spec fn node_at(n: PaneNode, path: Seq<PaneSplitBranch>) -> Option<PaneNode>
    decreases path.len(),
{
    if path.len() == 0 {
        Some(n)
    } else {
        match n {
            PaneNode::Leaf(_) => None,
            PaneNode::Split(s) => match path[0] {
                PaneSplitBranch::Left => node_at(*s.left, path.drop_first()),
                PaneSplitBranch::Right => node_at(*s.right, path.drop_first()),
            },
        }
    }
}

/// The tree with the ratio of the split at `path` replaced by `r`.
pub open spec fn with_ratio_at(n: PaneNode, path: Seq<PaneSplitBranch>, r: Ratio) -> PaneNode
    decreases path.len(),
{
    match n {
        PaneNode::Leaf(_) => n,
        PaneNode::Split(s) => if path.len() == 0 {
            PaneNode::Split(PaneSplit { direction: s.direction, ratio: r, left: s.left, right: s.right })
        } else {
            match path[0] {
                PaneSplitBranch::Left => PaneNode::Split(
                    PaneSplit {
                        direction: s.direction,
                        ratio: s.ratio,
                        left: Box::new(with_ratio_at(*s.left, path.drop_first(), r)),
                        right: s.right,
                    },
                ),
                PaneSplitBranch::Right => PaneNode::Split(
                    PaneSplit {
                        direction: s.direction,
                        ratio: s.ratio,
                        left: s.left,
                        right: Box::new(with_ratio_at(*s.right, path.drop_first(), r)),
                    },
                ),
            }
        },
    }
}

/// The branch path to the first leaf (preorder) with id `id`.
pub open spec fn path_of(n: PaneNode, id: Seq<char>) -> Option<Seq<PaneSplitBranch>>
    decreases n,
{
    match n {
        PaneNode::Leaf(p) => if p.id@ == id {
            Some(Seq::empty())
        } else {
            None
        },
        PaneNode::Split(s) => match path_of(*s.left, id) {
            Some(q) => Some(seq![PaneSplitBranch::Left] + q),
            None => match path_of(*s.right, id) {
                Some(q) => Some(seq![PaneSplitBranch::Right] + q),
                None => None,
            },
        },
    }
}

pub proof fn lemma_weight_bound(n: PaneNode, dir: SplitDirection)
    ensures
        1 <= weight(n, dir) <= n.leaves_spec().len(),
    decreases n,
{
    lemma_leaves_nonempty(n);
    if let PaneNode::Split(s) = n {
        lemma_weight_bound(*s.left, dir);
        lemma_weight_bound(*s.right, dir);
        lemma_leaves_nonempty(*s.left);
        lemma_leaves_nonempty(*s.right);
    }
}

pub proof fn lemma_grid_bound(n: PaneNode)
    ensures
        1 <= grid(n).0 <= n.leaves_spec().len(),
        1 <= grid(n).1 <= n.leaves_spec().len(),
        positions(n, 0, 0).len() == n.leaves_spec().len(),
    decreases n,
{
    lemma_positions_len(n, 0, 0);
    if let PaneNode::Split(s) = n {
        lemma_grid_bound(*s.left);
        lemma_grid_bound(*s.right);
    }
}

pub proof fn lemma_positions_len(n: PaneNode, x: int, y: int)
    ensures
        positions(n, x, y).len() == n.leaves_spec().len(),
    decreases n,
{
    if let PaneNode::Split(s) = n {
        let (lw, lh) = grid(*s.left);
        lemma_positions_len(*s.left, x, y);
        lemma_positions_len(*s.right, x + lw, y);
        lemma_positions_len(*s.right, x, y + lh);
    }
}

pub proof fn lemma_positions_bound(n: PaneNode, x: int, y: int, i: int)
    requires
        0 <= i < n.leaves_spec().len(),
    ensures
        x <= positions(n, x, y)[i].0 < x + grid(n).0,
        y <= positions(n, x, y)[i].1 < y + grid(n).1,
    decreases n,
{
    lemma_positions_len(n, x, y);
    if let PaneNode::Split(s) = n {
        let (lw, lh) = grid(*s.left);
        let lc = s.left.leaves_spec().len() as int;
        lemma_positions_len(*s.left, x, y);
        lemma_grid_bound(*s.left);
        lemma_grid_bound(*s.right);
        if i < lc {
            lemma_positions_bound(*s.left, x, y, i);
        } else {
            match s.direction {
                SplitDirection::Horizontal => lemma_positions_bound(*s.right, x + lw, y, i - lc),
                SplitDirection::Vertical => lemma_positions_bound(*s.right, x, y + lh, i - lc),
            }
        }
    }
}

impl PaneNode {
    /// Leaves in preorder (left first). The normative leaf order: drives
    /// sidebar rows, representative promotion, and cap trimming.
    pub fn leaves(&self) -> (r: Vec<&Pane>)
        ensures
            derefs(r@) == self.leaves_spec(),
    {
        let mut out: Vec<&Pane> = Vec::new();
        self.collect_leaves(&mut out);
        assert(derefs(out@) =~= self.leaves_spec());
        out
    }

    fn collect_leaves<'a>(&'a self, out: &mut Vec<&'a Pane>)
        ensures
            derefs(final(out)@) == derefs(old(out)@) + self.leaves_spec(),
        decreases self,
    {
        match self {
            PaneNode::Leaf(pane) => {
                out.push(pane);
                assert(derefs(out@) =~= derefs(old(out)@) + self.leaves_spec());
            },
            PaneNode::Split(split) => {
                split.left.collect_leaves(out);
                split.right.collect_leaves(out);
                assert(derefs(out@) =~= derefs(old(out)@) + self.leaves_spec());
            },
        }
    }

    /// The session leaves in preorder.
    pub fn session_leaves(&self) -> (r: Vec<&Pane>)
        ensures
            derefs(r@) == session_panes(self.leaves_spec()),
    {
        let all = self.leaves();
        let mut out: Vec<&Pane> = Vec::new();
        let mut i: usize = 0;
        while i < all.len()
            invariant
                i <= all.len(),
                derefs(all@) == self.leaves_spec(),
                derefs(out@) == session_panes(derefs(all@).subrange(0, i as int)),
            decreases all.len() - i,
        {
            let p = all[i];
            let ghost pre = derefs(all@).subrange(0, i as int);
            proof {
                assert(derefs(all@).subrange(0, i + 1) =~= pre.push(*p));
                assert(pre.push(*p) =~= pre + seq![*p]);
                Seq::filter_distributes_over_add(pre, seq![*p], |q: Pane| is_session_pane(q));
                reveal_with_fuel(Seq::filter, 2);
            }
            match &p.content {
                PaneContent::Session { .. } => {
                    out.push(p);
                },
                PaneContent::Launcher { .. } => {},
            }
            proof {
                assert(derefs(out@) =~= session_panes(derefs(all@).subrange(0, i + 1)));
            }
            i += 1;
        }
        assert(derefs(all@).subrange(0, all.len() as int) =~= derefs(all@));
        out
    }

    /// Whether some leaf is a launcher.
    pub fn contains_launcher(&self) -> (r: bool)
        ensures
            r == self.has_launcher(),
        decreases self,
    {
        match self {
            PaneNode::Leaf(p) => {
                let r = p.content.is_launcher();
                assert(self.leaves_spec()[0] == *p);
                r
            },
            PaneNode::Split(s) => {
                let ghost l = s.left.leaves_spec();
                let ghost rr = s.right.leaves_spec();
                let a = s.left.contains_launcher();
                let b = s.right.contains_launcher();
                proof {
                    assert(self.leaves_spec() == l + rr);
                    if a {
                        let i = choose|i: int| 0 <= i < l.len() && (#[trigger] l[i]).content is Launcher;
                        assert(self.leaves_spec()[i] == l[i]);
                    }
                    if b {
                        let i = choose|i: int|
                            0 <= i < rr.len() && (#[trigger] rr[i]).content is Launcher;
                        assert(self.leaves_spec()[l.len() + i] == rr[i]);
                    }
                    if !a && !b {
                        assert forall|i: int| 0 <= i < self.leaves_spec().len() implies (
                        #[trigger] self.leaves_spec()[i]).content !is Launcher by {
                            if i < l.len() {
                                assert(self.leaves_spec()[i] == l[i]);
                            } else {
                                assert(self.leaves_spec()[i] == rr[i - l.len()]);
                            }
                        }
                    }
                }
                a || b
            },
        }
    }

    /// Path (sequence of branches) to the first leaf with id `pane_id`.
    pub fn path_to_pane(&self, pane_id: &str) -> (r: Option<PaneSplitPath>)
        ensures
            match path_of(*self, pane_id@) {
                Some(q) => r.is_some() && r.unwrap().components@ == q,
                None => r.is_none(),
            },
        decreases self,
    {
        match self {
            PaneNode::Leaf(pane) => {
                if str_eq(pane.id.as_str(), pane_id) {
                    Some(PaneSplitPath { components: Vec::new() })
                } else {
                    None
                }
            },
            PaneNode::Split(split) => {
                if let Some(left) = split.left.path_to_pane(pane_id) {
                    let mut components = vec![PaneSplitBranch::Left];
                    let mut rest = left.components;
                    components.append(&mut rest);
                    return Some(PaneSplitPath { components });
                }
                if let Some(right) = split.right.path_to_pane(pane_id) {
                    let mut components = vec![PaneSplitBranch::Right];
                    let mut rest = right.components;
                    components.append(&mut rest);
                    return Some(PaneSplitPath { components });
                }
                None
            },
        }
    }

    /// Set the ratio of the split at `path[from..]`; `None` when the path
    /// leaves the splits.
    fn set_ratio_at(self, path: &Vec<PaneSplitBranch>, from: usize, r: Ratio) -> (res: (
        PaneNode,
        bool,
    ))
        requires
            from <= path.len(),
        ensures
            ({
                let rest = path@.subrange(from as int, path@.len() as int);
                &&& res.1 == (node_at(self, rest) matches Some(m) && m is Split)
                &&& res.1 ==> res.0 == with_ratio_at(self, rest, r)
                &&& !res.1 ==> res.0 == self
            }),
        decreases path.len() - from,
    {
        let ghost rest = path@.subrange(from as int, path@.len() as int);
        match self {
            PaneNode::Leaf(p) => {
                proof {
                    if rest.len() == 0 {
                        assert(node_at(self, rest) == Some(self));
                    }
                }
                (PaneNode::Leaf(p), false)
            },
            PaneNode::Split(s) => {
                if from == path.len() {
                    assert(rest.len() == 0);
                    let PaneSplit { direction, ratio, left, right } = s;
                    (PaneNode::Split(PaneSplit { direction, ratio: r, left, right }), true)
                } else {
                    proof {
                        assert(rest.drop_first() =~= path@.subrange(from + 1, path@.len() as int));
                        assert(rest[0] == path@[from as int]);
                    }
                    let PaneSplit { direction, ratio, left, right } = s;
                    match path[from] {
                        PaneSplitBranch::Left => {
                            let (nl, ok) = (*left).set_ratio_at(path, from + 1, r);
                            (PaneNode::Split(PaneSplit { direction, ratio, left: Box::new(nl), right }), ok)
                        },
                        PaneSplitBranch::Right => {
                            let (nr, ok) = (*right).set_ratio_at(path, from + 1, r);
                            (PaneNode::Split(PaneSplit { direction, ratio, left, right: Box::new(nr) }), ok)
                        },
                    }
                }
            },
        }
    }

    /// Equalize weight of this node as a child of a `dir` split.
    fn child_weight(&self, dir: SplitDirection) -> (w: u64)
        requires
            self.leaves_spec().len() <= u64::MAX,
        ensures
            w == weight(*self, dir),
        decreases self,
    {
        proof {
            lemma_weight_bound(*self, dir);
        }
        match self {
            PaneNode::Leaf(_) => 1,
            PaneNode::Split(split) => {
                proof {
                    lemma_weight_bound(*split.left, dir);
                    lemma_weight_bound(*split.right, dir);
                }
                if split.direction == dir {
                    split.left.child_weight(dir) + split.right.child_weight(dir)
                } else {
                    1
                }
            },
        }
    }

    /// Equalize every split of the tree.
    fn equalize_node(self) -> (r: PaneNode)
        requires
            self.leaves_spec().len() <= u64::MAX,
        ensures
            r == equalized(self),
        decreases self,
    {
        match self {
            PaneNode::Leaf(p) => PaneNode::Leaf(p),
            PaneNode::Split(split) => {
                proof {
                    lemma_weight_bound(*split.left, split.direction);
                    lemma_weight_bound(*split.right, split.direction);
                }
                let lw = split.left.child_weight(split.direction);
                let rw = split.right.child_weight(split.direction);
                let ratio = clamp_ratio(lw, lw + rw);
                let PaneSplit { direction, ratio: _, left, right } = split;
                PaneNode::Split(
                    PaneSplit {
                        direction,
                        ratio,
                        left: Box::new((*left).equalize_node()),
                        right: Box::new((*right).equalize_node()),
                    },
                )
            },
        }
    }

    /// Grid size of the tree (see [`grid`]).
    fn grid_size(&self) -> (r: (u64, u64))
        requires
            self.leaves_spec().len() <= u32::MAX,
        ensures
            r.0 == grid(*self).0,
            r.1 == grid(*self).1,
        decreases self,
    {
        proof {
            lemma_grid_bound(*self);
        }
        match self {
            PaneNode::Leaf(_) => (1, 1),
            PaneNode::Split(split) => {
                proof {
                    lemma_grid_bound(*split.left);
                    lemma_grid_bound(*split.right);
                }
                let (lw, lh) = split.left.grid_size();
                let (rw, rh) = split.right.grid_size();
                match split.direction {
                    SplitDirection::Horizontal => (lw + rw, if lh >= rh { lh } else { rh }),
                    SplitDirection::Vertical => (if lw >= rw { lw } else { rw }, lh + rh),
                }
            },
        }
    }

    /// Append the grid cell of every leaf, corner at `(x, y)`.
    fn collect_positions(&self, x: u64, y: u64, out: &mut Vec<(u64, u64)>)
        requires
            self.leaves_spec().len() <= u32::MAX,
            x + grid(*self).0 <= 2 * (u32::MAX as int),
            y + grid(*self).1 <= 2 * (u32::MAX as int),
        ensures
            final(out)@.len() == old(out)@.len() + positions(*self, x as int, y as int).len(),
            forall|i: int|
                0 <= i < old(out)@.len() ==> final(out)@[i] == old(out)@[i],
            forall|i: int|
                0 <= i < positions(*self, x as int, y as int).len() ==> {
                    &&& final(out)@[old(out)@.len() + i].0 == positions(*self, x as int, y as int)[i].0
                    &&& final(out)@[old(out)@.len() + i].1 == positions(*self, x as int, y as int)[i].1
                },
        decreases self,
    {
        match self {
            PaneNode::Leaf(_) => {
                out.push((x, y));
            },
            PaneNode::Split(split) => {
                proof {
                    lemma_grid_bound(*split.left);
                    lemma_grid_bound(*split.right);
                    lemma_positions_len(*split.left, x as int, y as int);
                }
                let ghost o = out@;
                let (lw, lh) = split.left.grid_size();
                split.left.collect_positions(x, y, out);
                let ghost mid = out@;
                match split.direction {
                    SplitDirection::Horizontal => {
                        split.right.collect_positions(x + lw, y, out);
                        proof {
                            lemma_positions_len(*split.right, x + lw, y as int);
                        }
                    },
                    SplitDirection::Vertical => {
                        split.right.collect_positions(x, y + lh, out);
                        proof {
                            lemma_positions_len(*split.right, x as int, y + lh);
                        }
                    },
                }
                proof {
                    let ps = positions(*self, x as int, y as int);
                    let pl = positions(*split.left, x as int, y as int);
                    assert forall|i: int| 0 <= i < ps.len() implies {
                        &&& out@[o.len() + i].0 == ps[i].0
                        &&& out@[o.len() + i].1 == ps[i].1
                    } by {
                        if i < pl.len() {
                            assert(mid[o.len() + i] == out@[o.len() + i]);
                        }
                    }
                }
            },
        }
    }
}


/// A session pane with the given pane id showing session `sid`.
pub open spec fn is_new_session_pane(p: Pane, pane_id: String, sid: Seq<char>) -> bool {
    &&& p.id == pane_id
    &&& p.content is Session
    &&& p.content->Session_id@ == sid
}

/// A launcher pane with the given pane id for project `project`.
pub open spec fn is_new_launcher_pane(p: Pane, pane_id: String, project: Seq<char>) -> bool {
    &&& p.id == pane_id
    &&& p.content is Launcher
    &&& p.content->project_id@ == project
}

/// Detach the first leaf with id `id` unless it is the lone root leaf.
pub open spec fn detach_spec(n: PaneNode, id: Seq<char>) -> PaneNode {
    let k = first_index(n.leaves_spec(), id);
    if k >= 0 && n is Split {
        n.remove_leaf(k)
    } else {
        n
    }
}

/// Whether [`detach_spec`] detaches anything.
pub open spec fn detaches(n: PaneNode, id: Seq<char>) -> bool {
    first_index(n.leaves_spec(), id) >= 0 && n is Split
}

/// Ids of the launcher leaves, in preorder.
pub open spec fn launcher_ids(s: Seq<Pane>) -> Seq<Seq<char>> {
    pane_ids(s.filter(|p: Pane| p.content is Launcher))
}

/// Detach every id of `ids` in turn (the first leaf with that id each time);
/// the flag says every id was still present when its turn came.
pub open spec fn strip_fold(n: PaneNode, ids: Seq<Seq<char>>) -> (PaneNode, bool)
    decreases ids.len(),
{
    if ids.len() == 0 {
        (n, true)
    } else {
        let present = first_index(n.leaves_spec(), ids[0]) >= 0;
        let rest = strip_fold(detach_spec(n, ids[0]), ids.drop_first());
        (rest.0, present && rest.1)
    }
}

/// The set of session pane ids of a tree.
pub open spec fn session_id_set(n: PaneNode) -> Set<Seq<char>> {
    pane_ids(session_panes(n.leaves_spec())).to_set()
}

/// `n` is `o` after a session leaf `new_pane_id` showing `sid` went in
/// beside the first leaf `target` on `edge`.
pub open spec fn session_inserted(
    o: PaneGroup,
    n: PaneGroup,
    sid: Seq<char>,
    target: Seq<char>,
    edge: PaneEdge,
    new_pane_id: String,
) -> bool {
    let k = first_index(o.root.leaves_spec(), target);
    &&& n.same_identity(&o)
    &&& n.snapshot().is_none()
    &&& exists|np: Pane|
        is_new_session_pane(np, new_pane_id, sid) && n.root == o.root.set_leaf(
            k,
            split_beside(edge, o.root.leaves_spec()[k], np),
        )
}

/// `n` is `o` after a session leaf went in at the group's root edge, taking
/// the share `1/(count+1)`.
pub open spec fn session_inserted_at_edge(
    o: PaneGroup,
    n: PaneGroup,
    sid: Seq<char>,
    edge: PaneEdge,
    new_pane_id: String,
) -> bool {
    let c = o.root.session_count();
    &&& n.same_identity(&o)
    &&& n.snapshot().is_none()
    &&& exists|np: Pane|
        is_new_session_pane(np, new_pane_id, sid) && n.root == PaneNode::Split(
            PaneSplit {
                direction: edge.direction_spec(),
                ratio: if edge.new_leaf_left_spec() {
                    clamp_spec(1, (c + 1) as u64)
                } else {
                    clamp_spec(c as u64, (c + 1) as u64)
                },
                left: Box::new(
                    if edge.new_leaf_left_spec() {
                        PaneNode::Leaf(np)
                    } else {
                        o.root
                    },
                ),
                right: Box::new(
                    if edge.new_leaf_left_spec() {
                        o.root
                    } else {
                        PaneNode::Leaf(np)
                    },
                ),
            },
        )
}

/// `n` is `o` after the first leaf `pane_id` was detached (its parent
/// collapsing to the sibling), with the representative promoted to the first
/// session leaf when it was the detached pane.
pub open spec fn pane_detached(o: PaneGroup, n: PaneGroup, pane_id: Seq<char>) -> bool {
    let root = detach_spec(o.root, pane_id);
    &&& n.root == root
    &&& n.id == o.id
    &&& n.snapshot().is_none()
    &&& n.representative_pane_id == (if o.representative_pane_id@ == pane_id && session_panes(
        root.leaves_spec(),
    ).len() > 0 {
        session_panes(root.leaves_spec())[0].id
    } else {
        o.representative_pane_id
    })
}

/// `n` is `o` with the first leaves `a` and `b` exchanged.
pub open spec fn panes_swapped(o: PaneGroup, n: PaneGroup, a: Seq<char>, b: Seq<char>) -> bool {
    let leaves = o.root.leaves_spec();
    let ka = first_index(leaves, a);
    let kb = first_index(leaves, b);
    &&& n.root == o.root.set_leaf(ka, PaneNode::Leaf(leaves[kb])).set_leaf(
        kb,
        PaneNode::Leaf(leaves[ka]),
    )
    &&& n.same_identity(&o)
    &&& n.snapshot() == o.snapshot()
}

/// `n` is `o` with the split at `path` resized to `num/den` (clamped).
pub open spec fn split_resized(
    o: PaneGroup,
    n: PaneGroup,
    path: Seq<PaneSplitBranch>,
    num: u64,
    den: u64,
) -> bool {
    &&& n.root == with_ratio_at(o.root, path, clamp_spec(num, den))
    &&& n.same_identity(&o)
    &&& n.snapshot().is_none()
}

/// `n` is `o` after a launcher leaf for `project` went in beside the first
/// leaf `target` (the snapshot taken when none was held).
pub open spec fn launcher_inserted(
    o: PaneGroup,
    n: PaneGroup,
    project: Seq<char>,
    target: Seq<char>,
    edge: PaneEdge,
    new_pane_id: String,
) -> bool {
    let k = first_index(o.root.leaves_spec(), target);
    &&& n.same_identity(&o)
    &&& n.snapshot() == (match o.snapshot() {
        Some(s) => Some(s),
        None => Some(o.root),
    })
    &&& exists|np: Pane|
        is_new_launcher_pane(np, new_pane_id, project) && n.root == o.root.set_leaf(
            k,
            split_beside(edge, o.root.leaves_spec()[k], np),
        )
}

/// `n` is `o` with the first leaf `pane_id` (a launcher) rebound to session
/// `sid`.
pub open spec fn launcher_bound(o: PaneGroup, n: PaneGroup, pane_id: Seq<char>, sid: Seq<char>) -> bool {
    let leaves = o.root.leaves_spec();
    let k = first_index(leaves, pane_id);
    &&& n.same_identity(&o)
    &&& n.snapshot() == o.snapshot()
    &&& exists|s: String|
        s@ == sid && n.root == o.root.set_leaf(k, PaneNode::Leaf(rebound(leaves[k], s)))
}

/// Whether removing launcher `pane_id` from `o` restores the snapshot: one is
/// held, and its session-leaf id set equals that of the tree with every
/// launcher stripped.
pub open spec fn launcher_restores(o: PaneGroup) -> bool {
    match o.snapshot() {
        Some(snap) => {
            let stripped = strip_fold(o.root, launcher_ids(o.root.leaves_spec()));
            stripped.1 && session_id_set(snap) == session_id_set(stripped.0)
        },
        None => false,
    }
}

/// `n` is `o` after removing launcher `pane_id`; `r` is the result.
pub open spec fn launcher_removed(o: PaneGroup, n: PaneGroup, pane_id: Seq<char>, r: bool) -> bool {
    &&& n.same_identity(&o)
    &&& launcher_restores(o) ==> r && n.root == o.snapshot().unwrap() && n.snapshot().is_none()
    &&& !launcher_restores(o) ==> r == detaches(o.root, pane_id) && n.root == detach_spec(
        o.root,
        pane_id,
    ) && n.snapshot() == (if r {
        None
    } else {
        o.snapshot()
    })
}

/// A throwaway leaf used while a tree is moved out of its slot.
fn placeholder() -> (r: PaneNode)
    ensures
        r matches PaneNode::Leaf(p) && p.id@ == Seq::<char>::empty() && p.content is Session
            && p.content->Session_id@ == Seq::<char>::empty(),
{
    PaneNode::Leaf(Pane { id: String::new(), content: PaneContent::Session { id: String::new() } })
}

/// One pane group: a window's worth of splits.
#[derive(Debug, PartialEq, Eq)]
pub struct PaneGroup {
    pub id: String,
    pub representative_pane_id: String,
    pub root: PaneNode,
    /// Pre-insert tree snapshot while a launcher leaf is live.
    pub launcher_snapshot: Option<PaneNode>,
}

impl Clone for PaneGroup {
    fn clone(&self) -> (r: Self)
        ensures
            r == *self,
    {
        PaneGroup {
            id: self.id.clone(),
            representative_pane_id: self.representative_pane_id.clone(),
            root: self.root.duplicate(),
            launcher_snapshot: match &self.launcher_snapshot {
                Some(n) => Some(n.duplicate()),
                None => None,
            },
        }
    }
}

impl PaneGroup {
    /// The tree saved when the first launcher leaf went in, if any.
    pub open spec fn snapshot(&self) -> Option<PaneNode> {
        self.launcher_snapshot
    }

    /// The group survives: at least 2 session leaves, or exactly 1 session
    /// plus a live launcher.
    pub open spec fn viable_spec(&self) -> bool {
        let n = self.root.session_count();
        n >= 2 || (n == 1 && self.root.has_launcher())
    }

    /// Everything but the tree and the snapshot is unchanged.
    pub open spec fn same_identity(&self, other: &PaneGroup) -> bool {
        self.id == other.id && self.representative_pane_id == other.representative_pane_id
    }

    pub fn new(id: String, representative_pane_id: String, root: PaneNode) -> (r: Self)
        ensures
            r.id == id,
            r.representative_pane_id == representative_pane_id,
            r.root == root,
            r.snapshot().is_none(),
    {
        PaneGroup { id, representative_pane_id, root, launcher_snapshot: None }
    }

    /// The current snapshot (pre-launcher tree), if a launcher is live.
    pub fn launcher_snapshot(&self) -> (r: Option<&PaneNode>)
        ensures
            match self.snapshot() {
                Some(n) => r == Some(&n),
                None => r.is_none(),
            },
    {
        match &self.launcher_snapshot {
            Some(n) => Some(n),
            None => None,
        }
    }

    fn take_root(&mut self) -> (r: PaneNode)
        ensures
            r == old(self).root,
            final(self).id == old(self).id,
            final(self).representative_pane_id == old(self).representative_pane_id,
            final(self).snapshot() == old(self).snapshot(),
    {
        let mut n = placeholder();
        std::mem::swap(&mut n, &mut self.root);
        n
    }

    /// Insert a session leaf by splitting the first leaf `target_pane_id` on
    /// `edge` at the even ratio: the new leaf is the left child for left/up
    /// edges, the right child for right/down edges. Any explicit geometry
    /// change drops the launcher snapshot.
    pub fn insert_session(
        &mut self,
        session_id: &str,
        target_pane_id: &str,
        edge: PaneEdge,
        new_pane_id: String,
    ) -> (r: bool)
        ensures
            ({
                let k = first_index(old(self).root.leaves_spec(), target_pane_id@);
                &&& r == (k >= 0)
                &&& !r ==> *final(self) == *old(self)
                &&& r ==> session_inserted(
                    *old(self),
                    *final(self),
                    session_id@,
                    target_pane_id@,
                    edge,
                    new_pane_id,
                )
            }),
    {
        let ghost o = *self;
        let ghost gid = new_pane_id;
        let np = Pane { id: new_pane_id, content: PaneContent::Session { id: owned(session_id) } };
        let root = self.take_root();
        let (nr, found) = root.split_first(target_pane_id, edge, &np);
        self.root = nr;
        if found {
            self.launcher_snapshot = None;
        }
        proof {
            if !found {
                assert(*self == o);
            } else {
                assert(is_new_session_pane(np, gid, session_id@));
            }
        }
        found
    }

    /// Insert at the group's root edge. The new leaf's share is
    /// `1/(n+1)` for `n` session leaves: the ratio (the left child's share)
    /// is `1/(n+1)` when the new leaf lands on the left and `n/(n+1)` when it
    /// lands on the right.
    pub fn insert_session_at_group_edge(&mut self, session_id: &str, edge: PaneEdge, new_pane_id: String) -> (r:
        bool)
        requires
            old(self).root.leaves_spec().len() < u64::MAX,
        ensures
            r,
            session_inserted_at_edge(*old(self), *final(self), session_id@, edge, new_pane_id),
    {
        let count = self.root.session_leaves().len();
        proof {
            session_panes(self.root.leaves_spec()).lemma_filter_len(|p: Pane| is_session_pane(p));
        }
        let count = count as u64;
        let (num, den) = if edge.new_leaf_is_left_child() {
            (1u64, count + 1)
        } else {
            (count, count + 1)
        };
        let ghost gid = new_pane_id;
        let pane = Pane { id: new_pane_id, content: PaneContent::Session { id: owned(session_id) } };
        let ghost gp = pane;
        assert(is_new_session_pane(gp, gid, session_id@));
        let np = PaneNode::Leaf(pane);
        let old_root = self.take_root();
        let (left, right) = if edge.new_leaf_is_left_child() {
            (np, old_root)
        } else {
            (old_root, np)
        };
        self.root = PaneNode::Split(PaneSplit::new(edge.split_direction(), num, den, left, right));
        self.launcher_snapshot = None;
        true
    }

    /// Whether the group survives (see [`PaneGroup::viable_spec`]).
    pub fn is_viable(&self) -> (r: bool)
        ensures
            r == self.viable_spec(),
    {
        let sessions = self.root.session_leaves().len();
        sessions >= 2 || (sessions == 1 && self.root.contains_launcher())
    }

    /// Promote the first session leaf to representative when the old
    /// representative was `gone`.
    fn promote_representative(&mut self, gone: &str)
        ensures
            final(self).id == old(self).id,
            final(self).root == old(self).root,
            final(self).snapshot() == old(self).snapshot(),
            final(self).representative_pane_id == (if old(self).representative_pane_id@ == gone@
                && session_panes(old(self).root.leaves_spec()).len() > 0 {
                session_panes(old(self).root.leaves_spec())[0].id
            } else {
                old(self).representative_pane_id
            }),
    {
        if str_eq(self.representative_pane_id.as_str(), gone) {
            let sessions = self.root.session_leaves();
            if sessions.len() > 0 {
                proof {
                    assert(derefs(sessions@)[0] == *sessions@[0]);
                }
                let first = sessions[0].id.clone();
                self.representative_pane_id = first;
            }
        }
    }

    /// Detach a leaf and collapse its parent split to the surviving sibling;
    /// a detached representative is replaced by the first session leaf.
    /// Returns whether the group is still viable; `false` also when the pane
    /// is absent or is the group's only leaf (nothing changes then).
    pub fn detach_pane(&mut self, pane_id: &str) -> (r: bool)
        ensures
            !detaches(old(self).root, pane_id@) ==> *final(self) == *old(self) && !r,
            detaches(old(self).root, pane_id@) ==> pane_detached(*old(self), *final(self), pane_id@)
                && r == final(self).viable_spec(),
    {
        let ghost o = *self;
        let root = self.take_root();
        let (nr, detached) = root.detach_first(pane_id);
        self.root = nr;
        if !detached {
            assert(*self == o);
            return false;
        }
        self.launcher_snapshot = None;
        self.promote_representative(pane_id);
        self.is_viable()
    }

    /// Equalize: every split's ratio becomes
    /// `leftWeight / (leftWeight + rightWeight)` (see [`weight`]).
    pub fn equalize(&mut self)
        requires
            old(self).root.leaves_spec().len() <= u64::MAX,
        ensures
            final(self).root == equalized(old(self).root),
            final(self).same_identity(old(self)),
            final(self).snapshot() == old(self).snapshot(),
    {
        let root = self.take_root();
        self.root = root.equalize_node();
    }

    /// Exchange the positions of two leaves (the first leaf with each id);
    /// pane ids travel with their leaves, so the representative id is
    /// unaffected. Swapping the same two panes again restores the tree (see
    /// [`lemma_swap_twice_restores`]).
    pub fn swap_panes(&mut self, pane_id: &str, other_pane_id: &str) -> (r: bool)
        ensures
            ({
                let leaves = old(self).root.leaves_spec();
                let ka = first_index(leaves, pane_id@);
                let kb = first_index(leaves, other_pane_id@);
                &&& r == (pane_id@ != other_pane_id@ && ka >= 0 && kb >= 0)
                &&& !r ==> *final(self) == *old(self)
                &&& r ==> panes_swapped(*old(self), *final(self), pane_id@, other_pane_id@)
            }),
    {
        if str_eq(pane_id, other_pane_id) {
            return false;
        }
        let la = match self.root.leaf(pane_id) {
            Some(p) => copy_pane(p),
            None => return false,
        };
        let lb = match self.root.leaf(other_pane_id) {
            Some(p) => copy_pane(p),
            None => return false,
        };
        let root = self.take_root();
        let (nr, _, _) = root.swap_rec(pane_id, other_pane_id, &la, &lb, false, false);
        self.root = nr;
        true
    }

    /// Resize the split at `path` to `num/den` (clamped).
    pub fn resize_split(&mut self, path: &PaneSplitPath, num: u64, den: u64) -> (r: bool)
        ensures
            r == (node_at(old(self).root, path.components@) matches Some(m) && m is Split),
            !r ==> *final(self) == *old(self),
            r ==> split_resized(*old(self), *final(self), path.components@, num, den),
    {
        let ghost o = *self;
        let ratio = clamp_ratio(num, den);
        let root = self.take_root();
        let (nr, ok) = root.set_ratio_at(&path.components, 0, ratio);
        assert(path.components@.subrange(0, path.components@.len() as int) =~= path.components@);
        self.root = nr;
        if ok {
            self.launcher_snapshot = None;
        } else {
            assert(*self == o);
        }
        ok
    }

    /// Insert a launcher leaf beside the first leaf `target_pane_id`. The
    /// pre-insert tree is snapshotted first (when no snapshot is held yet),
    /// whether or not the target exists. Removing the launcher again restores
    /// the tree (see [`lemma_launcher_insert_remove_restores`]).
    pub fn insert_launcher(
        &mut self,
        project_id: &str,
        target_pane_id: &str,
        edge: PaneEdge,
        new_pane_id: String,
    ) -> (r: bool)
        ensures
            ({
                let k = first_index(old(self).root.leaves_spec(), target_pane_id@);
                &&& r == (k >= 0)
                &&& final(self).same_identity(old(self))
                &&& final(self).snapshot() == (match old(self).snapshot() {
                    Some(n) => Some(n),
                    None => Some(old(self).root),
                })
                &&& !r ==> final(self).root == old(self).root
                &&& r ==> launcher_inserted(
                    *old(self),
                    *final(self),
                    project_id@,
                    target_pane_id@,
                    edge,
                    new_pane_id,
                )
            }),
    {
        if self.launcher_snapshot.is_none() {
            self.launcher_snapshot = Some(self.root.duplicate());
        }
        let ghost gid = new_pane_id;
        let np = Pane {
            id: new_pane_id,
            content: PaneContent::Launcher { project_id: owned(project_id) },
        };
        assert(is_new_launcher_pane(np, gid, project_id@));
        let root = self.take_root();
        let (nr, found) = root.split_first(target_pane_id, edge, &np);
        self.root = nr;
        found
    }

    /// Bind a launcher leaf to a real session (keeps geometry and pane id,
    /// swaps the content).
    pub fn bind_launcher(&mut self, pane_id: &str, session_id: &str) -> (r: bool)
        ensures
            ({
                let leaves = old(self).root.leaves_spec();
                let k = first_index(leaves, pane_id@);
                &&& r == (k >= 0 && leaves[k].content is Launcher)
                &&& !r ==> *final(self) == *old(self)
                &&& r ==> launcher_bound(*old(self), *final(self), pane_id@, session_id@)
            }),
    {
        let ghost o = *self;
        let root = self.take_root();
        let (nr, ok) = root.rebind_first(pane_id, session_id);
        self.root = nr;
        if !ok {
            assert(*self == o);
        }
        ok
    }
}


/// The character views of a sequence of strings.
pub open spec fn views(v: Seq<String>) -> Seq<Seq<char>> {
    v.map_values(|s: String| s@)
}

/// Ids of the leaves of `n` that satisfy `launchers ? launcher : session`.
pub(crate) fn pane_ids_of_kind(n: &PaneNode, launchers: bool) -> (r: Vec<String>)
    ensures
        launchers ==> views(r@) == launcher_ids(n.leaves_spec()),
        !launchers ==> views(r@) == pane_ids(session_panes(n.leaves_spec())),
{
    let all = n.leaves();
    let ghost ls = n.leaves_spec();
    let ghost pred = if launchers {
        |p: Pane| p.content is Launcher
    } else {
        |p: Pane| is_session_pane(p)
    };
    let mut out: Vec<String> = Vec::new();
    let mut i: usize = 0;
    while i < all.len()
        invariant
            i <= all.len(),
            derefs(all@) == ls,
            pred == (if launchers {
                |p: Pane| p.content is Launcher
            } else {
                |p: Pane| is_session_pane(p)
            }),
            views(out@) == pane_ids(ls.subrange(0, i as int).filter(pred)),
        decreases all.len() - i,
    {
        let p = all[i];
        let ghost pre = ls.subrange(0, i as int);
        proof {
            assert(ls.subrange(0, i + 1) =~= pre + seq![*p]);
            Seq::filter_distributes_over_add(pre, seq![*p], pred);
            reveal_with_fuel(Seq::filter, 2);
        }
        let take = if launchers {
            p.content.is_launcher()
        } else {
            !p.content.is_launcher()
        };
        let ghost before = out@;
        proof {
            assert(pred(*p) == take);
            assert(ls.subrange(0, i + 1).filter(pred) == pre.filter(pred) + seq![*p].filter(pred));
        }
        if take {
            out.push(p.id.clone());
            proof {
                assert(seq![*p].filter(pred) =~= seq![*p]);
                assert(pane_ids(pre.filter(pred) + seq![*p]) =~= pane_ids(pre.filter(pred)).push(
                    p.id@,
                ));
                assert(views(out@) =~= views(before).push(p.id@));
            }
        } else {
            proof {
                assert(seq![*p].filter(pred) =~= Seq::<Pane>::empty());
            }
        }
        proof {
            if !take {
                assert(pre.filter(pred) + Seq::<Pane>::empty() =~= pre.filter(pred));
            }
            assert(views(out@) =~= pane_ids(ls.subrange(0, i + 1).filter(pred)));
        }
        i += 1;
    }
    assert(ls.subrange(0, all.len() as int) =~= ls);
    out
}

/// Whether `x` occurs (by characters) in `v`.
pub(crate) fn contains_string(v: &Vec<String>, x: &String) -> (r: bool)
    ensures
        r == views(v@).contains(x@),
{
    let mut i: usize = 0;
    while i < v.len()
        invariant
            i <= v.len(),
            forall|j: int| 0 <= j < i ==> v@[j]@ != x@,
        decreases v.len() - i,
    {
        if v[i] == *x {
            assert(views(v@)[i as int] == x@);
            return true;
        }
        i += 1;
    }
    proof {
        if views(v@).contains(x@) {
            let j = choose|j: int| 0 <= j < views(v@).len() && views(v@)[j] == x@;
            assert(v@[j]@ == x@);
        }
    }
    false
}

/// Whether `a` and `b` hold the same set of strings.
fn same_string_set(a: &Vec<String>, b: &Vec<String>) -> (r: bool)
    ensures
        r == (views(a@).to_set() == views(b@).to_set()),
{
    let mut i: usize = 0;
    while i < a.len()
        invariant
            i <= a.len(),
            forall|j: int| 0 <= j < i ==> views(b@).contains(#[trigger] views(a@)[j]),
        decreases a.len() - i,
    {
        if !contains_string(b, &a[i]) {
            proof {
                let x = a@[i as int]@;
                assert(views(a@)[i as int] == x);
                assert(views(a@).to_set().contains(x));
                assert(!views(b@).to_set().contains(x));
            }
            return false;
        }
        i += 1;
    }
    let mut j: usize = 0;
    while j < b.len()
        invariant
            j <= b.len(),
            forall|k: int| 0 <= k < a.len() ==> views(b@).contains(#[trigger] views(a@)[k]),
            forall|k: int| 0 <= k < j ==> views(a@).contains(#[trigger] views(b@)[k]),
        decreases b.len() - j,
    {
        if !contains_string(a, &b[j]) {
            proof {
                let x = b@[j as int]@;
                assert(views(b@)[j as int] == x);
                assert(views(b@).to_set().contains(x));
                assert(!views(a@).to_set().contains(x));
            }
            return false;
        }
        j += 1;
    }
    proof {
        assert forall|x: Seq<char>| views(a@).to_set().contains(x) implies views(
            b@,
        ).to_set().contains(x) by {
            let k = choose|k: int| 0 <= k < views(a@).len() && views(a@)[k] == x;
        }
        assert forall|x: Seq<char>| views(b@).to_set().contains(x) implies views(
            a@,
        ).to_set().contains(x) by {
            let k = choose|k: int| 0 <= k < views(b@).len() && views(b@)[k] == x;
        }
        assert(views(a@).to_set() =~= views(b@).to_set());
    }
    true
}

/// Detach without viability checks: removes the first leaf with id `pane_id`
/// unless it is the lone root leaf. Returns whether a leaf was detached.
pub fn detach_unchecked(root: &mut PaneNode, pane_id: &str) -> (r: bool)
    ensures
        r == detaches(*old(root), pane_id@),
        *final(root) == detach_spec(*old(root), pane_id@),
{
    let mut n = placeholder();
    std::mem::swap(&mut n, root);
    let (nr, ok) = n.detach_first(pane_id);
    *root = nr;
    ok
}

/// Detach every id of `ids` in turn, on a copy.
pub(crate) fn strip_ids(n: &PaneNode, ids: &Vec<String>) -> (r: (PaneNode, bool))
    ensures
        r == strip_fold(*n, views(ids@)),
{
    let mut cur = n.duplicate();
    let mut ok = true;
    let mut i: usize = 0;
    assert(views(ids@).skip(0) =~= views(ids@));
    while i < ids.len()
        invariant
            i <= ids.len(),
            strip_fold(*n, views(ids@)) == ({
                let rest = strip_fold(cur, views(ids@).skip(i as int));
                (rest.0, ok && rest.1)
            }),
        decreases ids.len() - i,
    {
        proof {
            assert(views(ids@).skip(i as int).drop_first() =~= views(ids@).skip(i + 1));
            assert(views(ids@).skip(i as int)[0] == ids@[i as int]@);
        }
        if cur.has_pane(ids[i].as_str()) {
            detach_unchecked(&mut cur, ids[i].as_str());
        } else {
            ok = false;
        }
        i += 1;
    }
    assert(views(ids@).skip(ids.len() as int) =~= Seq::<Seq<char>>::empty());
    (cur, ok)
}

impl PaneGroup {
    /// Remove a launcher leaf. While a snapshot is held, it is restored iff
    /// its session-leaf id set equals that of the tree with every launcher
    /// leaf stripped; otherwise the leaf `pane_id` is detached normally. Right
    /// after [`insert_launcher`](PaneGroup::insert_launcher) this always
    /// restores the tree as it was (see
    /// [`lemma_launcher_insert_remove_restores`]).
    pub fn remove_launcher(&mut self, pane_id: &str) -> (r: bool)
        ensures
            launcher_removed(*old(self), *final(self), pane_id@, r),
    {
        let mut restored: Option<PaneNode> = None;
        match &self.launcher_snapshot {
            Some(snap) => {
                let snapshot_ids = pane_ids_of_kind(snap, false);
                let launchers = pane_ids_of_kind(&self.root, true);
                let (stripped, ok) = strip_ids(&self.root, &launchers);
                let stripped_ids = pane_ids_of_kind(&stripped, false);
                if ok && same_string_set(&snapshot_ids, &stripped_ids) {
                    restored = Some(snap.duplicate());
                }
            },
            None => {},
        }
        match restored {
            Some(n) => {
                self.root = n;
                self.launcher_snapshot = None;
                true
            },
            None => {
                let detached = detach_unchecked(&mut self.root, pane_id);
                if detached {
                    self.launcher_snapshot = None;
                }
                detached
            },
        }
    }
}

/// Whether the offset `(dx, dy)` lies in `direction` (within the 45-degree
/// cone around that axis, away from zero).
pub open spec fn in_direction(direction: FocusDirection, dx: int, dy: int) -> bool {
    let ax = if dx < 0 {
        -dx
    } else {
        dx
    };
    let ay = if dy < 0 {
        -dy
    } else {
        dy
    };
    match direction {
        FocusDirection::Left => dx < 0 && ay <= ax,
        FocusDirection::Right => dx > 0 && ay <= ax,
        FocusDirection::Up => dy < 0 && ax <= ay,
        FocusDirection::Down => dy > 0 && ax <= ay,
    }
}

#[derive(Clone, Copy, Debug, PartialEq, Eq, Structural)]
pub enum FocusDirection {
    Left,
    Right,
    Up,
    Down,
}

/// Leaf `k` is a focus candidate for a query from pane `from`: a different
/// id, and the last leaf carrying its id (the grid keeps one cell per id,
/// the last written).
pub open spec fn focus_candidate(leaves: Seq<Pane>, from: Seq<char>, k: int) -> bool {
    &&& 0 <= k < leaves.len()
    &&& leaves[k].id@ != from
    &&& last_index(leaves, leaves[k].id@) == k
}

/// Squared grid distance between leaves `k` and `t`.
pub open spec fn grid_dist(pos: Seq<(int, int)>, t: int, k: int) -> int {
    let dx = pos[k].0 - pos[t].0;
    let dy = pos[k].1 - pos[t].1;
    dx * dx + dy * dy
}

fn in_direction_exec(direction: FocusDirection, dx: i64, dy: i64) -> (r: bool)
    requires
        -(u32::MAX as int) <= dx <= u32::MAX,
        -(u32::MAX as int) <= dy <= u32::MAX,
    ensures
        r == in_direction(direction, dx as int, dy as int),
{
    let ax = if dx < 0 { -dx } else { dx };
    let ay = if dy < 0 { -dy } else { dy };
    match direction {
        FocusDirection::Left => dx < 0 && ay <= ax,
        FocusDirection::Right => dx > 0 && ay <= ax,
        FocusDirection::Up => dy < 0 && ax <= ay,
        FocusDirection::Down => dy > 0 && ax <= ay,
    }
}

/// Whether leaf `k` is the last leaf carrying its id.
fn is_last_with_id(all: &Vec<&Pane>, k: usize) -> (r: bool)
    requires
        k < all.len(),
    ensures
        r == (last_index(derefs(all@), all@[k as int].id@) == k),
{
    let ghost ls = derefs(all@);
    let mut j = k + 1;
    while j < all.len()
        invariant
            k < j <= all.len(),
            ls == derefs(all@),
            forall|m: int| k < m < j ==> ls[m].id@ != ls[k as int].id@,
        decreases all.len() - j,
    {
        if str_eq(all[j].id.as_str(), all[k].id.as_str()) {
            proof {
                lemma_last_index(ls, ls[k as int].id@);
                assert(ls[j as int].id@ == ls[k as int].id@);
            }
            return false;
        }
        j += 1;
    }
    proof {
        lemma_last_index(ls, ls[k as int].id@);
        let li = last_index(ls, ls[k as int].id@);
        assert(li >= k);
    }
    true
}

impl PaneGroup {
    /// Spatial query: the nearest leaf in `direction` from the pane
    /// `pane_id` over the artificial grid subdivision (see [`positions`]).
    /// Returns the neighbour's pane id; `None` when the pane is absent or
    /// no leaf lies in that direction. Which of several equally near leaves
    /// is returned is left open.
    pub fn focus_neighbor(&self, pane_id: &str, direction: FocusDirection) -> (r: Option<String>)
        requires
            self.root.leaves_spec().len() <= u32::MAX,
        ensures
            ({
                let leaves = self.root.leaves_spec();
                let pos = positions(self.root, 0, 0);
                let t = last_index(leaves, pane_id@);
                &&& t < 0 ==> r.is_none()
                &&& t >= 0 ==> (r.is_none() <==> !exists|k: int|
                    focus_candidate(leaves, pane_id@, k) && in_direction(
                        direction,
                        pos[k].0 - pos[t].0,
                        pos[k].1 - pos[t].1,
                    ))
                &&& r.is_some() ==> exists|k: int|
                    focus_candidate(leaves, pane_id@, k) && in_direction(
                        direction,
                        pos[k].0 - pos[t].0,
                        pos[k].1 - pos[t].1,
                    ) && leaves[k].id == r.unwrap() && forall|m: int|
                        focus_candidate(leaves, pane_id@, m) && in_direction(
                            direction,
                            pos[m].0 - pos[t].0,
                            pos[m].1 - pos[t].1,
                        ) ==> grid_dist(pos, t, k) <= grid_dist(pos, t, m)
            }),
    {
        let ghost leaves = self.root.leaves_spec();
        let ghost pos = positions(self.root, 0, 0);
        let all = self.root.leaves();
        let mut cells: Vec<(u64, u64)> = Vec::new();
        proof {
            lemma_grid_bound(self.root);
        }
        self.root.collect_positions(0, 0, &mut cells);
        proof {
            lemma_last_index(leaves, pane_id@);
            assert(derefs(all@).len() == all@.len());
        }
        // The target cell: the last leaf with this id.
        let mut t: usize = all.len();
        let mut i: usize = 0;
        while i < all.len()
            invariant
                i <= all.len(),
                all@.len() == leaves.len(),
                derefs(all@) == leaves,
                t == all.len() || (t < i && leaves[t as int].id@ == pane_id@),
                t == all.len() ==> forall|j: int| 0 <= j < i ==> leaves[j].id@ != pane_id@,
                t < all.len() ==> forall|j: int| t < j < i ==> leaves[j].id@ != pane_id@,
            decreases all.len() - i,
        {
            if str_eq(all[i].id.as_str(), pane_id) {
                t = i;
            }
            i += 1;
        }
        if t == all.len() {
            proof {
                if last_index(leaves, pane_id@) >= 0 {
                    let li = last_index(leaves, pane_id@);
                    assert(leaves[li].id@ == pane_id@);
                }
            }
            return None;
        }
        proof {
            let li = last_index(leaves, pane_id@);
            assert(li == t);
        }
        proof {
            assert forall|j: int| 0 <= j < pos.len() implies 0 <= (#[trigger] pos[j]).0 < u32::MAX
                && 0 <= pos[j].1 < u32::MAX by {
                lemma_positions_bound(self.root, 0, 0, j);
            }
        }
        let (tx, ty) = cells[t];
        let mut best: Option<(u128, usize)> = None;
        let mut k: usize = 0;
        while k < all.len()
            invariant
                k <= all.len(),
                all@.len() == leaves.len(),
                cells@.len() == leaves.len(),
                pos.len() == leaves.len(),
                derefs(all@) == leaves,
                t < all.len(),
                t as int == last_index(leaves, pane_id@),
                forall|j: int|
                    0 <= j < pos.len() ==> cells@[j].0 == pos[j].0 && cells@[j].1 == pos[j].1,
                forall|j: int|
                    0 <= j < pos.len() ==> 0 <= (#[trigger] pos[j]).0 < u32::MAX && 0 <= pos[j].1
                        < u32::MAX,
                tx == pos[t as int].0,
                ty == pos[t as int].1,
                best.is_none() ==> forall|m: int|
                    0 <= m < k ==> !(focus_candidate(leaves, pane_id@, m) && in_direction(
                        direction,
                        pos[m].0 - pos[t as int].0,
                        pos[m].1 - pos[t as int].1,
                    )),
                best.is_some() ==> {
                    let (d, b) = best.unwrap();
                    &&& b < k
                    &&& focus_candidate(leaves, pane_id@, b as int)
                    &&& in_direction(direction, pos[b as int].0 - pos[t as int].0, pos[b as int].1 - pos[t as int].1)
                    &&& d == grid_dist(pos, t as int, b as int)
                    &&& forall|m: int|
                        0 <= m < k && focus_candidate(leaves, pane_id@, m) && in_direction(
                            direction,
                            pos[m].0 - pos[t as int].0,
                            pos[m].1 - pos[t as int].1,
                        ) ==> d <= grid_dist(pos, t as int, m)
                },
            decreases all.len() - k,
        {
            let p = all[k];
            if !str_eq(p.id.as_str(), pane_id) && is_last_with_id(&all, k) {
                let (ox, oy) = cells[k];
                assert(0 <= pos[k as int].0 < u32::MAX && 0 <= pos[k as int].1 < u32::MAX);
                assert(0 <= pos[t as int].0 < u32::MAX && 0 <= pos[t as int].1 < u32::MAX);
                let dx = ox as i64 - tx as i64;
                let dy = oy as i64 - ty as i64;
                if in_direction_exec(direction, dx, dy) {
                    let ax = if dx < 0 { -dx } else { dx } as u128;
                    let ay = if dy < 0 { -dy } else { dy } as u128;
                    proof {
                        assert(ax as int == dx as int || ax as int == -(dx as int));
                        assert(ay as int == dy as int || ay as int == -(dy as int));
                        assert(ax * ax == (dx as int) * (dx as int)) by (nonlinear_arith)
                            requires ax as int == dx as int || ax as int == -(dx as int);
                        assert(ay * ay == (dy as int) * (dy as int)) by (nonlinear_arith)
                            requires ay as int == dy as int || ay as int == -(dy as int);
                        assert(ax * ax <= 0x1_0000_0000_0000_0000) by (nonlinear_arith)
                            requires ax <= 0xffff_ffff;
                        assert(ay * ay <= 0x1_0000_0000_0000_0000) by (nonlinear_arith)
                            requires ay <= 0xffff_ffff;
                    }
                    let dist = ax * ax + ay * ay;
                    proof {
                        assert(dist == grid_dist(pos, t as int, k as int)) by (nonlinear_arith)
                            requires
                                ax * ax == (dx as int) * (dx as int),
                                ay * ay == (dy as int) * (dy as int),
                                dist == ax * ax + ay * ay,
                                dx == pos[k as int].0 - pos[t as int].0,
                                dy == pos[k as int].1 - pos[t as int].1,
                        {}
                    }
                    let better = match best {
                        None => true,
                        Some((d, _)) => dist < d,
                    };
                    if better {
                        best = Some((dist, k));
                    }
                }
            }
            proof {
                assert(derefs(all@)[k as int] == *p);
            }
            k += 1;
        }
        match best {
            None => None,
            Some((_, b)) => {
                proof {
                    assert(derefs(all@)[b as int] == *all@[b as int]);
                }
                Some(all[b].id.clone())
            },
        }
    }
}


/// Operation errors for layout-level pane operations; `code()` gives the
/// contract's error strings.
#[derive(Clone, Copy, Debug, PartialEq, Eq, Structural)]
pub enum PaneOpError {
    DuplicateSession,
    CapacityReached,
    PaneNotFound,
    SplitNotFound,
    PanesBelongToDifferentGroups,
    GroupNotFound,
}

impl PaneOpError {
    pub open spec fn code_spec(self) -> Seq<char> {
        match self {
            PaneOpError::DuplicateSession => "duplicateSession"@,
            PaneOpError::CapacityReached => "capacityReached"@,
            PaneOpError::PaneNotFound => "paneNotFound"@,
            PaneOpError::SplitNotFound => "splitNotFound"@,
            PaneOpError::PanesBelongToDifferentGroups => "panesBelongToDifferentGroups"@,
            PaneOpError::GroupNotFound => "groupNotFound"@,
        }
    }

    pub fn code(&self) -> (r: &'static str)
        ensures
            r@ == self.code_spec(),
    {
        match self {
            PaneOpError::DuplicateSession => "duplicateSession",
            PaneOpError::CapacityReached => "capacityReached",
            PaneOpError::PaneNotFound => "paneNotFound",
            PaneOpError::SplitNotFound => "splitNotFound",
            PaneOpError::PanesBelongToDifferentGroups => "panesBelongToDifferentGroups",
            PaneOpError::GroupNotFound => "groupNotFound",
        }
    }
}

/// Where an `insertSession` operation targets.
#[derive(Clone, Debug, PartialEq, Eq)]
pub enum InsertTarget {
    /// Split at an existing pane.
    Pane { pane_id: String },
    /// Insert at a group's root edge.
    GroupEdge { group_id: String },
    /// The target session is solo (not in any group): create a fresh group
    /// holding the solo session and the new session.
    BesideSolo { session_id: String, new_group_id: String, new_representative_pane_id: String },
}

/// Index of the first group satisfying `f`, or `-1`.
pub open spec fn first_where(s: Seq<PaneGroup>, f: spec_fn(PaneGroup) -> bool) -> int
    decreases s.len(),
{
    if s.len() == 0 {
        -1
    } else if f(s[0]) {
        0
    } else {
        let r = first_where(s.drop_first(), f);
        if r < 0 {
            -1
        } else {
            r + 1
        }
    }
}

pub proof fn lemma_first_where(s: Seq<PaneGroup>, f: spec_fn(PaneGroup) -> bool, i: int)
    requires
        -1 <= i <= s.len(),
        i < s.len() ==> 0 <= i && f(s[i]),
        forall|j: int| 0 <= j < i ==> !f(#[trigger] s[j]),
        i == s.len() ==> forall|j: int| 0 <= j < s.len() ==> !f(#[trigger] s[j]),
    ensures
        first_where(s, f) == (if i == s.len() {
            -1
        } else {
            i
        }),
    decreases s.len(),
{
    if s.len() > 0 && i != 0 {
        let t = s.drop_first();
        assert forall|j: int| 0 <= j < i - 1 implies !f(#[trigger] t[j]) by {
            assert(t[j] == s[j + 1]);
        }
        if i == s.len() {
            assert forall|j: int| 0 <= j < t.len() implies !f(#[trigger] t[j]) by {
                assert(t[j] == s[j + 1]);
            }
        } else {
            assert(t[i - 1] == s[i]);
        }
        lemma_first_where(t, f, i - 1);
    }
}

pub proof fn lemma_first_where_found(s: Seq<PaneGroup>, f: spec_fn(PaneGroup) -> bool)
    ensures
        -1 <= first_where(s, f) < s.len(),
        first_where(s, f) >= 0 ==> f(s[first_where(s, f)]),
        first_where(s, f) >= 0 ==> forall|j: int| 0 <= j < first_where(s, f) ==> !f(#[trigger] s[j]),
        first_where(s, f) < 0 ==> forall|j: int| 0 <= j < s.len() ==> !f(#[trigger] s[j]),
    decreases s.len(),
{
    if s.len() > 0 && !f(s[0]) {
        lemma_first_where_found(s.drop_first(), f);
        assert forall|j: int| 0 < j < s.len() implies s[j] == s.drop_first()[j - 1] by {}
    }
}

/// The group holds a session leaf showing session `sid`.
pub open spec fn group_has_session(g: PaneGroup, sid: Seq<char>) -> bool {
    exists|i: int|
        0 <= i < session_panes(g.root.leaves_spec()).len() && (#[trigger] session_panes(
            g.root.leaves_spec(),
        )[i]).content is Session && session_panes(g.root.leaves_spec())[i].content->Session_id@
            == sid
}

/// The group's tree holds a leaf with id `pane_id`.
pub open spec fn group_has_pane(g: PaneGroup, pane_id: Seq<char>) -> bool {
    first_index(g.root.leaves_spec(), pane_id) >= 0
}

/// Index of the first group holding session `sid`.
pub open spec fn group_with_session(s: Seq<PaneGroup>, sid: Seq<char>) -> int {
    first_where(s, |g: PaneGroup| group_has_session(g, sid))
}

/// Index of the first group holding pane `pane_id`.
pub open spec fn group_with_pane(s: Seq<PaneGroup>, pane_id: Seq<char>) -> int {
    first_where(s, |g: PaneGroup| group_has_pane(g, pane_id))
}

/// Index of the first group with id `group_id`.
pub open spec fn group_with_id(s: Seq<PaneGroup>, group_id: Seq<char>) -> int {
    first_where(s, |g: PaneGroup| g.id@ == group_id)
}

/// `n` is `o` with element `i` replaced, the others untouched.
pub open spec fn only_changed(o: Seq<PaneGroup>, n: Seq<PaneGroup>, i: int) -> bool {
    &&& n.len() == o.len()
    &&& forall|j: int| 0 <= j < o.len() && j != i ==> n[j] == o[j]
}

fn has_session(g: &PaneGroup, session_id: &str) -> (r: bool)
    ensures
        r == group_has_session(*g, session_id@),
{
    let sessions = g.root.session_leaves();
    let ghost sp = session_panes(g.root.leaves_spec());
    let mut i: usize = 0;
    while i < sessions.len()
        invariant
            i <= sessions.len(),
            derefs(sessions@) == sp,
            sp == session_panes(g.root.leaves_spec()),
            forall|j: int|
                0 <= j < i ==> !((#[trigger] sp[j]).content is Session && sp[j].content->Session_id@
                    == session_id@),
        decreases sessions.len() - i,
    {
        proof {
            assert(sp[i as int] == *sessions@[i as int]);
            assert(sessions@.len() == sp.len());
        }
        match sessions[i].content.session_id() {
            Some(id) => {
                if str_eq(id, session_id) {
                    assert(session_panes(g.root.leaves_spec())[i as int].content is Session
                        && session_panes(g.root.leaves_spec())[i as int].content->Session_id@
                        == session_id@);
                    assert(group_has_session(*g, session_id@));
                    return true;
                }
            },
            None => {},
        }
        i += 1;
    }
    false
}

fn find_group_with_session(groups: &Vec<PaneGroup>, session_id: &str) -> (r: Option<usize>)
    ensures
        match r {
            Some(i) => i == group_with_session(groups@, session_id@) && i < groups@.len(),
            None => group_with_session(groups@, session_id@) == -1,
        },
{
    let ghost f = |g: PaneGroup| group_has_session(g, session_id@);
    let mut i: usize = 0;
    while i < groups.len()
        invariant
            i <= groups.len(),
            f == (|g: PaneGroup| group_has_session(g, session_id@)),
            forall|j: int| 0 <= j < i ==> !f(#[trigger] groups@[j]),
        decreases groups.len() - i,
    {
        if has_session(&groups[i], session_id) {
            proof {
                lemma_first_where(groups@, f, i as int);
            }
            return Some(i);
        }
        i += 1;
    }
    proof {
        lemma_first_where(groups@, f, groups@.len() as int);
    }
    None
}

fn find_group_with_pane(groups: &Vec<PaneGroup>, pane_id: &str) -> (r: Option<usize>)
    ensures
        match r {
            Some(i) => i == group_with_pane(groups@, pane_id@) && i < groups@.len(),
            None => group_with_pane(groups@, pane_id@) == -1,
        },
{
    let ghost f = |g: PaneGroup| group_has_pane(g, pane_id@);
    let mut i: usize = 0;
    while i < groups.len()
        invariant
            i <= groups.len(),
            f == (|g: PaneGroup| group_has_pane(g, pane_id@)),
            forall|j: int| 0 <= j < i ==> !f(#[trigger] groups@[j]),
        decreases groups.len() - i,
    {
        if groups[i].root.has_pane(pane_id) {
            proof {
                lemma_first_where(groups@, f, i as int);
            }
            return Some(i);
        }
        i += 1;
    }
    proof {
        lemma_first_where(groups@, f, groups@.len() as int);
    }
    None
}

fn find_group(groups: &Vec<PaneGroup>, group_id: &str) -> (r: Option<usize>)
    ensures
        match r {
            Some(i) => i == group_with_id(groups@, group_id@) && i < groups@.len(),
            None => group_with_id(groups@, group_id@) == -1,
        },
{
    let ghost f = |g: PaneGroup| g.id@ == group_id@;
    let mut i: usize = 0;
    while i < groups.len()
        invariant
            i <= groups.len(),
            f == (|g: PaneGroup| g.id@ == group_id@),
            forall|j: int| 0 <= j < i ==> !f(#[trigger] groups@[j]),
        decreases groups.len() - i,
    {
        if str_eq(groups[i].id.as_str(), group_id) {
            proof {
                lemma_first_where(groups@, f, i as int);
            }
            return Some(i);
        }
        i += 1;
    }
    proof {
        lemma_first_where(groups@, f, groups@.len() as int);
    }
    None
}

/// No session is shown by two groups.
pub open spec fn sessions_unique(gs: Seq<PaneGroup>) -> bool {
    forall|i: int, j: int, y: Seq<char>|
        0 <= i < j < gs.len() && #[trigger] group_has_session(gs[i], y) ==> !#[trigger] group_has_session(
            gs[j],
            y,
        )
}

proof fn lemma_unique_after_change(o: Seq<PaneGroup>, n: Seq<PaneGroup>, gi: int, sid: Seq<char>)
    requires
        sessions_unique(o),
        0 <= gi < o.len(),
        only_changed(o, n, gi),
        forall|y: Seq<char>| #[trigger] group_has_session(n[gi], y) == (group_has_session(o[gi], y) || y == sid),
        forall|j: int| 0 <= j < o.len() ==> !#[trigger] group_has_session(o[j], sid),
    ensures
        sessions_unique(n),
{
    assert forall|i: int, j: int, y: Seq<char>|
        0 <= i < j < n.len() && #[trigger] group_has_session(n[i], y) implies !#[trigger] group_has_session(
            n[j],
            y,
        ) by {
        if i != gi {
            assert(n[i] == o[i]);
        }
        if j != gi {
            assert(n[j] == o[j]);
        }
        if i == gi {
            assert(group_has_session(o[i], y) || y == sid);
        }
        if j == gi && group_has_session(n[j], y) {
            assert(group_has_session(o[j], y) || y == sid);
        }
    }
}

proof fn lemma_beside_shows(edge: PaneEdge, a: Pane, b: Pane, g: PaneGroup, y: Seq<char>)
    requires
        g.root == split_beside(edge, a, b),
    ensures
        group_has_session(g, y) ==> (a.content is Session && a.content->Session_id@ == y) || (
        b.content is Session && b.content->Session_id@ == y),
{
    lemma_group_shows(g, y);
    assert(PaneNode::Leaf(a).leaves_spec() =~= seq![a]);
    assert(PaneNode::Leaf(b).leaves_spec() =~= seq![b]);
    lemma_sessions_of_concat(seq![a], seq![b], y);
    lemma_sessions_of_concat(seq![b], seq![a], y);
    lemma_shows_one(a, y);
    lemma_shows_one(b, y);
    if edge.new_leaf_left_spec() {
        assert(g.root.leaves_spec() =~= seq![b] + seq![a]);
    } else {
        assert(g.root.leaves_spec() =~= seq![a] + seq![b]);
    }
}

proof fn lemma_unique_after_push(
    o: Seq<PaneGroup>,
    n: Seq<PaneGroup>,
    a: Seq<char>,
    b: Seq<char>,
)
    requires
        sessions_unique(o),
        n.len() == o.len() + 1,
        n.subrange(0, o.len() as int) == o,
        forall|y: Seq<char>| #[trigger] group_has_session(n[o.len() as int], y) ==> y == a || y == b,
        forall|j: int| 0 <= j < o.len() ==> !#[trigger] group_has_session(o[j], a),
        forall|j: int| 0 <= j < o.len() ==> !#[trigger] group_has_session(o[j], b),
    ensures
        sessions_unique(n),
{
    assert forall|i: int, j: int, y: Seq<char>|
        0 <= i < j < n.len() && #[trigger] group_has_session(n[i], y) implies !#[trigger] group_has_session(
            n[j],
            y,
        ) by {
        assert(n[i] == o[i]);
        if j < o.len() {
            assert(n[j] == o[j]);
        } else if group_has_session(n[j], y) {
            assert(y == a || y == b);
            assert(group_has_session(o[i], y));
        }
    }
}

/// Layout-level session insert with contract error classification.
pub fn layout_insert_session(
    groups: &mut Vec<PaneGroup>,
    session_id: &str,
    target: InsertTarget,
    edge: PaneEdge,
    new_pane_id: String,
) -> (r: Result<(), PaneOpError>)
    requires
        forall|j: int|
            0 <= j < old(groups)@.len() ==> (#[trigger] old(groups)@[j]).root.leaves_spec().len()
                < u64::MAX,
    ensures
        sessions_unique(old(groups)@) ==> sessions_unique(final(groups)@),
        r.is_err() ==> final(groups)@ == old(groups)@,
        group_with_session(old(groups)@, session_id@) >= 0 ==> r == Err::<(), PaneOpError>(
            PaneOpError::DuplicateSession,
        ),
        group_with_session(old(groups)@, session_id@) < 0 ==> match target {
            InsertTarget::Pane { pane_id } => {
                let gi = group_with_pane(old(groups)@, pane_id@);
                &&& gi < 0 ==> r == Err::<(), PaneOpError>(PaneOpError::PaneNotFound)
                &&& gi >= 0 && old(groups)@[gi].root.session_count() >= SESSION_LEAF_CAP ==> r
                    == Err::<(), PaneOpError>(PaneOpError::CapacityReached)
                &&& gi >= 0 && old(groups)@[gi].root.session_count() < SESSION_LEAF_CAP ==> r
                    is Ok && only_changed(old(groups)@, final(groups)@, gi) && session_inserted(
                    old(groups)@[gi],
                    final(groups)@[gi],
                    session_id@,
                    pane_id@,
                    edge,
                    new_pane_id,
                )
            },
            InsertTarget::GroupEdge { group_id } => {
                let gi = group_with_id(old(groups)@, group_id@);
                &&& gi < 0 ==> r == Err::<(), PaneOpError>(PaneOpError::GroupNotFound)
                &&& gi >= 0 && old(groups)@[gi].root.session_count() >= SESSION_LEAF_CAP ==> r
                    == Err::<(), PaneOpError>(PaneOpError::CapacityReached)
                &&& gi >= 0 && old(groups)@[gi].root.session_count() < SESSION_LEAF_CAP ==> r
                    is Ok && only_changed(old(groups)@, final(groups)@, gi)
                    && session_inserted_at_edge(
                    old(groups)@[gi],
                    final(groups)@[gi],
                    session_id@,
                    edge,
                    new_pane_id,
                )
            },
            InsertTarget::BesideSolo {
                session_id: solo_id,
                new_group_id,
                new_representative_pane_id,
            } => {
                &&& group_with_session(old(groups)@, solo_id@) >= 0 ==> r == Err::<
                    (),
                    PaneOpError,
                >(PaneOpError::DuplicateSession)
                &&& group_with_session(old(groups)@, solo_id@) < 0 ==> r is Ok && final(groups)@.len() == old(groups)@.len() + 1 && final(groups)@.subrange(
                    0,
                    old(groups)@.len() as int,
                ) == old(groups)@ && ({
                    let g = final(groups)@.last();
                    &&& g.id == new_group_id
                    &&& g.representative_pane_id == new_representative_pane_id
                    &&& g.snapshot().is_none()
                    &&& exists|np: Pane|
                        is_new_session_pane(np, new_pane_id, session_id@) && g.root == split_beside(
                            edge,
                            Pane {
                                id: new_representative_pane_id,
                                content: PaneContent::Session { id: solo_id },
                            },
                            np,
                        )
                })
            },
        },
{
    if find_group_with_session(groups, session_id).is_some() {
        return Err(PaneOpError::DuplicateSession);
    }
    match target {
        InsertTarget::Pane { pane_id } => {
            let gi = match find_group_with_pane(groups, pane_id.as_str()) {
                Some(i) => i,
                None => return Err(PaneOpError::PaneNotFound),
            };
            proof {
                session_panes(groups@[gi as int].root.leaves_spec()).lemma_filter_len(
                    |p: Pane| is_session_pane(p),
                );
            }
            if groups[gi].root.session_leaves().len() >= SESSION_LEAF_CAP {
                return Err(PaneOpError::CapacityReached);
            }
            let ghost og = groups@;
            proof {
                lemma_first_where_found(og, |g: PaneGroup| group_has_pane(g, pane_id@));
            }
            let mut g = groups.remove(gi);
            let ok = g.insert_session(session_id, pane_id.as_str(), edge, new_pane_id);
            groups.insert(gi, g);
            assert(ok);
            assert(only_changed(og, groups@, gi as int));
            proof {
                if sessions_unique(og) {
                    lemma_first_where_found(og, |g: PaneGroup| group_has_session(g, session_id@));
                    assert forall|y: Seq<char>| #[trigger] group_has_session(groups@[gi as int], y)
                        == (group_has_session(og[gi as int], y) || y == session_id@) by {
                        lemma_insert_adds_the_session(
                            og[gi as int],
                            groups@[gi as int],
                            session_id@,
                            pane_id@,
                            edge,
                            new_pane_id,
                            y,
                        );
                    }
                    lemma_unique_after_change(og, groups@, gi as int, session_id@);
                }
            }
            Ok(())
        },
        InsertTarget::GroupEdge { group_id } => {
            let gi = match find_group(groups, group_id.as_str()) {
                Some(i) => i,
                None => return Err(PaneOpError::GroupNotFound),
            };
            if groups[gi].root.session_leaves().len() >= SESSION_LEAF_CAP {
                return Err(PaneOpError::CapacityReached);
            }
            let ghost og = groups@;
            let mut g = groups.remove(gi);
            assert(g == og[gi as int]);
            g.insert_session_at_group_edge(session_id, edge, new_pane_id);
            groups.insert(gi, g);
            assert(only_changed(og, groups@, gi as int));
            proof {
                if sessions_unique(og) {
                    lemma_first_where_found(og, |g: PaneGroup| group_has_session(g, session_id@));
                    assert forall|y: Seq<char>| #[trigger] group_has_session(groups@[gi as int], y)
                        == (group_has_session(og[gi as int], y) || y == session_id@) by {
                        lemma_insert_adds_the_session(
                            og[gi as int],
                            groups@[gi as int],
                            session_id@,
                            Seq::empty(),
                            edge,
                            new_pane_id,
                            y,
                        );
                    }
                    lemma_unique_after_change(og, groups@, gi as int, session_id@);
                }
            }
            Ok(())
        },
        InsertTarget::BesideSolo { session_id: solo_id, new_group_id, new_representative_pane_id } => {
            if find_group_with_session(groups, solo_id.as_str()).is_some() {
                return Err(PaneOpError::DuplicateSession);
            }
            let ghost gid = new_pane_id;
            let solo_leaf = Pane {
                id: new_representative_pane_id.clone(),
                content: PaneContent::Session { id: solo_id },
            };
            let new_leaf = Pane {
                id: new_pane_id,
                content: PaneContent::Session { id: owned(session_id) },
            };
            let ghost gn = new_leaf;
            assert(is_new_session_pane(gn, gid, session_id@));
            let ghost solo_pane = solo_leaf;
            let root = make_split_beside(edge, solo_leaf, new_leaf);
            let ghost og = groups@;
            groups.push(PaneGroup::new(new_group_id, new_representative_pane_id, root));
            assert(groups@.subrange(0, og.len() as int) =~= og);
            proof {
                if sessions_unique(og) {
                    lemma_first_where_found(og, |g: PaneGroup| group_has_session(g, session_id@));
                    lemma_first_where_found(og, |g: PaneGroup| group_has_session(g, solo_pane.content->Session_id@));
                    assert forall|y: Seq<char>| #[trigger] group_has_session(groups@[og.len() as int], y)
                        implies y == solo_pane.content->Session_id@ || y == session_id@ by {
                        lemma_beside_shows(edge, solo_pane, gn, groups@[og.len() as int], y);
                    }
                    lemma_unique_after_push(og, groups@, solo_pane.content->Session_id@, session_id@);
                }
            }
            Ok(())
        },
    }
}

/// Layout-level detach: a group that dissolves (or whose only leaf is
/// detached) is removed from the layout.
pub fn layout_detach_pane(groups: &mut Vec<PaneGroup>, pane_id: &str) -> (r: Result<(), PaneOpError>)
    ensures
        ({
            let gi = group_with_pane(old(groups)@, pane_id@);
            &&& gi < 0 ==> r == Err::<(), PaneOpError>(PaneOpError::PaneNotFound) && final(groups)@
                == old(groups)@
            &&& gi >= 0 ==> r is Ok && ({
                let g = old(groups)@[gi];
                if detaches(g.root, pane_id@) && final(groups)@.len() == old(groups)@.len() {
                    only_changed(old(groups)@, final(groups)@, gi) && pane_detached(
                        g,
                        final(groups)@[gi],
                        pane_id@,
                    ) && final(groups)@[gi].viable_spec()
                } else {
                    final(groups)@ == old(groups)@.remove(gi)
                }
            })
            &&& gi >= 0 && detaches(old(groups)@[gi].root, pane_id@) ==> ({
                // The group stays exactly when it is still viable.
                let n = final(groups)@.len() == old(groups)@.len();
                n || !exists|h: PaneGroup|
                    pane_detached(old(groups)@[gi], h, pane_id@) && h.viable_spec()
            })
        }),
{
    let gi = match find_group_with_pane(groups, pane_id) {
        Some(i) => i,
        None => return Err(PaneOpError::PaneNotFound),
    };
    let ghost og = groups@;
    let mut g = groups.remove(gi);
    assert(g == og[gi as int]);
    if g.detach_pane(pane_id) {
        groups.insert(gi, g);
        assert(only_changed(og, groups@, gi as int));
    } else {
        proof {
            assert(groups@ =~= og.remove(gi as int));
            if detaches(og[gi as int].root, pane_id@) {
                assert forall|h: PaneGroup|
                    pane_detached(og[gi as int], h, pane_id@) implies !h.viable_spec() by {
                    assert(h.root == g.root);
                }
            }
        }
    }
    Ok(())
}

/// Close (remove) every group with id `group_id`.
pub fn layout_close_group(groups: &mut Vec<PaneGroup>, group_id: &str) -> (r: Result<
    (),
    PaneOpError,
>)
    ensures
        final(groups)@ == old(groups)@.filter(|g: PaneGroup| g.id@ != group_id@),
        r is Ok == (group_with_id(old(groups)@, group_id@) >= 0),
        r is Err ==> r == Err::<(), PaneOpError>(PaneOpError::GroupNotFound),
{
    let ghost f = |g: PaneGroup| g.id@ != group_id@;
    let ghost og = groups@;
    let found = find_group(groups, group_id);
    let mut kept: Vec<PaneGroup> = Vec::new();
    let mut i: usize = 0;
    while i < groups.len()
        invariant
            i <= groups.len(),
            groups@ == og,
            f == (|g: PaneGroup| g.id@ != group_id@),
            kept@ == og.subrange(0, i as int).filter(f),
        decreases groups.len() - i,
    {
        let ghost g = og[i as int];
        proof {
            assert(og.subrange(0, i + 1) =~= og.subrange(0, i as int) + seq![g]);
            Seq::filter_distributes_over_add(og.subrange(0, i as int), seq![g], f);
            reveal_with_fuel(Seq::filter, 2);
        }
        if !str_eq(groups[i].id.as_str(), group_id) {
            kept.push(groups[i].clone());
            proof {
                assert(seq![g].filter(f) =~= seq![g]);
            }
        } else {
            proof {
                assert(seq![g].filter(f) =~= Seq::<PaneGroup>::empty());
                assert(og.subrange(0, i as int).filter(f) + Seq::<PaneGroup>::empty() =~= og.subrange(
                    0,
                    i as int,
                ).filter(f));
            }
        }
        i += 1;
    }
    assert(og.subrange(0, og.len() as int) =~= og);
    *groups = kept;
    match found {
        Some(_) => Ok(()),
        None => Err(PaneOpError::GroupNotFound),
    }
}


/// Layout-level split resize: the split at `path` of the first group with
/// id `group_id` gets ratio `num/den` (clamped).
pub fn layout_resize_split(
    groups: &mut Vec<PaneGroup>,
    group_id: &str,
    path: &PaneSplitPath,
    num: u64,
    den: u64,
) -> (r: Result<(), PaneOpError>)
    ensures
        ({
            let gi = group_with_id(old(groups)@, group_id@);
            &&& r.is_err() ==> final(groups)@ == old(groups)@
            &&& gi < 0 ==> r == Err::<(), PaneOpError>(PaneOpError::GroupNotFound)
            &&& gi >= 0 ==> {
                let ok = node_at(old(groups)@[gi].root, path.components@) matches Some(m)
                    && m is Split;
                &&& !ok ==> r == Err::<(), PaneOpError>(PaneOpError::SplitNotFound)
                &&& ok ==> r is Ok && only_changed(old(groups)@, final(groups)@, gi) && split_resized(
                    old(groups)@[gi],
                    final(groups)@[gi],
                    path.components@,
                    num,
                    den,
                )
            }
        }),
{
    let gi = match find_group(groups, group_id) {
        Some(i) => i,
        None => return Err(PaneOpError::GroupNotFound),
    };
    let ghost og = groups@;
    let mut g = groups.remove(gi);
    let ok = g.resize_split(path, num, den);
    groups.insert(gi, g);
    if ok {
        assert(only_changed(og, groups@, gi as int));
        Ok(())
    } else {
        assert(groups@ =~= og);
        Err(PaneOpError::SplitNotFound)
    }
}

/// Layout-level equalize of the first group with id `group_id`.
pub fn layout_equalize(groups: &mut Vec<PaneGroup>, group_id: &str) -> (r: Result<(), PaneOpError>)
    requires
        forall|j: int|
            0 <= j < old(groups)@.len() ==> (#[trigger] old(groups)@[j]).root.leaves_spec().len()
                <= u64::MAX,
    ensures
        ({
            let gi = group_with_id(old(groups)@, group_id@);
            &&& gi < 0 ==> r == Err::<(), PaneOpError>(PaneOpError::GroupNotFound) && final(groups)@ == old(groups)@
            &&& gi >= 0 ==> r is Ok && only_changed(old(groups)@, final(groups)@, gi) && final(groups)@[gi].root == equalized(old(groups)@[gi].root) && final(groups)@[gi].same_identity(
                &old(groups)@[gi],
            ) && final(groups)@[gi].snapshot() == old(groups)@[gi].snapshot()
        }),
{
    let gi = match find_group(groups, group_id) {
        Some(i) => i,
        None => return Err(PaneOpError::GroupNotFound),
    };
    let ghost og = groups@;
    let mut g = groups.remove(gi);
    assert(g == og[gi as int]);
    g.equalize();
    groups.insert(gi, g);
    assert(only_changed(og, groups@, gi as int));
    Ok(())
}

/// Layout-level pane swap: both panes must live in the same group (the
/// first group holding each).
pub fn layout_swap_panes(groups: &mut Vec<PaneGroup>, pane_id: &str, other_pane_id: &str) -> (r:
    Result<(), PaneOpError>)
    ensures
        ({
            let a = group_with_pane(old(groups)@, pane_id@);
            let b = group_with_pane(old(groups)@, other_pane_id@);
            &&& r.is_err() ==> final(groups)@ == old(groups)@
            &&& (a < 0 || b < 0) ==> r == Err::<(), PaneOpError>(PaneOpError::PaneNotFound)
            &&& (a >= 0 && b >= 0 && a != b) ==> r == Err::<(), PaneOpError>(
                PaneOpError::PanesBelongToDifferentGroups,
            )
            &&& (a >= 0 && a == b && pane_id@ == other_pane_id@) ==> r == Err::<(), PaneOpError>(
                PaneOpError::PaneNotFound,
            )
            &&& (a >= 0 && a == b && pane_id@ != other_pane_id@) ==> r is Ok && only_changed(
                old(groups)@,
                final(groups)@,
                a,
            ) && panes_swapped(old(groups)@[a], final(groups)@[a], pane_id@, other_pane_id@)
        }),
{
    let ghost og = groups@;
    proof {
        lemma_first_where_found(og, |g: PaneGroup| group_has_pane(g, pane_id@));
        lemma_first_where_found(og, |g: PaneGroup| group_has_pane(g, other_pane_id@));
    }
    let a = find_group_with_pane(groups, pane_id);
    let b = find_group_with_pane(groups, other_pane_id);
    match (a, b) {
        (Some(ai), Some(bi)) => {
            if ai != bi {
                return Err(PaneOpError::PanesBelongToDifferentGroups);
            }
            let mut g = groups.remove(ai);
            let ok = g.swap_panes(pane_id, other_pane_id);
            groups.insert(ai, g);
            if ok {
                assert(only_changed(og, groups@, ai as int));
                Ok(())
            } else {
                assert(groups@ =~= og);
                Err(PaneOpError::PaneNotFound)
            }
        },
        _ => Err(PaneOpError::PaneNotFound),
    }
}

/// Layout-level launcher insert beside the first pane `target_pane_id`.
pub fn layout_insert_launcher(
    groups: &mut Vec<PaneGroup>,
    project_id: &str,
    target_pane_id: &str,
    edge: PaneEdge,
    new_pane_id: String,
) -> (r: Result<(), PaneOpError>)
    ensures
        ({
            let gi = group_with_pane(old(groups)@, target_pane_id@);
            &&& gi < 0 ==> r == Err::<(), PaneOpError>(PaneOpError::PaneNotFound) && final(groups)@ == old(groups)@
            &&& gi >= 0 ==> r is Ok && only_changed(old(groups)@, final(groups)@, gi)
                && launcher_inserted(
                old(groups)@[gi],
                final(groups)@[gi],
                project_id@,
                target_pane_id@,
                edge,
                new_pane_id,
            )
        }),
{
    let gi = match find_group_with_pane(groups, target_pane_id) {
        Some(i) => i,
        None => return Err(PaneOpError::PaneNotFound),
    };
    let ghost og = groups@;
    proof {
        lemma_first_where_found(og, |g: PaneGroup| group_has_pane(g, target_pane_id@));
    }
    let mut g = groups.remove(gi);
    let ok = g.insert_launcher(project_id, target_pane_id, edge, new_pane_id);
    groups.insert(gi, g);
    assert(ok);
    assert(only_changed(og, groups@, gi as int));
    Ok(())
}

/// Layout-level launcher removal in the first group holding `pane_id`.
pub fn layout_remove_launcher(groups: &mut Vec<PaneGroup>, pane_id: &str) -> (r: Result<
    (),
    PaneOpError,
>)
    ensures
        ({
            let gi = group_with_pane(old(groups)@, pane_id@);
            &&& gi < 0 ==> r == Err::<(), PaneOpError>(PaneOpError::PaneNotFound) && final(groups)@ == old(groups)@
            &&& gi >= 0 ==> only_changed(old(groups)@, final(groups)@, gi) && launcher_removed(
                old(groups)@[gi],
                final(groups)@[gi],
                pane_id@,
                r is Ok,
            ) && (r.is_err() ==> r == Err::<(), PaneOpError>(PaneOpError::PaneNotFound))
        }),
{
    let gi = match find_group_with_pane(groups, pane_id) {
        Some(i) => i,
        None => return Err(PaneOpError::PaneNotFound),
    };
    let ghost og = groups@;
    let mut g = groups.remove(gi);
    assert(g == og[gi as int]);
    let ok = g.remove_launcher(pane_id);
    groups.insert(gi, g);
    assert(only_changed(og, groups@, gi as int));
    if ok {
        Ok(())
    } else {
        Err(PaneOpError::PaneNotFound)
    }
}

/// Layout-level launcher bind in the first group holding `pane_id`.
pub fn layout_bind_launcher(groups: &mut Vec<PaneGroup>, pane_id: &str, session_id: &str) -> (r:
    Result<(), PaneOpError>)
    ensures
        ({
            let gi = group_with_pane(old(groups)@, pane_id@);
            &&& r.is_err() ==> final(groups)@ == old(groups)@
            &&& gi < 0 ==> r == Err::<(), PaneOpError>(PaneOpError::PaneNotFound)
            &&& gi >= 0 ==> {
                let leaves = old(groups)@[gi].root.leaves_spec();
                let ok = leaves[first_index(leaves, pane_id@)].content is Launcher;
                &&& !ok ==> r == Err::<(), PaneOpError>(PaneOpError::PaneNotFound)
                &&& ok ==> r is Ok && only_changed(old(groups)@, final(groups)@, gi)
                    && launcher_bound(old(groups)@[gi], final(groups)@[gi], pane_id@, session_id@)
            }
        }),
{
    let gi = match find_group_with_pane(groups, pane_id) {
        Some(i) => i,
        None => return Err(PaneOpError::PaneNotFound),
    };
    let ghost og = groups@;
    proof {
        lemma_first_where_found(og, |g: PaneGroup| group_has_pane(g, pane_id@));
    }
    let mut g = groups.remove(gi);
    let ok = g.bind_launcher(pane_id, session_id);
    groups.insert(gi, g);
    if ok {
        assert(only_changed(og, groups@, gi as int));
        Ok(())
    } else {
        assert(groups@ =~= og);
        Err(PaneOpError::PaneNotFound)
    }
}

/// Layout-level focus query in the first group holding `pane_id`.
pub fn layout_focus_neighbor(groups: &Vec<PaneGroup>, pane_id: &str, direction: FocusDirection) -> (r:
    Result<Option<String>, PaneOpError>)
    requires
        forall|j: int|
            0 <= j < groups@.len() ==> (#[trigger] groups@[j]).root.leaves_spec().len()
                <= u32::MAX,
    ensures
        ({
            let gi = group_with_pane(groups@, pane_id@);
            &&& gi < 0 ==> r == Err::<Option<String>, PaneOpError>(PaneOpError::PaneNotFound)
            &&& gi >= 0 ==> r is Ok && ({
                let g = groups@[gi];
                let leaves = g.root.leaves_spec();
                let pos = positions(g.root, 0, 0);
                let t = last_index(leaves, pane_id@);
                let found = r->Ok_0;
                &&& found.is_none() <==> !exists|k: int|
                    focus_candidate(leaves, pane_id@, k) && in_direction(
                        direction,
                        pos[k].0 - pos[t].0,
                        pos[k].1 - pos[t].1,
                    )
                &&& found.is_some() ==> exists|k: int|
                    focus_candidate(leaves, pane_id@, k) && in_direction(
                        direction,
                        pos[k].0 - pos[t].0,
                        pos[k].1 - pos[t].1,
                    ) && leaves[k].id == found.unwrap() && forall|m: int|
                        focus_candidate(leaves, pane_id@, m) && in_direction(
                            direction,
                            pos[m].0 - pos[t].0,
                            pos[m].1 - pos[t].1,
                        ) ==> grid_dist(pos, t, k) <= grid_dist(pos, t, m)
            })
        }),
{
    let gi = match find_group_with_pane(groups, pane_id) {
        Some(i) => i,
        None => return Err(PaneOpError::PaneNotFound),
    };
    proof {
        lemma_first_where_found(groups@, |g: PaneGroup| group_has_pane(g, pane_id@));
        let leaves = groups@[gi as int].root.leaves_spec();
        lemma_first_index(leaves, pane_id@);
        lemma_last_index(leaves, pane_id@);
        let k = first_index(leaves, pane_id@);
        assert(leaves[k].id@ == pane_id@);
    }
    Ok(groups[gi].focus_neighbor(pane_id, direction))
}

/// A live leaf: session leaves and launcher leaves in preorder.
#[derive(Clone, Debug, PartialEq, Eq)]
pub enum LiveLeaf {
    Session { pane_id: String, session_id: String },
    Launcher { pane_id: String, project_id: String },
}

/// The live leaf a pane projects to.
pub open spec fn live_leaf_of(p: Pane) -> LiveLeaf {
    match p.content {
        PaneContent::Session { id } => LiveLeaf::Session { pane_id: p.id, session_id: id },
        PaneContent::Launcher { project_id } => LiveLeaf::Launcher { pane_id: p.id, project_id },
    }
}

/// The live-leaf projection of a group: every leaf in preorder, including
/// launcher leaves.
pub fn live_leaves(group: &PaneGroup) -> (r: Vec<LiveLeaf>)
    ensures
        r@ == group.root.leaves_spec().map_values(|p: Pane| live_leaf_of(p)),
{
    let all = group.root.leaves();
    let mut out: Vec<LiveLeaf> = Vec::new();
    let mut i: usize = 0;
    while i < all.len()
        invariant
            i <= all.len(),
            derefs(all@) == group.root.leaves_spec(),
            out@ == derefs(all@).subrange(0, i as int).map_values(|p: Pane| live_leaf_of(p)),
        decreases all.len() - i,
    {
        let p = all[i];
        let leaf = match &p.content {
            PaneContent::Session { id } => LiveLeaf::Session { pane_id: p.id.clone(), session_id: id.clone() },
            PaneContent::Launcher { project_id } => LiveLeaf::Launcher {
                pane_id: p.id.clone(),
                project_id: project_id.clone(),
            },
        };
        out.push(leaf);
        proof {
            assert(derefs(all@)[i as int] == *p);
            assert(out@ =~= derefs(all@).subrange(0, i + 1).map_values(|p: Pane| live_leaf_of(p)));
        }
        i += 1;
    }
    assert(derefs(all@).subrange(0, all.len() as int) =~= derefs(all@));
    out
}



/// Clamping always gives a ratio in `[1/10, 9/10]`.
pub proof fn lemma_clamp_is_clamped(num: u64, den: u64)
    ensures
        clamp_spec(num, den).clamped(),
{
}

proof fn lemma_with_ratio_at_clamped(n: PaneNode, path: Seq<PaneSplitBranch>, r: Ratio)
    requires
        n.ratios_clamped(),
        r.clamped(),
    ensures
        with_ratio_at(n, path, r).ratios_clamped(),
    decreases path.len(),
{
    if let PaneNode::Split(s) = n {
        if path.len() > 0 {
            lemma_with_ratio_at_clamped(*s.left, path.drop_first(), r);
            lemma_with_ratio_at_clamped(*s.right, path.drop_first(), r);
        }
    }
}

proof fn lemma_equalized_clamped(n: PaneNode)
    ensures
        equalized(n).ratios_clamped(),
    decreases n,
{
    if let PaneNode::Split(s) = n {
        lemma_equalized_clamped(*s.left);
        lemma_equalized_clamped(*s.right);
        lemma_clamp_is_clamped(
            weight(*s.left, s.direction) as u64,
            (weight(*s.left, s.direction) + weight(*s.right, s.direction)) as u64,
        );
    }
}

proof fn lemma_split_beside_clamped(edge: PaneEdge, existing: Pane, new: Pane)
    ensures
        split_beside(edge, existing, new).ratios_clamped(),
{
    assert(PaneNode::Leaf(existing).ratios_clamped());
    assert(PaneNode::Leaf(new).ratios_clamped());
    assert(ratio_half().clamped());
}

proof fn lemma_detach_clamped(n: PaneNode, id: Seq<char>)
    requires
        n.ratios_clamped(),
    ensures
        detach_spec(n, id).ratios_clamped(),
{
    lemma_remove_leaf_clamped(n, first_index(n.leaves_spec(), id));
}

/// Split ratios stay in `[1/10, 9/10]`: every group operation, applied to a
/// group whose tree and snapshot have clamped ratios, leaves the tree and
/// the snapshot with clamped ratios. (`resized` and `equalized` clamp what
/// they set; the others only move leaves or add splits at the even ratio.)
pub proof fn lemma_operations_keep_ratios_clamped(
    o: PaneGroup,
    n: PaneGroup,
    sid: Seq<char>,
    target: Seq<char>,
    edge: PaneEdge,
    new_pane_id: String,
    path: Seq<PaneSplitBranch>,
    num: u64,
    den: u64,
    removed: bool,
)
    requires
        o.root.ratios_clamped(),
        o.snapshot() matches Some(t) ==> t.ratios_clamped(),
    ensures
        session_inserted(o, n, sid, target, edge, new_pane_id) ==> n.root.ratios_clamped(),
        session_inserted_at_edge(o, n, sid, edge, new_pane_id) ==> n.root.ratios_clamped(),
        pane_detached(o, n, target) ==> n.root.ratios_clamped(),
        panes_swapped(o, n, sid, target) ==> n.root.ratios_clamped(),
        split_resized(o, n, path, num, den) ==> n.root.ratios_clamped(),
        n.root == equalized(o.root) ==> n.root.ratios_clamped(),
        launcher_inserted(o, n, sid, target, edge, new_pane_id) ==> n.root.ratios_clamped() && (
        n.snapshot() matches Some(t) ==> t.ratios_clamped()),
        launcher_bound(o, n, target, sid) ==> n.root.ratios_clamped(),
        launcher_removed(o, n, target, removed) ==> n.root.ratios_clamped(),
{
    let leaves = o.root.leaves_spec();
    let k = first_index(leaves, target);
    if session_inserted(o, n, sid, target, edge, new_pane_id) {
        let np = choose|np: Pane|
            is_new_session_pane(np, new_pane_id, sid) && n.root == o.root.set_leaf(
                k,
                split_beside(edge, o.root.leaves_spec()[k], np),
            );
        lemma_split_beside_clamped(edge, leaves[k], np);
        lemma_set_leaf_clamped(o.root, k, split_beside(edge, leaves[k], np));
    }
    if session_inserted_at_edge(o, n, sid, edge, new_pane_id) {
        let c = o.root.session_count();
        let np = choose|np: Pane| is_new_session_pane(np, new_pane_id, sid) && n.root == PaneNode::Split(
            PaneSplit {
                direction: edge.direction_spec(),
                ratio: if edge.new_leaf_left_spec() {
                    clamp_spec(1, (c + 1) as u64)
                } else {
                    clamp_spec(c as u64, (c + 1) as u64)
                },
                left: Box::new(
                    if edge.new_leaf_left_spec() {
                        PaneNode::Leaf(np)
                    } else {
                        o.root
                    },
                ),
                right: Box::new(
                    if edge.new_leaf_left_spec() {
                        o.root
                    } else {
                        PaneNode::Leaf(np)
                    },
                ),
            },
        );
        assert(PaneNode::Leaf(np).ratios_clamped());
        lemma_clamp_is_clamped(1, (c + 1) as u64);
        lemma_clamp_is_clamped(c as u64, (c + 1) as u64);
    }
    if pane_detached(o, n, target) {
        lemma_detach_clamped(o.root, target);
    }
    if panes_swapped(o, n, sid, target) {
        let ka = first_index(leaves, sid);
        let kb = first_index(leaves, target);
        lemma_set_leaf_clamped(o.root, ka, PaneNode::Leaf(leaves[kb]));
        lemma_set_leaf_clamped(
            o.root.set_leaf(ka, PaneNode::Leaf(leaves[kb])),
            kb,
            PaneNode::Leaf(leaves[ka]),
        );
    }
    if split_resized(o, n, path, num, den) {
        lemma_clamp_is_clamped(num, den);
        lemma_with_ratio_at_clamped(o.root, path, clamp_spec(num, den));
    }
    if n.root == equalized(o.root) {
        lemma_equalized_clamped(o.root);
    }
    if launcher_inserted(o, n, sid, target, edge, new_pane_id) {
        let np = choose|np: Pane|
            is_new_launcher_pane(np, new_pane_id, sid) && n.root == o.root.set_leaf(
                k,
                split_beside(edge, o.root.leaves_spec()[k], np),
            );
        lemma_split_beside_clamped(edge, leaves[k], np);
        lemma_set_leaf_clamped(o.root, k, split_beside(edge, leaves[k], np));
    }
    if launcher_bound(o, n, target, sid) {
        let st = choose|st: String|
            st@ == sid && n.root == o.root.set_leaf(k, PaneNode::Leaf(rebound(leaves[k], st)));
        lemma_set_leaf_clamped(o.root, k, PaneNode::Leaf(rebound(leaves[k], st)));
    }
    if launcher_removed(o, n, target, removed) {
        lemma_detach_clamped(o.root, target);
    }
}


proof fn lemma_session_count_concat(a: Seq<Pane>, b: Seq<Pane>)
    ensures
        session_panes(a + b).len() == session_panes(a).len() + session_panes(b).len(),
{
    Seq::filter_distributes_over_add(a, b, |p: Pane| is_session_pane(p));
}

proof fn lemma_session_count_one(p: Pane)
    ensures
        session_panes(seq![p]).len() == (if is_session_pane(p) {
            1int
        } else {
            0int
        }),
{
    reveal_with_fuel(Seq::filter, 2);
    assert(seq![p].drop_last() =~= Seq::<Pane>::empty());
}

/// Inserting a session leaf adds exactly one session to the group; so a
/// group below the session-leaf cap stays within it.
pub proof fn lemma_insert_adds_one_session(
    o: PaneGroup,
    n: PaneGroup,
    sid: Seq<char>,
    target: Seq<char>,
    edge: PaneEdge,
    new_pane_id: String,
)
    ensures
        session_inserted(o, n, sid, target, edge, new_pane_id) && first_index(
            o.root.leaves_spec(),
            target,
        ) >= 0 ==> n.root.session_count() == o.root.session_count() + 1,
        session_inserted_at_edge(o, n, sid, edge, new_pane_id) ==> n.root.session_count()
            == o.root.session_count() + 1,
{
    let leaves = o.root.leaves_spec();
    let k = first_index(leaves, target);
    if session_inserted(o, n, sid, target, edge, new_pane_id) && k >= 0 {
        lemma_first_index(leaves, target);
        let np = choose|np: Pane|
            is_new_session_pane(np, new_pane_id, sid) && n.root == o.root.set_leaf(
                k,
                split_beside(edge, o.root.leaves_spec()[k], np),
            );
        let x = split_beside(edge, leaves[k], np);
        lemma_set_leaf(o.root, k, x);
        let pre = leaves.subrange(0, k);
        let post = leaves.subrange(k + 1, leaves.len() as int);
        assert(leaves =~= pre + seq![leaves[k]] + post);
        lemma_session_count_concat(pre + seq![leaves[k]], post);
        lemma_session_count_concat(pre, seq![leaves[k]]);
        lemma_session_count_concat(pre + x.leaves_spec(), post);
        lemma_session_count_concat(pre, x.leaves_spec());
        lemma_session_count_concat(seq![leaves[k]], seq![np]);
        lemma_session_count_concat(seq![np], seq![leaves[k]]);
        lemma_session_count_one(leaves[k]);
        lemma_session_count_one(np);
        assert(PaneNode::Leaf(np).leaves_spec() =~= seq![np]);
        assert(PaneNode::Leaf(leaves[k]).leaves_spec() =~= seq![leaves[k]]);
        if edge.new_leaf_left_spec() {
            assert(x.leaves_spec() =~= seq![np] + seq![leaves[k]]);
        } else {
            assert(x.leaves_spec() =~= seq![leaves[k]] + seq![np]);
        }
    }
    if session_inserted_at_edge(o, n, sid, edge, new_pane_id) {
        let c = o.root.session_count();
        let np = choose|np: Pane| is_new_session_pane(np, new_pane_id, sid) && n.root == PaneNode::Split(
            PaneSplit {
                direction: edge.direction_spec(),
                ratio: if edge.new_leaf_left_spec() {
                    clamp_spec(1, (c + 1) as u64)
                } else {
                    clamp_spec(c as u64, (c + 1) as u64)
                },
                left: Box::new(
                    if edge.new_leaf_left_spec() {
                        PaneNode::Leaf(np)
                    } else {
                        o.root
                    },
                ),
                right: Box::new(
                    if edge.new_leaf_left_spec() {
                        o.root
                    } else {
                        PaneNode::Leaf(np)
                    },
                ),
            },
        );
        lemma_session_count_concat(seq![np], leaves);
        lemma_session_count_concat(leaves, seq![np]);
        lemma_session_count_one(np);
        assert(PaneNode::Leaf(np).leaves_spec() == seq![np]);
    }
}


/// Some pane of `s` shows session `y`.
pub open spec fn shows_session(s: Seq<Pane>, y: Seq<char>) -> bool {
    exists|i: int| 0 <= i < s.len() && (#[trigger] s[i]).content is Session && s[i].content->Session_id@ == y
}

proof fn lemma_shows_concat(a: Seq<Pane>, b: Seq<Pane>, y: Seq<char>)
    ensures
        shows_session(a + b, y) == (shows_session(a, y) || shows_session(b, y)),
{
    if shows_session(a + b, y) {
        let i = choose|i: int|
            0 <= i < (a + b).len() && (#[trigger] (a + b)[i]).content is Session && (a
                + b)[i].content->Session_id@ == y;
        if i < a.len() {
            assert(a[i] == (a + b)[i]);
        } else {
            assert(b[i - a.len()] == (a + b)[i]);
        }
    }
    if shows_session(a, y) {
        let i = choose|i: int| 0 <= i < a.len() && (#[trigger] a[i]).content is Session && a[i].content->Session_id@ == y;
        assert((a + b)[i] == a[i]);
    }
    if shows_session(b, y) {
        let i = choose|i: int| 0 <= i < b.len() && (#[trigger] b[i]).content is Session && b[i].content->Session_id@ == y;
        assert((a + b)[a.len() + i] == b[i]);
    }
}

proof fn lemma_group_shows(g: PaneGroup, y: Seq<char>)
    ensures
        group_has_session(g, y) == shows_session(session_panes(g.root.leaves_spec()), y),
{
}

proof fn lemma_shows_one(p: Pane, y: Seq<char>)
    ensures
        shows_session(session_panes(seq![p]), y) == (p.content is Session && p.content->Session_id@ == y),
{
    lemma_session_count_one(p);
    reveal_with_fuel(Seq::filter, 2);
    assert(seq![p].drop_last() =~= Seq::<Pane>::empty());
    if p.content is Session {
        assert(session_panes(seq![p])[0] == p);
    }
}

proof fn lemma_sessions_of_concat(a: Seq<Pane>, b: Seq<Pane>, y: Seq<char>)
    ensures
        shows_session(session_panes(a + b), y) == (shows_session(session_panes(a), y)
            || shows_session(session_panes(b), y)),
{
    Seq::filter_distributes_over_add(a, b, |p: Pane| is_session_pane(p));
    lemma_shows_concat(session_panes(a), session_panes(b), y);
}

/// Inserting a session leaf adds exactly that session to what the group
/// shows.
pub proof fn lemma_insert_adds_the_session(
    o: PaneGroup,
    n: PaneGroup,
    sid: Seq<char>,
    target: Seq<char>,
    edge: PaneEdge,
    new_pane_id: String,
    y: Seq<char>,
)
    ensures
        session_inserted(o, n, sid, target, edge, new_pane_id) && first_index(
            o.root.leaves_spec(),
            target,
        ) >= 0 ==> group_has_session(n, y) == (group_has_session(o, y) || y == sid),
        session_inserted_at_edge(o, n, sid, edge, new_pane_id) ==> group_has_session(n, y) == (
        group_has_session(o, y) || y == sid),
{
    lemma_group_shows(o, y);
    lemma_group_shows(n, y);
    let leaves = o.root.leaves_spec();
    let k = first_index(leaves, target);
    if session_inserted(o, n, sid, target, edge, new_pane_id) && k >= 0 {
        lemma_first_index(leaves, target);
        let np = choose|np: Pane|
            is_new_session_pane(np, new_pane_id, sid) && n.root == o.root.set_leaf(
                k,
                split_beside(edge, o.root.leaves_spec()[k], np),
            );
        let x = split_beside(edge, leaves[k], np);
        lemma_set_leaf(o.root, k, x);
        let pre = leaves.subrange(0, k);
        let post = leaves.subrange(k + 1, leaves.len() as int);
        assert(leaves =~= pre + seq![leaves[k]] + post);
        assert(PaneNode::Leaf(np).leaves_spec() =~= seq![np]);
        assert(PaneNode::Leaf(leaves[k]).leaves_spec() =~= seq![leaves[k]]);
        lemma_sessions_of_concat(pre + seq![leaves[k]], post, y);
        lemma_sessions_of_concat(pre, seq![leaves[k]], y);
        lemma_sessions_of_concat(pre + x.leaves_spec(), post, y);
        lemma_sessions_of_concat(pre, x.leaves_spec(), y);
        lemma_sessions_of_concat(seq![leaves[k]], seq![np], y);
        lemma_sessions_of_concat(seq![np], seq![leaves[k]], y);
        lemma_shows_one(np, y);
        lemma_shows_one(leaves[k], y);
        if edge.new_leaf_left_spec() {
            assert(x.leaves_spec() =~= seq![np] + seq![leaves[k]]);
        } else {
            assert(x.leaves_spec() =~= seq![leaves[k]] + seq![np]);
        }
    }
    if session_inserted_at_edge(o, n, sid, edge, new_pane_id) {
        let c = o.root.session_count();
        let np = choose|np: Pane| is_new_session_pane(np, new_pane_id, sid) && n.root == PaneNode::Split(
            PaneSplit {
                direction: edge.direction_spec(),
                ratio: if edge.new_leaf_left_spec() {
                    clamp_spec(1, (c + 1) as u64)
                } else {
                    clamp_spec(c as u64, (c + 1) as u64)
                },
                left: Box::new(
                    if edge.new_leaf_left_spec() {
                        PaneNode::Leaf(np)
                    } else {
                        o.root
                    },
                ),
                right: Box::new(
                    if edge.new_leaf_left_spec() {
                        o.root
                    } else {
                        PaneNode::Leaf(np)
                    },
                ),
            },
        );
        assert(PaneNode::Leaf(np).leaves_spec() == seq![np]);
        lemma_sessions_of_concat(seq![np], leaves, y);
        lemma_sessions_of_concat(leaves, seq![np], y);
        lemma_shows_one(np, y);
    }
}

/// The first pane with id `id` is at `k` when `s[k]` has it and no earlier
/// pane does.
proof fn lemma_first_index_at(s: Seq<Pane>, id: Seq<char>, k: int)
    requires
        0 <= k < s.len(),
        s[k].id@ == id,
        forall|j: int| 0 <= j < k ==> (#[trigger] s[j]).id@ != id,
    ensures
        first_index(s, id) == k,
{
    lemma_first_index(s, id);
    let f = first_index(s, id);
    if f < k {
        assert(s[f].id@ == id);
    } else if f > k {
        assert(s[k].id@ != id);
    }
}

/// Replacing a leaf by a leaf updates the preorder leaf sequence in place.
proof fn lemma_set_leaf_update(n: PaneNode, k: int, p: Pane)
    requires
        0 <= k < n.leaves_spec().len(),
    ensures
        n.set_leaf(k, PaneNode::Leaf(p)).leaves_spec() == n.leaves_spec().update(k, p),
{
    lemma_set_leaf(n, k, PaneNode::Leaf(p));
    assert(n.set_leaf(k, PaneNode::Leaf(p)).leaves_spec() =~= n.leaves_spec().update(k, p));
}

/// Putting a leaf back where it already is changes nothing.
proof fn lemma_set_leaf_same(n: PaneNode, k: int)
    requires
        0 <= k < n.leaves_spec().len(),
    ensures
        n.set_leaf(k, PaneNode::Leaf(n.leaves_spec()[k])) == n,
    decreases n,
{
    if let PaneNode::Split(s) = n {
        let lc = s.left.leaves_spec().len();
        if k < lc {
            assert(n.leaves_spec()[k] == s.left.leaves_spec()[k]);
            lemma_set_leaf_same(*s.left, k);
        } else {
            assert(n.leaves_spec()[k] == s.right.leaves_spec()[k - lc]);
            lemma_set_leaf_same(*s.right, k - lc);
        }
    }
}

/// A second leaf put at the same place replaces the first.
proof fn lemma_set_leaf_twice(n: PaneNode, k: int, p: Pane, q: Pane)
    ensures
        n.set_leaf(k, PaneNode::Leaf(p)).set_leaf(k, PaneNode::Leaf(q)) == n.set_leaf(k, PaneNode::Leaf(q)),
    decreases n,
{
    if let PaneNode::Split(s) = n {
        let lc = s.left.leaves_spec().len();
        lemma_set_leaf_with_leaf_len(*s.left, k, p);
        if k < lc {
            lemma_set_leaf_twice(*s.left, k, p, q);
        } else {
            lemma_set_leaf_twice(*s.right, k - lc, p, q);
        }
    }
}

/// Leaves put at two different places can be put in either order.
proof fn lemma_set_leaf_commute(n: PaneNode, j: int, k: int, p: Pane, q: Pane)
    requires
        j != k,
    ensures
        n.set_leaf(j, PaneNode::Leaf(p)).set_leaf(k, PaneNode::Leaf(q)) == n.set_leaf(k, PaneNode::Leaf(q)).set_leaf(
            j,
            PaneNode::Leaf(p),
        ),
    decreases n,
{
    if let PaneNode::Split(s) = n {
        let lc = s.left.leaves_spec().len();
        lemma_set_leaf_with_leaf_len(*s.left, j, p);
        lemma_set_leaf_with_leaf_len(*s.left, k, q);
        if j < lc && k < lc {
            lemma_set_leaf_commute(*s.left, j, k, p, q);
        } else if j >= lc && k >= lc {
            lemma_set_leaf_commute(*s.right, j - lc, k - lc, p, q);
        }
    } else {
        if j == 0 {
            lemma_set_leaf_out_of_range(PaneNode::Leaf(p), k, PaneNode::Leaf(q));
        } else if k == 0 {
            lemma_set_leaf_out_of_range(PaneNode::Leaf(q), j, PaneNode::Leaf(p));
        }
    }
}

/// Swapping the same two panes twice gives the original tree back, when the
/// pane ids of the tree are distinct.
pub proof fn lemma_swap_twice_restores(
    o: PaneGroup,
    n: PaneGroup,
    m: PaneGroup,
    a: Seq<char>,
    b: Seq<char>,
)
    requires
        pane_ids(o.root.leaves_spec()).no_duplicates(),
        a != b,
        first_index(o.root.leaves_spec(), a) >= 0,
        first_index(o.root.leaves_spec(), b) >= 0,
        panes_swapped(o, n, a, b),
        panes_swapped(n, m, a, b),
    ensures
        m.root == o.root,
        m.same_identity(&o),
        m.snapshot() == o.snapshot(),
{
    let l = o.root.leaves_spec();
    let ka = first_index(l, a);
    let kb = first_index(l, b);
    lemma_first_index(l, a);
    lemma_first_index(l, b);
    let pa = l[ka];
    let pb = l[kb];
    let mid = o.root.set_leaf(ka, PaneNode::Leaf(pb));
    lemma_set_leaf_update(o.root, ka, pb);
    lemma_set_leaf_update(mid, kb, pa);
    let l2 = n.root.leaves_spec();
    assert(l2 == l.update(ka, pb).update(kb, pa));
    assert forall|j: int| 0 <= j < l.len() && j != ka implies (#[trigger] l[j]).id@ != a by {
        assert(pane_ids(l)[j] == l[j].id@);
        assert(pane_ids(l)[ka] == l[ka].id@);
    }
    assert forall|j: int| 0 <= j < l.len() && j != kb implies (#[trigger] l[j]).id@ != b by {
        assert(pane_ids(l)[j] == l[j].id@);
        assert(pane_ids(l)[kb] == l[kb].id@);
    }
    assert forall|j: int| 0 <= j < kb implies (#[trigger] l2[j]).id@ != a by {
        if j == ka {
        } else {
            assert(l2[j] == l[j]);
        }
    }
    lemma_first_index_at(l2, a, kb);
    assert forall|j: int| 0 <= j < ka implies (#[trigger] l2[j]).id@ != b by {
        if j == kb {
        } else {
            assert(l2[j] == l[j]);
        }
    }
    lemma_first_index_at(l2, b, ka);
    assert(l2[kb] == pa);
    assert(l2[ka] == pb);
    // m = o.set(ka, pb).set(kb, pa).set(kb, pb).set(ka, pa)
    lemma_set_leaf_twice(mid, kb, pa, pb);
    lemma_set_leaf_commute(o.root, ka, kb, pb, pb);
    let back = o.root.set_leaf(kb, PaneNode::Leaf(pb));
    lemma_set_leaf_same(o.root, kb);
    lemma_set_leaf_twice(back, ka, pb, pa);
    lemma_set_leaf_same(o.root, ka);
}

/// A leaf sequence without launchers keeps none when filtered for them.
proof fn lemma_no_launcher_filter(s: Seq<Pane>)
    requires
        forall|i: int| 0 <= i < s.len() ==> !((#[trigger] s[i]).content is Launcher),
    ensures
        s.filter(|p: Pane| p.content is Launcher) == Seq::<Pane>::empty(),
{
    let pred = |p: Pane| p.content is Launcher;
    assert(s.all(|x: Pane| !pred(x)));
    s.lemma_all_neg_filter_empty(pred);
    assert(s.filter(pred) =~= Seq::<Pane>::empty());
}

/// Inserting a launcher beside a pane and then removing it gives the
/// original tree back and leaves no launcher, when no launcher was live
/// (so no snapshot was held) and the launcher's pane id is new to the tree.
pub proof fn lemma_launcher_insert_remove_restores(
    o: PaneGroup,
    n: PaneGroup,
    m: PaneGroup,
    project: Seq<char>,
    target: Seq<char>,
    edge: PaneEdge,
    launcher: String,
    r: bool,
)
    requires
        o.snapshot() is None,
        !o.root.has_launcher(),
        first_index(o.root.leaves_spec(), target) >= 0,
        first_index(o.root.leaves_spec(), launcher@) < 0,
        launcher_inserted(o, n, project, target, edge, launcher),
        launcher_removed(n, m, launcher@, r),
    ensures
        r,
        m.root == o.root,
        m.snapshot() is None,
        m.same_identity(&o),
        !m.root.has_launcher(),
{
    let l = o.root.leaves_spec();
    let k = first_index(l, target);
    lemma_first_index(l, target);
    lemma_first_index(l, launcher@);
    let np = choose|np: Pane|
        is_new_launcher_pane(np, launcher, project) && n.root == o.root.set_leaf(
            k,
            split_beside(edge, l[k], np),
        );
    let sb = split_beside(edge, l[k], np);
    lemma_set_leaf(o.root, k, sb);
    let nl = n.root.leaves_spec();
    let a = l.subrange(0, k);
    let b = l.subrange(k + 1, l.len() as int);
    assert(nl == a + sb.leaves_spec() + b);
    let left = edge.new_leaf_left_spec();
    let j = if left { k } else { k + 1 };
    assert(PaneNode::Leaf(np).leaves_spec() == seq![np]);
    assert(PaneNode::Leaf(l[k]).leaves_spec() == seq![l[k]]);
    if left {
        assert(sb.leaves_spec() =~= seq![np, l[k]]);
    } else {
        assert(sb.leaves_spec() =~= seq![l[k], np]);
    }
    assert(nl[j] == np);
    assert(nl.remove(j) =~= l);
    // the only launcher is the new one
    assert forall|i: int| 0 <= i < l.len() implies !((#[trigger] l[i]).content is Launcher) by {
        if l[i].content is Launcher {
            assert(o.root.has_launcher());
        }
    }
    assert forall|i: int| 0 <= i < a.len() implies !((#[trigger] a[i]).content is Launcher) by {
        assert(a[i] == l[i]);
    }
    assert forall|i: int| 0 <= i < b.len() implies !((#[trigger] b[i]).content is Launcher) by {
        assert(b[i] == l[i + k + 1]);
    }
    lemma_no_launcher_filter(a);
    lemma_no_launcher_filter(b);
    let pred = |p: Pane| p.content is Launcher;
    Seq::filter_distributes_over_add(a, sb.leaves_spec(), pred);
    Seq::filter_distributes_over_add(a + sb.leaves_spec(), b, pred);
    reveal_with_fuel(vstd::seq::Seq::filter, 3);
    assert(sb.leaves_spec().filter(pred) =~= seq![np]);
    assert(nl.filter(pred) =~= seq![np]);
    assert(launcher_ids(nl) =~= seq![launcher@]);
    // the launcher is found at `j`, and detaching it leaves the old leaves
    assert forall|i: int| 0 <= i < j implies (#[trigger] nl[i]).id@ != launcher@ by {
        assert(nl[i] == l[i]);
    }
    lemma_first_index_at(nl, launcher@, j);
    assert(n.root is Split);
    lemma_remove_leaf(n.root, j);
    reveal_with_fuel(strip_fold, 2);
    let stripped = strip_fold(n.root, launcher_ids(nl));
    assert(seq![launcher@].drop_first() =~= Seq::<Seq<char>>::empty());
    assert(stripped.0 == n.root.remove_leaf(j));
    assert(stripped.1);
    assert(stripped.0.leaves_spec() == l);
    assert(launcher_restores(n));
}

/// Focus directions follow the grid's axes: a leaf in direction Right lies
/// in a later column and Left in an earlier one; Down lies in a later row
/// (the bottom child of a vertical split is below its top child) and Up in
/// an earlier one. A neighbour straight along an axis is in that axis'
/// direction, and opposite directions mirror each other.
pub proof fn lemma_direction_axes(dx: int, dy: int)
    ensures
        in_direction(FocusDirection::Right, dx, dy) ==> dx > 0 && (dy <= dx && -dy <= dx),
        in_direction(FocusDirection::Left, dx, dy) ==> dx < 0 && (dy <= -dx && -dy <= -dx),
        in_direction(FocusDirection::Down, dx, dy) ==> dy > 0 && (dx <= dy && -dx <= dy),
        in_direction(FocusDirection::Up, dx, dy) ==> dy < 0 && (dx <= -dy && -dx <= -dy),
        dy > 0 ==> in_direction(FocusDirection::Down, 0, dy) && !in_direction(FocusDirection::Up, 0, dy),
        dy < 0 ==> in_direction(FocusDirection::Up, 0, dy) && !in_direction(FocusDirection::Down, 0, dy),
        dx > 0 ==> in_direction(FocusDirection::Right, dx, 0) && !in_direction(FocusDirection::Left, dx, 0),
        dx < 0 ==> in_direction(FocusDirection::Left, dx, 0) && !in_direction(FocusDirection::Right, dx, 0),
        in_direction(FocusDirection::Down, dx, dy) == in_direction(FocusDirection::Up, -dx, -dy),
        in_direction(FocusDirection::Right, dx, dy) == in_direction(FocusDirection::Left, -dx, -dy),
{
}

/// In a vertical split of two leaves the bottom leaf is the Down neighbour
/// of the top one and the top leaf the Up neighbour of the bottom one;
/// nothing lies Up of the top leaf, Down of the bottom one, or sideways.
pub proof fn lemma_vertical_pair_neighbours(s: PaneSplit)
    requires
        s.direction == SplitDirection::Vertical,
        *s.left is Leaf,
        *s.right is Leaf,
    ensures
        ({
            let pos = positions(PaneNode::Split(s), 0, 0);
            &&& pos.len() == 2
            &&& in_direction(FocusDirection::Down, pos[1].0 - pos[0].0, pos[1].1 - pos[0].1)
            &&& in_direction(FocusDirection::Up, pos[0].0 - pos[1].0, pos[0].1 - pos[1].1)
            &&& !in_direction(FocusDirection::Up, pos[1].0 - pos[0].0, pos[1].1 - pos[0].1)
            &&& !in_direction(FocusDirection::Down, pos[0].0 - pos[1].0, pos[0].1 - pos[1].1)
            &&& !in_direction(FocusDirection::Left, pos[1].0 - pos[0].0, pos[1].1 - pos[0].1)
            &&& !in_direction(FocusDirection::Right, pos[1].0 - pos[0].0, pos[1].1 - pos[0].1)
        }),
{
    let n = PaneNode::Split(s);
    let pos = positions(n, 0, 0);
    assert(grid(*s.left) == (1int, 1int));
    assert(positions(*s.left, 0, 0) == seq![(0int, 0int)]);
    assert(positions(*s.right, 0, 1) == seq![(0int, 1int)]);
    assert(pos =~= seq![(0int, 0int), (0int, 1int)]);
}

/// Every split of `n` runs in direction `d`.
pub open spec fn splits_all(n: PaneNode, d: SplitDirection) -> bool
    decreases n,
{
    match n {
        PaneNode::Leaf(_) => true,
        PaneNode::Split(s) => s.direction == d && splits_all(*s.left, d) && splits_all(*s.right, d),
    }
}

/// Every split's ratio is its left child's share of the split's leaves
/// (clamped).
pub open spec fn ratios_are_leaf_shares(n: PaneNode) -> bool
    decreases n,
{
    match n {
        PaneNode::Leaf(_) => true,
        PaneNode::Split(s) => s.ratio == clamp_spec(
            s.left.leaves_spec().len() as u64,
            (s.left.leaves_spec().len() + s.right.leaves_spec().len()) as u64,
        ) && ratios_are_leaf_shares(*s.left) && ratios_are_leaf_shares(*s.right),
    }
}

/// Equalizing keeps the leaves, in order.
pub proof fn lemma_equalized_keeps_leaves(n: PaneNode)
    ensures
        equalized(n).leaves_spec() == n.leaves_spec(),
    decreases n,
{
    if let PaneNode::Split(s) = n {
        lemma_equalized_keeps_leaves(*s.left);
        lemma_equalized_keeps_leaves(*s.right);
    }
}

/// Along a run of splits in one direction every leaf weighs the same: the
/// weight of such a tree is its number of leaves.
proof fn lemma_uniform_weight(n: PaneNode, d: SplitDirection)
    requires
        splits_all(n, d),
    ensures
        weight(n, d) == n.leaves_spec().len(),
    decreases n,
{
    if let PaneNode::Split(s) = n {
        lemma_uniform_weight(*s.left, d);
        lemma_uniform_weight(*s.right, d);
    }
}

/// Equalizing a tree whose splits all run in one direction gives every
/// leaf the same share: each split's ratio becomes the share of the leaves
/// on its left (clamped), so e.g. three columns get a third each.
pub proof fn lemma_equalize_gives_equal_shares(n: PaneNode, d: SplitDirection)
    requires
        splits_all(n, d),
    ensures
        ratios_are_leaf_shares(equalized(n)),
        equalized(n).leaves_spec() == n.leaves_spec(),
    decreases n,
{
    lemma_equalized_keeps_leaves(n);
    if let PaneNode::Split(s) = n {
        lemma_uniform_weight(*s.left, d);
        lemma_uniform_weight(*s.right, d);
        lemma_equalized_keeps_leaves(*s.left);
        lemma_equalized_keeps_leaves(*s.right);
        lemma_equalize_gives_equal_shares(*s.left, d);
        lemma_equalize_gives_equal_shares(*s.right, d);
    }
}

/// A block split the other way counts as one cell when equalizing: a leaf
/// beside such a block gets half the space, however many leaves the block
/// holds.
pub proof fn lemma_equalize_perpendicular_block_is_one_cell(s: PaneSplit)
    requires
        *s.left is Leaf,
        *s.right matches PaneNode::Split(b) && b.direction != s.direction,
    ensures
        equalized(PaneNode::Split(s))->Split_0.ratio == clamp_spec(1, 2),
{
}

} // verus!
