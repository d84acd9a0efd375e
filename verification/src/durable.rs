//! The durable projection of pane groups: what is persisted between runs.
//!
//! Encoding strips launcher leaves (or, while a launcher is live with a
//! snapshot, encodes the snapshot) and omits groups with fewer than two
//! session leaves. Decoding canonicalizes ids, removes sessions that an
//! earlier group already shows, promotes a missing representative, trims
//! past the session-leaf cap and drops groups that are not viable.
use vstd::prelude::*;
use crate::panes::{
    Pane, PaneContent, PaneGroup, PaneNode, PaneSplit, Ratio, SplitDirection, DURABLE_VERSION,
    SESSION_LEAF_CAP, launcher_ids, strip_fold, pane_ids_of_kind, strip_ids, views, derefs,
    session_panes, first_index, detaches, detach_spec, detach_unchecked, contains_string,
    lemma_first_index, lemma_remove_leaf, clamp_spec, pane_ids, is_session_pane,
};
use crate::ids::{canonical_id, canonical_spec, lowercase_uuid, lemma_canonical_fixes_lowercase_uuid};
use crate::text::str_eq;

verus! {

/// A persisted leaf: its id and the session it shows (empty for a
/// launcher).
#[derive(Debug, PartialEq, Eq)]
pub struct DurablePane {
    pub id: String,
    pub session_id: String,
}

/// A persisted split.
#[derive(Debug, PartialEq, Eq)]
pub struct DurableSplit {
    pub direction: SplitDirection,
    pub ratio: Ratio,
    pub left: Box<DurablePaneNode>,
    pub right: Box<DurablePaneNode>,
}

#[derive(Debug, PartialEq, Eq)]
pub enum DurablePaneNode {
    Pane(DurablePane),
    Split(DurableSplit),
}

/// A persisted group.
#[derive(Debug, PartialEq, Eq)]
pub struct DurablePaneGroup {
    pub id: String,
    pub representative_pane_id: String,
    pub root: DurablePaneNode,
}

/// The durable layout: `{ version, groups: [{ id, representativePaneID, root }] }`.
#[derive(Debug, PartialEq, Eq)]
pub struct DurableLayout {
    pub version: u32,
    pub groups: Vec<DurablePaneGroup>,
}

/// The session id a leaf persists: its session, or empty for a launcher.
pub open spec fn persisted_session(p: Pane) -> Seq<char> {
    match p.content {
        PaneContent::Session { id } => id@,
        PaneContent::Launcher { .. } => Seq::empty(),
    }
}

/// `d` is the durable form of `n`: the same shape, directions and ratios,
/// each leaf persisted by id and session.
pub open spec fn persists(d: DurablePaneNode, n: PaneNode) -> bool
    decreases n,
{
    match n {
        PaneNode::Leaf(p) => match d {
            DurablePaneNode::Pane(dp) => dp.id == p.id && dp.session_id@ == persisted_session(p),
            DurablePaneNode::Split(_) => false,
        },
        PaneNode::Split(s) => match d {
            DurablePaneNode::Pane(_) => false,
            DurablePaneNode::Split(ds) => {
                &&& ds.direction == s.direction
                &&& ds.ratio == s.ratio
                &&& persists(*ds.left, *s.left)
                &&& persists(*ds.right, *s.right)
            },
        },
    }
}

/// The tree a group persists: its snapshot while a launcher is live and a
/// snapshot is held, else its tree with every launcher leaf detached.
pub open spec fn persisted_tree(g: PaneGroup) -> PaneNode {
    if g.snapshot() is Some && g.root.has_launcher() {
        g.snapshot()->0
    } else {
        strip_fold(g.root, launcher_ids(g.root.leaves_spec())).0
    }
}

/// The groups that are persisted: those whose persisted tree has at least
/// two session leaves.
pub open spec fn persisted_groups(gs: Seq<PaneGroup>) -> Seq<PaneGroup> {
    gs.filter(|g: PaneGroup| persisted_tree(g).session_count() >= 2)
}

/// The durable form of a tree.
fn durable_node(n: &PaneNode) -> (d: DurablePaneNode)
    ensures
        persists(d, *n),
    decreases n,
{
    match n {
        PaneNode::Leaf(p) => {
            let session_id = match &p.content {
                PaneContent::Session { id } => id.clone(),
                PaneContent::Launcher { .. } => String::new(),
            };
            DurablePaneNode::Pane(DurablePane { id: p.id.clone(), session_id })
        },
        PaneNode::Split(s) => {
            let left = durable_node(&s.left);
            let right = durable_node(&s.right);
            DurablePaneNode::Split(
                DurableSplit {
                    direction: s.direction,
                    ratio: s.ratio,
                    left: Box::new(left),
                    right: Box::new(right),
                },
            )
        },
    }
}

/// The tree a group persists (see [`persisted_tree`]).
fn persisted_tree_of(g: &PaneGroup) -> (r: PaneNode)
    ensures
        r == persisted_tree(*g),
{
    let live = g.root.contains_launcher();
    match &g.launcher_snapshot {
        Some(snap) => {
            if live {
                return snap.duplicate();
            }
        },
        None => {},
    }
    let launchers = pane_ids_of_kind(&g.root, true);
    let (stripped, _) = strip_ids(&g.root, &launchers);
    stripped
}

impl DurableLayout {
    /// Encode groups at the current schema version: each group with at
    /// least two session leaves in its persisted tree, in order, with its
    /// id, representative and the durable form of that tree.
    pub fn encode(groups: &[PaneGroup]) -> (r: Self)
        ensures
            r.version == DURABLE_VERSION,
            encodes(r.groups@, persisted_groups(groups@)),
    {
        let mut out: Vec<DurablePaneGroup> = Vec::new();
        let mut i: usize = 0;
        while i < groups.len()
            invariant
                i <= groups.len(),
                out@.len() == persisted_groups(groups@.subrange(0, i as int)).len(),
                forall|k: int|
                    0 <= k < out@.len() ==> {
                        let g = persisted_groups(groups@.subrange(0, i as int))[k];
                        &&& (#[trigger] out@[k]).id == g.id
                        &&& out@[k].representative_pane_id == g.representative_pane_id
                        &&& persists(out@[k].root, persisted_tree(g))
                    },
            decreases groups.len() - i,
        {
            let g = &groups[i];
            let ghost pre = groups@.subrange(0, i as int);
            proof {
                assert(groups@.subrange(0, i + 1) =~= pre + seq![*g]);
                Seq::filter_distributes_over_add(
                    pre,
                    seq![*g],
                    |g: PaneGroup| persisted_tree(g).session_count() >= 2,
                );
                reveal_with_fuel(Seq::filter, 2);
            }
            let tree = persisted_tree_of(g);
            if tree.session_leaves().len() >= 2 {
                let d = DurablePaneGroup {
                    id: g.id.clone(),
                    representative_pane_id: g.representative_pane_id.clone(),
                    root: durable_node(&tree),
                };
                out.push(d);
            }
            i += 1;
        }
        assert(groups@.subrange(0, groups@.len() as int) =~= groups@);
        DurableLayout { version: DURABLE_VERSION, groups: out }
    }
}

/// Index of the first pane of `s` that persists session `sid`, or `-1`.
pub open spec fn first_with_session(s: Seq<Pane>, sid: Seq<char>) -> int
    decreases s.len(),
{
    if s.len() == 0 {
        -1
    } else if persisted_session(s[0]) == sid {
        0
    } else {
        let r = first_with_session(s.drop_first(), sid);
        if r < 0 {
            -1
        } else {
            r + 1
        }
    }
}

proof fn lemma_first_with_session(s: Seq<Pane>, sid: Seq<char>, j: int)
    requires
        0 <= j < s.len(),
        persisted_session(s[j]) == sid,
    ensures
        0 <= first_with_session(s, sid) <= j,
        persisted_session(s[first_with_session(s, sid)]) == sid,
        forall|k: int| 0 <= k < first_with_session(s, sid) ==> persisted_session(#[trigger] s[k]) != sid,
    decreases s.len(),
{
    if persisted_session(s[0]) != sid {
        lemma_first_with_session(s.drop_first(), sid, j - 1);
        assert forall|k: int| 0 < k < s.len() implies #[trigger] s[k] == s.drop_first()[k - 1] by {}
    }
}

/// Walk the session leaves `ls` in order, remembering each session in
/// `seen`: a leaf whose session was already seen names a duplicate, and the
/// id of the first leaf of `all` showing that session is collected. Gives
/// the collected ids and the sessions seen afterwards.
pub open spec fn duplicate_ids(ls: Seq<Pane>, all: Seq<Pane>, seen: Set<Seq<char>>) -> (
    Seq<Seq<char>>,
    Set<Seq<char>>,
)
    decreases ls.len(),
{
    if ls.len() == 0 {
        (Seq::empty(), seen)
    } else {
        let prev = duplicate_ids(ls.drop_last(), all, seen);
        let sid = persisted_session(ls.last());
        if prev.1.contains(sid) {
            (prev.0.push(all[first_with_session(all, sid)].id@), prev.1)
        } else {
            (prev.0, prev.1.insert(sid))
        }
    }
}

/// The sessions a tree shows, walked for duplicates against `seen`.
pub open spec fn tree_duplicates(n: PaneNode, seen: Set<Seq<char>>) -> (Seq<Seq<char>>, Set<Seq<char>>) {
    let ss = session_panes(n.leaves_spec());
    duplicate_ids(ss, ss, seen)
}

/// The representative after restoring: kept when some leaf has that id,
/// else the first session leaf (when there is one).
pub open spec fn promoted_rep(n: PaneNode, rep: Seq<char>) -> Seq<char> {
    let ss = session_panes(n.leaves_spec());
    if first_index(n.leaves_spec(), rep) < 0 && ss.len() > 0 {
        ss[0].id@
    } else {
        rep
    }
}

pub proof fn lemma_detach_shrinks(n: PaneNode, id: Seq<char>)
    requires
        detaches(n, id),
    ensures
        detach_spec(n, id).leaves_spec().len() == n.leaves_spec().len() - 1,
{
    lemma_first_index(n.leaves_spec(), id);
    lemma_remove_leaf(n, first_index(n.leaves_spec(), id));
}

/// Trim past the session-leaf cap: while more than the cap remain, detach
/// the first leaf carrying the id of the last session leaf (stopping if
/// nothing is detached).
pub open spec fn trimmed(n: PaneNode) -> PaneNode
    decreases n.leaves_spec().len(),
{
    let ss = session_panes(n.leaves_spec());
    if ss.len() <= SESSION_LEAF_CAP {
        n
    } else {
        let victim = ss.last().id@;
        if detaches(n, victim) {
            proof {
                lemma_detach_shrinks(n, victim);
            }
            trimmed(detach_spec(n, victim))
        } else {
            n
        }
    }
}

/// A tree that makes a viable group: at least two session leaves, or one
/// session plus a live launcher.
pub open spec fn node_viable(n: PaneNode) -> bool {
    let c = n.session_count();
    c >= 2 || (c == 1 && n.has_launcher())
}

/// What a restored group is made of: its tree, id and representative.
pub open spec fn summary(g: PaneGroup) -> (PaneNode, Seq<char>, Seq<char>) {
    (g.root, g.id@, g.representative_pane_id@)
}

/// The sessions seen after restoring the groups `ds` from the live trees
/// `lives`.
pub open spec fn seen_after(lives: Seq<PaneNode>) -> Set<Seq<char>>
    decreases lives.len(),
{
    if lives.len() == 0 {
        Set::empty()
    } else {
        tree_duplicates(lives.last(), seen_after(lives.drop_last())).1
    }
}

/// A group restored from the live tree `n` with id `id` and representative
/// `rep`, against the sessions `seen` in earlier groups: duplicates
/// detached, the representative promoted, trimmed; `None` when not viable.
pub open spec fn restore_spec(n: PaneNode, id: Seq<char>, rep: Seq<char>, seen: Set<Seq<char>>) -> Option<
    (PaneNode, Seq<char>, Seq<char>),
> {
    finished(strip_fold(n, tree_duplicates(n, seen).0).0, id, rep)
}

/// A group finished from the tree `base`: the representative promoted
/// when missing, then trimmed past the cap; `None` when not viable.
pub open spec fn finished(base: PaneNode, id: Seq<char>, rep: Seq<char>) -> Option<
    (PaneNode, Seq<char>, Seq<char>),
> {
    let t = trimmed(base);
    if node_viable(t) {
        Some((t, id, promoted_rep(base, rep)))
    } else {
        None
    }
}

/// The groups restored from durable groups `ds` whose live trees are
/// `lives`, in order.
pub open spec fn decode_spec(ds: Seq<DurablePaneGroup>, lives: Seq<PaneNode>) -> Seq<
    (PaneNode, Seq<char>, Seq<char>),
>
    decreases ds.len(),
{
    if ds.len() == 0 || lives.len() != ds.len() {
        Seq::empty()
    } else {
        let prev = decode_spec(ds.drop_last(), lives.drop_last());
        let d = ds.last();
        match restore_spec(
            lives.last(),
            canonical_spec(d.id@),
            canonical_spec(d.representative_pane_id@),
            seen_after(lives.drop_last()),
        ) {
            Some(g) => prev.push(g),
            None => prev,
        }
    }
}

/// `n` is the live tree restored from `d`: canonical pane ids, session
/// leaves, the same shape and directions, and ratios clamped.
pub open spec fn restores(n: PaneNode, d: DurablePaneNode) -> bool
    decreases d,
{
    match d {
        DurablePaneNode::Pane(dp) => match n {
            PaneNode::Leaf(p) => {
                &&& p.id@ == canonical_spec(dp.id@)
                &&& p.content is Session
                &&& p.content->id@ == dp.session_id@
            },
            PaneNode::Split(_) => false,
        },
        DurablePaneNode::Split(ds) => match n {
            PaneNode::Leaf(_) => false,
            PaneNode::Split(s) => {
                &&& s.direction == ds.direction
                &&& s.ratio == clamp_spec(ds.ratio.num, ds.ratio.den)
                &&& restores(*s.left, *ds.left)
                &&& restores(*s.right, *ds.right)
            },
        },
    }
}

/// Position of the first pane of `ss` that persists session `sid`.
fn first_with_session_pos(ss: &Vec<&Pane>, sid: &str) -> (r: usize)
    requires
        exists|j: int| 0 <= j < ss@.len() && persisted_session(derefs(ss@)[j]) == sid@,
    ensures
        r == first_with_session(derefs(ss@), sid@),
        r < ss@.len(),
{
    let ghost s = derefs(ss@);
    let ghost j = choose|j: int| 0 <= j < ss@.len() && persisted_session(derefs(ss@)[j]) == sid@;
    proof {
        lemma_first_with_session(s, sid@, j);
    }
    let mut i: usize = 0;
    while i < ss.len()
        invariant
            s == derefs(ss@),
            0 <= first_with_session(s, sid@) < s.len(),
            persisted_session(s[first_with_session(s, sid@)]) == sid@,
            forall|k: int| 0 <= k < first_with_session(s, sid@) ==> persisted_session(#[trigger] s[k]) != sid@,
            i <= first_with_session(s, sid@),
        decreases ss.len() - i,
    {
        let p = ss[i];
        assert(s[i as int] == *p);
        let hit = match &p.content {
            PaneContent::Session { id } => str_eq(id.as_str(), sid),
            PaneContent::Launcher { .. } => sid.unicode_len() == 0,
        };
        proof {
            if sid@.len() == 0 {
                assert(sid@ =~= Seq::<char>::empty());
            }
            assert(hit == (persisted_session(s[i as int]) == sid@));
        }
        if hit {
            return i;
        }
        i += 1;
    }
    i
}

/// The ids of duplicated sessions in `n` (see [`tree_duplicates`]),
/// recording every session of `n` in `seen`.
fn collect_duplicates(n: &PaneNode, seen: &mut Vec<String>) -> (dups: Vec<String>)
    ensures
        views(dups@) == tree_duplicates(*n, views(old(seen)@).to_set()).0,
        views(final(seen)@).to_set() == tree_duplicates(*n, views(old(seen)@).to_set()).1,
{
    let ss = n.session_leaves();
    let ghost all = derefs(ss@);
    let ghost seen0 = views(seen@).to_set();
    let mut dups: Vec<String> = Vec::new();
    let mut i: usize = 0;
    assert(all.subrange(0, 0) =~= Seq::<Pane>::empty());
    while i < ss.len()
        invariant
            i <= ss.len(),
            all == derefs(ss@),
            all == session_panes(n.leaves_spec()),
            duplicate_ids(all.subrange(0, i as int), all, seen0) == (views(dups@), views(seen@).to_set()),
        decreases ss.len() - i,
    {
        let p = ss[i];
        proof {
            assert(all[i as int] == *p);
            assert(all.subrange(0, i + 1).drop_last() =~= all.subrange(0, i as int));
        }
        let sid: String = match &p.content {
            PaneContent::Session { id } => id.clone(),
            PaneContent::Launcher { .. } => String::new(),
        };
        assert(sid@ == persisted_session(*p));
        if contains_string(seen, &sid) {
            let k = first_with_session_pos(&ss, sid.as_str());
            let q = ss[k];
            let id = q.id.clone();
            proof {
                assert(all[k as int] == *q);
            }
            dups.push(id);
            assert(views(dups@) =~= duplicate_ids(all.subrange(0, i + 1), all, seen0).0);
        } else {
            let ghost before = views(seen@);
            seen.push(sid);
            proof {
                assert(views(seen@) =~= before.push(sid@));
                before.lemma_push_to_set_commute(sid@);
            }
            assert(views(seen@).to_set() =~= duplicate_ids(all.subrange(0, i + 1), all, seen0).1);
        }
        i += 1;
    }
    assert(all.subrange(0, ss.len() as int) =~= all);
    dups
}

/// Trim `root` past the session-leaf cap (see [`trimmed`]).
fn trim_tree(root: &mut PaneNode)
    ensures
        *final(root) == trimmed(*old(root)),
{
    let mut done = false;
    while !done
        invariant
            trimmed(*root) == trimmed(*old(root)),
            done ==> trimmed(*root) == *root,
        decreases root.leaves_spec().len(), if done { 0int } else { 1int },
    {
        let ss = root.session_leaves();
        if ss.len() <= SESSION_LEAF_CAP {
            done = true;
        } else {
            let last = ss[ss.len() - 1];
            let victim = last.id.clone();
            proof {
                assert(derefs(ss@).last() == *last);
            }
            let ghost before = *root;
            if detach_unchecked(root, victim.as_str()) {
                proof {
                    lemma_detach_shrinks(before, victim@);
                }
            } else {
                done = true;
            }
        }
    }
}

/// The representative after restoring (see [`promoted_rep`]).
fn promote_missing(root: &PaneNode, rep: String) -> (r: String)
    ensures
        r@ == promoted_rep(*root, rep@),
{
    if root.has_pane(rep.as_str()) {
        rep
    } else {
        let ss = root.session_leaves();
        if ss.len() > 0 {
            let first = ss[0];
            proof {
                assert(derefs(ss@)[0] == *first);
            }
            first.id.clone()
        } else {
            rep
        }
    }
}

/// Restore one group from its live tree against the sessions `seen` in
/// earlier groups (see [`restore_spec`]); `seen` gains the group's
/// sessions.
fn restore_group(id: String, rep: String, root: PaneNode, seen: &mut Vec<String>) -> (r: Option<PaneGroup>)
    ensures
        views(final(seen)@).to_set() == tree_duplicates(root, views(old(seen)@).to_set()).1,
        match r {
            Some(g) => restore_spec(root, id@, rep@, views(old(seen)@).to_set()) == Some(summary(g))
                && g.snapshot() is None,
            None => restore_spec(root, id@, rep@, views(old(seen)@).to_set()) is None,
        },
{
    let dups = collect_duplicates(&root, seen);
    let (base, _) = strip_ids(&root, &dups);
    finish_group(id, rep, base)
}

/// A group made from `base`: the representative promoted when missing,
/// trimmed past the cap, kept only when viable (see [`finished`]).
fn finish_group(id: String, rep: String, base: PaneNode) -> (r: Option<PaneGroup>)
    ensures
        match r {
            Some(g) => finished(base, id@, rep@) == Some(summary(g)) && g.snapshot() is None,
            None => finished(base, id@, rep@) is None,
        },
{
    let mut base = base;
    let rep = promote_missing(&base, rep);
    trim_tree(&mut base);
    let sessions = base.session_leaves().len();
    let viable = sessions >= 2 || (sessions == 1 && base.contains_launcher());
    if viable {
        Some(PaneGroup::new(id, rep, base))
    } else {
        None
    }
}

/// The live tree restored from a durable tree (see [`restores`]).
fn live_node(d: &DurablePaneNode) -> (n: PaneNode)
    ensures
        restores(n, *d),
    decreases d,
{
    match d {
        DurablePaneNode::Pane(p) => PaneNode::Leaf(
            Pane { id: canonical_id(p.id.as_str()), content: PaneContent::Session { id: p.session_id.clone() } },
        ),
        DurablePaneNode::Split(s) => {
            let left = live_node(&s.left);
            let right = live_node(&s.right);
            PaneNode::Split(PaneSplit::new(s.direction, s.ratio.num, s.ratio.den, left, right))
        },
    }
}

impl DurableLayout {
    /// Restore the groups, in order: each durable tree becomes a live tree
    /// (see [`restores`]); a session that an earlier group (or an earlier
    /// leaf) already shows is removed; the representative is promoted when
    /// missing; trailing session leaves past the cap are trimmed; groups
    /// that are not viable are dropped (see [`decode_spec`]).
    pub fn decode(&self) -> (r: Vec<PaneGroup>)
        ensures
            exists|lives: Seq<PaneNode>|
                {
                    &&& lives.len() == self.groups@.len()
                    &&& forall|i: int|
                        0 <= i < lives.len() ==> restores(#[trigger] lives[i], self.groups@[i].root)
                    &&& r@.map_values(|g: PaneGroup| summary(g)) == decode_spec(self.groups@, lives)
                },
            forall|k: int| 0 <= k < r@.len() ==> (#[trigger] r@[k]).snapshot() is None,
    {
        let mut out: Vec<PaneGroup> = Vec::new();
        let mut seen: Vec<String> = Vec::new();
        let ghost mut lives: Seq<PaneNode> = Seq::empty();
        let mut i: usize = 0;
        while i < self.groups.len()
            invariant
                i <= self.groups@.len(),
                lives.len() == i,
                forall|k: int| 0 <= k < i ==> restores(#[trigger] lives[k], self.groups@[k].root),
                out@.map_values(|g: PaneGroup| summary(g)) == decode_spec(self.groups@.subrange(0, i as int), lives),
                views(seen@).to_set() == seen_after(lives),
                forall|k: int| 0 <= k < out@.len() ==> (#[trigger] out@[k]).snapshot() is None,
            decreases self.groups@.len() - i,
        {
            let g = &self.groups[i];
            let root = live_node(&g.root);
            let id = canonical_id(g.id.as_str());
            let rep = canonical_id(g.representative_pane_id.as_str());
            let ghost prev_lives = lives;
            let ghost prev_out = out@;
            let restored = restore_group(id, rep, root, &mut seen);
            proof {
                lives = lives.push(root);
                let ds = self.groups@.subrange(0, i + 1);
                assert(ds.drop_last() =~= self.groups@.subrange(0, i as int));
                assert(lives.drop_last() =~= prev_lives);
                assert(ds.last() == *g);
            }
            match restored {
                Some(grp) => {
                    out.push(grp);
                    assert(out@.map_values(|g: PaneGroup| summary(g)) =~= prev_out.map_values(
                        |g: PaneGroup| summary(g),
                    ).push(summary(grp)));
                },
                None => {},
            }
            i += 1;
        }
        assert(self.groups@.subrange(0, self.groups@.len() as int) =~= self.groups@);
        out
    }
}

/// A pane of the flat v1 layout. `fraction` is its share of the group
/// in millionths.
#[derive(Debug, PartialEq, Eq)]
pub struct V1Pane {
    pub id: String,
    pub session_id: String,
    pub fraction: u32,
}

/// A group of the flat v1 layout: its panes left to right.
#[derive(Debug, PartialEq, Eq)]
pub struct V1Group {
    pub id: String,
    pub representative_pane_id: String,
    pub panes: Vec<V1Pane>,
}

/// The flat v1 layout.
#[derive(Debug, PartialEq, Eq)]
pub struct V1Layout {
    pub groups: Vec<V1Group>,
}

/// The fractions of `ps[i..]`, summed.
pub open spec fn remaining(ps: Seq<V1Pane>, i: int) -> nat
    decreases ps.len() - i,
{
    if i < 0 || i >= ps.len() {
        0
    } else {
        ps[i].fraction as nat + remaining(ps, i + 1)
    }
}

proof fn lemma_remaining_bound(ps: Seq<V1Pane>, i: int)
    requires
        0 <= i <= ps.len(),
    ensures
        remaining(ps, i) <= (ps.len() - i) * 0xffff_ffff,
    decreases ps.len() - i,
{
    if i < ps.len() {
        lemma_remaining_bound(ps, i + 1);
    }
}

/// `p` is the live leaf of v1 pane `v`: canonical id, showing its session.
pub open spec fn v1_leaf(p: Pane, v: V1Pane) -> bool {
    &&& p.id@ == canonical_spec(v.id@)
    &&& p.content is Session
    &&& p.content->id@ == v.session_id@
}

/// `n` is the right-leaning fold of `ps[i..]`: the last pane is a leaf;
/// before it, pane `i` splits horizontally against the fold of the rest at
/// ratio `fraction_i / (fraction_i + ... + fraction_n)`, clamped (the even
/// split when that sum is zero).
pub open spec fn v1_restores(n: PaneNode, ps: Seq<V1Pane>, i: int) -> bool
    decreases ps.len() - i,
{
    if i < 0 || i >= ps.len() {
        false
    } else if i + 1 == ps.len() {
        n matches PaneNode::Leaf(p) && v1_leaf(p, ps[i])
    } else {
        &&& n matches PaneNode::Split(s)
        &&& s.direction == SplitDirection::Horizontal
        &&& s.ratio == clamp_spec(ps[i].fraction as u64, remaining(ps, i) as u64)
        &&& *s.left matches PaneNode::Leaf(p) && v1_leaf(p, ps[i])
        &&& v1_restores(*s.right, ps, i + 1)
    }
}

/// Each leaf's share of its tree's area (preorder), as a fraction
/// `(numerator, denominator)`: a split gives its left child `num/den` of
/// its area and its right child the rest.
pub open spec fn leaf_shares(n: PaneNode) -> Seq<(int, int)>
    decreases n,
{
    match n {
        PaneNode::Leaf(_) => seq![(1int, 1int)],
        PaneNode::Split(s) => leaf_shares(*s.left).map_values(
            |x: (int, int)| (x.0 * s.ratio.num, x.1 * s.ratio.den),
        ) + leaf_shares(*s.right).map_values(
            |x: (int, int)| (x.0 * (s.ratio.den - s.ratio.num), x.1 * s.ratio.den),
        ),
    }
}

/// Migrating a v1 group keeps its panes' widths: when none of the splits
/// had to be clamped, each restored leaf's share of the width is its v1
/// fraction over the fractions of the panes from `i` on (for the whole
/// group, `i == 0`, over all of them), so three panes of a third each
/// come back as three equal columns.
pub proof fn lemma_v1_fold_keeps_fractions(n: PaneNode, ps: Seq<V1Pane>, i: int)
    requires
        0 <= i < ps.len() <= 0xffff_ffff,
        v1_restores(n, ps, i),
        forall|j: int|
            i <= j < ps.len() - 1 ==> remaining(ps, j) > 0 && 10 * ps[j].fraction >= #[trigger] remaining(
                ps,
                j,
            ) && 10 * ps[j].fraction <= 9 * remaining(ps, j),
    ensures
        leaf_shares(n).len() == ps.len() - i,
        forall|k: int|
            0 <= k < ps.len() - i ==> #[trigger] leaf_shares(n)[k].0 * remaining(ps, i) == ps[i + k].fraction
                * leaf_shares(n)[k].1,
    decreases ps.len() - i,
{
    let r = remaining(ps, i);
    if i + 1 == ps.len() {
        assert(remaining(ps, i + 1) == 0);
        assert(remaining(ps, i) == ps[i].fraction as nat);
        assert(leaf_shares(n) == seq![(1int, 1int)]);
        assert forall|k: int| 0 <= k < ps.len() - i implies #[trigger] leaf_shares(n)[k].0 * r
            == ps[i + k].fraction * leaf_shares(n)[k].1 by {
            assert(k == 0);
            assert(leaf_shares(n)[k] == (1int, 1int));
            assert(ps[i + k] == ps[i]);
            assert(r == ps[i].fraction as int);
            let a = leaf_shares(n)[k].0;
            let b = leaf_shares(n)[k].1;
            let g = ps[i + k].fraction as int;
            assert(a == 1 && b == 1 && g == r);
            assert(a * r == g * b) by (nonlinear_arith)
                requires
                    a == 1 && b == 1 && g == r,
            ;
        }
    } else {
        let s = n->Split_0;
        let f = ps[i].fraction;
        let r1 = remaining(ps, i + 1);
        assert(r == f + r1);
        lemma_remaining_bound(ps, i);
        assert(r <= 0xffff_ffff * 0xffff_ffff) by (nonlinear_arith)
            requires
                r <= (ps.len() - i) * 0xffff_ffff,
                ps.len() - i <= 0xffff_ffff,
        ;
        assert(s.ratio == Ratio { num: f as u64, den: r as u64 });
        lemma_v1_fold_keeps_fractions(*s.right, ps, i + 1);
        let left = leaf_shares(*s.left);
        let right = leaf_shares(*s.right);
        assert(left == seq![(1int, 1int)]);
        let ml = left.map_values(|x: (int, int)| (x.0 * s.ratio.num, x.1 * s.ratio.den));
        let mr = right.map_values(
            |x: (int, int)| (x.0 * (s.ratio.den - s.ratio.num), x.1 * s.ratio.den),
        );
        assert(leaf_shares(n) == ml + mr);
        assert forall|k: int| 0 <= k < ps.len() - i implies #[trigger] leaf_shares(n)[k].0 * r
            == ps[i + k].fraction * leaf_shares(n)[k].1 by {
            if k == 0 {
                assert(ml.len() == 1);
                assert(ml[0] == (1 * s.ratio.num, 1 * s.ratio.den));
                assert((ml + mr)[0] == ml[0]);
                assert(leaf_shares(n)[0] == (f as int, r as int));
            } else {
                let x = right[k - 1];
                assert(leaf_shares(n)[k] == mr[k - 1]);
                assert(x.0 * r1 == ps[i + 1 + (k - 1)].fraction * x.1);
                assert(i + 1 + (k - 1) == i + k);
                let g = ps[i + k].fraction as int;
                assert(x.0 * r1 * r == g * x.1 * r) by (nonlinear_arith)
                    requires
                        x.0 * r1 == g * x.1,
                ;
                assert((x.0 * r1) * r == (g * (x.1 * r))) by (nonlinear_arith)
                    requires
                        x.0 * r1 * r == g * x.1 * r,
                ;
                assert(mr[k - 1] == (x.0 * r1, x.1 * r));
            }
        }
    }
}

/// The groups restored from v1 groups `gs` whose folded trees are `lives`:
/// groups of fewer than two panes are skipped; the others are finished
/// (see [`finished`]) without cross-group session checks.
pub open spec fn decode_v1_spec(gs: Seq<V1Group>, lives: Seq<PaneNode>) -> Seq<
    (PaneNode, Seq<char>, Seq<char>),
>
    decreases gs.len(),
{
    if gs.len() == 0 || lives.len() != gs.len() {
        Seq::empty()
    } else {
        let prev = decode_v1_spec(gs.drop_last(), lives.drop_last());
        let g = gs.last();
        if g.panes@.len() < 2 {
            prev
        } else {
            match finished(
                lives.last(),
                canonical_spec(g.id@),
                canonical_spec(g.representative_pane_id@),
            ) {
                Some(x) => prev.push(x),
                None => prev,
            }
        }
    }
}

/// The fractions of `panes[from..]`, summed.
fn remaining_exec(panes: &Vec<V1Pane>, from: usize) -> (r: u64)
    requires
        from <= panes@.len() <= 0xffff_ffff,
    ensures
        r == remaining(panes@, from as int),
{
    let mut sum: u64 = 0;
    let mut k = panes.len();
    while k > from
        invariant
            from <= k <= panes@.len() <= 0xffff_ffff,
            sum == remaining(panes@, k as int),
        decreases k,
    {
        k -= 1;
        proof {
            lemma_remaining_bound(panes@, k as int);
            assert(remaining(panes@, k as int) <= 0xffff_ffff * 0xffff_ffff) by (nonlinear_arith)
                requires
                    remaining(panes@, k as int) <= (panes@.len() - k) * 0xffff_ffff,
                    panes@.len() - k <= 0xffff_ffff,
            ;
        }
        sum = sum + panes[k].fraction as u64;
    }
    sum
}

/// The live leaf of a v1 pane.
fn v1_leaf_of(v: &V1Pane) -> (p: Pane)
    ensures
        v1_leaf(p, *v),
{
    Pane { id: canonical_id(v.id.as_str()), content: PaneContent::Session { id: v.session_id.clone() } }
}

/// The right-leaning fold of `panes[index..]` (see [`v1_restores`]).
fn v1_fold(panes: &Vec<V1Pane>, index: usize) -> (n: PaneNode)
    requires
        index < panes@.len() <= 0xffff_ffff,
    ensures
        v1_restores(n, panes@, index as int),
    decreases panes@.len() - index,
{
    let leaf = v1_leaf_of(&panes[index]);
    if index + 1 >= panes.len() {
        return PaneNode::Leaf(leaf);
    }
    let rest = remaining_exec(panes, index);
    let right = v1_fold(panes, index + 1);
    PaneNode::Split(
        PaneSplit::new(
            SplitDirection::Horizontal,
            panes[index].fraction as u64,
            rest,
            PaneNode::Leaf(leaf),
            right,
        ),
    )
}

impl V1Layout {
    /// Migrate a flat v1 layout: each group of at least two panes folds
    /// right-leaning (see [`v1_restores`]) and is finished like a restored
    /// group (see [`decode_v1_spec`]).
    pub fn decode(&self) -> (r: Vec<PaneGroup>)
        requires
            forall|i: int| 0 <= i < self.groups@.len() ==> (#[trigger] self.groups@[i]).panes@.len() <= 0xffff_ffff,
        ensures
            exists|lives: Seq<PaneNode>|
                {
                    &&& lives.len() == self.groups@.len()
                    &&& forall|i: int|
                        0 <= i < lives.len() && self.groups@[i].panes@.len() >= 2 ==> v1_restores(
                            #[trigger] lives[i],
                            self.groups@[i].panes@,
                            0,
                        )
                    &&& r@.map_values(|g: PaneGroup| summary(g)) == decode_v1_spec(self.groups@, lives)
                },
            forall|k: int| 0 <= k < r@.len() ==> (#[trigger] r@[k]).snapshot() is None,
    {
        let mut out: Vec<PaneGroup> = Vec::new();
        let ghost mut lives: Seq<PaneNode> = Seq::empty();
        let mut i: usize = 0;
        while i < self.groups.len()
            invariant
                i <= self.groups@.len(),
                forall|i: int| 0 <= i < self.groups@.len() ==> (#[trigger] self.groups@[i]).panes@.len() <= 0xffff_ffff,
                lives.len() == i,
                forall|k: int|
                    0 <= k < i && self.groups@[k].panes@.len() >= 2 ==> v1_restores(
                        #[trigger] lives[k],
                        self.groups@[k].panes@,
                        0,
                    ),
                out@.map_values(|g: PaneGroup| summary(g)) == decode_v1_spec(self.groups@.subrange(0, i as int), lives),
                forall|k: int| 0 <= k < out@.len() ==> (#[trigger] out@[k]).snapshot() is None,
            decreases self.groups@.len() - i,
        {
            let g = &self.groups[i];
            let ghost prev_lives = lives;
            let ghost prev_out = out@;
            proof {
                let gs = self.groups@.subrange(0, i + 1);
                assert(gs.drop_last() =~= self.groups@.subrange(0, i as int));
                assert(gs.last() == *g);
            }
            if g.panes.len() < 2 {
                proof {
                    lives = lives.push(PaneNode::Leaf(Pane { id: g.id, content: PaneContent::Session { id: g.id } }));
                    assert(lives.drop_last() =~= prev_lives);
                }
            } else {
                let root = v1_fold(&g.panes, 0);
                proof {
                    lives = lives.push(root);
                    assert(lives.drop_last() =~= prev_lives);
                }
                let id = canonical_id(g.id.as_str());
                let rep = canonical_id(g.representative_pane_id.as_str());
                match finish_group(id, rep, root) {
                    Some(grp) => {
                        out.push(grp);
                        assert(out@.map_values(|g: PaneGroup| summary(g)) =~= prev_out.map_values(
                            |g: PaneGroup| summary(g),
                        ).push(summary(grp)));
                    },
                    None => {},
                }
            }
            i += 1;
        }
        assert(self.groups@.subrange(0, self.groups@.len() as int) =~= self.groups@);
        out
    }
}

/// Ids of the session leaves whose session is not in `eligible`, in
/// preorder.
pub open spec fn dead_ids(n: PaneNode, eligible: Set<Seq<char>>) -> Seq<Seq<char>> {
    pane_ids(
        session_panes(n.leaves_spec()).filter(|p: Pane| !eligible.contains(persisted_session(p))),
    )
}

/// Detach each id of `ids` in turn; when the representative was the one
/// detached and no leaf carries its id any more, the first session leaf
/// (if any) becomes the representative.
pub open spec fn reconcile_fold(n: PaneNode, rep: Seq<char>, ids: Seq<Seq<char>>) -> (PaneNode, Seq<char>)
    decreases ids.len(),
{
    if ids.len() == 0 {
        (n, rep)
    } else {
        let prev = reconcile_fold(n, rep, ids.drop_last());
        let id = ids.last();
        let root = detach_spec(prev.0, id);
        let ss = session_panes(root.leaves_spec());
        let r = if prev.1 == id && first_index(root.leaves_spec(), prev.1) < 0 && ss.len() > 0 {
            ss[0].id@
        } else {
            prev.1
        };
        (root, r)
    }
}

/// A group with its dead sessions detached (see [`reconcile_fold`]).
pub open spec fn reconciled(g: PaneGroup, eligible: Set<Seq<char>>) -> (PaneNode, Seq<char>, Seq<char>) {
    let f = reconcile_fold(g.root, g.representative_pane_id@, dead_ids(g.root, eligible));
    (f.0, g.id@, f.1)
}

/// Ids of the session leaves whose session is not in `eligible`.
fn dead_pane_ids(n: &PaneNode, eligible: &Vec<String>) -> (r: Vec<String>)
    ensures
        views(r@) == dead_ids(*n, views(eligible@).to_set()),
{
    let ss = n.session_leaves();
    let ghost all = derefs(ss@);
    let ghost e = views(eligible@).to_set();
    let ghost pred = |p: Pane| !e.contains(persisted_session(p));
    let mut out: Vec<String> = Vec::new();
    let mut i: usize = 0;
    while i < ss.len()
        invariant
            i <= ss.len(),
            all == derefs(ss@),
            all == session_panes(n.leaves_spec()),
            e == views(eligible@).to_set(),
            pred == (|p: Pane| !e.contains(persisted_session(p))),
            views(out@) == pane_ids(all.subrange(0, i as int).filter(pred)),
        decreases ss.len() - i,
    {
        let p = ss[i];
        let ghost pre = all.subrange(0, i as int);
        proof {
            assert(all[i as int] == *p);
            assert(all.subrange(0, i + 1) =~= pre + seq![*p]);
            Seq::filter_distributes_over_add(pre, seq![*p], pred);
            reveal_with_fuel(Seq::filter, 2);
        }
        let sid: String = match &p.content {
            PaneContent::Session { id } => id.clone(),
            PaneContent::Launcher { .. } => String::new(),
        };
        assert(sid@ == persisted_session(*p));
        let live = contains_string(eligible, &sid);
        proof {
            assert(views(eligible@).contains(sid@) == e.contains(sid@));
        }
        let ghost before = views(out@);
        if !live {
            out.push(p.id.clone());
            proof {
                assert(pred(*p));
                assert(all.subrange(0, i + 1).filter(pred) =~= pre.filter(pred).push(*p));
                assert(views(out@) =~= before.push(p.id@));
            }
        } else {
            proof {
                assert(!pred(*p));
                assert(all.subrange(0, i + 1).filter(pred) =~= pre.filter(pred));
            }
        }
        assert(views(out@) =~= pane_ids(all.subrange(0, i + 1).filter(pred)));
        i += 1;
    }
    assert(all.subrange(0, ss.len() as int) =~= all);
    out
}

/// A group with the sessions outside `eligible` detached and its snapshot
/// dropped (see [`reconciled`]).
fn reconcile_group(g: &PaneGroup, eligible: &Vec<String>) -> (r: PaneGroup)
    ensures
        summary(r) == reconciled(*g, views(eligible@).to_set()),
        r.snapshot() is None,
{
    let dead = dead_pane_ids(&g.root, eligible);
    let mut root = g.root.duplicate();
    let mut rep = g.representative_pane_id.clone();
    let ghost ids = views(dead@);
    let mut i: usize = 0;
    assert(ids.subrange(0, 0) =~= Seq::<Seq<char>>::empty());
    while i < dead.len()
        invariant
            i <= dead.len(),
            ids == views(dead@),
            reconcile_fold(g.root, g.representative_pane_id@, ids.subrange(0, i as int)) == (root, rep@),
        decreases dead.len() - i,
    {
        let id = &dead[i];
        proof {
            assert(ids.subrange(0, i + 1).drop_last() =~= ids.subrange(0, i as int));
            assert(ids.subrange(0, i + 1).last() == id@);
        }
        detach_unchecked(&mut root, id.as_str());
        if str_eq(rep.as_str(), id.as_str()) && !root.has_pane(rep.as_str()) {
            let ss = root.session_leaves();
            if ss.len() > 0 {
                let first = ss[0];
                proof {
                    assert(derefs(ss@)[0] == *first);
                }
                rep = first.id.clone();
            }
        }
        i += 1;
    }
    assert(ids.subrange(0, dead.len() as int) =~= ids);
    PaneGroup::new(g.id.clone(), rep, root)
}

/// Reconcile the whole layout with the sessions that still exist: in each
/// group, detach the leaves whose session is not eligible (promoting the
/// representative when it went) and drop the launcher snapshot; then drop
/// the groups that are no longer viable.
pub fn reconcile(groups: &mut Vec<PaneGroup>, eligible_session_ids: &Vec<String>)
    ensures
        final(groups)@.map_values(|g: PaneGroup| summary(g)) == old(groups)@.map_values(
            |g: PaneGroup| reconciled(g, views(eligible_session_ids@).to_set()),
        ).filter(|x: (PaneNode, Seq<char>, Seq<char>)| node_viable(x.0)),
        forall|k: int| 0 <= k < final(groups)@.len() ==> (#[trigger] final(groups)@[k]).snapshot() is None,
{
    let ghost e = views(eligible_session_ids@).to_set();
    let ghost f = |g: PaneGroup| reconciled(g, e);
    let ghost keep = |x: (PaneNode, Seq<char>, Seq<char>)| node_viable(x.0);
    let mut kept: Vec<PaneGroup> = Vec::new();
    let mut i: usize = 0;
    while i < groups.len()
        invariant
            i <= groups@.len(),
            groups@ == old(groups)@,
            e == views(eligible_session_ids@).to_set(),
            f == (|g: PaneGroup| reconciled(g, e)),
            keep == (|x: (PaneNode, Seq<char>, Seq<char>)| node_viable(x.0)),
            kept@.map_values(|g: PaneGroup| summary(g)) == groups@.subrange(0, i as int).map_values(f).filter(
                keep,
            ),
            forall|k: int| 0 <= k < kept@.len() ==> (#[trigger] kept@[k]).snapshot() is None,
        decreases groups@.len() - i,
    {
        let g = reconcile_group(&groups[i], eligible_session_ids);
        let ghost pre = groups@.subrange(0, i as int).map_values(f);
        let ghost prev = kept@;
        proof {
            assert(groups@.subrange(0, i + 1).map_values(f) =~= pre + seq![summary(g)]);
            Seq::filter_distributes_over_add(pre, seq![summary(g)], keep);
            reveal_with_fuel(Seq::filter, 2);
        }
        let sessions = g.root.session_leaves().len();
        if sessions >= 2 || (sessions == 1 && g.root.contains_launcher()) {
            kept.push(g);
            assert(kept@.map_values(|g: PaneGroup| summary(g)) =~= prev.map_values(|g: PaneGroup| summary(g)).push(
                summary(g),
            ));
        }
        i += 1;
    }
    assert(groups@.subrange(0, groups@.len() as int) =~= groups@);
    *groups = kept;
}


/// What a tree persists, as values: its shape, split directions and
/// ratios, and each leaf's id and persisted session.
pub enum TreeShape {
    Leaf { id: Seq<char>, session: Seq<char> },
    Split { direction: SplitDirection, ratio: Ratio, left: Box<TreeShape>, right: Box<TreeShape> },
}

/// The persisted view of a tree.
pub open spec fn shape(n: PaneNode) -> TreeShape
    decreases n,
{
    match n {
        PaneNode::Leaf(p) => TreeShape::Leaf { id: p.id@, session: persisted_session(p) },
        PaneNode::Split(s) => TreeShape::Split {
            direction: s.direction,
            ratio: s.ratio,
            left: Box::new(shape(*s.left)),
            right: Box::new(shape(*s.right)),
        },
    }
}

/// Every leaf shows a session and has a canonical id.
pub open spec fn canonical_session_leaves(ls: Seq<Pane>) -> bool {
    forall|k: int| 0 <= k < ls.len() ==> is_session_pane(#[trigger] ls[k]) && lowercase_uuid(ls[k].id@)
}

/// A tree restored from the durable form of a tree whose leaves are
/// canonical session leaves and whose ratios are clamped has the same
/// persisted view and the same leaves, id for id and session for session.
proof fn lemma_restored_shape(n: PaneNode, d: DurablePaneNode, t: PaneNode)
    requires
        restores(n, d),
        persists(d, t),
        t.ratios_clamped(),
        canonical_session_leaves(t.leaves_spec()),
    ensures
        shape(n) == shape(t),
        n.leaves_spec().len() == t.leaves_spec().len(),
        forall|k: int|
            0 <= k < n.leaves_spec().len() ==> {
                &&& (#[trigger] n.leaves_spec()[k]).id@ == t.leaves_spec()[k].id@
                &&& persisted_session(n.leaves_spec()[k]) == persisted_session(t.leaves_spec()[k])
                &&& is_session_pane(n.leaves_spec()[k])
            },
    decreases t,
{
    match t {
        PaneNode::Leaf(p) => {
            assert(t.leaves_spec()[0] == p);
            lemma_canonical_fixes_lowercase_uuid(p.id@);
        },
        PaneNode::Split(ts) => {
            let ds = match d {
                DurablePaneNode::Split(x) => x,
                DurablePaneNode::Pane(_) => arbitrary(),
            };
            let ns = match n {
                PaneNode::Split(x) => x,
                PaneNode::Leaf(_) => arbitrary(),
            };
            let tl = ts.left.leaves_spec();
            let tr = ts.right.leaves_spec();
            assert forall|k: int| 0 <= k < tl.len() implies is_session_pane(#[trigger] tl[k])
                && lowercase_uuid(tl[k].id@) by {
                assert(t.leaves_spec()[k] == tl[k]);
            }
            assert forall|k: int| 0 <= k < tr.len() implies is_session_pane(#[trigger] tr[k])
                && lowercase_uuid(tr[k].id@) by {
                assert(t.leaves_spec()[tl.len() + k] == tr[k]);
            }
            lemma_restored_shape(*ns.left, *ds.left, *ts.left);
            lemma_restored_shape(*ns.right, *ds.right, *ts.right);
            let nl = ns.left.leaves_spec();
            assert forall|k: int| 0 <= k < n.leaves_spec().len() implies {
                &&& (#[trigger] n.leaves_spec()[k]).id@ == t.leaves_spec()[k].id@
                &&& persisted_session(n.leaves_spec()[k]) == persisted_session(t.leaves_spec()[k])
                &&& is_session_pane(n.leaves_spec()[k])
            } by {
                if k < nl.len() {
                    assert(n.leaves_spec()[k] == nl[k]);
                    assert(t.leaves_spec()[k] == tl[k]);
                } else {
                    assert(n.leaves_spec()[k] == ns.right.leaves_spec()[k - nl.len()]);
                    assert(t.leaves_spec()[k] == tr[k - tl.len()]);
                }
            }
        },
    }
}

/// The persisted sessions of some leaves.
pub open spec fn sessions_of(ls: Seq<Pane>) -> Set<Seq<char>> {
    ls.map_values(|p: Pane| persisted_session(p)).to_set()
}

proof fn lemma_all_sessions_kept(s: Seq<Pane>)
    requires
        forall|k: int| 0 <= k < s.len() ==> is_session_pane(#[trigger] s[k]),
    ensures
        session_panes(s) == s,
    decreases s.len(),
{
    if s.len() > 0 {
        assert forall|k: int| 0 <= k < s.drop_last().len() implies is_session_pane(
            #[trigger] s.drop_last()[k],
        ) by {
            assert(s.drop_last()[k] == s[k]);
        }
        lemma_all_sessions_kept(s.drop_last());
        assert(is_session_pane(s.last()));
        assert(s.drop_last().push(s.last()) =~= s);
        s.drop_last().lemma_filter_push(s.last(), |p: Pane| is_session_pane(p));
    }
}

/// Walking leaves whose sessions are distinct and unseen finds no
/// duplicate, and records every one of their sessions.
proof fn lemma_no_duplicates(ls: Seq<Pane>, all: Seq<Pane>, seen: Set<Seq<char>>)
    requires
        forall|a: int, b: int|
            0 <= a < b < ls.len() ==> persisted_session(#[trigger] ls[a]) != persisted_session(
                #[trigger] ls[b],
            ),
        forall|a: int| 0 <= a < ls.len() ==> !seen.contains(persisted_session(#[trigger] ls[a])),
    ensures
        duplicate_ids(ls, all, seen).0 == Seq::<Seq<char>>::empty(),
        duplicate_ids(ls, all, seen).1 == seen.union(sessions_of(ls)),
    decreases ls.len(),
{
    if ls.len() == 0 {
        assert(sessions_of(ls) =~= Set::<Seq<char>>::empty());
        assert(seen.union(sessions_of(ls)) =~= seen);
    } else {
        let l = ls.drop_last();
        assert forall|a: int, b: int| 0 <= a < b < l.len() implies persisted_session(#[trigger] l[a])
            != persisted_session(#[trigger] l[b]) by {
            assert(l[a] == ls[a] && l[b] == ls[b]);
        }
        assert forall|a: int| 0 <= a < l.len() implies !seen.contains(
            persisted_session(#[trigger] l[a]),
        ) by {
            assert(l[a] == ls[a]);
        }
        lemma_no_duplicates(l, all, seen);
        let sid = persisted_session(ls.last());
        let m = l.map_values(|p: Pane| persisted_session(p));
        assert(ls.map_values(|p: Pane| persisted_session(p)) =~= m.push(sid));
        m.lemma_push_to_set_commute(sid);
        if sessions_of(l).contains(sid) {
            let k = choose|k: int| 0 <= k < m.len() && m[k] == sid;
            assert(l[k] == ls[k]);
            assert(persisted_session(ls[k]) != persisted_session(ls[ls.len() - 1]));
        }
        assert(!seen.union(sessions_of(l)).contains(sid));
        assert(seen.union(sessions_of(l)).insert(sid) =~= seen.union(sessions_of(ls)));
    }
}

proof fn lemma_first_index_same_ids(a: Seq<Pane>, b: Seq<Pane>, id: Seq<char>)
    requires
        a.len() == b.len(),
        forall|k: int| 0 <= k < a.len() ==> (#[trigger] a[k]).id@ == b[k].id@,
    ensures
        first_index(a, id) == first_index(b, id),
    decreases a.len(),
{
    if a.len() > 0 {
        assert forall|k: int| 0 <= k < a.drop_first().len() implies (
        #[trigger] a.drop_first()[k]).id@ == b.drop_first()[k].id@ by {
            assert(a.drop_first()[k] == a[k + 1] && b.drop_first()[k] == b[k + 1]);
        }
        lemma_first_index_same_ids(a.drop_first(), b.drop_first(), id);
        assert(a[0].id@ == b[0].id@);
    }
}

/// The durable groups `ds` encode the groups `ps`: one per group, in
/// order, with its id, its representative and the durable form of its
/// persisted tree.
pub open spec fn encodes(ds: Seq<DurablePaneGroup>, ps: Seq<PaneGroup>) -> bool {
    &&& ds.len() == ps.len()
    &&& forall|i: int|
        0 <= i < ds.len() ==> {
            &&& (#[trigger] ds[i]).id == ps[i].id
            &&& ds[i].representative_pane_id == ps[i].representative_pane_id
            &&& persists(ds[i].root, persisted_tree(ps[i]))
        }
}

/// A group that a round trip brings back as it was: canonical ids, a
/// persisted tree of canonical session leaves showing distinct sessions,
/// within the cap, with clamped ratios, holding the representative.
pub open spec fn round_trips(g: PaneGroup) -> bool {
    let t = persisted_tree(g);
    let ls = t.leaves_spec();
    &&& lowercase_uuid(g.id@)
    &&& lowercase_uuid(g.representative_pane_id@)
    &&& canonical_session_leaves(ls)
    &&& forall|a: int, b: int|
        0 <= a < b < ls.len() ==> persisted_session(#[trigger] ls[a]) != persisted_session(
            #[trigger] ls[b],
        )
    &&& ls.len() <= SESSION_LEAF_CAP
    &&& t.ratios_clamped()
    &&& first_index(ls, g.representative_pane_id@) >= 0
}

/// No session is persisted by two groups.
pub open spec fn sessions_apart(ps: Seq<PaneGroup>) -> bool {
    forall|i: int, j: int|
        0 <= i < j < ps.len() ==> sessions_of(persisted_tree(#[trigger] ps[i]).leaves_spec()).disjoint(
            sessions_of(persisted_tree(#[trigger] ps[j]).leaves_spec()),
        )
}

/// The sessions persisted by the groups `ps`.
pub open spec fn sessions_upto(ps: Seq<PaneGroup>) -> Set<Seq<char>>
    decreases ps.len(),
{
    if ps.len() == 0 {
        Set::empty()
    } else {
        sessions_upto(ps.drop_last()).union(sessions_of(persisted_tree(ps.last()).leaves_spec()))
    }
}

proof fn lemma_sessions_upto(ps: Seq<PaneGroup>, x: Seq<char>)
    requires
        sessions_upto(ps).contains(x),
    ensures
        exists|k: int| 0 <= k < ps.len() && sessions_of(persisted_tree(#[trigger] ps[k]).leaves_spec()).contains(x),
    decreases ps.len(),
{
    if !sessions_of(persisted_tree(ps.last()).leaves_spec()).contains(x) {
        lemma_sessions_upto(ps.drop_last(), x);
        let k = choose|k: int|
            0 <= k < ps.drop_last().len() && sessions_of(
                persisted_tree(#[trigger] ps.drop_last()[k]).leaves_spec(),
            ).contains(x);
        assert(ps.drop_last()[k] == ps[k]);
    } else {
        assert(ps[ps.len() - 1] == ps.last());
    }
}

/// A restored group `r` (tree, id, representative) is the group `g` as it
/// was persisted.
pub open spec fn restored_as(r: (PaneNode, Seq<char>, Seq<char>), g: PaneGroup) -> bool {
    &&& shape(r.0) == shape(persisted_tree(g))
    &&& r.1 == g.id@
    &&& r.2 == g.representative_pane_id@
}

proof fn lemma_decode_encoded(ps: Seq<PaneGroup>, ds: Seq<DurablePaneGroup>, lives: Seq<PaneNode>)
    requires
        encodes(ds, ps),
        lives.len() == ds.len(),
        forall|i: int| 0 <= i < lives.len() ==> restores(#[trigger] lives[i], ds[i].root),
        forall|i: int|
            0 <= i < ps.len() ==> round_trips(#[trigger] ps[i]) && persisted_tree(ps[i]).session_count()
                >= 2,
        sessions_apart(ps),
    ensures
        decode_spec(ds, lives).len() == ps.len(),
        forall|i: int| 0 <= i < ps.len() ==> restored_as(#[trigger] decode_spec(ds, lives)[i], ps[i]),
        seen_after(lives) == sessions_upto(ps),
    decreases ps.len(),
{
    if ps.len() == 0 {
        assert(seen_after(lives) =~= sessions_upto(ps));
    } else {
        let m = ps.len() - 1;
        let ps0 = ps.drop_last();
        let ds0 = ds.drop_last();
        let lv0 = lives.drop_last();
        assert forall|i: int| 0 <= i < ds0.len() implies {
            &&& (#[trigger] ds0[i]).id == ps0[i].id
            &&& ds0[i].representative_pane_id == ps0[i].representative_pane_id
            &&& persists(ds0[i].root, persisted_tree(ps0[i]))
        } by {
            assert(ds0[i] == ds[i] && ps0[i] == ps[i]);
        }
        assert forall|i: int| 0 <= i < lv0.len() implies restores(#[trigger] lv0[i], ds0[i].root) by {
            assert(lv0[i] == lives[i] && ds0[i] == ds[i]);
        }
        assert forall|i: int| 0 <= i < ps0.len() implies round_trips(#[trigger] ps0[i])
            && persisted_tree(ps0[i]).session_count() >= 2 by {
            assert(ps0[i] == ps[i]);
        }
        assert forall|i: int, j: int| 0 <= i < j < ps0.len() implies sessions_of(
            persisted_tree(#[trigger] ps0[i]).leaves_spec(),
        ).disjoint(sessions_of(persisted_tree(#[trigger] ps0[j]).leaves_spec())) by {
            assert(ps0[i] == ps[i] && ps0[j] == ps[j]);
        }
        lemma_decode_encoded(ps0, ds0, lv0);
        let g = ps[m];
        let d = ds[m];
        let n = lives[m];
        let t = persisted_tree(g);
        assert(ds.last() == d && lives.last() == n && ps.last() == g);
        assert(round_trips(g) && t.session_count() >= 2);
        assert(restores(n, d.root));
        lemma_restored_shape(n, d.root, t);
        let nl = n.leaves_spec();
        let tl = t.leaves_spec();
        lemma_all_sessions_kept(nl);
        lemma_all_sessions_kept(tl);
        assert(nl.map_values(|p: Pane| persisted_session(p)) =~= tl.map_values(
            |p: Pane| persisted_session(p),
        ));
        assert(sessions_of(nl) == sessions_of(tl));
        let seen = seen_after(lv0);
        assert(seen == sessions_upto(ps0));
        assert forall|a: int, b: int| 0 <= a < b < nl.len() implies persisted_session(#[trigger] nl[a])
            != persisted_session(#[trigger] nl[b]) by {
            assert(persisted_session(tl[a]) != persisted_session(tl[b]));
        }
        assert forall|a: int| 0 <= a < nl.len() implies !seen.contains(
            persisted_session(#[trigger] nl[a]),
        ) by {
            let x = persisted_session(nl[a]);
            assert(nl.map_values(|p: Pane| persisted_session(p))[a] == x);
            assert(sessions_of(tl).contains(x));
            if seen.contains(x) {
                lemma_sessions_upto(ps0, x);
                let k = choose|k: int|
                    0 <= k < ps0.len() && sessions_of(persisted_tree(#[trigger] ps0[k]).leaves_spec()).contains(x);
                assert(ps0[k] == ps[k]);
                assert(sessions_of(persisted_tree(ps[k]).leaves_spec()).disjoint(sessions_of(tl)));
            }
        }
        lemma_no_duplicates(nl, nl, seen);
        assert(tree_duplicates(n, seen).0 == Seq::<Seq<char>>::empty());
        assert(strip_fold(n, Seq::<Seq<char>>::empty()).0 == n);
        lemma_canonical_fixes_lowercase_uuid(g.id@);
        lemma_canonical_fixes_lowercase_uuid(g.representative_pane_id@);
        assert(trimmed(n) == n);
        assert(node_viable(n));
        lemma_first_index_same_ids(nl, tl, g.representative_pane_id@);
        assert(promoted_rep(n, g.representative_pane_id@) == g.representative_pane_id@);
        let r = (n, g.id@, g.representative_pane_id@);
        assert(restore_spec(n, canonical_spec(d.id@), canonical_spec(d.representative_pane_id@), seen) == Some(r));
        let prev = decode_spec(ds0, lv0);
        assert(decode_spec(ds, lives) == prev.push(r));
        assert forall|i: int| 0 <= i < ps.len() implies restored_as(
            #[trigger] decode_spec(ds, lives)[i],
            ps[i],
        ) by {
            if i < m {
                assert(decode_spec(ds, lives)[i] == prev[i]);
                assert(ps0[i] == ps[i]);
            }
        }
        assert(seen_after(lives) == tree_duplicates(n, seen).1);
        assert(seen_after(lives) =~= sessions_upto(ps));
    }
}

/// Round trip: decoding what [`DurableLayout::encode`] wrote gives back
/// every persisted group in order, with its id, its representative and
/// its persisted tree (launchers stripped), provided the ids are canonical,
/// the persisted trees hold canonical session leaves only, with clamped
/// ratios, at most the session-leaf cap of them and the representative
/// among them, and no session is shown twice.
pub proof fn lemma_durable_round_trip(gs: Seq<PaneGroup>, ds: Seq<DurablePaneGroup>, lives: Seq<PaneNode>)
    requires
        encodes(ds, persisted_groups(gs)),
        lives.len() == ds.len(),
        forall|i: int| 0 <= i < lives.len() ==> restores(#[trigger] lives[i], ds[i].root),
        forall|i: int|
            0 <= i < persisted_groups(gs).len() ==> round_trips(#[trigger] persisted_groups(gs)[i]),
        sessions_apart(persisted_groups(gs)),
    ensures
        decode_spec(ds, lives).len() == persisted_groups(gs).len(),
        forall|i: int|
            0 <= i < persisted_groups(gs).len() ==> restored_as(
                #[trigger] decode_spec(ds, lives)[i],
                persisted_groups(gs)[i],
            ),
{
    let ps = persisted_groups(gs);
    let pred = |g: PaneGroup| persisted_tree(g).session_count() >= 2;
    assert forall|i: int| 0 <= i < ps.len() implies round_trips(#[trigger] ps[i]) && persisted_tree(
        ps[i],
    ).session_count() >= 2 by {
        gs.lemma_filter_pred(pred, i);
    }
    lemma_decode_encoded(ps, ds, lives);
}

} // verus!
