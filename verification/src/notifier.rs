//! Desktop notification policy: which banners post, and where a tap on one
//! routes.
//!
//! Each tag notifies at most once: repeats of one approval collapse, and
//! tags already pending at connect time are seeded as seen so connecting
//! does not burst a banner per pre-existing approval. A tap reports
//! `notify-click:{tag}`, which maps back to a host and session.
use vstd::prelude::*;
use crate::i18n::{t, message_spec};
use crate::text::{owned, str_eq, chars_of, push_char, push_str, string_from_chars};
use crate::panes::{contains_string, views};
use crate::json::{json_string, json_quote};
use crate::sessions::SessionSummary;

verus! {

broadcast use vstd::string::group_string_axioms;

/// Kind strings shared with the host and phone contract.
#[derive(Debug, Clone, Copy, PartialEq, Eq, Structural)]
pub enum NotificationKind {
    NeedsInput,
    Done,
    Alert,
}

impl NotificationKind {
    /// The contract string of a kind.
    pub open spec fn str_spec(self) -> Seq<char> {
        match self {
            NotificationKind::NeedsInput => "needs_input"@,
            NotificationKind::Done => "done"@,
            NotificationKind::Alert => "alert"@,
        }
    }

    pub fn as_str(self) -> (r: &'static str)
        ensures
            r@ == self.str_spec(),
    {
        match self {
            NotificationKind::NeedsInput => "needs_input",
            NotificationKind::Done => "done",
            NotificationKind::Alert => "alert",
        }
    }
}

/// One banner to post.
#[derive(Debug, Clone, PartialEq, Eq)]
pub struct DesktopNotification {
    pub title: String,
    pub body: String,
    /// Deduplication key, built so that a tap can be mapped back, e.g.
    /// `approval:{approval_id}`.
    pub tag: String,
    pub kind: NotificationKind,
}

impl DesktopNotification {
    /// Approval waiting on a session the desktop is not showing: titled by
    /// the session, its body the detail after `Needs your input — ` (or
    /// the catalog's needs-your-input message without one), tagged
    /// `approval:{approval_id}`.
    pub fn approval_needed(approval_id: &str, session_title: &str, detail: Option<&str>) -> (r: Self)
        ensures
            r.title@ == session_title@,
            r.body@ == match detail {
                Some(d) => "Needs your input — "@ + d@,
                None => message_spec("notifier.needs_your_input"@),
            },
            r.tag@ == "approval:"@ + approval_id@,
            r.kind == NotificationKind::NeedsInput,
    {
        let body = match detail {
            Some(d) => {
                let mut b = owned("Needs your input — ");
                push_str(&mut b, d);
                b
            },
            None => t("notifier.needs_your_input"),
        };
        let mut tag = owned("approval:");
        push_str(&mut tag, approval_id);
        DesktopNotification { title: owned(session_title), body, tag, kind: NotificationKind::NeedsInput }
    }
}

/// Index of the last route in `s` for tag `k`, or `-1`.
pub open spec fn last_route(s: Seq<(String, String, String)>, k: Seq<char>) -> int
    decreases s.len(),
{
    if s.len() == 0 {
        -1
    } else if s.last().0@ == k {
        s.len() - 1
    } else {
        last_route(s.drop_last(), k)
    }
}

/// Routes recorded in order, a later one for the same tag replacing an
/// earlier one.
pub open spec fn routes_of(s: Seq<(String, String, String)>) -> Map<Seq<char>, (Seq<char>, Seq<char>)>
    decreases s.len(),
{
    if s.len() == 0 {
        Map::empty()
    } else {
        routes_of(s.drop_last()).insert(s.last().0@, (s.last().1@, s.last().2@))
    }
}

proof fn lemma_routes_of(s: Seq<(String, String, String)>, k: Seq<char>)
    ensures
        -1 <= last_route(s, k) < s.len(),
        last_route(s, k) >= 0 ==> s[last_route(s, k)].0@ == k,
        forall|j: int| last_route(s, k) < j < s.len() ==> (#[trigger] s[j]).0@ != k,
        routes_of(s).dom().contains(k) == (last_route(s, k) >= 0),
        last_route(s, k) >= 0 ==> routes_of(s)[k] == (s[last_route(s, k)].1@, s[last_route(s, k)].2@),
    decreases s.len(),
{
    if s.len() > 0 {
        lemma_routes_of(s.drop_last(), k);
        assert forall|j: int| 0 <= j < s.len() - 1 implies #[trigger] s[j] == s.drop_last()[j] by {}
    }
}

proof fn lemma_routes_update(s: Seq<(String, String, String)>, i: int, e: (String, String, String))
    requires
        0 <= i < s.len(),
        s[i].0@ == e.0@,
        forall|j: int| i < j < s.len() ==> (#[trigger] s[j]).0@ != e.0@,
    ensures
        routes_of(s.update(i, e)) == routes_of(s).insert(e.0@, (e.1@, e.2@)),
    decreases s.len(),
{
    let u = s.update(i, e);
    if i == s.len() - 1 {
        assert(u.drop_last() =~= s.drop_last());
        assert(routes_of(u) =~= routes_of(s).insert(e.0@, (e.1@, e.2@)));
    } else {
        assert(u.drop_last() =~= s.drop_last().update(i, e));
        lemma_routes_update(s.drop_last(), i, e);
        assert(routes_of(u) =~= routes_of(s).insert(e.0@, (e.1@, e.2@)));
    }
}

/// Launcher-side notification state: the tags already handled, and where
/// each banner tag routes on a tap.
#[derive(Debug, Clone)]
pub struct NotifierState {
    seen_tags: Vec<String>,
    tag_routes: Vec<(String, String, String)>,
}

impl View for NotifierState {
    /// The seen tags, and the routes from tag to `(host_id, session_id)`.
    type V = (Set<Seq<char>>, Map<Seq<char>, (Seq<char>, Seq<char>)>);

    closed spec fn view(&self) -> Self::V {
        (views(self.seen_tags@).to_set(), routes_of(self.tag_routes@))
    }
}

/// The tag a `notify-click:{tag}` message names.
pub open spec fn click_tag(msg: Seq<char>) -> Option<Seq<char>> {
    let p = "notify-click:"@;
    if msg.len() >= p.len() && msg.subrange(0, p.len() as int) == p {
        Some(msg.skip(p.len() as int))
    } else {
        None
    }
}

impl Default for NotifierState {
    fn default() -> (r: Self)
        ensures
            r@.0 == Set::<Seq<char>>::empty(),
            r@.1 == Map::<Seq<char>, (Seq<char>, Seq<char>)>::empty(),
    {
        NotifierState::new()
    }
}

impl NotifierState {
    /// Nothing seen, no routes.
    pub fn new() -> (r: Self)
        ensures
            r@.0 == Set::<Seq<char>>::empty(),
            r@.1 == Map::<Seq<char>, (Seq<char>, Seq<char>)>::empty(),
    {
        let r = NotifierState { seen_tags: Vec::new(), tag_routes: Vec::new() };
        assert(views(r.seen_tags@).to_set() =~= Set::<Seq<char>>::empty());
        r
    }

    /// Whether this notification should post: the first time its tag is
    /// seen. Either way the tag is seen afterwards, so it never posts again.
    pub fn should_post(&mut self, notif: &DesktopNotification) -> (r: bool)
        ensures
            r == !old(self)@.0.contains(notif.tag@),
            final(self)@.0 == old(self)@.0.insert(notif.tag@),
            final(self)@.1 == old(self)@.1,
    {
        if contains_string(&self.seen_tags, &notif.tag) {
            assert(old(self)@.0.insert(notif.tag@) =~= old(self)@.0);
            false
        } else {
            let ghost before = views(self.seen_tags@);
            self.seen_tags.push(notif.tag.clone());
            proof {
                assert(views(self.seen_tags@) =~= before.push(notif.tag@));
                before.lemma_push_to_set_commute(notif.tag@);
            }
            true
        }
    }

    /// Seed a tag as already handled without posting (at connect time).
    pub fn mark_seen(&mut self, tag: String)
        ensures
            final(self)@.0 == old(self)@.0.insert(tag@),
            final(self)@.1 == old(self)@.1,
    {
        if contains_string(&self.seen_tags, &tag) {
            assert(old(self)@.0.insert(tag@) =~= old(self)@.0);
        } else {
            let ghost before = views(self.seen_tags@);
            let ghost t = tag@;
            self.seen_tags.push(tag);
            proof {
                assert(views(self.seen_tags@) =~= before.push(t));
                before.lemma_push_to_set_commute(t);
            }
        }
    }

    /// Remember where a banner tag routes to for tap handling; a later
    /// route for the same tag replaces the earlier one.
    pub fn route_tag(&mut self, tag: String, host_id: String, session_id: String)
        ensures
            final(self)@.1 == old(self)@.1.insert(tag@, (host_id@, session_id@)),
            final(self)@.0 == old(self)@.0,
    {
        let ghost s = self.tag_routes@;
        proof {
            lemma_routes_of(s, tag@);
        }
        let mut k = self.tag_routes.len();
        let mut found = false;
        while k > 0 && !found
            invariant
                k <= self.tag_routes@.len(),
                self.tag_routes@ == s,
                found ==> k < s.len() && k as int == last_route(s, tag@),
                !found ==> forall|j: int| k <= j < s.len() ==> (#[trigger] s[j]).0@ != tag@,
            decreases k, if found { 0int } else { 1int },
        {
            proof {
                lemma_routes_of(s, tag@);
            }
            let (t, _, _) = &self.tag_routes[k - 1];
            if str_eq(t.as_str(), tag.as_str()) {
                found = true;
                k -= 1;
            } else {
                k -= 1;
            }
        }
        let ghost e = (tag, host_id, session_id);
        if found {
            proof {
                lemma_routes_update(s, k as int, e);
            }
            self.tag_routes.set(k, (tag, host_id, session_id));
        } else {
            self.tag_routes.push((tag, host_id, session_id));
            proof {
                assert(self.tag_routes@.drop_last() =~= s);
            }
        }
    }

    /// Resolve a `notify-click:{tag}` message to `(host_id, session_id)`;
    /// `None` for other messages and unrouted tags.
    pub fn route_for_click_message(&self, msg: &str) -> (r: Option<(&str, &str)>)
        ensures
            match click_tag(msg@) {
                Some(tag) => if self@.1.dom().contains(tag) {
                    r matches Some((h, s)) && (h@, s@) == self@.1[tag]
                } else {
                    r is None
                },
                None => r is None,
            },
    {
        let prefix = "notify-click:";
        proof {
            reveal_strlit("notify-click:");
        }
        let m = chars_of(msg);
        let p = chars_of(prefix);
        if m.len() < p.len() {
            return None;
        }
        let mut i: usize = 0;
        while i < p.len()
            invariant
                i <= p.len() <= m.len(),
                m@ == msg@,
                p@ == "notify-click:"@,
                forall|j: int| 0 <= j < i ==> m@[j] == p@[j],
            decreases p.len() - i,
        {
            if m[i] != p[i] {
                assert(m@.subrange(0, p.len() as int)[i as int] != p@[i as int]);
                assert(m@.subrange(0, p.len() as int) != p@);
                return None;
            }
            i += 1;
        }
        assert(m@.subrange(0, p.len() as int) =~= p@);
        let tag = string_from_chars(&m, p.len(), m.len());
        assert(tag@ =~= msg@.skip(p.len() as int));
        let ghost s = self.tag_routes@;
        proof {
            lemma_routes_of(s, tag@);
        }
        assert(click_tag(msg@) == Some(tag@));
        let mut k = self.tag_routes.len();
        while k > 0
            invariant
                click_tag(msg@) == Some(tag@),
                k <= s.len(),
                s == self.tag_routes@,
                forall|j: int| k <= j < s.len() ==> (#[trigger] s[j]).0@ != tag@,
            decreases k,
        {
            proof {
                lemma_routes_of(s, tag@);
            }
            let (t, h, sess) = &self.tag_routes[k - 1];
            if str_eq(t.as_str(), tag.as_str()) {
                proof {
                    assert(last_route(s, tag@) == k - 1) by {
                        if last_route(s, tag@) != k - 1 {
                            assert(s[last_route(s, tag@)].0@ == tag@);
                        }
                    }
                }
                assert(s[k - 1] == (*t, *h, *sess));
                assert(routes_of(s)[tag@] == (h@, sess@));
                return Some((h.as_str(), sess.as_str()));
            }
            k -= 1;
        }
        None
    }
}

/// `</` starts at position `i` of `s`.
pub open spec fn close_at(s: Seq<char>, i: int) -> bool {
    0 <= i < s.len() - 1 && s[i] == '<' && s[i + 1] == '/'
}

/// `s` holds `</` somewhere.
pub open spec fn has_close_tag(s: Seq<char>) -> bool {
    exists|i: int| #[trigger] close_at(s, i)
}

/// Every `</` of `s` becomes `<\/`, left to right, so the text cannot end
/// an inline script.
pub open spec fn escape_close_tags(s: Seq<char>) -> Seq<char>
    decreases s.len(),
{
    if s.len() == 0 {
        s
    } else if s.len() >= 2 && s[0] == '<' && s[1] == '/' {
        seq!['<', '\\', '/'] + escape_close_tags(s.skip(2))
    } else {
        seq![s[0]] + escape_close_tags(s.skip(1))
    }
}

/// Escaping leaves no `</`, and keeps the first character.
pub proof fn lemma_escape_has_no_close_tag(s: Seq<char>)
    ensures
        !has_close_tag(escape_close_tags(s)),
        s.len() > 0 ==> escape_close_tags(s).len() > 0 && escape_close_tags(s)[0] == s[0],
        s.len() == 0 ==> escape_close_tags(s).len() == 0,
    decreases s.len(),
{
    if s.len() >= 2 && s[0] == '<' && s[1] == '/' {
        let rest = escape_close_tags(s.skip(2));
        lemma_escape_has_no_close_tag(s.skip(2));
        let e = seq!['<', '\\', '/'] + rest;
        assert(e[0] == '<' && e[1] == '\\' && e[2] == '/');
        assert forall|i: int| !close_at(e, i) by {
            if i >= 3 && close_at(e, i) {
                assert(e[i] == rest[i - 3] && e[i + 1] == rest[i - 2]);
                assert(close_at(rest, i - 3));
            }
        }
    } else if s.len() > 0 {
        let rest = escape_close_tags(s.skip(1));
        lemma_escape_has_no_close_tag(s.skip(1));
        let e = seq![s[0]] + rest;
        assert forall|i: int| !close_at(e, i) by {
            if i >= 1 && close_at(e, i) {
                assert(e[i] == rest[i - 1] && e[i + 1] == rest[i]);
                assert(close_at(rest, i - 1));
            } else if i == 0 && close_at(e, i) {
                assert(e[1] == rest[0]);
                assert(rest[0] == s.skip(1)[0]);
            }
        }
    }
}

/// Escape every `</` (see [`escape_close_tags`]).
fn escape_close(s: &str) -> (r: String)
    ensures
        r@ == escape_close_tags(s@),
{
    let v = chars_of(s);
    let mut out = String::new();
    let mut i: usize = 0;
    assert(v@.skip(0) =~= v@);
    while i < v.len()
        invariant
            i <= v.len(),
            v@ == s@,
            escape_close_tags(s@) == out@ + escape_close_tags(v@.skip(i as int)),
        decreases v.len() - i,
    {
        let ghost rest = v@.skip(i as int);
        if i + 1 < v.len() && v[i] == '<' && v[i + 1] == '/' {
            push_char(&mut out, '<');
            push_char(&mut out, '\\');
            push_char(&mut out, '/');
            proof {
                assert(rest.skip(2) =~= v@.skip(i + 2));
                assert(rest[0] == '<' && rest[1] == '/');
            }
            i += 2;
        } else {
            push_char(&mut out, v[i]);
            proof {
                assert(rest.skip(1) =~= v@.skip(i + 1));
                assert(rest[0] == v@[i as int]);
                if rest.len() >= 2 {
                    assert(rest[1] == v@[i + 1]);
                }
            }
            i += 1;
        }
    }
    proof {
        assert(v@.skip(i as int) =~= Seq::<char>::empty());
    }
    out
}

/// The arguments object: `{"title":…,"body":…,"tag":…}`, each value
/// JSON-quoted.
pub open spec fn post_args(n: DesktopNotification) -> Seq<char> {
    "{\"title\":"@ + json_string(n.title@) + ",\"body\":"@ + json_string(n.body@) + ",\"tag\":"@
        + json_string(n.tag@) + "}"@
}

/// The script that posts `n`: the arguments object, with every `</`
/// escaped, handed once to `window.__supercliNotify`.
pub open spec fn post_js_spec(n: DesktopNotification) -> Seq<char> {
    "(function(a){ window.__supercliNotify(a.title, a.body, a.tag); })("@ + escape_close_tags(
        post_args(n),
    ) + ")"@
}

/// JS to post one notification. The arguments are passed through a single
/// JSON object substituted exactly once, so hostile titles and bodies are
/// embedded verbatim; `</` is escaped because the JSON is inlined in a
/// script.
pub fn notifier_post_js(notif: &DesktopNotification) -> (r: String)
    ensures
        r@ == post_js_spec(*notif),
{
    let mut args = owned("{\"title\":");
    push_str(&mut args, json_quote(notif.title.as_str()).as_str());
    push_str(&mut args, ",\"body\":");
    push_str(&mut args, json_quote(notif.body.as_str()).as_str());
    push_str(&mut args, ",\"tag\":");
    push_str(&mut args, json_quote(notif.tag.as_str()).as_str());
    push_str(&mut args, "}");
    let mut js = owned("(function(a){ window.__supercliNotify(a.title, a.body, a.tag); })(");
    push_str(&mut js, escape_close(args.as_str()).as_str());
    push_str(&mut js, ")");
    js
}

/// The posting script never holds `</`, whatever the notification says.
pub proof fn lemma_post_js_has_no_close_tag(n: DesktopNotification)
    ensures
        !has_close_tag(post_js_spec(n)),
{
    let p = "(function(a){ window.__supercliNotify(a.title, a.body, a.tag); })("@;
    let q = ")"@;
    reveal_strlit("(function(a){ window.__supercliNotify(a.title, a.body, a.tag); })(");
    reveal_strlit(")");
    let e = escape_close_tags(post_args(n));
    lemma_escape_has_no_close_tag(post_args(n));
    let all = p + e + q;
    assert(post_js_spec(n) == all);
    assert forall|i: int| !close_at(all, i) by {
        if close_at(all, i) {
            if i < p.len() - 1 {
                assert(all[i] == p[i] && all[i + 1] == p[i + 1]);
            } else if i == p.len() - 1 {
                assert(all[i] == p[i]);
            } else if i < p.len() + e.len() - 1 {
                assert(all[i] == e[i - p.len()] && all[i + 1] == e[i + 1 - p.len()]);
                assert(close_at(e, i - p.len()));
            } else {
                assert(all[i + 1] == q[0]);
            }
        }
    }
}


/// A pending approval as the Host's bootstrap lists it.
#[derive(Clone, Debug, PartialEq, Eq)]
pub struct PendingApproval {
    pub id: String,
    pub session_id: Option<String>,
    pub detail: Option<String>,
}

/// The banner tag of an approval.
pub open spec fn approval_tag(id: Seq<char>) -> Seq<char> {
    "approval:"@ + id
}

/// The notifier after seeding `approvals` of `host` at connect time: each
/// approval's tag is seen, and routes to the host and its session (empty
/// when it names none).
pub open spec fn seeded(
    m: (Set<Seq<char>>, Map<Seq<char>, (Seq<char>, Seq<char>)>),
    host: Seq<char>,
    approvals: Seq<PendingApproval>,
) -> (Set<Seq<char>>, Map<Seq<char>, (Seq<char>, Seq<char>)>)
    decreases approvals.len(),
{
    if approvals.len() == 0 {
        m
    } else {
        let before = seeded(m, host, approvals.drop_last());
        let a = approvals.last();
        let sid = match a.session_id {
            Some(x) => x@,
            None => Seq::empty(),
        };
        (before.0.insert(approval_tag(a.id@)), before.1.insert(approval_tag(a.id@), (host, sid)))
    }
}

/// The title of the first session with id `sid`, when there is one.
pub open spec fn first_title(sessions: Seq<SessionSummary>, sid: Seq<char>) -> Option<Seq<char>>
    decreases sessions.len(),
{
    if sessions.len() == 0 {
        None
    } else if sessions[0].id@ == sid {
        Some(sessions[0].title@)
    } else {
        first_title(sessions.drop_first(), sid)
    }
}

/// A banner's session title: the session's title, or `Session` when the
/// session is unknown or untitled.
pub open spec fn banner_title(sessions: Seq<SessionSummary>, sid: Seq<char>) -> Seq<char> {
    match first_title(sessions, sid) {
        Some(t) => if t.len() > 0 {
            t
        } else {
            "Session"@
        },
        None => "Session"@,
    }
}

/// The approvals of a fresh bootstrap that notify, in order: new ones
/// (not pending before) on a session other than the selected one; an
/// approval naming no session cannot route a tap and does not notify.
pub open spec fn notify_spec(
    previous: Set<Seq<char>>,
    selected: Option<Seq<char>>,
    approvals: Seq<PendingApproval>,
) -> Seq<PendingApproval>
    decreases approvals.len(),
{
    if approvals.len() == 0 {
        Seq::empty()
    } else {
        let rest = notify_spec(previous, selected, approvals.drop_last());
        let a = approvals.last();
        match a.session_id {
            Some(sid) => if !previous.contains(a.id@) && selected != Some(sid@) {
                rest.push(a)
            } else {
                rest
            },
            None => rest,
        }
    }
}

/// The ids of a list of approvals.
pub open spec fn approval_ids(a: Seq<PendingApproval>) -> Set<Seq<char>> {
    ids_of(a).to_set()
}

/// The ids of a list of approvals, in order.
pub open spec fn ids_of(a: Seq<PendingApproval>) -> Seq<Seq<char>> {
    a.map_values(|x: PendingApproval| x.id@)
}

/// The banner for approval `a`: its session's title, its detail, its tag.
pub open spec fn banner_matches(
    n: DesktopNotification,
    a: PendingApproval,
    sessions: Seq<SessionSummary>,
) -> bool {
    let sid = a.session_id->0@;
    &&& n.title@ == banner_title(sessions, sid)
    &&& n.body@ == match a.detail {
        Some(d) => "Needs your input — "@ + d@,
        None => message_spec("notifier.needs_your_input"@),
    }
    &&& n.tag@ == approval_tag(a.id@)
    &&& n.kind == NotificationKind::NeedsInput
}

impl NotifierState {
    /// Seed the approvals already pending at connect time as seen, each
    /// routed to `host_id` and its session, so connecting does not burst
    /// one banner per pre-existing approval.
    pub fn seed_pending(&mut self, host_id: &str, approvals: &[PendingApproval])
        ensures
            final(self)@ == seeded(old(self)@, host_id@, approvals@),
    {
        let mut i: usize = 0;
        while i < approvals.len()
            invariant
                i <= approvals@.len(),
                self@ == seeded(old(self)@, host_id@, approvals@.take(i as int)),
            decreases approvals@.len() - i,
        {
            let a = &approvals[i];
            let mut tag = owned("approval:");
            push_str(&mut tag, a.id.as_str());
            let sid = match &a.session_id {
                Some(x) => x.clone(),
                None => String::new(),
            };
            assert(approvals@.take(i as int + 1).drop_last() =~= approvals@.take(i as int));
            self.mark_seen(tag.clone());
            self.route_tag(tag, owned(host_id), sid);
            i += 1;
        }
        assert(approvals@.take(approvals@.len() as int) =~= approvals@);
    }

    /// Post a banner: when its tag was not seen yet, remember where a tap
    /// routes and give the script that posts it; otherwise `None`.
    pub fn post(&mut self, notif: &DesktopNotification, host_id: String, session_id: String) -> (r:
        Option<String>)
        ensures
            final(self)@.0 == old(self)@.0.insert(notif.tag@),
            old(self)@.0.contains(notif.tag@) ==> r is None && final(self)@.1 == old(self)@.1,
            !old(self)@.0.contains(notif.tag@) ==> (r matches Some(js) && js@ == post_js_spec(*notif)
                && final(self)@.1 == old(self)@.1.insert(notif.tag@, (host_id@, session_id@))),
    {
        if !self.should_post(notif) {
            return None;
        }
        self.route_tag(notif.tag.clone(), host_id, session_id);
        Some(notifier_post_js(notif))
    }
}

/// The title of the first session with id `sid`, when there is one.
fn find_title(sessions: &[SessionSummary], sid: &str) -> (r: Option<String>)
    ensures
        opt_str(r) == first_title(sessions@, sid@),
{
    let mut i: usize = 0;
    assert(sessions@.skip(0) =~= sessions@);
    while i < sessions.len()
        invariant
            i <= sessions@.len(),
            first_title(sessions@, sid@) == first_title(sessions@.skip(i as int), sid@),
        decreases sessions@.len() - i,
    {
        assert(sessions@.skip(i as int).drop_first() =~= sessions@.skip(i as int + 1));
        if str_eq(sessions[i].id.as_str(), sid) {
            return Some(sessions[i].title.clone());
        }
        i += 1;
    }
    None
}

/// An optional string slice by its view.
pub open spec fn opt_slice(o: Option<&str>) -> Option<Seq<char>> {
    match o {
        Some(s) => Some(s@),
        None => None,
    }
}

/// An optional string by its view.
pub open spec fn opt_str(o: Option<String>) -> Option<Seq<char>> {
    match o {
        Some(s) => Some(s@),
        None => None,
    }
}

/// Whether an approval with id `id` is among `approvals`.
fn has_approval(approvals: &[PendingApproval], id: &str) -> (r: bool)
    ensures
        r == approval_ids(approvals@).contains(id@),
{
    let mut i: usize = 0;
    while i < approvals.len()
        invariant
            i <= approvals@.len(),
            forall|j: int| 0 <= j < i ==> approvals@[j].id@ != id@,
        decreases approvals@.len() - i,
    {
        if str_eq(approvals[i].id.as_str(), id) {
            assert(ids_of(approvals@)[i as int] == id@);
            return true;
        }
        i += 1;
    }
    proof {
        if approval_ids(approvals@).contains(id@) {
            let j = choose|j: int| 0 <= j < approvals@.len() && #[trigger] ids_of(approvals@)[j] == id@;
            assert(approvals@[j].id@ == id@);
        }
    }
    false
}

/// Diff a fresh bootstrap against the previous one: every new pending
/// approval on a session other than the selected one gives a
/// needs-input banner and the session a tap on it opens.
pub fn new_approval_notifications(
    previous: &[PendingApproval],
    selected: Option<&str>,
    approvals: &[PendingApproval],
    sessions: &[SessionSummary],
) -> (r: Vec<(DesktopNotification, String)>)
    ensures
        r@.len() == notify_spec(
            approval_ids(previous@),
            opt_slice(selected),
            approvals@,
        ).len(),
        forall|i: int|
            0 <= i < r@.len() ==> {
                let a = #[trigger] notify_spec(
                    approval_ids(previous@),
                    opt_slice(selected),
                    approvals@,
                )[i];
                &&& banner_matches(r@[i].0, a, sessions@)
                &&& r@[i].1@ == a.session_id->0@
            },
{
    let ghost sel = opt_slice(selected);
    let ghost prev = approval_ids(previous@);
    let mut out: Vec<(DesktopNotification, String)> = Vec::new();
    let mut i: usize = 0;
    while i < approvals.len()
        invariant
            i <= approvals@.len(),
            sel == opt_slice(selected),
            prev == approval_ids(previous@),
            out@.len() == notify_spec(prev, sel, approvals@.take(i as int)).len(),
            forall|k: int|
                0 <= k < out@.len() ==> {
                    let a = #[trigger] notify_spec(prev, sel, approvals@.take(i as int))[k];
                    &&& banner_matches(out@[k].0, a, sessions@)
                    &&& out@[k].1@ == a.session_id->0@
                },
        decreases approvals@.len() - i,
    {
        let a = &approvals[i];
        let ghost before = notify_spec(prev, sel, approvals@.take(i as int));
        assert(approvals@.take(i as int + 1).drop_last() =~= approvals@.take(i as int));
        assert(approvals@.take(i as int + 1).last() == *a);
        if let Some(sid) = &a.session_id {
            let is_old = has_approval(previous, a.id.as_str());
            let is_selected = match selected {
                Some(x) => str_eq(x, sid.as_str()),
                None => false,
            };
            if !is_old && !is_selected {
                let title = match find_title(sessions, sid.as_str()) {
                    Some(t) => if t.unicode_len() > 0 {
                        t
                    } else {
                        owned("Session")
                    },
                    None => owned("Session"),
                };
                let detail = match &a.detail {
                    Some(d) => Some(d.as_str()),
                    None => None,
                };
                let n = DesktopNotification::approval_needed(a.id.as_str(), title.as_str(), detail);
                out.push((n, sid.clone()));
                assert(notify_spec(prev, sel, approvals@.take(i as int + 1)) == before.push(*a));
            }
        }
        i += 1;
    }
    assert(approvals@.take(approvals@.len() as int) =~= approvals@);
    out
}

/// Connecting never notifies the approvals it seeded: after seeding, every
/// one of them has a seen tag, so posting its banner is collapsed.
pub proof fn lemma_seeded_approvals_are_seen(
    m: (Set<Seq<char>>, Map<Seq<char>, (Seq<char>, Seq<char>)>),
    host: Seq<char>,
    approvals: Seq<PendingApproval>,
    i: int,
)
    requires
        0 <= i < approvals.len(),
    ensures
        seeded(m, host, approvals).0.contains(approval_tag(approvals[i].id@)),
    decreases approvals.len(),
{
    if i < approvals.len() - 1 {
        lemma_seeded_approvals_are_seen(m, host, approvals.drop_last(), i);
    }
}

} // verus!
