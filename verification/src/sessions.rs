//! The session summary the Host's bootstrap carries, as far as the
//! sidebar and the organize sheets read it, and the sidebar's filter.
use vstd::prelude::*;

verus! {

/// Whether the session's process runs; every wire value other than
/// "running" counts as exited.
#[derive(Clone, Copy, Debug, Default, PartialEq, Eq)]
pub enum SessionStatus {
    Running,
    #[default]
    Other,
}

/// What the Host says it can do with a session.
#[derive(Clone, Copy, Debug, Default, PartialEq, Eq)]
pub struct SessionCapabilities {
    pub restart: bool,
    pub resume_agent: bool,
    pub archive: bool,
    pub notify_when_done: bool,
}

/// One session as the sidebar and the organize sheets see it.
#[derive(Clone, Debug, Default, PartialEq, Eq)]
pub struct SessionSummary {
    pub id: String,
    pub project_id: String,
    pub title: String,
    pub status: SessionStatus,
    pub active_runtime_id: Option<String>,
    pub runtime_launch_pending: bool,
    pub pinned: bool,
    pub notify_when_done: bool,
    /// New output the user has not seen.
    pub unread: bool,
    pub archived: bool,
    pub capabilities: SessionCapabilities,
}

/// The sessions the sidebar lists, in order: archived ones only when the
/// archive toggle is on.
pub open spec fn visible_spec(s: Seq<SessionSummary>, show_archived: bool) -> Seq<SessionSummary>
    decreases s.len(),
{
    if s.len() == 0 {
        Seq::empty()
    } else {
        let rest = visible_spec(s.drop_last(), show_archived);
        if !s.last().archived || show_archived {
            rest.push(s.last())
        } else {
            rest
        }
    }
}

/// Sessions to render: archived sessions are hidden unless the archive
/// toggle is on.
pub fn visible_sessions(sessions: &[SessionSummary], show_archived: bool) -> (r: Vec<&SessionSummary>)
    ensures
        r@.map_values(|s: &SessionSummary| *s) == visible_spec(sessions@, show_archived),
{
    let mut out: Vec<&SessionSummary> = Vec::new();
    let mut i: usize = 0;
    while i < sessions.len()
        invariant
            i <= sessions@.len(),
            out@.map_values(|s: &SessionSummary| *s) == visible_spec(sessions@.take(i as int), show_archived),
        decreases sessions@.len() - i,
    {
        let s = &sessions[i];
        assert(sessions@.take(i as int + 1).drop_last() =~= sessions@.take(i as int));
        if !s.archived || show_archived {
            let ghost before = out@;
            out.push(s);
            assert(out@.map_values(|s: &SessionSummary| *s) =~= before.map_values(|s: &SessionSummary| *s).push(*s));
        }
        i += 1;
    }
    assert(sessions@.take(sessions@.len() as int) =~= sessions@);
    out
}

/// Hiding archived sessions never adds or reorders: every listed session
/// is unarchived (or the toggle is on), and with the toggle on nothing is
/// hidden.
pub proof fn lemma_visible_sessions(s: Seq<SessionSummary>, show_archived: bool)
    ensures
        visible_spec(s, show_archived).len() <= s.len(),
        forall|i: int|
            0 <= i < visible_spec(s, show_archived).len() ==> show_archived || !(
            #[trigger] visible_spec(s, show_archived)[i]).archived,
        show_archived ==> visible_spec(s, show_archived) == s,
        (forall|i: int| 0 <= i < s.len() ==> !(#[trigger] s[i]).archived) ==> visible_spec(s, show_archived) == s,
    decreases s.len(),
{
    if s.len() > 0 {
        lemma_visible_sessions(s.drop_last(), show_archived);
        if show_archived {
            assert(s.drop_last().push(s.last()) =~= s);
        }
        if forall|i: int| 0 <= i < s.len() ==> !(#[trigger] s[i]).archived {
            assert(forall|i: int| 0 <= i < s.drop_last().len() ==> s.drop_last()[i] == s[i]);
            assert(!s[s.len() - 1].archived);
            assert(s.drop_last().push(s.last()) =~= s);
        }
    }
}

/// The project of the first session with id `sel`, when there is one.
pub open spec fn project_of(s: Seq<SessionSummary>, sel: Seq<char>) -> Option<Seq<char>>
    decreases s.len(),
{
    if s.len() == 0 {
        None
    } else if s[0].id@ == sel {
        Some(s[0].project_id@)
    } else {
        project_of(s.drop_first(), sel)
    }
}

/// The project new sessions go to: the selected session's project, else
/// the first session's, else none.
pub open spec fn selected_project_spec(s: Seq<SessionSummary>, selected: Option<Seq<char>>) -> Option<
    Seq<char>,
> {
    let chosen = match selected {
        Some(sel) => project_of(s, sel),
        None => None,
    };
    match chosen {
        Some(p) => Some(p),
        None => if s.len() > 0 {
            Some(s[0].project_id@)
        } else {
            None
        },
    }
}

/// The project of the selected session, falling back to the first
/// session's project.
pub fn selected_project_id(sessions: &[SessionSummary], selected: Option<&str>) -> (r: Option<String>)
    ensures
        match r {
            Some(p) => selected_project_spec(
                sessions@,
                match selected {
                    Some(x) => Some(x@),
                    None => None,
                },
            ) == Some(p@),
            None => selected_project_spec(
                sessions@,
                match selected {
                    Some(x) => Some(x@),
                    None => None,
                },
            ) is None,
        },
{
    if let Some(sel) = selected {
        let mut i: usize = 0;
        assert(sessions@.skip(0) =~= sessions@);
        while i < sessions.len()
            invariant
                i <= sessions@.len(),
                project_of(sessions@, sel@) == project_of(sessions@.skip(i as int), sel@),
                selected == Some(sel),
            decreases sessions@.len() - i,
        {
            assert(sessions@.skip(i as int).drop_first() =~= sessions@.skip(i as int + 1));
            if crate::text::str_eq(sessions[i].id.as_str(), sel) {
                assert(sessions@.skip(i as int)[0] == sessions@[i as int]);
                assert(project_of(sessions@.skip(i as int), sel@) == Some(sessions@[i as int].project_id@));
                let p = sessions[i].project_id.clone();
                assert(p@ == sessions@[i as int].project_id@);
                return Some(p);
            }
            i += 1;
        }
    }
    if sessions.len() > 0 {
        Some(sessions[0].project_id.clone())
    } else {
        None
    }
}

} // verus!
