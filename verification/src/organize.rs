//! Session and project organization: which resume affordance a session
//! offers, the verbs the organize sheet can fire and their two-tap
//! confirmation, and the patches the sheets save.
//!
//! Resume support is computed from the Host-advertised per-session
//! capabilities; missing capability data fails closed so a controller
//! never promises a resume the Host cannot do.
use vstd::prelude::*;
use crate::i18n::{message_spec, t};
use crate::sessions::{SessionStatus, SessionSummary};
use crate::text::{is_blank_str, str_eq, trim, trim_str};

verus! {

/// What the Host's protocol descriptor says, as far as the sheets ask:
/// whether its major version is compatible with this client, and which
/// of the capabilities the sheets gate on it advertises.
#[derive(Clone, Copy, Debug, Default, PartialEq, Eq)]
pub struct HostProtocolCaps {
    pub compatible: bool,
    /// The `session.runtime.resume` capability.
    pub supports_runtime_resume: bool,
    /// The portable session-to-project move verb.
    pub supports_project_move: bool,
}

/// Which resume affordance the organize sheet offers for a session.
#[derive(Debug, Clone, Copy, PartialEq, Eq, Structural)]
pub enum SessionOrganizeResumePresentation {
    NoResume,
    ResumeAgent,
    ResumeSession,
    Restore,
    RestoreAndResume,
}

/// An archived session offers restore, with resume when it exited and
/// can restart; a running one offers resume-agent when it has no runtime,
/// none is launching, it can resume its agent and the Host is compatible
/// and advertises runtime resume; an exited one offers resume-session
/// when it can restart.
pub open spec fn presentation_spec(
    s: SessionSummary,
    host: Option<HostProtocolCaps>,
) -> SessionOrganizeResumePresentation {
    let running = s.status == SessionStatus::Running;
    if s.archived {
        if !running && s.capabilities.restart {
            SessionOrganizeResumePresentation::RestoreAndResume
        } else {
            SessionOrganizeResumePresentation::Restore
        }
    } else if running {
        let host_ok = match host {
            Some(p) => p.compatible && p.supports_runtime_resume,
            None => false,
        };
        if s.active_runtime_id is None && !s.runtime_launch_pending && s.capabilities.resume_agent
            && host_ok {
            SessionOrganizeResumePresentation::ResumeAgent
        } else {
            SessionOrganizeResumePresentation::NoResume
        }
    } else if s.capabilities.restart {
        SessionOrganizeResumePresentation::ResumeSession
    } else {
        SessionOrganizeResumePresentation::NoResume
    }
}

/// The resume affordance for `session`; without a protocol descriptor no
/// agent resume is offered.
pub fn session_organize_resume_presentation(
    session: &SessionSummary,
    host_protocol: Option<&HostProtocolCaps>,
) -> (r: SessionOrganizeResumePresentation)
    ensures
        r == presentation_spec(
            *session,
            match host_protocol {
                Some(p) => Some(*p),
                None => None,
            },
        ),
{
    let running = match session.status {
        SessionStatus::Running => true,
        SessionStatus::Other => false,
    };
    if session.archived {
        return if !running && session.capabilities.restart {
            SessionOrganizeResumePresentation::RestoreAndResume
        } else {
            SessionOrganizeResumePresentation::Restore
        };
    }
    if running {
        let host_ok = match host_protocol {
            Some(p) => p.compatible && p.supports_runtime_resume,
            None => false,
        };
        let resume_agent = session.active_runtime_id.is_none() && !session.runtime_launch_pending
            && session.capabilities.resume_agent && host_ok;
        return if resume_agent {
            SessionOrganizeResumePresentation::ResumeAgent
        } else {
            SessionOrganizeResumePresentation::NoResume
        };
    }
    if session.capabilities.restart {
        SessionOrganizeResumePresentation::ResumeSession
    } else {
        SessionOrganizeResumePresentation::NoResume
    }
}

/// Session verbs the organize sheet can fire.
#[derive(Debug, Clone, Copy, PartialEq, Eq, Structural)]
pub enum SessionSheetAction {
    Restart,
    ResumeAgent,
    Stop,
    Archive,
    Restore,
    Remove,
}

/// The session-action verb, or none for archive and restore, which travel
/// on the organization patch instead.
pub open spec fn remote_verb_spec(a: SessionSheetAction) -> Option<Seq<char>> {
    match a {
        SessionSheetAction::Restart => Some("restart"@),
        SessionSheetAction::ResumeAgent => Some("resume_agent"@),
        SessionSheetAction::Stop => Some("stop"@),
        SessionSheetAction::Archive => None,
        SessionSheetAction::Restore => None,
        SessionSheetAction::Remove => Some("remove"@),
    }
}

/// The catalog key of the confirmation prompt's title; restore is not
/// destructive and never confirms.
pub open spec fn confirmation_key(a: SessionSheetAction, session_running: bool) -> Option<Seq<char>> {
    match a {
        SessionSheetAction::Restart => Some("organize.resume_session"@),
        SessionSheetAction::ResumeAgent => Some("organize.resume_agent"@),
        SessionSheetAction::Stop => Some("organize.stop_session"@),
        SessionSheetAction::Archive => Some("organize.stop_and_archive_session"@),
        SessionSheetAction::Restore => None,
        SessionSheetAction::Remove => Some(
            if session_running {
                "organize.remove_session"@
            } else {
                "organize.remove_from_list"@
            },
        ),
    }
}

impl SessionSheetAction {
    /// The session-action verb, or `None` for archive and restore.
    pub fn remote_verb(self) -> (r: Option<&'static str>)
        ensures
            match r {
                Some(v) => remote_verb_spec(self) == Some(v@),
                None => remote_verb_spec(self) is None,
            },
    {
        match self {
            SessionSheetAction::Restart => Some("restart"),
            SessionSheetAction::ResumeAgent => Some("resume_agent"),
            SessionSheetAction::Stop => Some("stop"),
            SessionSheetAction::Archive => None,
            SessionSheetAction::Restore => None,
            SessionSheetAction::Remove => Some("remove"),
        }
    }

    /// The confirmation prompt's title; `None` for restore.
    pub fn confirmation_title(self, session_running: bool) -> (r: Option<String>)
        ensures
            match r {
                Some(m) => confirmation_key(self, session_running) matches Some(k) && m@ == message_spec(k),
                None => confirmation_key(self, session_running) is None,
            },
    {
        match self {
            SessionSheetAction::Restart => Some(t("organize.resume_session")),
            SessionSheetAction::ResumeAgent => Some(t("organize.resume_agent")),
            SessionSheetAction::Stop => Some(t("organize.stop_session")),
            SessionSheetAction::Archive => Some(t("organize.stop_and_archive_session")),
            SessionSheetAction::Restore => None,
            SessionSheetAction::Remove => Some(
                if session_running {
                    t("organize.remove_session")
                } else {
                    t("organize.remove_from_list")
                },
            ),
        }
    }
}

/// A tap on an action button: an action that confirms only fires when it
/// is the one already awaiting confirmation; otherwise the tap arms it.
/// Gives whether it fires and what awaits confirmation afterwards.
pub open spec fn tap_spec(
    confirming: Option<SessionSheetAction>,
    action: SessionSheetAction,
    session_running: bool,
) -> (bool, Option<SessionSheetAction>) {
    if confirmation_key(action, session_running) is Some && confirming != Some(action) {
        (false, Some(action))
    } else {
        (true, None)
    }
}

/// Handle a tap on `action` while `confirming` awaits confirmation: gives
/// whether the action fires now and the new pending confirmation.
pub fn sheet_tap(
    confirming: Option<SessionSheetAction>,
    action: SessionSheetAction,
    session_running: bool,
) -> (r: (bool, Option<SessionSheetAction>))
    ensures
        r == tap_spec(confirming, action, session_running),
{
    let needs_confirm = match action {
        SessionSheetAction::Restore => false,
        _ => true,
    };
    let armed = match confirming {
        Some(c) => c == action,
        None => false,
    };
    if needs_confirm && !armed {
        (false, Some(action))
    } else {
        (true, None)
    }
}

/// Resume fails closed: the sheet offers to resume a session's agent
/// exactly when the session is running and not archived, has no live
/// runtime and none launching, can resume its agent, and the Host is
/// compatible and advertises runtime resume. Without a protocol
/// descriptor it never does.
pub proof fn lemma_resume_agent_needs_host_support(s: SessionSummary, host: Option<HostProtocolCaps>)
    ensures
        (presentation_spec(s, host) == SessionOrganizeResumePresentation::ResumeAgent) <==> (
        host matches Some(p) && p.compatible && p.supports_runtime_resume
            && s.status == SessionStatus::Running && !s.archived && s.active_runtime_id is None
            && !s.runtime_launch_pending && s.capabilities.resume_agent),
        host is None ==> presentation_spec(s, host) != SessionOrganizeResumePresentation::ResumeAgent,
{
}

/// Restore is offered exactly for archived sessions, and an archived
/// session offers nothing else.
pub proof fn lemma_restore_only_when_archived(s: SessionSummary, host: Option<HostProtocolCaps>)
    ensures
        s.archived <==> (presentation_spec(s, host) == SessionOrganizeResumePresentation::Restore
            || presentation_spec(s, host) == SessionOrganizeResumePresentation::RestoreAndResume),
{
}

/// A destructive action never fires on the first tap and always fires on
/// the second consecutive one; restore fires at once.
pub proof fn lemma_two_taps_confirm(
    confirming: Option<SessionSheetAction>,
    action: SessionSheetAction,
    running: bool,
)
    ensures
        action != SessionSheetAction::Restore && confirming != Some(action) ==> !tap_spec(
            confirming,
            action,
            running,
        ).0,
        tap_spec(tap_spec(confirming, action, running).1, action, running).0 || tap_spec(
            confirming,
            action,
            running,
        ).0,
        action == SessionSheetAction::Restore ==> tap_spec(confirming, action, running) == (
        true,
        Option::<SessionSheetAction>::None),
{
}

/// The actions the organize sheet offers, in order: the resume verb its
/// presentation names, stop while running, archive or restore when the
/// Host supports archiving, and remove.
pub open spec fn sheet_actions_spec(
    presentation: SessionOrganizeResumePresentation,
    running: bool,
    can_archive: bool,
    archived: bool,
) -> Seq<SessionSheetAction> {
    let resume: Seq<SessionSheetAction> = match presentation {
        SessionOrganizeResumePresentation::ResumeSession => seq![SessionSheetAction::Restart],
        SessionOrganizeResumePresentation::ResumeAgent => seq![SessionSheetAction::ResumeAgent],
        _ => Seq::empty(),
    };
    let stop: Seq<SessionSheetAction> = if running {
        seq![SessionSheetAction::Stop]
    } else {
        Seq::empty()
    };
    let archive: Seq<SessionSheetAction> = if can_archive {
        if archived {
            seq![SessionSheetAction::Restore]
        } else {
            seq![SessionSheetAction::Archive]
        }
    } else {
        Seq::empty()
    };
    resume + stop + archive + seq![SessionSheetAction::Remove]
}

/// The action buttons of the organize sheet for `session`.
pub fn sheet_actions(session: &SessionSummary, host_protocol: Option<&HostProtocolCaps>) -> (r: Vec<
    SessionSheetAction,
>)
    ensures
        r@ == sheet_actions_spec(
            presentation_spec(
                *session,
                match host_protocol {
                    Some(p) => Some(*p),
                    None => None,
                },
            ),
            session.status == SessionStatus::Running,
            session.capabilities.archive,
            session.archived,
        ),
{
    let presentation = session_organize_resume_presentation(session, host_protocol);
    let running = match session.status {
        SessionStatus::Running => true,
        SessionStatus::Other => false,
    };
    let mut out: Vec<SessionSheetAction> = Vec::new();
    match presentation {
        SessionOrganizeResumePresentation::ResumeSession => out.push(SessionSheetAction::Restart),
        SessionOrganizeResumePresentation::ResumeAgent => out.push(SessionSheetAction::ResumeAgent),
        _ => {},
    }
    if running {
        out.push(SessionSheetAction::Stop);
    }
    if session.capabilities.archive {
        if session.archived {
            out.push(SessionSheetAction::Restore);
        } else {
            out.push(SessionSheetAction::Archive);
        }
    }
    out.push(SessionSheetAction::Remove);
    assert(out@ =~= sheet_actions_spec(
        presentation,
        running,
        session.capabilities.archive,
        session.archived,
    ));
    out
}

/// The session sheet's patch on save; a `None` field is left untouched on
/// the Host, and a project id files the session under that project.
#[derive(Debug, Clone, Default, PartialEq, Eq)]
pub struct SessionOrganizePatch {
    pub title: Option<String>,
    pub pinned: Option<bool>,
    pub notify_when_done: Option<bool>,
    pub project_id: Option<String>,
}

/// An optional string by its view.
pub open spec fn opt_view(o: Option<String>) -> Option<Seq<char>> {
    match o {
        Some(s) => Some(s@),
        None => None,
    }
}

/// The title part of a patch: the trimmed text, unless it is empty or the
/// current title, which keeps the Host's label.
pub open spec fn title_patch_spec(current: Seq<char>, typed: Seq<char>) -> Option<Seq<char>> {
    if trim(typed).len() == 0 || trim(typed) == current {
        None
    } else {
        Some(trim(typed))
    }
}

/// A flag's part of a patch: the new value only when it changed.
pub open spec fn flag_patch_spec(current: bool, chosen: bool) -> Option<bool> {
    if chosen == current {
        None
    } else {
        Some(chosen)
    }
}

/// The session sheet's save: the patch of what changed, or `None` when
/// nothing did (the sheet just closes).
pub fn session_organize_patch(
    session: &SessionSummary,
    title: &str,
    pinned: bool,
    notify_when_done: bool,
    move_target: Option<String>,
) -> (r: Option<SessionOrganizePatch>)
    ensures
        r is None <==> (title_patch_spec(session.title@, title@) is None && pinned == session.pinned
            && notify_when_done == session.notify_when_done && move_target is None),
        r matches Some(p) ==> {
            &&& opt_view(p.title) == title_patch_spec(session.title@, title@)
            &&& p.pinned == flag_patch_spec(session.pinned, pinned)
            &&& p.notify_when_done == flag_patch_spec(session.notify_when_done, notify_when_done)
            &&& opt_view(p.project_id) == opt_view(move_target)
        },
{
    let trimmed = trim_str(title);
    let title_patch = if is_blank_str(title) || str_eq(trimmed.as_str(), session.title.as_str()) {
        None
    } else {
        Some(trimmed)
    };
    let pinned_patch = if pinned == session.pinned {
        None
    } else {
        Some(pinned)
    };
    let notify_patch = if notify_when_done == session.notify_when_done {
        None
    } else {
        Some(notify_when_done)
    };
    if title_patch.is_none() && pinned_patch.is_none() && notify_patch.is_none()
        && move_target.is_none() {
        return None;
    }
    Some(
        SessionOrganizePatch {
            title: title_patch,
            pinned: pinned_patch,
            notify_when_done: notify_patch,
            project_id: move_target,
        },
    )
}

/// One archived session row's restore: `and_resume` also takes the
/// restart path to continue the conversation.
#[derive(Debug, Clone, PartialEq, Eq)]
pub struct ArchiveAction {
    pub session_id: String,
    pub and_resume: bool,
}

/// An archive row offers a plain restore, and restore-and-resume when the
/// session can restart.
pub fn archive_row_actions(session: &SessionSummary) -> (r: Vec<ArchiveAction>)
    ensures
        r@.len() == if session.capabilities.restart {
            2int
        } else {
            1int
        },
        r@[0].session_id@ == session.id@ && !r@[0].and_resume,
        session.capabilities.restart ==> r@[1].session_id@ == session.id@ && r@[1].and_resume,
{
    let mut out: Vec<ArchiveAction> = Vec::new();
    out.push(ArchiveAction { session_id: session.id.clone(), and_resume: false });
    if session.capabilities.restart {
        out.push(ArchiveAction { session_id: session.id.clone(), and_resume: true });
    }
    out
}

/// The project or group the project sheet edits.
#[derive(Debug, Clone, PartialEq, Eq)]
pub struct ProjectOrganizeTarget {
    pub id: String,
    pub name: String,
    /// Groups can be renamed and sorted; main projects can be colored.
    pub is_group: bool,
    pub date_sorted: bool,
    pub color_id: Option<String>,
}

/// The project sheet's patch; `None` fields are untouched.
#[derive(Debug, Clone, Default, PartialEq, Eq)]
pub struct ProjectOrganizePatch {
    pub display_name: Option<String>,
    pub color_id: Option<String>,
    pub date_sorted: Option<bool>,
    pub pinned: Option<bool>,
}

/// The color a target shows: its color id, or none chosen (empty).
pub open spec fn current_color(t: ProjectOrganizeTarget) -> Seq<char> {
    match t.color_id {
        Some(c) => c@,
        None => Seq::empty(),
    }
}

/// The project sheet's save: a group may be renamed (to a non-empty,
/// different trimmed name) and re-sorted; a main project may be recolored.
pub fn project_organize_patch(
    target: &ProjectOrganizeTarget,
    name: &str,
    date_sorted: bool,
    color: &str,
) -> (r: ProjectOrganizePatch)
    ensures
        opt_view(r.display_name) == if target.is_group {
            title_patch_spec(target.name@, name@)
        } else {
            None
        },
        opt_view(r.color_id) == if !target.is_group && color@ != current_color(*target) {
            Some(color@)
        } else {
            None
        },
        r.date_sorted == if target.is_group {
            flag_patch_spec(target.date_sorted, date_sorted)
        } else {
            None
        },
        r.pinned is None,
{
    let trimmed = trim_str(name);
    let display_name = if target.is_group && !is_blank_str(name) && !str_eq(
        trimmed.as_str(),
        target.name.as_str(),
    ) {
        Some(trimmed)
    } else {
        None
    };
    let color_id = if !target.is_group {
        let same = match &target.color_id {
            Some(c) => str_eq(c.as_str(), color),
            None => {
                let empty = color.unicode_len() == 0;
                proof {
                    if empty {
                        assert(color@ =~= Seq::<char>::empty());
                    }
                }
                empty
            },
        };
        if same {
            None
        } else {
            Some(crate::text::owned(color))
        }
    } else {
        None
    };
    let date_sorted_patch = if target.is_group && date_sorted != target.date_sorted {
        Some(date_sorted)
    } else {
        None
    };
    ProjectOrganizePatch {
        display_name,
        color_id,
        date_sorted: date_sorted_patch,
        pinned: None,
    }
}

} // verus!
