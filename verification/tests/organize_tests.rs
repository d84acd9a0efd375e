use unpeel_ui::organize::{
    archive_row_actions, project_organize_patch, session_organize_patch,
    session_organize_resume_presentation, sheet_actions, sheet_tap, HostProtocolCaps,
    ProjectOrganizeTarget, SessionOrganizeResumePresentation, SessionSheetAction,
};
use unpeel_ui::sessions::{SessionCapabilities, SessionStatus, SessionSummary};

fn summary(archived: bool, running: bool, restart: bool, resume_agent: bool) -> SessionSummary {
    SessionSummary {
        id: "s".to_string(),
        project_id: String::new(),
        title: String::new(),
        status: if running { SessionStatus::Running } else { SessionStatus::Other },
        active_runtime_id: None,
        runtime_launch_pending: false,
        pinned: false,
        notify_when_done: false,
        unread: false,
        archived,
        capabilities: SessionCapabilities {
            restart,
            resume_agent,
            archive: false,
            notify_when_done: false,
        },
    }
}

fn proto() -> HostProtocolCaps {
    HostProtocolCaps { compatible: true, supports_runtime_resume: true, supports_project_move: false }
}

#[test]
fn archived_exited_with_restart_offers_restore_and_resume() {
    let s = summary(true, false, true, false);
    assert_eq!(
        session_organize_resume_presentation(&s, None),
        SessionOrganizeResumePresentation::RestoreAndResume
    );
}

#[test]
fn archived_without_restart_offers_plain_restore() {
    let s = summary(true, false, false, false);
    assert_eq!(
        session_organize_resume_presentation(&s, None),
        SessionOrganizeResumePresentation::Restore
    );
}

#[test]
fn running_with_resume_agent_capability_offers_resume_agent() {
    let s = summary(false, true, false, true);
    assert_eq!(
        session_organize_resume_presentation(&s, Some(&proto())),
        SessionOrganizeResumePresentation::ResumeAgent
    );
}

#[test]
fn running_resume_agent_gated_on_protocol_compatibility() {
    let s = summary(false, true, false, true);
    assert_eq!(
        session_organize_resume_presentation(&s, None),
        SessionOrganizeResumePresentation::NoResume
    );
    let mut bad = proto();
    bad.compatible = false;
    assert_eq!(
        session_organize_resume_presentation(&s, Some(&bad)),
        SessionOrganizeResumePresentation::NoResume
    );
}

#[test]
fn exited_with_restart_offers_resume_session() {
    let s = summary(false, false, true, false);
    assert_eq!(
        session_organize_resume_presentation(&s, None),
        SessionOrganizeResumePresentation::ResumeSession
    );
}

#[test]
fn exited_without_capabilities_offers_nothing() {
    let s = summary(false, false, false, false);
    assert_eq!(
        session_organize_resume_presentation(&s, None),
        SessionOrganizeResumePresentation::NoResume
    );
}

#[test]
fn archive_and_restore_ride_the_patch_not_verbs() {
    assert_eq!(SessionSheetAction::Archive.remote_verb(), None);
    assert_eq!(SessionSheetAction::Restore.remote_verb(), None);
    assert_eq!(SessionSheetAction::Restart.remote_verb(), Some("restart"));
    assert_eq!(SessionSheetAction::ResumeAgent.remote_verb(), Some("resume_agent"));
    assert_eq!(SessionSheetAction::Remove.remote_verb(), Some("remove"));
}

#[test]
fn restore_never_confirms() {
    assert_eq!(SessionSheetAction::Restore.confirmation_title(false), None);
    assert!(SessionSheetAction::Remove.confirmation_title(true).is_some());
}

#[test]
fn stop_verb_and_confirmation_titles() {
    assert_eq!(SessionSheetAction::Stop.remote_verb(), Some("stop"));
    assert_ne!(
        SessionSheetAction::Remove.confirmation_title(true),
        SessionSheetAction::Remove.confirmation_title(false)
    );
    assert!(SessionSheetAction::Archive.confirmation_title(false).is_some());
}

#[test]
fn running_with_a_live_runtime_offers_no_agent_resume() {
    let mut s = summary(false, true, false, true);
    s.active_runtime_id = Some("rt".to_string());
    assert_eq!(
        session_organize_resume_presentation(&s, Some(&proto())),
        SessionOrganizeResumePresentation::NoResume
    );
    let mut p = summary(false, true, false, true);
    p.runtime_launch_pending = true;
    assert_eq!(
        session_organize_resume_presentation(&p, Some(&proto())),
        SessionOrganizeResumePresentation::NoResume
    );
}

#[test]
fn destructive_actions_need_two_taps() {
    let (fires, pending) = sheet_tap(None, SessionSheetAction::Remove, true);
    assert!(!fires);
    assert_eq!(pending, Some(SessionSheetAction::Remove));
    let (fires, pending) = sheet_tap(pending, SessionSheetAction::Remove, true);
    assert!(fires);
    assert_eq!(pending, None);
    let (fires, pending) = sheet_tap(Some(SessionSheetAction::Stop), SessionSheetAction::Archive, true);
    assert!(!fires);
    assert_eq!(pending, Some(SessionSheetAction::Archive));
    assert_eq!(sheet_tap(None, SessionSheetAction::Restore, false), (true, None));
}

#[test]
fn sheet_offers_actions_in_order() {
    let mut s = summary(false, true, false, true);
    s.capabilities.archive = true;
    assert_eq!(
        sheet_actions(&s, Some(&proto())),
        vec![
            SessionSheetAction::ResumeAgent,
            SessionSheetAction::Stop,
            SessionSheetAction::Archive,
            SessionSheetAction::Remove
        ]
    );
    let a = summary(true, false, true, false);
    assert_eq!(sheet_actions(&a, None), vec![SessionSheetAction::Remove]);
    let mut b = summary(true, false, true, false);
    b.capabilities.archive = true;
    assert_eq!(sheet_actions(&b, None), vec![SessionSheetAction::Restore, SessionSheetAction::Remove]);
    let c = summary(false, false, true, false);
    assert_eq!(sheet_actions(&c, None), vec![SessionSheetAction::Restart, SessionSheetAction::Remove]);
}

#[test]
fn organize_patch_only_carries_changes() {
    let mut s = summary(false, false, false, false);
    s.title = "Build".to_string();
    assert_eq!(session_organize_patch(&s, "  Build ", false, false, None), None);
    assert_eq!(session_organize_patch(&s, "   ", false, false, None), None);
    let p = session_organize_patch(&s, " Deploy ", true, false, None).unwrap();
    assert_eq!(p.title, Some("Deploy".to_string()));
    assert_eq!(p.pinned, Some(true));
    assert_eq!(p.notify_when_done, None);
    assert_eq!(p.project_id, None);
    let q = session_organize_patch(&s, "Build", false, true, Some("proj".to_string())).unwrap();
    assert_eq!(q.title, None);
    assert_eq!(q.notify_when_done, Some(true));
    assert_eq!(q.project_id, Some("proj".to_string()));
}

#[test]
fn archive_rows_offer_resume_only_when_restartable() {
    let a = archive_row_actions(&summary(true, false, true, false));
    assert_eq!(a.len(), 2);
    assert!(!a[0].and_resume);
    assert!(a[1].and_resume);
    assert_eq!(a[1].session_id, "s");
    assert_eq!(archive_row_actions(&summary(true, false, false, false)).len(), 1);
}

#[test]
fn project_patch_renames_groups_and_recolors_projects() {
    let group = ProjectOrganizeTarget {
        id: "g".to_string(),
        name: "Team".to_string(),
        is_group: true,
        date_sorted: false,
        color_id: None,
    };
    let p = project_organize_patch(&group, " Crew ", true, "rose");
    assert_eq!(p.display_name, Some("Crew".to_string()));
    assert_eq!(p.date_sorted, Some(true));
    assert_eq!(p.color_id, None);
    assert_eq!(p.pinned, None);
    let q = project_organize_patch(&group, "Team", false, "");
    assert_eq!(q.display_name, None);
    assert_eq!(q.date_sorted, None);
    let project = ProjectOrganizeTarget {
        id: "p".to_string(),
        name: "Main".to_string(),
        is_group: false,
        date_sorted: false,
        color_id: Some("sky".to_string()),
    };
    let r = project_organize_patch(&project, "Renamed", true, "rose");
    assert_eq!(r.display_name, None);
    assert_eq!(r.date_sorted, None);
    assert_eq!(r.color_id, Some("rose".to_string()));
    assert_eq!(project_organize_patch(&project, "Main", false, "sky").color_id, None);
    let plain = ProjectOrganizeTarget { color_id: None, ..project.clone() };
    assert_eq!(project_organize_patch(&plain, "Main", false, "").color_id, None);
}
