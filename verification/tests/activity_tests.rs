use unpeel_ui::activity::{SessionActivity, SessionAgentState, SessionRowContext};
use unpeel_ui::i18n::t;

fn approval_ctx() -> SessionRowContext {
    SessionRowContext {
        session_id: "s1".into(),
        display_name: "Session".into(),
        activity: SessionActivity {
            agent_state: SessionAgentState::Approval { banner_text: "Approve edit?".into() },
            ..Default::default()
        },
        pending_notifications: vec!["n1".into()],
        ..Default::default()
    }
}

#[test]
fn sublabel_prefers_approval_then_generating() {
    assert_eq!(approval_ctx().sublabel(), "Approve edit?");
    let gen = SessionRowContext {
        session_id: "s2".into(),
        display_name: "S".into(),
        activity: SessionActivity {
            agent_state: SessionAgentState::Generating {
                title: { t("activity.using_a_web_browser") }.into(),
                started_at: 1,
            },
            provider_id: Some("codex".into()),
            ..Default::default()
        },
        ..Default::default()
    };
    assert_eq!(gen.sublabel(), "Using a web browser");
    let idle = SessionRowContext {
        session_id: "s3".into(),
        display_name: "S".into(),
        ..Default::default()
    };
    assert_eq!(idle.sublabel(), "idle");
}

#[test]
fn sort_key_orders_approvals_first() {
    let approval = approval_ctx();
    let mut running = approval.clone();
    running.activity.agent_state = SessionAgentState::Running;
    running.activity.started_at = Some(9_999_999);
    running.pending_notifications.clear();
    let mut idle = approval.clone();
    idle.activity.agent_state = SessionAgentState::Idle;
    let mut v = [idle.clone(), running.clone(), approval.clone()];
    v.sort_by_key(|c| c.sort_key());
    assert_eq!(v[0].session_id, "s1");
    assert_eq!(v[1].activity.agent_state, SessionAgentState::Running);
    assert_eq!(v[2].activity.agent_state, SessionAgentState::Idle);
}

#[test]
fn unread_approval_flag() {
    assert!(approval_ctx().has_unread_approval());
    let mut c = approval_ctx();
    c.pending_notifications.clear();
    assert!(!c.has_unread_approval());
}

#[test]
fn state_predicates() {
    assert!(SessionAgentState::Approval { banner_text: "x".into() }.is_approval());
    assert!(SessionAgentState::Generating { title: "x".into(), started_at: 0 }.is_generating());
    assert!(!SessionAgentState::Idle.is_approval());
}

#[test]
fn sublabel_falls_back_to_provider_when_running() {
    let mut c = approval_ctx();
    c.activity.agent_state = SessionAgentState::Running;
    c.activity.provider_id = Some("codex".into());
    assert_eq!(c.sublabel(), "codex");
}

#[test]
fn sort_key_values() {
    let mut c = approval_ctx();
    assert_eq!(c.sort_key(), (0, u64::MAX));
    c.activity.agent_state = SessionAgentState::Waiting;
    c.activity.started_at = Some(10);
    assert_eq!(c.sort_key(), (2, u64::MAX - 10));
    c.activity.agent_state = SessionAgentState::Generating { title: "t".into(), started_at: 3 };
    assert_eq!(c.sort_key().0, 1);
    c.activity.agent_state = SessionAgentState::Idle;
    assert_eq!(c.sort_key().0, 3);
}

#[test]
fn later_start_sorts_first_within_a_rank() {
    let mut a = approval_ctx();
    a.activity.agent_state = SessionAgentState::Running;
    a.activity.started_at = Some(200);
    let mut b = a.clone();
    b.activity.started_at = Some(100);
    assert!(a.sort_key() < b.sort_key());
}
