use unpeel_ui::sessions::{selected_project_id, visible_sessions, SessionCapabilities, SessionStatus, SessionSummary};

fn session(id: &str, archived: bool) -> SessionSummary {
    SessionSummary {
        id: id.to_string(),
        project_id: String::new(),
        title: id.to_string(),
        status: SessionStatus::default(),
        active_runtime_id: None,
        runtime_launch_pending: false,
        pinned: false,
        notify_when_done: false,
        unread: false,
        archived,
        capabilities: SessionCapabilities::default(),
    }
}

#[test]
fn archived_sessions_hidden_by_default() {
    let sessions = vec![session("a", false), session("b", true)];
    let visible = visible_sessions(&sessions, false);
    assert_eq!(visible.iter().map(|s| s.id.as_str()).collect::<Vec<_>>(), vec!["a"]);
}

#[test]
fn archived_sessions_shown_with_toggle() {
    let sessions = vec![session("a", false), session("b", true)];
    let visible = visible_sessions(&sessions, true);
    assert_eq!(visible.len(), 2);
}

#[test]
fn no_archived_sessions_means_no_filtering() {
    let sessions = vec![session("a", false)];
    assert_eq!(visible_sessions(&sessions, false).len(), 1);
}

#[test]
fn hiding_keeps_the_order_of_the_rest() {
    let sessions = vec![session("a", false), session("b", true), session("c", false), session("d", true)];
    let visible = visible_sessions(&sessions, false);
    assert_eq!(visible.iter().map(|s| s.id.as_str()).collect::<Vec<_>>(), vec!["a", "c"]);
    assert!(visible_sessions(&[], false).is_empty());
}

#[test]
fn selected_project_prefers_the_selected_session() {
    let mut a = session("a", false);
    a.project_id = "p1".to_string();
    let mut b = session("b", false);
    b.project_id = "p2".to_string();
    let list = vec![a, b];
    assert_eq!(selected_project_id(&list, Some("b")), Some("p2".to_string()));
    assert_eq!(selected_project_id(&list, Some("zz")), Some("p1".to_string()));
    assert_eq!(selected_project_id(&list, None), Some("p1".to_string()));
    assert_eq!(selected_project_id(&[], Some("b")), None);
}
