use unpeel_ui::notifier::{notifier_post_js, DesktopNotification, NotificationKind, NotifierState};

fn approval(tag_suffix: &str) -> DesktopNotification {
    DesktopNotification {
        title: "sess".to_string(),
        body: "Needs your input".to_string(),
        tag: format!("approval:{tag_suffix}"),
        kind: NotificationKind::NeedsInput,
    }
}

#[test]
fn repeats_collapse() {
    let mut st = NotifierState::new();
    let a = approval("1");
    assert!(st.should_post(&a));
    assert!(!st.should_post(&a)); // repeat of the same tag: dropped
    let b = approval("2");
    assert!(st.should_post(&b));
    assert!(!st.should_post(&a)); // each tag notifies at most once
}

#[test]
fn connect_time_seeding_suppresses_burst() {
    let mut st = NotifierState::new();
    st.mark_seen("approval:old".to_string());
    let old = approval("old");
    assert!(!st.should_post(&old));
    let fresh = approval("new");
    assert!(st.should_post(&fresh));
}

#[test]
fn click_message_routes_to_host_and_session() {
    let mut st = NotifierState::new();
    st.route_tag(
        "approval:abc".to_string(),
        "host-9".to_string(),
        "sess-1".to_string(),
    );
    assert_eq!(
        st.route_for_click_message("notify-click:approval:abc"),
        Some(("host-9", "sess-1"))
    );
    assert_eq!(
        st.route_for_click_message("notify-click:approval:zzz"),
        None
    );
    assert_eq!(st.route_for_click_message("app-lock:hidden"), None);
}

#[test]
fn later_route_replaces_earlier() {
    let mut st = NotifierState::default();
    st.route_tag("t".to_string(), "h1".to_string(), "s1".to_string());
    st.route_tag("u".to_string(), "h2".to_string(), "s2".to_string());
    st.route_tag("t".to_string(), "h3".to_string(), "s3".to_string());
    assert_eq!(st.route_for_click_message("notify-click:t"), Some(("h3", "s3")));
    assert_eq!(st.route_for_click_message("notify-click:u"), Some(("h2", "s2")));
    assert_eq!(st.route_for_click_message("notify-click:"), None);
    assert_eq!(st.route_for_click_message("notify-click"), None);
}

#[test]
fn kind_strings_match_host_contract() {
    assert_eq!(NotificationKind::NeedsInput.as_str(), "needs_input");
    assert_eq!(NotificationKind::Done.as_str(), "done");
    assert_eq!(NotificationKind::Alert.as_str(), "alert");
}

#[test]
fn approval_needed_shapes() {
    let n = DesktopNotification::approval_needed("a1", "my session", Some("run tests?"));
    assert_eq!(n.tag, "approval:a1");
    assert_eq!(n.body, "Needs your input — run tests?");
    assert_eq!(n.kind, NotificationKind::NeedsInput);
    let n2 = DesktopNotification::approval_needed("a1", "my session", None);
    assert_eq!(n2.body, "Needs your input");
    assert_eq!(n2.title, "my session");
}

#[test]
fn post_js_embeds_hostile_text_verbatim() {
    let n = DesktopNotification {
        title: "</script><script>alert(1)</script>".to_string(),
        body: "x".to_string(),
        tag: "approval:1".to_string(),
        kind: NotificationKind::Alert,
    };
    let js = notifier_post_js(&n);
    assert!(
        !js.contains("</script>"),
        "must escape </ to stay in the eval string"
    );
    assert!(js.contains("window.__supercliNotify(a.title, a.body, a.tag)"));
}

#[test]
fn post_js_arguments_are_json() {
    let n = DesktopNotification {
        title: "say \"hi\"".to_string(),
        body: "a\nb".to_string(),
        tag: "approval:7".to_string(),
        kind: NotificationKind::NeedsInput,
    };
    let js = notifier_post_js(&n);
    let start = js.find("})(").unwrap() + 3;
    let args = &js[start..js.len() - 1];
    let v: serde_json::Value = serde_json::from_str(args).unwrap();
    assert_eq!(v["title"], "say \"hi\"");
    assert_eq!(v["body"], "a\nb");
    assert_eq!(v["tag"], "approval:7");
}

fn pending(id: &str, session: Option<&str>, detail: Option<&str>) -> unpeel_ui::notifier::PendingApproval {
    unpeel_ui::notifier::PendingApproval {
        id: id.to_string(),
        session_id: session.map(|s| s.to_string()),
        detail: detail.map(|d| d.to_string()),
    }
}

fn summary(id: &str, title: &str) -> unpeel_ui::sessions::SessionSummary {
    unpeel_ui::sessions::SessionSummary {
        id: id.to_string(),
        title: title.to_string(),
        ..Default::default()
    }
}

#[test]
fn seeding_marks_pending_approvals_seen_and_routes_them() {
    let mut n = NotifierState::new();
    n.seed_pending("host-1", &[pending("a1", Some("s1"), None), pending("a2", None, None)]);
    let first = DesktopNotification::approval_needed("a1", "t", None);
    assert!(!n.should_post(&first));
    assert_eq!(n.route_for_click_message("notify-click:approval:a1"), Some(("host-1", "s1")));
    assert_eq!(n.route_for_click_message("notify-click:approval:a2"), Some(("host-1", "")));
}

#[test]
fn post_collapses_repeats_and_routes_the_first() {
    let mut n = NotifierState::new();
    let b = DesktopNotification::approval_needed("x", "Build", Some("run?"));
    let js = n.post(&b, "h".to_string(), "s".to_string()).expect("first post");
    assert!(js.contains("window.__supercliNotify"));
    assert_eq!(n.post(&b, "h2".to_string(), "s2".to_string()), None);
    assert_eq!(n.route_for_click_message("notify-click:approval:x"), Some(("h", "s")));
}

#[test]
fn only_new_approvals_on_other_sessions_notify() {
    let previous = vec![pending("old", Some("s1"), None)];
    let now = vec![
        pending("old", Some("s1"), None),
        pending("new1", Some("s2"), Some("deploy?")),
        pending("new2", Some("s3"), None),
        pending("nosess", None, None),
        pending("mine", Some("sel"), None),
    ];
    let sessions = vec![summary("s2", "Deploy"), summary("s3", ""), summary("sel", "Mine")];
    let out = unpeel_ui::notifier::new_approval_notifications(&previous, Some("sel"), &now, &sessions);
    assert_eq!(out.len(), 2);
    assert_eq!(out[0].0.title, "Deploy");
    assert_eq!(out[0].0.body, "Needs your input — deploy?");
    assert_eq!(out[0].0.tag, "approval:new1");
    assert_eq!(out[0].1, "s2");
    assert_eq!(out[1].0.title, "Session");
    assert_eq!(out[1].0.tag, "approval:new2");
    assert_eq!(out[1].1, "s3");
    let unknown = unpeel_ui::notifier::new_approval_notifications(&[], None, &[pending("z", Some("gone"), None)], &[]);
    assert_eq!(unknown[0].0.title, "Session");
}
