use unpeel_ui::composer::{ComposerIntent, ComposerState, EnterOutcome};

#[test]
fn drafts_are_per_session_and_survive_switches() {
    let mut s = ComposerState::default();
    s.save_draft("a", "hello a".to_string());
    s.save_draft("b", "hello b".to_string());
    assert_eq!(s.draft_for("a"), "hello a");
    assert_eq!(s.draft_for("b"), "hello b");
    assert_eq!(s.draft_for("c"), "");
    assert!(s.has_draft("a"));
    assert!(!s.has_draft("c"));
}

#[test]
fn blank_drafts_are_dropped() {
    let mut s = ComposerState::default();
    s.save_draft("a", "   ".to_string());
    assert!(!s.has_draft("a"));
    assert_eq!(s.draft_for("a"), "");
}

#[test]
fn queue_is_fifo_and_drains_in_order() {
    let mut s = ComposerState::default();
    assert_eq!(s.queue_followup("first".into()), Some(0));
    assert_eq!(s.queue_followup("second".into()), Some(1));
    assert_eq!(s.queue_followup("   ".into()), None);
    assert_eq!(s.queue(), &["first".to_string(), "second".to_string()]);
    let drained = s.drain_queue();
    assert_eq!(drained, vec!["first".to_string(), "second".to_string()]);
    assert!(s.queue().is_empty());
}

#[test]
fn queued_items_are_editable_and_removable() {
    let mut s = ComposerState::default();
    s.queue_followup("one".into());
    s.queue_followup("two".into());
    assert!(s.edit_queued(0, "ONE".into()));
    assert!(!s.edit_queued(1, "   ".into()));
    assert!(!s.edit_queued(9, "x".into()));
    assert_eq!(s.queue()[0], "ONE");
    assert_eq!(s.remove_queued(1), Some("two".to_string()));
    assert_eq!(s.remove_queued(5), None);
    assert_eq!(s.queue().len(), 1);
}

#[test]
fn saving_again_overwrites_and_blank_clears_an_existing_draft() {
    let mut s = ComposerState::default();
    s.save_draft("a", "one".to_string());
    s.save_draft("a", "two".to_string());
    assert_eq!(s.draft_for("a"), "two");
    s.save_draft("a", "\t\n".to_string());
    assert_eq!(s.draft_for("a"), "");
    assert!(!s.has_draft("a"));
}

#[test]
fn switching_sessions_keeps_and_restores_drafts() {
    let mut s = ComposerState::default();
    assert_eq!(s.switch_session("a", "b", "half typed".to_string()), "");
    assert_eq!(s.switch_session("b", "a", "other".to_string()), "half typed");
    assert_eq!(s.draft_for("b"), "other");
    assert_eq!(s.switch_session("a", "b", "  ".to_string()), "other");
    assert!(!s.has_draft("a"));
}

#[test]
fn primary_action_stops_sends_or_does_nothing() {
    let mut s = ComposerState::default();
    s.save_draft("a", "hi".to_string());
    assert_eq!(s.primary_action("a", "hi", true), ComposerIntent::Stop);
    assert_eq!(s.draft_for("a"), "hi");
    assert_eq!(s.primary_action("a", "  ", false), ComposerIntent::Nothing);
    assert_eq!(s.primary_action("a", "hi", false), ComposerIntent::Send("hi".to_string()));
    assert_eq!(s.draft_for("a"), "");
}

#[test]
fn queue_action_queues_non_blank_text_and_clears_the_draft() {
    let mut s = ComposerState::default();
    s.save_draft("a", "later".to_string());
    assert!(s.queue_action("a", "later"));
    assert_eq!(s.queue(), &["later".to_string()]);
    assert_eq!(s.draft_for("a"), "");
    assert!(!s.queue_action("a", " "));
    assert_eq!(s.queue().len(), 1);
}

#[test]
fn switching_to_the_same_session_keeps_the_text() {
    let mut s = ComposerState::default();
    s.save_draft("a", "saved".to_string());
    assert_eq!(s.switch_session("a", "a", "typing".to_string()), "typing");
    assert_eq!(s.draft_for("a"), "saved");
}

#[test]
fn enter_queues_while_running_and_sends_while_idle() {
    let mut s = ComposerState::default();
    assert_eq!(s.enter_key("a", "line", false, true), EnterOutcome::Newline);
    assert!(s.queue().is_empty());
    assert_eq!(s.enter_key("a", "later", true, false), EnterOutcome::Queued(true));
    assert_eq!(s.enter_key("a", "  ", true, false), EnterOutcome::Queued(false));
    assert_eq!(s.queue(), &["later".to_string()]);
    assert_eq!(
        s.enter_key("a", "now", false, false),
        EnterOutcome::Intent(ComposerIntent::Send("now".to_string()))
    );
    assert_eq!(s.enter_key("a", " ", false, false), EnterOutcome::Intent(ComposerIntent::Nothing));
}
