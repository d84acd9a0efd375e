use unpeel_ui::dictation::StopOutcome;
use unpeel_ui::dictation::{
    accept_native_text, native_reflect_js, native_speech_cmd_js, parse_dictation_message,
    parse_native_refined, parse_u64, sanitize_reflection, should_refine, DictationAction,
    DictationMessage, DictationPhase, DictationSession, DictationSettings,
};

#[test]
fn sanitizer_accepts_clean_cleanup() {
    let out = sanitize_reflection(Some("  Hello, world.  "), "hello world");
    assert_eq!(out.as_deref(), Some("Hello, world."));
}

#[test]
fn sanitizer_strips_wrapping_quotes() {
    let out = sanitize_reflection(Some("\"Deploy on Friday\""), "deploy on friday");
    assert_eq!(out.as_deref(), Some("Deploy on Friday"));
}

#[test]
fn sanitizer_rejects_empty_and_none() {
    assert_eq!(sanitize_reflection(None, "hi"), None);
    assert_eq!(sanitize_reflection(Some("   "), "hi"), None);
}

#[test]
fn sanitizer_rejects_model_answering() {
    let original = "what time is it";
    let answered = "The current time is 3:04 PM in your timezone. ".repeat(10);
    assert_eq!(sanitize_reflection(Some(&answered), original), None);
}

#[test]
fn sanitizer_rejects_multiline() {
    let out = sanitize_reflection(Some("line one\nline two"), "line one line two");
    assert_eq!(out, None);
}

#[test]
fn sanitizer_allows_boundary_length() {
    let original = "ab";
    let ok_text = "x".repeat(original.len() * 2 + 40);
    assert!(sanitize_reflection(Some(&ok_text), original).is_some());
    let too_long = "x".repeat(original.len() * 2 + 41);
    assert!(sanitize_reflection(Some(&too_long), original).is_none());
}

#[test]
fn sanitizer_counts_bytes_and_keeps_a_bare_quote_pair() {
    // "é" is two bytes: 2 * 2 + 40 = 44 bytes allowed.
    let ok_text = "x".repeat(44);
    assert!(sanitize_reflection(Some(&ok_text), "é").is_some());
    assert!(sanitize_reflection(Some(&"x".repeat(45)), "é").is_none());
    // A lone pair of quotes unwraps to the empty string.
    assert_eq!(sanitize_reflection(Some("\"\""), "hi").as_deref(), Some(""));
    assert_eq!(sanitize_reflection(Some("\""), "hi").as_deref(), Some("\""));
}

#[test]
fn refine_gate_skips_short_utterances() {
    let settings = DictationSettings::default();
    assert!(!should_refine("yes", &settings, true));
    assert!(!should_refine("continue please", &settings, true));
    assert!(should_refine(
        "please restart the staging server and tail the logs",
        &settings,
        true
    ));
}

#[test]
fn refine_gate_respects_settings_and_availability() {
    let off = DictationSettings {
        reflection_enabled: false,
    };
    assert!(!should_refine(
        "please restart the staging server and tail the logs",
        &off,
        true
    ));
    let on = DictationSettings::default();
    assert!(!should_refine(
        "please restart the staging server and tail the logs",
        &on,
        false
    ));
}

#[test]
fn refine_gate_counts_whitespace_runs() {
    let on = DictationSettings::default();
    assert!(should_refine("  one\ttwo\n three  four five ", &on, true));
    assert!(!should_refine("  one\ttwo\n three  four ", &on, true));
}

#[test]
fn toggle_lifecycle() {
    let mut session = DictationSession::new();
    assert_eq!(session.phase(), DictationPhase::Idle);

    // Start recording.
    assert_eq!(session.toggle(), DictationAction::Started);
    assert_eq!(session.phase(), DictationPhase::Recording);

    session.on_transcript("partial…");
    session.on_transcript("restart the staging server");
    assert_eq!(session.transcript(), "restart the staging server");

    // Stop: transcript comes back for commit.
    assert_eq!(
        session.toggle(),
        DictationAction::Stopped("restart the staging server".to_string())
    );
    assert_eq!(session.phase(), DictationPhase::Idle);
}

#[test]
fn empty_recording_commits_nothing() {
    let mut session = DictationSession::new();
    assert_eq!(session.toggle(), DictationAction::Started);
    session.on_transcript("   ");
    // Empty transcript: the backend still stops, but nothing commits.
    assert_eq!(session.toggle(), DictationAction::StoppedEmpty);
    assert_eq!(session.phase(), DictationPhase::Idle);
}

#[test]
fn cancel_drops_transcript() {
    let mut session = DictationSession::new();
    session.toggle();
    session.on_transcript("don't commit this");
    session.cancel();
    assert_eq!(session.phase(), DictationPhase::Idle);
    assert!(session.transcript().is_empty());
}

#[test]
fn transcript_ignored_when_idle() {
    let mut session = DictationSession::new();
    session.on_transcript("stray");
    assert!(session.transcript().is_empty());
}

#[test]
fn backend_interruption_keeps_transcript_committable() {
    let mut session = DictationSession::new();
    session.toggle();
    session.on_transcript("deploy to staging");
    session.backend_interrupted();
    assert_eq!(session.phase(), DictationPhase::Idle);
    assert_eq!(session.transcript(), "deploy to staging");
    assert!(session.error().is_some());
    // The kept transcript can still be committed, then it's gone.
    assert_eq!(session.take_kept().as_deref(), Some("deploy to staging"));
    assert!(session.error().is_none());
    assert_eq!(session.take_kept(), None);
}

#[test]
fn backend_interruption_is_noop_when_idle() {
    let mut session = DictationSession::new();
    session.backend_interrupted();
    assert_eq!(session.phase(), DictationPhase::Idle);
    assert!(session.error().is_none());
}

#[test]
fn toggle_clears_error_and_transcript() {
    let mut session = DictationSession::new();
    session.note_error("boom".to_string());
    session.toggle();
    assert!(session.error().is_none());
    assert_eq!(session.phase(), DictationPhase::Recording);
}

#[test]
fn toggle_while_refining_is_ignored() {
    let mut session = DictationSession::new();
    session.toggle(); // start
    session.on_transcript("deploy to staging");
    // Stop with a transcript, then begin the native refining pass and
    // tap mid-refine.
    assert!(matches!(session.toggle(), DictationAction::Stopped(_)));
    let nonce = session.begin_refining("deploy to staging");
    assert!(nonce.is_some());
    assert_eq!(session.toggle(), DictationAction::Ignored);
    assert_eq!(session.phase(), DictationPhase::Refining);
}

#[test]
fn complete_refining_commits_sanitized_refinement() {
    let mut session = DictationSession::new();
    session.toggle();
    session.on_transcript("deploy to staging please");
    let DictationAction::Stopped(text) = session.toggle() else {
        panic!("expected Stopped");
    };
    let nonce = session.begin_refining(&text).expect("refine starts");
    let committed = session
        .complete_refining(nonce, "Deploy to staging, please.")
        .expect("live nonce commits");
    assert_eq!(committed, "Deploy to staging, please.");
    assert_eq!(session.phase(), DictationPhase::Idle);
}

#[test]
fn complete_refining_empty_answer_falls_back_to_verbatim() {
    let mut session = DictationSession::new();
    session.toggle();
    session.on_transcript("ship it now folks");
    let DictationAction::Stopped(text) = session.toggle() else {
        panic!("expected Stopped");
    };
    let nonce = session.begin_refining(&text).expect("refine starts");
    // Empty = shell failure/timeout/backstop: verbatim, never dropped.
    let committed = session.complete_refining(nonce, "").expect("commits");
    assert_eq!(committed, "ship it now folks");
}

#[test]
fn complete_refining_rejects_stale_nonce() {
    let mut session = DictationSession::new();
    session.toggle();
    session.on_transcript("restart the agent now");
    let DictationAction::Stopped(text) = session.toggle() else {
        panic!("expected Stopped");
    };
    let nonce = session.begin_refining(&text).expect("refine starts");
    // A backstop/answer from an older session (nonce - 1) is ignored.
    assert_eq!(session.complete_refining(nonce.wrapping_sub(1), "Hi."), None);
    assert_eq!(session.phase(), DictationPhase::Refining);
    // The live nonce still commits exactly once.
    assert!(session.complete_refining(nonce, "Hi.").is_some());
    assert_eq!(session.complete_refining(nonce, "Hi."), None);
}

#[test]
fn complete_refining_rejects_model_answering() {
    let mut session = DictationSession::new();
    session.toggle();
    session.on_transcript("what time is it right now");
    let DictationAction::Stopped(_) = session.toggle() else {
        panic!("expected Stopped");
    };
    let original = "what time is it right now";
    let nonce = session.begin_refining(original).expect("refine starts");
    let answered = "The current time is 3:04 PM. ".repeat(10);
    let committed = session.complete_refining(nonce, &answered).expect("commits");
    assert_eq!(committed, original);
}

#[test]
fn cancel_abandons_refining_and_late_answers_are_ignored() {
    let mut session = DictationSession::new();
    session.toggle();
    session.on_transcript("check the logs please");
    let DictationAction::Stopped(text) = session.toggle() else {
        panic!("expected Stopped");
    };
    let nonce = session.begin_refining(&text).expect("refine starts");
    session.cancel();
    assert_eq!(session.complete_refining(nonce, "Late refinement."), None);
    assert_eq!(session.phase(), DictationPhase::Idle);
}

#[test]
fn nonces_advance_per_refinement() {
    let mut session = DictationSession::default();
    let a = session.begin_refining("one two three four five").unwrap();
    assert_eq!(session.begin_refining("again"), None); // not idle
    session.cancel();
    let b = session.begin_refining("one two three four five").unwrap();
    assert_eq!(b, a + 1);
}

#[test]
fn native_text_final_flag() {
    assert_eq!(accept_native_text(1, "hello world".into()), Some((true, "hello world".into())));
    assert_eq!(accept_native_text(0, "he".into()), Some((false, "he".into())));
    assert_eq!(accept_native_text(2, "x".into()), None);
}

#[test]
fn parse_native_refined_splits_nonce_and_json() {
    let (nonce, text) = parse_native_refined(r#"7:"Deploy it.""#).expect("parses");
    assert_eq!(nonce, 7);
    assert_eq!(text, "Deploy it.");
    // Colons inside the JSON string survive the split.
    let (nonce, text) = parse_native_refined(r#"3:"a: b""#).expect("parses");
    assert_eq!(nonce, 3);
    assert_eq!(text, "a: b");
    assert_eq!(parse_native_refined("no-nonce"), None);
    assert_eq!(parse_native_refined("4:not-json"), None);
}

#[test]
fn decimal_parse_matches_std() {
    for s in ["0", "+7", "18446744073709551615", "18446744073709551616", "", "+", "-1", "1a", " 1"] {
        assert_eq!(parse_u64(s), s.parse::<u64>().ok(), "{s}");
    }
}

#[test]
fn native_command_builder_allows_only_known_commands() {
    assert_eq!(
        native_speech_cmd_js("start").as_deref(),
        Some("window.__unpeelNativeSpeech(\"start\");")
    );
    assert_eq!(
        native_speech_cmd_js("cancel").as_deref(),
        Some("window.__unpeelNativeSpeech(\"cancel\");")
    );
    assert_eq!(native_speech_cmd_js("start\");evil();//"), None);
    assert_eq!(native_speech_cmd_js(""), None);
}

#[test]
fn native_reflect_js_embeds_nonce_and_escapes_hostile_text() {
    let js = native_reflect_js(9, "say \"hi\" </script>");
    assert!(js.contains("var nonce = 9;"), "nonce embedded:\n{js}");
    assert!(
        js.contains(r#"window.__unpeelNativeReflect(nonce, "say \"hi\" </script>")"#),
        "escaped:\n{js}"
    );
    assert!(
        js.contains("setTimeout(function() { answer(\"\"); }, 6000);"),
        "backstop:\n{js}"
    );
}

#[test]
fn backend_messages_are_classified() {
    assert_eq!(
        parse_dictation_message("dictation:text:1:a:b"),
        Some(DictationMessage::Text("a:b".into()))
    );
    assert_eq!(
        parse_dictation_message("dictation:text:plain"),
        Some(DictationMessage::Text("plain".into()))
    );
    assert_eq!(
        parse_dictation_message("dictation:ntext:{}"),
        Some(DictationMessage::NativeText("{}".into()))
    );
    assert_eq!(
        parse_dictation_message("dictation:refined:1:\"x\""),
        Some(DictationMessage::Refined("1:\"x\"".into()))
    );
    assert_eq!(parse_dictation_message("dictation:ready"), Some(DictationMessage::Ready));
    assert_eq!(parse_dictation_message("dictation:unavailable"), Some(DictationMessage::Unavailable));
    assert_eq!(parse_dictation_message("dictation:ended"), Some(DictationMessage::Ended));
    assert_eq!(
        parse_dictation_message("dictation:error:microphone"),
        Some(DictationMessage::Error("microphone".into()))
    );
    assert_eq!(parse_dictation_message("dictation:other"), None);
    assert_eq!(parse_dictation_message("app-lock:hidden"), None);
}

#[test]
fn backend_messages_drive_the_session() {
    let mut s = DictationSession::new();
    s.toggle();
    assert_eq!(s.apply_message(DictationMessage::Text("deploy".into())), None);
    assert_eq!(s.transcript(), "deploy");
    assert_eq!(s.apply_message(DictationMessage::Error("microphone".into())), None);
    assert_eq!(s.phase(), DictationPhase::Idle);
    assert_eq!(s.error(), Some("Microphone unavailable — check permission"));
    assert_eq!(s.transcript(), "deploy");
    s.apply_message(DictationMessage::Ready);
    assert_eq!(s.error(), None);
    let n = s.begin_refining("deploy").unwrap();
    let body = format!("{n}:\"Deploy.\"");
    assert_eq!(s.apply_message(DictationMessage::Refined(body.clone())), Some("Deploy.".into()));
    assert_eq!(s.apply_message(DictationMessage::Refined(body)), None);
}

#[test]
fn only_idle_is_inactive() {
    assert!(!DictationPhase::Idle.is_active());
    assert!(DictationPhase::Recording.is_active());
    assert!(DictationPhase::Refining.is_active());
    assert_eq!(DictationPhase::default(), DictationPhase::Idle);
}

#[test]
fn native_transcript_updates_while_recording() {
    let mut s = DictationSession::new();
    s.apply_native_text(Some((false, "ignored".into())));
    assert_eq!(s.transcript(), "");
    s.toggle();
    s.apply_native_text(Some((false, "deploy the".into())));
    assert_eq!(s.transcript(), "deploy the");
    s.apply_native_text(None);
    assert_eq!(s.transcript(), "deploy the");
    s.apply_native_text(Some((true, "deploy the app".into())));
    assert_eq!(s.transcript(), "deploy the app");
}

#[test]
fn after_stop_reflects_or_commits() {
    let on = DictationSettings::default();
    let off = DictationSettings { reflection_enabled: false };
    let long = "one two three four five";
    let mut s = DictationSession::new();
    assert_eq!(s.after_stop("one two".into(), &on, true, true), StopOutcome::Commit("one two".into()));
    assert_eq!(s.after_stop(long.into(), &on, false, true), StopOutcome::Commit(long.into()));
    assert_eq!(s.after_stop(long.into(), &on, true, false), StopOutcome::Commit(long.into()));
    assert_eq!(s.after_stop(long.into(), &off, true, true), StopOutcome::Commit(long.into()));
    assert_eq!(s.phase(), DictationPhase::Idle);
    assert_eq!(s.after_stop(long.into(), &on, true, true), StopOutcome::Reflect(1));
    assert_eq!(s.phase(), DictationPhase::Refining);
    // Already refining: no second pass begins, the text commits verbatim.
    assert_eq!(s.after_stop(long.into(), &on, true, true), StopOutcome::Commit(long.into()));
    assert_eq!(s.complete_refining(1, "One two three four five."), Some("One two three four five.".into()));
}
