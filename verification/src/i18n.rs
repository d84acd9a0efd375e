//! The message catalog: every user-facing string is looked up by key.
//!
//! English is the shipped locale; the pseudo-locale wraps each message in
//! `⟦⟧` and pads it by about 40% so that a string that bypassed the catalog
//! stands out. A missing key falls back to the key itself, so a missing
//! message is visible rather than silent.
use vstd::prelude::*;
use crate::text::{
    owned, str_eq, chars_of, push_char, push_str, sort_strs, sorted_views, str_views, lex_lt,
    lemma_lex_transitive, lemma_lex_irreflexive,
};

verus! {

/// Supported locales. Only English ships; Pseudo is for tests.
#[derive(Debug, Clone, Copy, PartialEq, Eq, Structural)]
pub enum Locale {
    English,
    /// Wraps and pads every message so hardcoded strings stand out.
    Pseudo,
}

impl Default for Locale {
    fn default() -> (r: Self)
        ensures
            r == Locale::English,
    {
        Locale::English
    }
}

/// Number of catalog entries.
pub const CATALOG_LEN: usize = 222;

/// The character views of catalog entries.
pub open spec fn entry_views(v: Seq<(&str, &str)>) -> Seq<(Seq<char>, Seq<char>)> {
    v.map_values(|e: (&str, &str)| (e.0@, e.1@))
}

pub open spec fn catalog_part_0() -> Seq<(Seq<char>, Seq<char>)> {
    seq![
        ("action.close"@, "Close"@),
        ("action.copy"@, "Copy"@),
        ("action.retry"@, "Retry"@),
        ("action.save"@, "Save"@),
        ("activity.needs_approval"@, "Needs approval"@),
        ("activity.using_a_web_browser"@, "Using a web browser"@),
        ("annotation.cancel"@, "Cancel"@),
        ("annotation.clear"@, "Clear"@),
        ("annotation.color"@, "Color"@),
        ("annotation.done"@, "Done"@)
    ]
}

fn push_part_0(v: &mut Vec<(&'static str, &'static str)>)
    ensures
        entry_views(final(v)@) == entry_views(old(v)@) + catalog_part_0(),
{
    let ghost before = v@;
    v.push(("action.close", "Close"));
    v.push(("action.copy", "Copy"));
    v.push(("action.retry", "Retry"));
    v.push(("action.save", "Save"));
    v.push(("activity.needs_approval", "Needs approval"));
    v.push(("activity.using_a_web_browser", "Using a web browser"));
    v.push(("annotation.cancel", "Cancel"));
    v.push(("annotation.clear", "Clear"));
    v.push(("annotation.color", "Color"));
    v.push(("annotation.done", "Done"));
    assert(entry_views(v@) =~= entry_views(before) + catalog_part_0());
}

proof fn lemma_part_0_nonempty()
    ensures
        forall|i: int| 0 <= i < catalog_part_0().len() ==> (#[trigger] catalog_part_0()[i]).1.len() > 0,
{
    reveal_strlit("Close");
    reveal_strlit("Copy");
    reveal_strlit("Retry");
    reveal_strlit("Save");
    reveal_strlit("Needs approval");
    reveal_strlit("Using a web browser");
    reveal_strlit("Cancel");
    reveal_strlit("Clear");
    reveal_strlit("Color");
    reveal_strlit("Done");
}
pub open spec fn catalog_part_1() -> Seq<(Seq<char>, Seq<char>)> {
    seq![
        ("annotation.reset"@, "Reset"@),
        ("annotation.swatch_selected"@, "swatch selected"@),
        ("annotation.undo"@, "Undo"@),
        ("app_lock.authentication_failed"@, "Authentication failed"@),
        ("app_lock.authentication_was_cancelled"@, "Authentication was cancelled"@),
        ("app_lock.authentication_was_interrupted"@, "Authentication was interrupted"@),
        ("app_lock.biometric_unlock_is_not_available_in_thi"@, "Biometric unlock is not available in this build"@),
        ("app_lock.face_id"@, "Face ID"@),
        ("app_lock.optic_id"@, "Optic ID"@),
        ("app_lock.passcode"@, "Passcode"@)
    ]
}

fn push_part_1(v: &mut Vec<(&'static str, &'static str)>)
    ensures
        entry_views(final(v)@) == entry_views(old(v)@) + catalog_part_1(),
{
    let ghost before = v@;
    v.push(("annotation.reset", "Reset"));
    v.push(("annotation.swatch_selected", "swatch selected"));
    v.push(("annotation.undo", "Undo"));
    v.push(("app_lock.authentication_failed", "Authentication failed"));
    v.push(("app_lock.authentication_was_cancelled", "Authentication was cancelled"));
    v.push(("app_lock.authentication_was_interrupted", "Authentication was interrupted"));
    v.push(("app_lock.biometric_unlock_is_not_available_in_thi", "Biometric unlock is not available in this build"));
    v.push(("app_lock.face_id", "Face ID"));
    v.push(("app_lock.optic_id", "Optic ID"));
    v.push(("app_lock.passcode", "Passcode"));
    assert(entry_views(v@) =~= entry_views(before) + catalog_part_1());
}

proof fn lemma_part_1_nonempty()
    ensures
        forall|i: int| 0 <= i < catalog_part_1().len() ==> (#[trigger] catalog_part_1()[i]).1.len() > 0,
{
    reveal_strlit("Reset");
    reveal_strlit("swatch selected");
    reveal_strlit("Undo");
    reveal_strlit("Authentication failed");
    reveal_strlit("Authentication was cancelled");
    reveal_strlit("Authentication was interrupted");
    reveal_strlit("Biometric unlock is not available in this build");
    reveal_strlit("Face ID");
    reveal_strlit("Optic ID");
    reveal_strlit("Passcode");
}
pub open spec fn catalog_part_2() -> Seq<(Seq<char>, Seq<char>)> {
    seq![
        ("app_lock.touch_id"@, "Touch ID"@),
        ("app_lock.unlock_unpeel"@, "Unlock Unpeel"@),
        ("app_lock.unpeel_is_locked"@, "Unpeel is locked"@),
        ("approval.already_approved"@, "Already approved"@),
        ("approval.already_denied"@, "Already denied"@),
        ("approval.approve"@, "Approve"@),
        ("approval.deny"@, "Deny"@),
        ("approval.failed"@, "Answer failed — tap to retry."@),
        ("approval.rate_limited"@, "Rate limited — retrying in {secs}s…"@),
        ("approval.resolved_unknown"@, "Resolved — see activity log"@)
    ]
}

fn push_part_2(v: &mut Vec<(&'static str, &'static str)>)
    ensures
        entry_views(final(v)@) == entry_views(old(v)@) + catalog_part_2(),
{
    let ghost before = v@;
    v.push(("app_lock.touch_id", "Touch ID"));
    v.push(("app_lock.unlock_unpeel", "Unlock Unpeel"));
    v.push(("app_lock.unpeel_is_locked", "Unpeel is locked"));
    v.push(("approval.already_approved", "Already approved"));
    v.push(("approval.already_denied", "Already denied"));
    v.push(("approval.approve", "Approve"));
    v.push(("approval.deny", "Deny"));
    v.push(("approval.failed", "Answer failed — tap to retry."));
    v.push(("approval.rate_limited", "Rate limited — retrying in {secs}s…"));
    v.push(("approval.resolved_unknown", "Resolved — see activity log"));
    assert(entry_views(v@) =~= entry_views(before) + catalog_part_2());
}

proof fn lemma_part_2_nonempty()
    ensures
        forall|i: int| 0 <= i < catalog_part_2().len() ==> (#[trigger] catalog_part_2()[i]).1.len() > 0,
{
    reveal_strlit("Touch ID");
    reveal_strlit("Unlock Unpeel");
    reveal_strlit("Unpeel is locked");
    reveal_strlit("Already approved");
    reveal_strlit("Already denied");
    reveal_strlit("Approve");
    reveal_strlit("Deny");
    reveal_strlit("Answer failed — tap to retry.");
    reveal_strlit("Rate limited — retrying in {secs}s…");
    reveal_strlit("Resolved — see activity log");
}
pub open spec fn catalog_part_3() -> Seq<(Seq<char>, Seq<char>)> {
    seq![
        ("approval.sending"@, "Sending answer…"@),
        ("approval.title"@, "Approval requested"@),
        ("approve"@, "Approve"@),
        ("cancel"@, "Cancel"@),
        ("clickable_path.home"@, "HOME"@),
        ("command_palette.command"@, "Command"@),
        ("command_palette.launch"@, "Launch"@),
        ("command_palette.project"@, "Project"@),
        ("command_palette.session"@, "Session"@),
        ("command_palette.type_a_command_or_search_sessions"@, "Type a command or search sessions…"@)
    ]
}

fn push_part_3(v: &mut Vec<(&'static str, &'static str)>)
    ensures
        entry_views(final(v)@) == entry_views(old(v)@) + catalog_part_3(),
{
    let ghost before = v@;
    v.push(("approval.sending", "Sending answer…"));
    v.push(("approval.title", "Approval requested"));
    v.push(("approve", "Approve"));
    v.push(("cancel", "Cancel"));
    v.push(("clickable_path.home", "HOME"));
    v.push(("command_palette.command", "Command"));
    v.push(("command_palette.launch", "Launch"));
    v.push(("command_palette.project", "Project"));
    v.push(("command_palette.session", "Session"));
    v.push(("command_palette.type_a_command_or_search_sessions", "Type a command or search sessions…"));
    assert(entry_views(v@) =~= entry_views(before) + catalog_part_3());
}

proof fn lemma_part_3_nonempty()
    ensures
        forall|i: int| 0 <= i < catalog_part_3().len() ==> (#[trigger] catalog_part_3()[i]).1.len() > 0,
{
    reveal_strlit("Sending answer…");
    reveal_strlit("Approval requested");
    reveal_strlit("Approve");
    reveal_strlit("Cancel");
    reveal_strlit("HOME");
    reveal_strlit("Command");
    reveal_strlit("Launch");
    reveal_strlit("Project");
    reveal_strlit("Session");
    reveal_strlit("Type a command or search sessions…");
}
pub open spec fn catalog_part_4() -> Seq<(Seq<char>, Seq<char>)> {
    seq![
        ("components.approval_requested"@, "Approval requested"@),
        ("components.archive"@, "Archive"@),
        ("components.bubble_mine"@, "bubble mine"@),
        ("components.bubble_theirs"@, "bubble theirs"@),
        ("components.dot_bad"@, "dot bad"@),
        ("components.dot_ok"@, "dot ok"@),
        ("components.hide_archived"@, "Hide archived"@),
        ("components.no_host"@, "No host"@),
        ("components.refresh"@, "Refresh"@),
        ("components.restore"@, "Restore"@)
    ]
}

fn push_part_4(v: &mut Vec<(&'static str, &'static str)>)
    ensures
        entry_views(final(v)@) == entry_views(old(v)@) + catalog_part_4(),
{
    let ghost before = v@;
    v.push(("components.approval_requested", "Approval requested"));
    v.push(("components.archive", "Archive"));
    v.push(("components.bubble_mine", "bubble mine"));
    v.push(("components.bubble_theirs", "bubble theirs"));
    v.push(("components.dot_bad", "dot bad"));
    v.push(("components.dot_ok", "dot ok"));
    v.push(("components.hide_archived", "Hide archived"));
    v.push(("components.no_host", "No host"));
    v.push(("components.refresh", "Refresh"));
    v.push(("components.restore", "Restore"));
    assert(entry_views(v@) =~= entry_views(before) + catalog_part_4());
}

proof fn lemma_part_4_nonempty()
    ensures
        forall|i: int| 0 <= i < catalog_part_4().len() ==> (#[trigger] catalog_part_4()[i]).1.len() > 0,
{
    reveal_strlit("Approval requested");
    reveal_strlit("Archive");
    reveal_strlit("bubble mine");
    reveal_strlit("bubble theirs");
    reveal_strlit("dot bad");
    reveal_strlit("dot ok");
    reveal_strlit("Hide archived");
    reveal_strlit("No host");
    reveal_strlit("Refresh");
    reveal_strlit("Restore");
}
pub open spec fn catalog_part_5() -> Seq<(Seq<char>, Seq<char>)> {
    seq![
        ("composer.cancel"@, "Cancel"@),
        ("composer.edit"@, "Edit"@),
        ("composer.message_the_agent"@, "Message the agent"@),
        ("composer.message_the_agent_enter_to_send"@, "Message the agent… (Enter to send)"@),
        ("composer.placeholder"@, "Type a message…"@),
        ("composer.queue"@, "Queue"@),
        ("composer.remove"@, "Remove"@),
        ("composer.save"@, "Save"@),
        ("composer.send"@, "Send"@),
        ("composer.stop"@, "Stop"@)
    ]
}

fn push_part_5(v: &mut Vec<(&'static str, &'static str)>)
    ensures
        entry_views(final(v)@) == entry_views(old(v)@) + catalog_part_5(),
{
    let ghost before = v@;
    v.push(("composer.cancel", "Cancel"));
    v.push(("composer.edit", "Edit"));
    v.push(("composer.message_the_agent", "Message the agent"));
    v.push(("composer.message_the_agent_enter_to_send", "Message the agent… (Enter to send)"));
    v.push(("composer.placeholder", "Type a message…"));
    v.push(("composer.queue", "Queue"));
    v.push(("composer.remove", "Remove"));
    v.push(("composer.save", "Save"));
    v.push(("composer.send", "Send"));
    v.push(("composer.stop", "Stop"));
    assert(entry_views(v@) =~= entry_views(before) + catalog_part_5());
}

proof fn lemma_part_5_nonempty()
    ensures
        forall|i: int| 0 <= i < catalog_part_5().len() ==> (#[trigger] catalog_part_5()[i]).1.len() > 0,
{
    reveal_strlit("Cancel");
    reveal_strlit("Edit");
    reveal_strlit("Message the agent");
    reveal_strlit("Message the agent… (Enter to send)");
    reveal_strlit("Type a message…");
    reveal_strlit("Queue");
    reveal_strlit("Remove");
    reveal_strlit("Save");
    reveal_strlit("Send");
    reveal_strlit("Stop");
}
pub open spec fn catalog_part_6() -> Seq<(Seq<char>, Seq<char>)> {
    seq![
        ("deny"@, "Deny"@),
        ("dictation.and"@, " and "@),
        ("dictation.dictate"@, "Dictate"@),
        ("dictation.dictation_was_interrupted"@, "Dictation was interrupted"@),
        ("dictation.dismiss_dictation"@, "Dismiss dictation"@),
        ("dictation.microphone_unavailable_check_permission"@, "Microphone unavailable — check permission"@),
        ("dictation.paste"@, "Paste"@),
        ("dictation.speech_recognition_isn_t_available_here"@, "Speech recognition isn't available here"@),
        ("dictation.speech_recognizer_failed"@, "Speech recognizer failed"@),
        ("dictation.start_dictation"@, "Start dictation"@)
    ]
}

fn push_part_6(v: &mut Vec<(&'static str, &'static str)>)
    ensures
        entry_views(final(v)@) == entry_views(old(v)@) + catalog_part_6(),
{
    let ghost before = v@;
    v.push(("deny", "Deny"));
    v.push(("dictation.and", " and "));
    v.push(("dictation.dictate", "Dictate"));
    v.push(("dictation.dictation_was_interrupted", "Dictation was interrupted"));
    v.push(("dictation.dismiss_dictation", "Dismiss dictation"));
    v.push(("dictation.microphone_unavailable_check_permission", "Microphone unavailable — check permission"));
    v.push(("dictation.paste", "Paste"));
    v.push(("dictation.speech_recognition_isn_t_available_here", "Speech recognition isn't available here"));
    v.push(("dictation.speech_recognizer_failed", "Speech recognizer failed"));
    v.push(("dictation.start_dictation", "Start dictation"));
    assert(entry_views(v@) =~= entry_views(before) + catalog_part_6());
}

proof fn lemma_part_6_nonempty()
    ensures
        forall|i: int| 0 <= i < catalog_part_6().len() ==> (#[trigger] catalog_part_6()[i]).1.len() > 0,
{
    reveal_strlit("Deny");
    reveal_strlit(" and ");
    reveal_strlit("Dictate");
    reveal_strlit("Dictation was interrupted");
    reveal_strlit("Dismiss dictation");
    reveal_strlit("Microphone unavailable — check permission");
    reveal_strlit("Paste");
    reveal_strlit("Speech recognition isn't available here");
    reveal_strlit("Speech recognizer failed");
    reveal_strlit("Start dictation");
}
pub open spec fn catalog_part_7() -> Seq<(Seq<char>, Seq<char>)> {
    seq![
        ("dictation.stop"@, "Stop"@),
        ("dictation.stop_dictation"@, "Stop dictation"@),
        ("discovery.close"@, "Close"@),
        ("discovery.discovery_timed_out"@, "discovery timed out"@),
        ("discovery.nearby_hosts"@, "Nearby Hosts"@),
        ("discovery.searching_the_local_network"@, "Searching the local network…"@),
        ("discovery.unpeel_host"@, "Unpeel Host"@),
        ("find.close_find"@, "Close find"@),
        ("find.find"@, "Find"@),
        ("find.find_in_terminal"@, "Find in terminal"@)
    ]
}

fn push_part_7(v: &mut Vec<(&'static str, &'static str)>)
    ensures
        entry_views(final(v)@) == entry_views(old(v)@) + catalog_part_7(),
{
    let ghost before = v@;
    v.push(("dictation.stop", "Stop"));
    v.push(("dictation.stop_dictation", "Stop dictation"));
    v.push(("discovery.close", "Close"));
    v.push(("discovery.discovery_timed_out", "discovery timed out"));
    v.push(("discovery.nearby_hosts", "Nearby Hosts"));
    v.push(("discovery.searching_the_local_network", "Searching the local network…"));
    v.push(("discovery.unpeel_host", "Unpeel Host"));
    v.push(("find.close_find", "Close find"));
    v.push(("find.find", "Find"));
    v.push(("find.find_in_terminal", "Find in terminal"));
    assert(entry_views(v@) =~= entry_views(before) + catalog_part_7());
}

proof fn lemma_part_7_nonempty()
    ensures
        forall|i: int| 0 <= i < catalog_part_7().len() ==> (#[trigger] catalog_part_7()[i]).1.len() > 0,
{
    reveal_strlit("Stop");
    reveal_strlit("Stop dictation");
    reveal_strlit("Close");
    reveal_strlit("discovery timed out");
    reveal_strlit("Nearby Hosts");
    reveal_strlit("Searching the local network…");
    reveal_strlit("Unpeel Host");
    reveal_strlit("Close find");
    reveal_strlit("Find");
    reveal_strlit("Find in terminal");
}
pub open spec fn catalog_part_8() -> Seq<(Seq<char>, Seq<char>)> {
    seq![
        ("find.next_match"@, "Next match"@),
        ("find.no_results"@, "No results"@),
        ("find.previous_match"@, "Previous match"@),
        ("gallery.add_to_message"@, "Add to message"@),
        ("gallery.arrows"@, "Arrows"@),
        ("gallery.ask_the_host_to_capture_a_screenshot_int"@, "Ask the Host to capture a screenshot into this gallery"@),
        ("gallery.browser_gallery"@, "Browser Gallery"@),
        ("gallery.confirm_delete"@, "Confirm delete"@),
        ("gallery.crop"@, "Crop"@),
        ("gallery.delete"@, "Delete"@)
    ]
}

fn push_part_8(v: &mut Vec<(&'static str, &'static str)>)
    ensures
        entry_views(final(v)@) == entry_views(old(v)@) + catalog_part_8(),
{
    let ghost before = v@;
    v.push(("find.next_match", "Next match"));
    v.push(("find.no_results", "No results"));
    v.push(("find.previous_match", "Previous match"));
    v.push(("gallery.add_to_message", "Add to message"));
    v.push(("gallery.arrows", "Arrows"));
    v.push(("gallery.ask_the_host_to_capture_a_screenshot_int", "Ask the Host to capture a screenshot into this gallery"));
    v.push(("gallery.browser_gallery", "Browser Gallery"));
    v.push(("gallery.confirm_delete", "Confirm delete"));
    v.push(("gallery.crop", "Crop"));
    v.push(("gallery.delete", "Delete"));
    assert(entry_views(v@) =~= entry_views(before) + catalog_part_8());
}

proof fn lemma_part_8_nonempty()
    ensures
        forall|i: int| 0 <= i < catalog_part_8().len() ==> (#[trigger] catalog_part_8()[i]).1.len() > 0,
{
    reveal_strlit("Next match");
    reveal_strlit("No results");
    reveal_strlit("Previous match");
    reveal_strlit("Add to message");
    reveal_strlit("Arrows");
    reveal_strlit("Ask the Host to capture a screenshot into this gallery");
    reveal_strlit("Browser Gallery");
    reveal_strlit("Confirm delete");
    reveal_strlit("Crop");
    reveal_strlit("Delete");
}
pub open spec fn catalog_part_9() -> Seq<(Seq<char>, Seq<char>)> {
    seq![
        ("gallery.draw"@, "Draw"@),
        ("gallery.gallery"@, "‹ Gallery"@),
        ("gallery.refresh"@, "Refresh"@),
        ("gallery.screenshot"@, "Screenshot"@),
        ("gallery.share"@, "Share"@),
        ("gallery.upload"@, "Upload"@),
        ("notifier.needs_your_input"@, "Needs your input"@),
        ("notifier.notification"@, "Notification"@),
        ("organize.archive_library"@, "Archive library"@),
        ("organize.archive_session"@, "Archive session"@)
    ]
}

fn push_part_9(v: &mut Vec<(&'static str, &'static str)>)
    ensures
        entry_views(final(v)@) == entry_views(old(v)@) + catalog_part_9(),
{
    let ghost before = v@;
    v.push(("gallery.draw", "Draw"));
    v.push(("gallery.gallery", "‹ Gallery"));
    v.push(("gallery.refresh", "Refresh"));
    v.push(("gallery.screenshot", "Screenshot"));
    v.push(("gallery.share", "Share"));
    v.push(("gallery.upload", "Upload"));
    v.push(("notifier.needs_your_input", "Needs your input"));
    v.push(("notifier.notification", "Notification"));
    v.push(("organize.archive_library", "Archive library"));
    v.push(("organize.archive_session", "Archive session"));
    assert(entry_views(v@) =~= entry_views(before) + catalog_part_9());
}

proof fn lemma_part_9_nonempty()
    ensures
        forall|i: int| 0 <= i < catalog_part_9().len() ==> (#[trigger] catalog_part_9()[i]).1.len() > 0,
{
    reveal_strlit("Draw");
    reveal_strlit("‹ Gallery");
    reveal_strlit("Refresh");
    reveal_strlit("Screenshot");
    reveal_strlit("Share");
    reveal_strlit("Upload");
    reveal_strlit("Needs your input");
    reveal_strlit("Notification");
    reveal_strlit("Archive library");
    reveal_strlit("Archive session");
}
pub open spec fn catalog_part_10() -> Seq<(Seq<char>, Seq<char>)> {
    seq![
        ("organize.done"@, "Done"@),
        ("organize.folder_color"@, "Folder color"@),
        ("organize.group_name"@, "Group name"@),
        ("organize.keep_current_location"@, "Keep current location"@),
        ("organize.move_to"@, "Move to"@),
        ("organize.move_to_project"@, "Move to project"@),
        ("organize.none"@, "None"@),
        ("organize.notify_when_done"@, "Notify when done"@),
        ("organize.organize_session"@, "Organize session"@),
        ("organize.pinned"@, "Pinned"@)
    ]
}

fn push_part_10(v: &mut Vec<(&'static str, &'static str)>)
    ensures
        entry_views(final(v)@) == entry_views(old(v)@) + catalog_part_10(),
{
    let ghost before = v@;
    v.push(("organize.done", "Done"));
    v.push(("organize.folder_color", "Folder color"));
    v.push(("organize.group_name", "Group name"));
    v.push(("organize.keep_current_location", "Keep current location"));
    v.push(("organize.move_to", "Move to"));
    v.push(("organize.move_to_project", "Move to project"));
    v.push(("organize.none", "None"));
    v.push(("organize.notify_when_done", "Notify when done"));
    v.push(("organize.organize_session", "Organize session"));
    v.push(("organize.pinned", "Pinned"));
    assert(entry_views(v@) =~= entry_views(before) + catalog_part_10());
}

proof fn lemma_part_10_nonempty()
    ensures
        forall|i: int| 0 <= i < catalog_part_10().len() ==> (#[trigger] catalog_part_10()[i]).1.len() > 0,
{
    reveal_strlit("Done");
    reveal_strlit("Folder color");
    reveal_strlit("Group name");
    reveal_strlit("Keep current location");
    reveal_strlit("Move to");
    reveal_strlit("Move to project");
    reveal_strlit("None");
    reveal_strlit("Notify when done");
    reveal_strlit("Organize session");
    reveal_strlit("Pinned");
}
pub open spec fn catalog_part_11() -> Seq<(Seq<char>, Seq<char>)> {
    seq![
        ("organize.remove_from_list"@, "Remove From List?"@),
        ("organize.remove_from_list_2"@, "Remove from list"@),
        ("organize.remove_session"@, "Remove Session?"@),
        ("organize.remove_session_2"@, "Remove session"@),
        ("organize.restore"@, "Restore"@),
        ("organize.restore_from_archive"@, "Restore from archive"@),
        ("organize.restore_resume"@, "Restore & Resume"@),
        ("organize.resume_agent"@, "Resume Agent?"@),
        ("organize.resume_agent_2"@, "Resume agent"@),
        ("organize.resume_session"@, "Resume Session?"@)
    ]
}

fn push_part_11(v: &mut Vec<(&'static str, &'static str)>)
    ensures
        entry_views(final(v)@) == entry_views(old(v)@) + catalog_part_11(),
{
    let ghost before = v@;
    v.push(("organize.remove_from_list", "Remove From List?"));
    v.push(("organize.remove_from_list_2", "Remove from list"));
    v.push(("organize.remove_session", "Remove Session?"));
    v.push(("organize.remove_session_2", "Remove session"));
    v.push(("organize.restore", "Restore"));
    v.push(("organize.restore_from_archive", "Restore from archive"));
    v.push(("organize.restore_resume", "Restore & Resume"));
    v.push(("organize.resume_agent", "Resume Agent?"));
    v.push(("organize.resume_agent_2", "Resume agent"));
    v.push(("organize.resume_session", "Resume Session?"));
    assert(entry_views(v@) =~= entry_views(before) + catalog_part_11());
}

proof fn lemma_part_11_nonempty()
    ensures
        forall|i: int| 0 <= i < catalog_part_11().len() ==> (#[trigger] catalog_part_11()[i]).1.len() > 0,
{
    reveal_strlit("Remove From List?");
    reveal_strlit("Remove from list");
    reveal_strlit("Remove Session?");
    reveal_strlit("Remove session");
    reveal_strlit("Restore");
    reveal_strlit("Restore from archive");
    reveal_strlit("Restore & Resume");
    reveal_strlit("Resume Agent?");
    reveal_strlit("Resume agent");
    reveal_strlit("Resume Session?");
}
pub open spec fn catalog_part_12() -> Seq<(Seq<char>, Seq<char>)> {
    seq![
        ("organize.resume_session_2"@, "Resume session"@),
        ("organize.save"@, "Save"@),
        ("organize.session_name"@, "Session name"@),
        ("organize.sort_sessions_by_date"@, "Sort sessions by date"@),
        ("organize.stop_and_archive_session"@, "Stop and Archive Session?"@),
        ("organize.stop_session"@, "Stop Session?"@),
        ("organize.stop_session_2"@, "Stop session"@),
        ("organize.tap_again_to_confirm_archive"@, "Tap again to confirm archive"@),
        ("organize.tap_again_to_confirm_remove"@, "Tap again to confirm remove"@),
        ("organize.tap_again_to_confirm_resume"@, "Tap again to confirm resume"@)
    ]
}

fn push_part_12(v: &mut Vec<(&'static str, &'static str)>)
    ensures
        entry_views(final(v)@) == entry_views(old(v)@) + catalog_part_12(),
{
    let ghost before = v@;
    v.push(("organize.resume_session_2", "Resume session"));
    v.push(("organize.save", "Save"));
    v.push(("organize.session_name", "Session name"));
    v.push(("organize.sort_sessions_by_date", "Sort sessions by date"));
    v.push(("organize.stop_and_archive_session", "Stop and Archive Session?"));
    v.push(("organize.stop_session", "Stop Session?"));
    v.push(("organize.stop_session_2", "Stop session"));
    v.push(("organize.tap_again_to_confirm_archive", "Tap again to confirm archive"));
    v.push(("organize.tap_again_to_confirm_remove", "Tap again to confirm remove"));
    v.push(("organize.tap_again_to_confirm_resume", "Tap again to confirm resume"));
    assert(entry_views(v@) =~= entry_views(before) + catalog_part_12());
}

proof fn lemma_part_12_nonempty()
    ensures
        forall|i: int| 0 <= i < catalog_part_12().len() ==> (#[trigger] catalog_part_12()[i]).1.len() > 0,
{
    reveal_strlit("Resume session");
    reveal_strlit("Save");
    reveal_strlit("Session name");
    reveal_strlit("Sort sessions by date");
    reveal_strlit("Stop and Archive Session?");
    reveal_strlit("Stop Session?");
    reveal_strlit("Stop session");
    reveal_strlit("Tap again to confirm archive");
    reveal_strlit("Tap again to confirm remove");
    reveal_strlit("Tap again to confirm resume");
}
pub open spec fn catalog_part_13() -> Seq<(Seq<char>, Seq<char>)> {
    seq![
        ("organize.tap_again_to_confirm_resume_agent"@, "Tap again to confirm resume agent"@),
        ("organize.tap_again_to_confirm_stop"@, "Tap again to confirm stop"@),
        ("pairing.connect"@, "Connect"@),
        ("pairing.forget"@, "Forget"@),
        ("pairing.pair"@, "Pair"@),
        ("pairing.pair_with_an_unpeel_host"@, "Pair with an Unpeel Host"@),
        ("pairing.pairing_code_from_the_host"@, "Pairing code from the Host"@),
        ("pairing.previously_paired"@, "Previously paired"@),
        ("pairing.switch"@, "Switch"@),
        ("pairing.viewing"@, "● viewing"@)
    ]
}

fn push_part_13(v: &mut Vec<(&'static str, &'static str)>)
    ensures
        entry_views(final(v)@) == entry_views(old(v)@) + catalog_part_13(),
{
    let ghost before = v@;
    v.push(("organize.tap_again_to_confirm_resume_agent", "Tap again to confirm resume agent"));
    v.push(("organize.tap_again_to_confirm_stop", "Tap again to confirm stop"));
    v.push(("pairing.connect", "Connect"));
    v.push(("pairing.forget", "Forget"));
    v.push(("pairing.pair", "Pair"));
    v.push(("pairing.pair_with_an_unpeel_host", "Pair with an Unpeel Host"));
    v.push(("pairing.pairing_code_from_the_host", "Pairing code from the Host"));
    v.push(("pairing.previously_paired", "Previously paired"));
    v.push(("pairing.switch", "Switch"));
    v.push(("pairing.viewing", "● viewing"));
    assert(entry_views(v@) =~= entry_views(before) + catalog_part_13());
}

proof fn lemma_part_13_nonempty()
    ensures
        forall|i: int| 0 <= i < catalog_part_13().len() ==> (#[trigger] catalog_part_13()[i]).1.len() > 0,
{
    reveal_strlit("Tap again to confirm resume agent");
    reveal_strlit("Tap again to confirm stop");
    reveal_strlit("Connect");
    reveal_strlit("Forget");
    reveal_strlit("Pair");
    reveal_strlit("Pair with an Unpeel Host");
    reveal_strlit("Pairing code from the Host");
    reveal_strlit("Previously paired");
    reveal_strlit("Switch");
    reveal_strlit("● viewing");
}
pub open spec fn catalog_part_14() -> Seq<(Seq<char>, Seq<char>)> {
    seq![
        ("pairing.viewing_2"@, "Viewing"@),
        ("presence.name_connected"@, "<name> connected"@),
        ("presence.name_id"@, "Name (id)"@),
        ("presence.no_viewers"@, "no viewers"@),
        ("presence.remote_viewer"@, "Remote viewer"@),
        ("presets.close_presets"@, "Close presets"@),
        ("presets.new_session"@, "New session"@),
        ("push.not_requested"@, "Not requested"@),
        ("push.notifications_are_denied_in_system_setti"@, "Notifications are denied in system Settings"@),
        ("push.notifications_are_off"@, "Notifications are off"@)
    ]
}

fn push_part_14(v: &mut Vec<(&'static str, &'static str)>)
    ensures
        entry_views(final(v)@) == entry_views(old(v)@) + catalog_part_14(),
{
    let ghost before = v@;
    v.push(("pairing.viewing_2", "Viewing"));
    v.push(("presence.name_connected", "<name> connected"));
    v.push(("presence.name_id", "Name (id)"));
    v.push(("presence.no_viewers", "no viewers"));
    v.push(("presence.remote_viewer", "Remote viewer"));
    v.push(("presets.close_presets", "Close presets"));
    v.push(("presets.new_session", "New session"));
    v.push(("push.not_requested", "Not requested"));
    v.push(("push.notifications_are_denied_in_system_setti", "Notifications are denied in system Settings"));
    v.push(("push.notifications_are_off", "Notifications are off"));
    assert(entry_views(v@) =~= entry_views(before) + catalog_part_14());
}

proof fn lemma_part_14_nonempty()
    ensures
        forall|i: int| 0 <= i < catalog_part_14().len() ==> (#[trigger] catalog_part_14()[i]).1.len() > 0,
{
    reveal_strlit("Viewing");
    reveal_strlit("<name> connected");
    reveal_strlit("Name (id)");
    reveal_strlit("no viewers");
    reveal_strlit("Remote viewer");
    reveal_strlit("Close presets");
    reveal_strlit("New session");
    reveal_strlit("Not requested");
    reveal_strlit("Notifications are denied in system Settings");
    reveal_strlit("Notifications are off");
}
pub open spec fn catalog_part_15() -> Seq<(Seq<char>, Seq<char>)> {
    seq![
        ("push.notifications_aren_t_working"@, "Notifications aren't working"@),
        ("push.ready_production"@, "Ready (production)"@),
        ("push.ready_sandbox"@, "Ready (sandbox)"@),
        ("push.waiting_for_a_push_device_token"@, "Waiting for a push device token…"@),
        ("push.waiting_for_notification_permission"@, "Waiting for notification permission…"@),
        ("qr.camera_access_denied"@, "Camera access denied"@),
        ("qr.camera_unavailable"@, "camera unavailable"@),
        ("qr.point_the_camera_at_the_pairing_qr_code"@, "Point the camera at the pairing QR code"@),
        ("qr.requesting_camera_access"@, "Requesting camera access…"@),
        ("qr.scanner_paused"@, "Scanner paused"@)
    ]
}

fn push_part_15(v: &mut Vec<(&'static str, &'static str)>)
    ensures
        entry_views(final(v)@) == entry_views(old(v)@) + catalog_part_15(),
{
    let ghost before = v@;
    v.push(("push.notifications_aren_t_working", "Notifications aren't working"));
    v.push(("push.ready_production", "Ready (production)"));
    v.push(("push.ready_sandbox", "Ready (sandbox)"));
    v.push(("push.waiting_for_a_push_device_token", "Waiting for a push device token…"));
    v.push(("push.waiting_for_notification_permission", "Waiting for notification permission…"));
    v.push(("qr.camera_access_denied", "Camera access denied"));
    v.push(("qr.camera_unavailable", "camera unavailable"));
    v.push(("qr.point_the_camera_at_the_pairing_qr_code", "Point the camera at the pairing QR code"));
    v.push(("qr.requesting_camera_access", "Requesting camera access…"));
    v.push(("qr.scanner_paused", "Scanner paused"));
    assert(entry_views(v@) =~= entry_views(before) + catalog_part_15());
}

proof fn lemma_part_15_nonempty()
    ensures
        forall|i: int| 0 <= i < catalog_part_15().len() ==> (#[trigger] catalog_part_15()[i]).1.len() > 0,
{
    reveal_strlit("Notifications aren't working");
    reveal_strlit("Ready (production)");
    reveal_strlit("Ready (sandbox)");
    reveal_strlit("Waiting for a push device token…");
    reveal_strlit("Waiting for notification permission…");
    reveal_strlit("Camera access denied");
    reveal_strlit("camera unavailable");
    reveal_strlit("Point the camera at the pairing QR code");
    reveal_strlit("Requesting camera access…");
    reveal_strlit("Scanner paused");
}
pub open spec fn catalog_part_16() -> Seq<(Seq<char>, Seq<char>)> {
    seq![
        ("settings.agents"@, "Agents"@),
        ("settings.allow_agent_mcp_access"@, "Allow agent MCP access"@),
        ("settings.allow_browser_use"@, "Allow browser use"@),
        ("settings.ask_before_writes"@, "Ask before writes"@),
        ("settings.ask_before_writing_to_another_session"@, "Ask before writing to another session"@),
        ("settings.browser"@, "Browser"@),
        ("settings.browser_use"@, "Browser use"@),
        ("settings.developer"@, "Developer"@),
        ("settings.experimental"@, "Experimental"@),
        ("settings.features"@, "Features"@)
    ]
}

fn push_part_16(v: &mut Vec<(&'static str, &'static str)>)
    ensures
        entry_views(final(v)@) == entry_views(old(v)@) + catalog_part_16(),
{
    let ghost before = v@;
    v.push(("settings.agents", "Agents"));
    v.push(("settings.allow_agent_mcp_access", "Allow agent MCP access"));
    v.push(("settings.allow_browser_use", "Allow browser use"));
    v.push(("settings.ask_before_writes", "Ask before writes"));
    v.push(("settings.ask_before_writing_to_another_session", "Ask before writing to another session"));
    v.push(("settings.browser", "Browser"));
    v.push(("settings.browser_use", "Browser use"));
    v.push(("settings.developer", "Developer"));
    v.push(("settings.experimental", "Experimental"));
    v.push(("settings.features", "Features"));
    assert(entry_views(v@) =~= entry_views(before) + catalog_part_16());
}

proof fn lemma_part_16_nonempty()
    ensures
        forall|i: int| 0 <= i < catalog_part_16().len() ==> (#[trigger] catalog_part_16()[i]).1.len() > 0,
{
    reveal_strlit("Agents");
    reveal_strlit("Allow agent MCP access");
    reveal_strlit("Allow browser use");
    reveal_strlit("Ask before writes");
    reveal_strlit("Ask before writing to another session");
    reveal_strlit("Browser");
    reveal_strlit("Browser use");
    reveal_strlit("Developer");
    reveal_strlit("Experimental");
    reveal_strlit("Features");
}
pub open spec fn catalog_part_17() -> Seq<(Seq<char>, Seq<char>)> {
    seq![
        ("settings.git_worktrees"@, "Git worktrees"@),
        ("settings.persist_logins"@, "Persist logins"@),
        ("settings.plugins"@, "Plugins"@),
        ("settings.read_other_sessions"@, "Read other sessions"@),
        ("settings.remote_workspaces"@, "Remote workspaces"@),
        ("settings.sessions"@, "Sessions"@),
        ("settings.sessions_use"@, "Sessions use"@),
        ("settings.workspaces"@, "Workspaces"@),
        ("settings.worktrees"@, "Worktrees"@),
        ("ssh.forget"@, "Forget"@)
    ]
}

fn push_part_17(v: &mut Vec<(&'static str, &'static str)>)
    ensures
        entry_views(final(v)@) == entry_views(old(v)@) + catalog_part_17(),
{
    let ghost before = v@;
    v.push(("settings.git_worktrees", "Git worktrees"));
    v.push(("settings.persist_logins", "Persist logins"));
    v.push(("settings.plugins", "Plugins"));
    v.push(("settings.read_other_sessions", "Read other sessions"));
    v.push(("settings.remote_workspaces", "Remote workspaces"));
    v.push(("settings.sessions", "Sessions"));
    v.push(("settings.sessions_use", "Sessions use"));
    v.push(("settings.workspaces", "Workspaces"));
    v.push(("settings.worktrees", "Worktrees"));
    v.push(("ssh.forget", "Forget"));
    assert(entry_views(v@) =~= entry_views(before) + catalog_part_17());
}

proof fn lemma_part_17_nonempty()
    ensures
        forall|i: int| 0 <= i < catalog_part_17().len() ==> (#[trigger] catalog_part_17()[i]).1.len() > 0,
{
    reveal_strlit("Git worktrees");
    reveal_strlit("Persist logins");
    reveal_strlit("Plugins");
    reveal_strlit("Read other sessions");
    reveal_strlit("Remote workspaces");
    reveal_strlit("Sessions");
    reveal_strlit("Sessions use");
    reveal_strlit("Workspaces");
    reveal_strlit("Worktrees");
    reveal_strlit("Forget");
}
pub open spec fn catalog_part_18() -> Seq<(Seq<char>, Seq<char>)> {
    seq![
        ("ssh.interactive_shell"@, "Interactive shell"@),
        ("ssh.standard_ssh"@, "Standard SSH"@),
        ("status.connected"@, "Connected"@),
        ("status.connecting"@, "Connecting…"@),
        ("status.disconnected"@, "Disconnected"@),
        ("tab.activity"@, "Activity"@),
        ("tab.sessions"@, "Sessions"@),
        ("tab.settings"@, "Settings"@),
        ("terminal.close"@, "Close"@),
        ("terminal.copy_all"@, "Copy All"@)
    ]
}

fn push_part_18(v: &mut Vec<(&'static str, &'static str)>)
    ensures
        entry_views(final(v)@) == entry_views(old(v)@) + catalog_part_18(),
{
    let ghost before = v@;
    v.push(("ssh.interactive_shell", "Interactive shell"));
    v.push(("ssh.standard_ssh", "Standard SSH"));
    v.push(("status.connected", "Connected"));
    v.push(("status.connecting", "Connecting…"));
    v.push(("status.disconnected", "Disconnected"));
    v.push(("tab.activity", "Activity"));
    v.push(("tab.sessions", "Sessions"));
    v.push(("tab.settings", "Settings"));
    v.push(("terminal.close", "Close"));
    v.push(("terminal.copy_all", "Copy All"));
    assert(entry_views(v@) =~= entry_views(before) + catalog_part_18());
}

proof fn lemma_part_18_nonempty()
    ensures
        forall|i: int| 0 <= i < catalog_part_18().len() ==> (#[trigger] catalog_part_18()[i]).1.len() > 0,
{
    reveal_strlit("Interactive shell");
    reveal_strlit("Standard SSH");
    reveal_strlit("Connected");
    reveal_strlit("Connecting…");
    reveal_strlit("Disconnected");
    reveal_strlit("Activity");
    reveal_strlit("Sessions");
    reveal_strlit("Settings");
    reveal_strlit("Close");
    reveal_strlit("Copy All");
}
pub open spec fn catalog_part_19() -> Seq<(Seq<char>, Seq<char>)> {
    seq![
        ("terminal.inherit_terminal_default"@, "inherit the terminal default"@),
        ("terminal.select"@, "Select"@),
        ("terminal.select_text"@, "Select text"@),
        ("workspaces.alacritty"@, "Alacritty"@),
        ("workspaces.cursor"@, "Cursor"@),
        ("workspaces.finder"@, "Finder"@),
        ("workspaces.fork"@, "Fork"@),
        ("workspaces.ghostty"@, "Ghostty"@),
        ("workspaces.git_worktrees"@, "Git worktrees"@),
        ("workspaces.github_desktop"@, "GitHub Desktop"@)
    ]
}

fn push_part_19(v: &mut Vec<(&'static str, &'static str)>)
    ensures
        entry_views(final(v)@) == entry_views(old(v)@) + catalog_part_19(),
{
    let ghost before = v@;
    v.push(("terminal.inherit_terminal_default", "inherit the terminal default"));
    v.push(("terminal.select", "Select"));
    v.push(("terminal.select_text", "Select text"));
    v.push(("workspaces.alacritty", "Alacritty"));
    v.push(("workspaces.cursor", "Cursor"));
    v.push(("workspaces.finder", "Finder"));
    v.push(("workspaces.fork", "Fork"));
    v.push(("workspaces.ghostty", "Ghostty"));
    v.push(("workspaces.git_worktrees", "Git worktrees"));
    v.push(("workspaces.github_desktop", "GitHub Desktop"));
    assert(entry_views(v@) =~= entry_views(before) + catalog_part_19());
}

proof fn lemma_part_19_nonempty()
    ensures
        forall|i: int| 0 <= i < catalog_part_19().len() ==> (#[trigger] catalog_part_19()[i]).1.len() > 0,
{
    reveal_strlit("inherit the terminal default");
    reveal_strlit("Select");
    reveal_strlit("Select text");
    reveal_strlit("Alacritty");
    reveal_strlit("Cursor");
    reveal_strlit("Finder");
    reveal_strlit("Fork");
    reveal_strlit("Ghostty");
    reveal_strlit("Git worktrees");
    reveal_strlit("GitHub Desktop");
}
pub open spec fn catalog_part_20() -> Seq<(Seq<char>, Seq<char>)> {
    seq![
        ("workspaces.gitkraken"@, "GitKraken"@),
        ("workspaces.hyper"@, "Hyper"@),
        ("workspaces.intellij"@, "IntelliJ"@),
        ("workspaces.iterm2"@, "iTerm2"@),
        ("workspaces.kitty"@, "kitty"@),
        ("workspaces.path"@, "PATH"@),
        ("workspaces.remove"@, "Remove"@),
        ("workspaces.require_a_clean_tree_before_creating_a_w"@, "Require a clean tree before creating a worktree"@),
        ("workspaces.rio"@, "Rio"@),
        ("workspaces.sourcetree"@, "Sourcetree"@)
    ]
}

fn push_part_20(v: &mut Vec<(&'static str, &'static str)>)
    ensures
        entry_views(final(v)@) == entry_views(old(v)@) + catalog_part_20(),
{
    let ghost before = v@;
    v.push(("workspaces.gitkraken", "GitKraken"));
    v.push(("workspaces.hyper", "Hyper"));
    v.push(("workspaces.intellij", "IntelliJ"));
    v.push(("workspaces.iterm2", "iTerm2"));
    v.push(("workspaces.kitty", "kitty"));
    v.push(("workspaces.path", "PATH"));
    v.push(("workspaces.remove", "Remove"));
    v.push(("workspaces.require_a_clean_tree_before_creating_a_w", "Require a clean tree before creating a worktree"));
    v.push(("workspaces.rio", "Rio"));
    v.push(("workspaces.sourcetree", "Sourcetree"));
    assert(entry_views(v@) =~= entry_views(before) + catalog_part_20());
}

proof fn lemma_part_20_nonempty()
    ensures
        forall|i: int| 0 <= i < catalog_part_20().len() ==> (#[trigger] catalog_part_20()[i]).1.len() > 0,
{
    reveal_strlit("GitKraken");
    reveal_strlit("Hyper");
    reveal_strlit("IntelliJ");
    reveal_strlit("iTerm2");
    reveal_strlit("kitty");
    reveal_strlit("PATH");
    reveal_strlit("Remove");
    reveal_strlit("Require a clean tree before creating a worktree");
    reveal_strlit("Rio");
    reveal_strlit("Sourcetree");
}
pub open spec fn catalog_part_21() -> Seq<(Seq<char>, Seq<char>)> {
    seq![
        ("workspaces.sublime_merge"@, "Sublime Merge"@),
        ("workspaces.tabby"@, "Tabby"@),
        ("workspaces.terminal"@, "Terminal"@),
        ("workspaces.tower"@, "Tower"@),
        ("workspaces.uncommitted_changes"@, "uncommitted changes"@),
        ("workspaces.vs_code"@, "VS Code"@),
        ("workspaces.warp"@, "Warp"@),
        ("workspaces.wave"@, "Wave"@),
        ("workspaces.webstorm"@, "WebStorm"@),
        ("workspaces.wezterm"@, "WezTerm"@)
    ]
}

fn push_part_21(v: &mut Vec<(&'static str, &'static str)>)
    ensures
        entry_views(final(v)@) == entry_views(old(v)@) + catalog_part_21(),
{
    let ghost before = v@;
    v.push(("workspaces.sublime_merge", "Sublime Merge"));
    v.push(("workspaces.tabby", "Tabby"));
    v.push(("workspaces.terminal", "Terminal"));
    v.push(("workspaces.tower", "Tower"));
    v.push(("workspaces.uncommitted_changes", "uncommitted changes"));
    v.push(("workspaces.vs_code", "VS Code"));
    v.push(("workspaces.warp", "Warp"));
    v.push(("workspaces.wave", "Wave"));
    v.push(("workspaces.webstorm", "WebStorm"));
    v.push(("workspaces.wezterm", "WezTerm"));
    assert(entry_views(v@) =~= entry_views(before) + catalog_part_21());
}

proof fn lemma_part_21_nonempty()
    ensures
        forall|i: int| 0 <= i < catalog_part_21().len() ==> (#[trigger] catalog_part_21()[i]).1.len() > 0,
{
    reveal_strlit("Sublime Merge");
    reveal_strlit("Tabby");
    reveal_strlit("Terminal");
    reveal_strlit("Tower");
    reveal_strlit("uncommitted changes");
    reveal_strlit("VS Code");
    reveal_strlit("Warp");
    reveal_strlit("Wave");
    reveal_strlit("WebStorm");
    reveal_strlit("WezTerm");
}
pub open spec fn catalog_part_22() -> Seq<(Seq<char>, Seq<char>)> {
    seq![
        ("workspaces.xcode"@, "Xcode"@),
        ("workspaces.zed"@, "Zed"@)
    ]
}

fn push_part_22(v: &mut Vec<(&'static str, &'static str)>)
    ensures
        entry_views(final(v)@) == entry_views(old(v)@) + catalog_part_22(),
{
    let ghost before = v@;
    v.push(("workspaces.xcode", "Xcode"));
    v.push(("workspaces.zed", "Zed"));
    assert(entry_views(v@) =~= entry_views(before) + catalog_part_22());
}

proof fn lemma_part_22_nonempty()
    ensures
        forall|i: int| 0 <= i < catalog_part_22().len() ==> (#[trigger] catalog_part_22()[i]).1.len() > 0,
{
    reveal_strlit("Xcode");
    reveal_strlit("Zed");
}

/// The English catalog, key to message, in ascending key order.
pub open spec fn catalog_spec() -> Seq<(Seq<char>, Seq<char>)> {
    catalog_part_0() + catalog_part_1() + catalog_part_2() + catalog_part_3() + catalog_part_4() + catalog_part_5() + catalog_part_6() + catalog_part_7() + catalog_part_8() + catalog_part_9() + catalog_part_10() + catalog_part_11() + catalog_part_12() + catalog_part_13() + catalog_part_14() + catalog_part_15() + catalog_part_16() + catalog_part_17() + catalog_part_18() + catalog_part_19() + catalog_part_20() + catalog_part_21() + catalog_part_22()
}

/// The English catalog (see [`catalog_spec`]).
pub fn english_catalog() -> (r: Vec<(&'static str, &'static str)>)
    ensures
        entry_views(r@) == catalog_spec(),
{
    let mut v: Vec<(&'static str, &'static str)> = Vec::new();
    assert(entry_views(v@) =~= Seq::<(Seq<char>, Seq<char>)>::empty());
    push_part_0(&mut v);
    push_part_1(&mut v);
    push_part_2(&mut v);
    push_part_3(&mut v);
    push_part_4(&mut v);
    push_part_5(&mut v);
    push_part_6(&mut v);
    push_part_7(&mut v);
    push_part_8(&mut v);
    push_part_9(&mut v);
    push_part_10(&mut v);
    push_part_11(&mut v);
    push_part_12(&mut v);
    push_part_13(&mut v);
    push_part_14(&mut v);
    push_part_15(&mut v);
    push_part_16(&mut v);
    push_part_17(&mut v);
    push_part_18(&mut v);
    push_part_19(&mut v);
    push_part_20(&mut v);
    push_part_21(&mut v);
    push_part_22(&mut v);
    assert(entry_views(v@) =~= catalog_spec());
    v
}

/// Every message of a concatenation of non-empty-message catalogs is
/// non-empty.
proof fn lemma_concat_nonempty(a: Seq<(Seq<char>, Seq<char>)>, b: Seq<(Seq<char>, Seq<char>)>)
    requires
        forall|i: int| 0 <= i < a.len() ==> (#[trigger] a[i]).1.len() > 0,
        forall|i: int| 0 <= i < b.len() ==> (#[trigger] b[i]).1.len() > 0,
    ensures
        forall|i: int| 0 <= i < (a + b).len() ==> (#[trigger] (a + b)[i]).1.len() > 0,
{
    assert forall|i: int| 0 <= i < (a + b).len() implies (#[trigger] (a + b)[i]).1.len() > 0 by {
        if i >= a.len() {
            assert((a + b)[i] == b[i - a.len()]);
        }
    }
}

/// Every catalog message is non-empty.
pub proof fn lemma_catalog_messages_nonempty()
    ensures
        catalog_spec().len() == CATALOG_LEN,
        forall|i: int| 0 <= i < catalog_spec().len() ==> (#[trigger] catalog_spec()[i]).1.len() > 0,
{
        lemma_part_0_nonempty();
        lemma_part_1_nonempty();
        lemma_concat_nonempty(catalog_part_0(), catalog_part_1());
        lemma_part_2_nonempty();
        lemma_concat_nonempty(catalog_part_0() + catalog_part_1(), catalog_part_2());
        lemma_part_3_nonempty();
        lemma_concat_nonempty(catalog_part_0() + catalog_part_1() + catalog_part_2(), catalog_part_3());
        lemma_part_4_nonempty();
        lemma_concat_nonempty(catalog_part_0() + catalog_part_1() + catalog_part_2() + catalog_part_3(), catalog_part_4());
        lemma_part_5_nonempty();
        lemma_concat_nonempty(catalog_part_0() + catalog_part_1() + catalog_part_2() + catalog_part_3() + catalog_part_4(), catalog_part_5());
        lemma_part_6_nonempty();
        lemma_concat_nonempty(catalog_part_0() + catalog_part_1() + catalog_part_2() + catalog_part_3() + catalog_part_4() + catalog_part_5(), catalog_part_6());
        lemma_part_7_nonempty();
        lemma_concat_nonempty(catalog_part_0() + catalog_part_1() + catalog_part_2() + catalog_part_3() + catalog_part_4() + catalog_part_5() + catalog_part_6(), catalog_part_7());
        lemma_part_8_nonempty();
        lemma_concat_nonempty(catalog_part_0() + catalog_part_1() + catalog_part_2() + catalog_part_3() + catalog_part_4() + catalog_part_5() + catalog_part_6() + catalog_part_7(), catalog_part_8());
        lemma_part_9_nonempty();
        lemma_concat_nonempty(catalog_part_0() + catalog_part_1() + catalog_part_2() + catalog_part_3() + catalog_part_4() + catalog_part_5() + catalog_part_6() + catalog_part_7() + catalog_part_8(), catalog_part_9());
        lemma_part_10_nonempty();
        lemma_concat_nonempty(catalog_part_0() + catalog_part_1() + catalog_part_2() + catalog_part_3() + catalog_part_4() + catalog_part_5() + catalog_part_6() + catalog_part_7() + catalog_part_8() + catalog_part_9(), catalog_part_10());
        lemma_part_11_nonempty();
        lemma_concat_nonempty(catalog_part_0() + catalog_part_1() + catalog_part_2() + catalog_part_3() + catalog_part_4() + catalog_part_5() + catalog_part_6() + catalog_part_7() + catalog_part_8() + catalog_part_9() + catalog_part_10(), catalog_part_11());
        lemma_part_12_nonempty();
        lemma_concat_nonempty(catalog_part_0() + catalog_part_1() + catalog_part_2() + catalog_part_3() + catalog_part_4() + catalog_part_5() + catalog_part_6() + catalog_part_7() + catalog_part_8() + catalog_part_9() + catalog_part_10() + catalog_part_11(), catalog_part_12());
        lemma_part_13_nonempty();
        lemma_concat_nonempty(catalog_part_0() + catalog_part_1() + catalog_part_2() + catalog_part_3() + catalog_part_4() + catalog_part_5() + catalog_part_6() + catalog_part_7() + catalog_part_8() + catalog_part_9() + catalog_part_10() + catalog_part_11() + catalog_part_12(), catalog_part_13());
        lemma_part_14_nonempty();
        lemma_concat_nonempty(catalog_part_0() + catalog_part_1() + catalog_part_2() + catalog_part_3() + catalog_part_4() + catalog_part_5() + catalog_part_6() + catalog_part_7() + catalog_part_8() + catalog_part_9() + catalog_part_10() + catalog_part_11() + catalog_part_12() + catalog_part_13(), catalog_part_14());
        lemma_part_15_nonempty();
        lemma_concat_nonempty(catalog_part_0() + catalog_part_1() + catalog_part_2() + catalog_part_3() + catalog_part_4() + catalog_part_5() + catalog_part_6() + catalog_part_7() + catalog_part_8() + catalog_part_9() + catalog_part_10() + catalog_part_11() + catalog_part_12() + catalog_part_13() + catalog_part_14(), catalog_part_15());
        lemma_part_16_nonempty();
        lemma_concat_nonempty(catalog_part_0() + catalog_part_1() + catalog_part_2() + catalog_part_3() + catalog_part_4() + catalog_part_5() + catalog_part_6() + catalog_part_7() + catalog_part_8() + catalog_part_9() + catalog_part_10() + catalog_part_11() + catalog_part_12() + catalog_part_13() + catalog_part_14() + catalog_part_15(), catalog_part_16());
        lemma_part_17_nonempty();
        lemma_concat_nonempty(catalog_part_0() + catalog_part_1() + catalog_part_2() + catalog_part_3() + catalog_part_4() + catalog_part_5() + catalog_part_6() + catalog_part_7() + catalog_part_8() + catalog_part_9() + catalog_part_10() + catalog_part_11() + catalog_part_12() + catalog_part_13() + catalog_part_14() + catalog_part_15() + catalog_part_16(), catalog_part_17());
        lemma_part_18_nonempty();
        lemma_concat_nonempty(catalog_part_0() + catalog_part_1() + catalog_part_2() + catalog_part_3() + catalog_part_4() + catalog_part_5() + catalog_part_6() + catalog_part_7() + catalog_part_8() + catalog_part_9() + catalog_part_10() + catalog_part_11() + catalog_part_12() + catalog_part_13() + catalog_part_14() + catalog_part_15() + catalog_part_16() + catalog_part_17(), catalog_part_18());
        lemma_part_19_nonempty();
        lemma_concat_nonempty(catalog_part_0() + catalog_part_1() + catalog_part_2() + catalog_part_3() + catalog_part_4() + catalog_part_5() + catalog_part_6() + catalog_part_7() + catalog_part_8() + catalog_part_9() + catalog_part_10() + catalog_part_11() + catalog_part_12() + catalog_part_13() + catalog_part_14() + catalog_part_15() + catalog_part_16() + catalog_part_17() + catalog_part_18(), catalog_part_19());
        lemma_part_20_nonempty();
        lemma_concat_nonempty(catalog_part_0() + catalog_part_1() + catalog_part_2() + catalog_part_3() + catalog_part_4() + catalog_part_5() + catalog_part_6() + catalog_part_7() + catalog_part_8() + catalog_part_9() + catalog_part_10() + catalog_part_11() + catalog_part_12() + catalog_part_13() + catalog_part_14() + catalog_part_15() + catalog_part_16() + catalog_part_17() + catalog_part_18() + catalog_part_19(), catalog_part_20());
        lemma_part_21_nonempty();
        lemma_concat_nonempty(catalog_part_0() + catalog_part_1() + catalog_part_2() + catalog_part_3() + catalog_part_4() + catalog_part_5() + catalog_part_6() + catalog_part_7() + catalog_part_8() + catalog_part_9() + catalog_part_10() + catalog_part_11() + catalog_part_12() + catalog_part_13() + catalog_part_14() + catalog_part_15() + catalog_part_16() + catalog_part_17() + catalog_part_18() + catalog_part_19() + catalog_part_20(), catalog_part_21());
        lemma_part_22_nonempty();
        lemma_concat_nonempty(catalog_part_0() + catalog_part_1() + catalog_part_2() + catalog_part_3() + catalog_part_4() + catalog_part_5() + catalog_part_6() + catalog_part_7() + catalog_part_8() + catalog_part_9() + catalog_part_10() + catalog_part_11() + catalog_part_12() + catalog_part_13() + catalog_part_14() + catalog_part_15() + catalog_part_16() + catalog_part_17() + catalog_part_18() + catalog_part_19() + catalog_part_20() + catalog_part_21(), catalog_part_22());
}

/// Each key of `c` sorts strictly before the next one.
pub open spec fn keys_ascending(c: Seq<(Seq<char>, Seq<char>)>) -> bool
    decreases c.len(),
{
    if c.len() <= 1 {
        true
    } else {
        lex_lt(c[0].0, c[1].0) && keys_ascending(c.drop_first())
    }
}

/// Two catalogs with ascending keys, the first ending before the second
/// begins, concatenate to one with ascending keys.
proof fn lemma_concat_ascending(a: Seq<(Seq<char>, Seq<char>)>, b: Seq<(Seq<char>, Seq<char>)>)
    requires
        keys_ascending(a),
        keys_ascending(b),
        a.len() > 0 && b.len() > 0 ==> lex_lt(a.last().0, b[0].0),
    ensures
        keys_ascending(a + b),
    decreases a.len(),
{
    if a.len() == 0 {
        assert(a + b =~= b);
    } else {
        assert((a + b).drop_first() =~= a.drop_first() + b);
        if a.len() > 1 {
            assert(a.drop_first().last() == a.last());
        }
        lemma_concat_ascending(a.drop_first(), b);
        if a.len() == 1 && b.len() > 0 {
            assert((a + b)[1] == b[0]);
        }
    }
}

/// In a catalog with ascending keys, every key sorts strictly before every
/// later one.
proof fn lemma_ascending_sorted(c: Seq<(Seq<char>, Seq<char>)>)
    requires
        keys_ascending(c),
    ensures
        forall|i: int, j: int| 0 <= i < j < c.len() ==> lex_lt(#[trigger] c[i].0, #[trigger] c[j].0),
    decreases c.len(),
{
    if c.len() > 1 {
        let d = c.drop_first();
        lemma_ascending_sorted(d);
        assert forall|i: int, j: int| 0 <= i < j < c.len() implies lex_lt(#[trigger] c[i].0, #[trigger] c[j].0) by {
            assert(d[j - 1] == c[j]);
            if i > 0 {
                assert(d[i - 1] == c[i]);
            } else if j > 1 {
                assert(d[0] == c[1]);
                lemma_lex_transitive(c[0].0, c[1].0, c[j].0);
            }
        }
    }
}

proof fn lemma_part_0_ascending()
    ensures
        keys_ascending(catalog_part_0()),
        lex_lt(catalog_part_0().last().0, catalog_part_1()[0].0),
{
    reveal_strlit("action.close");
    reveal_strlit("action.copy");
    reveal_strlit("action.retry");
    reveal_strlit("action.save");
    reveal_strlit("activity.needs_approval");
    reveal_strlit("activity.using_a_web_browser");
    reveal_strlit("annotation.cancel");
    reveal_strlit("annotation.clear");
    reveal_strlit("annotation.color");
    reveal_strlit("annotation.done");
    reveal_strlit("annotation.reset");
    reveal_with_fuel(keys_ascending, 11);
    reveal_with_fuel(lex_lt, 14);
}

proof fn lemma_part_1_ascending()
    ensures
        keys_ascending(catalog_part_1()),
        lex_lt(catalog_part_1().last().0, catalog_part_2()[0].0),
{
    reveal_strlit("annotation.reset");
    reveal_strlit("annotation.swatch_selected");
    reveal_strlit("annotation.undo");
    reveal_strlit("app_lock.authentication_failed");
    reveal_strlit("app_lock.authentication_was_cancelled");
    reveal_strlit("app_lock.authentication_was_interrupted");
    reveal_strlit("app_lock.biometric_unlock_is_not_available_in_thi");
    reveal_strlit("app_lock.face_id");
    reveal_strlit("app_lock.optic_id");
    reveal_strlit("app_lock.passcode");
    reveal_strlit("app_lock.touch_id");
    reveal_with_fuel(keys_ascending, 11);
    reveal_with_fuel(lex_lt, 30);
}

proof fn lemma_part_2_ascending()
    ensures
        keys_ascending(catalog_part_2()),
        lex_lt(catalog_part_2().last().0, catalog_part_3()[0].0),
{
    reveal_strlit("app_lock.touch_id");
    reveal_strlit("app_lock.unlock_unpeel");
    reveal_strlit("app_lock.unpeel_is_locked");
    reveal_strlit("approval.already_approved");
    reveal_strlit("approval.already_denied");
    reveal_strlit("approval.approve");
    reveal_strlit("approval.deny");
    reveal_strlit("approval.failed");
    reveal_strlit("approval.rate_limited");
    reveal_strlit("approval.resolved_unknown");
    reveal_strlit("approval.sending");
    reveal_with_fuel(keys_ascending, 11);
    reveal_with_fuel(lex_lt, 19);
}

proof fn lemma_part_3_ascending()
    ensures
        keys_ascending(catalog_part_3()),
        lex_lt(catalog_part_3().last().0, catalog_part_4()[0].0),
{
    reveal_strlit("approval.sending");
    reveal_strlit("approval.title");
    reveal_strlit("approve");
    reveal_strlit("cancel");
    reveal_strlit("clickable_path.home");
    reveal_strlit("command_palette.command");
    reveal_strlit("command_palette.launch");
    reveal_strlit("command_palette.project");
    reveal_strlit("command_palette.session");
    reveal_strlit("command_palette.type_a_command_or_search_sessions");
    reveal_strlit("components.approval_requested");
    reveal_with_fuel(keys_ascending, 11);
    reveal_with_fuel(lex_lt, 18);
}

proof fn lemma_part_4_ascending()
    ensures
        keys_ascending(catalog_part_4()),
        lex_lt(catalog_part_4().last().0, catalog_part_5()[0].0),
{
    reveal_strlit("components.approval_requested");
    reveal_strlit("components.archive");
    reveal_strlit("components.bubble_mine");
    reveal_strlit("components.bubble_theirs");
    reveal_strlit("components.dot_bad");
    reveal_strlit("components.dot_ok");
    reveal_strlit("components.hide_archived");
    reveal_strlit("components.no_host");
    reveal_strlit("components.refresh");
    reveal_strlit("components.restore");
    reveal_strlit("composer.cancel");
    reveal_with_fuel(keys_ascending, 11);
    reveal_with_fuel(lex_lt, 20);
}

proof fn lemma_part_5_ascending()
    ensures
        keys_ascending(catalog_part_5()),
        lex_lt(catalog_part_5().last().0, catalog_part_6()[0].0),
{
    reveal_strlit("composer.cancel");
    reveal_strlit("composer.edit");
    reveal_strlit("composer.message_the_agent");
    reveal_strlit("composer.message_the_agent_enter_to_send");
    reveal_strlit("composer.placeholder");
    reveal_strlit("composer.queue");
    reveal_strlit("composer.remove");
    reveal_strlit("composer.save");
    reveal_strlit("composer.send");
    reveal_strlit("composer.stop");
    reveal_strlit("deny");
    reveal_with_fuel(keys_ascending, 11);
    reveal_with_fuel(lex_lt, 28);
}

proof fn lemma_part_6_ascending()
    ensures
        keys_ascending(catalog_part_6()),
        lex_lt(catalog_part_6().last().0, catalog_part_7()[0].0),
{
    reveal_strlit("deny");
    reveal_strlit("dictation.and");
    reveal_strlit("dictation.dictate");
    reveal_strlit("dictation.dictation_was_interrupted");
    reveal_strlit("dictation.dismiss_dictation");
    reveal_strlit("dictation.microphone_unavailable_check_permission");
    reveal_strlit("dictation.paste");
    reveal_strlit("dictation.speech_recognition_isn_t_available_here");
    reveal_strlit("dictation.speech_recognizer_failed");
    reveal_strlit("dictation.start_dictation");
    reveal_strlit("dictation.stop");
    reveal_with_fuel(keys_ascending, 11);
    reveal_with_fuel(lex_lt, 26);
}

proof fn lemma_part_7_ascending()
    ensures
        keys_ascending(catalog_part_7()),
        lex_lt(catalog_part_7().last().0, catalog_part_8()[0].0),
{
    reveal_strlit("dictation.stop");
    reveal_strlit("dictation.stop_dictation");
    reveal_strlit("discovery.close");
    reveal_strlit("discovery.discovery_timed_out");
    reveal_strlit("discovery.nearby_hosts");
    reveal_strlit("discovery.searching_the_local_network");
    reveal_strlit("discovery.unpeel_host");
    reveal_strlit("find.close_find");
    reveal_strlit("find.find");
    reveal_strlit("find.find_in_terminal");
    reveal_strlit("find.next_match");
    reveal_with_fuel(keys_ascending, 11);
    reveal_with_fuel(lex_lt, 16);
}

proof fn lemma_part_8_ascending()
    ensures
        keys_ascending(catalog_part_8()),
        lex_lt(catalog_part_8().last().0, catalog_part_9()[0].0),
{
    reveal_strlit("find.next_match");
    reveal_strlit("find.no_results");
    reveal_strlit("find.previous_match");
    reveal_strlit("gallery.add_to_message");
    reveal_strlit("gallery.arrows");
    reveal_strlit("gallery.ask_the_host_to_capture_a_screenshot_int");
    reveal_strlit("gallery.browser_gallery");
    reveal_strlit("gallery.confirm_delete");
    reveal_strlit("gallery.crop");
    reveal_strlit("gallery.delete");
    reveal_strlit("gallery.draw");
    reveal_with_fuel(keys_ascending, 11);
    reveal_with_fuel(lex_lt, 11);
}

proof fn lemma_part_9_ascending()
    ensures
        keys_ascending(catalog_part_9()),
        lex_lt(catalog_part_9().last().0, catalog_part_10()[0].0),
{
    reveal_strlit("gallery.draw");
    reveal_strlit("gallery.gallery");
    reveal_strlit("gallery.refresh");
    reveal_strlit("gallery.screenshot");
    reveal_strlit("gallery.share");
    reveal_strlit("gallery.upload");
    reveal_strlit("notifier.needs_your_input");
    reveal_strlit("notifier.notification");
    reveal_strlit("organize.archive_library");
    reveal_strlit("organize.archive_session");
    reveal_strlit("organize.done");
    reveal_with_fuel(keys_ascending, 11);
    reveal_with_fuel(lex_lt, 19);
}

proof fn lemma_part_10_ascending()
    ensures
        keys_ascending(catalog_part_10()),
        lex_lt(catalog_part_10().last().0, catalog_part_11()[0].0),
{
    reveal_strlit("organize.done");
    reveal_strlit("organize.folder_color");
    reveal_strlit("organize.group_name");
    reveal_strlit("organize.keep_current_location");
    reveal_strlit("organize.move_to");
    reveal_strlit("organize.move_to_project");
    reveal_strlit("organize.none");
    reveal_strlit("organize.notify_when_done");
    reveal_strlit("organize.organize_session");
    reveal_strlit("organize.pinned");
    reveal_strlit("organize.remove_from_list");
    reveal_with_fuel(keys_ascending, 11);
    reveal_with_fuel(lex_lt, 18);
}

proof fn lemma_part_11_ascending()
    ensures
        keys_ascending(catalog_part_11()),
        lex_lt(catalog_part_11().last().0, catalog_part_12()[0].0),
{
    reveal_strlit("organize.remove_from_list");
    reveal_strlit("organize.remove_from_list_2");
    reveal_strlit("organize.remove_session");
    reveal_strlit("organize.remove_session_2");
    reveal_strlit("organize.restore");
    reveal_strlit("organize.restore_from_archive");
    reveal_strlit("organize.restore_resume");
    reveal_strlit("organize.resume_agent");
    reveal_strlit("organize.resume_agent_2");
    reveal_strlit("organize.resume_session");
    reveal_strlit("organize.resume_session_2");
    reveal_with_fuel(keys_ascending, 11);
    reveal_with_fuel(lex_lt, 27);
}

proof fn lemma_part_12_ascending()
    ensures
        keys_ascending(catalog_part_12()),
        lex_lt(catalog_part_12().last().0, catalog_part_13()[0].0),
{
    reveal_strlit("organize.resume_session_2");
    reveal_strlit("organize.save");
    reveal_strlit("organize.session_name");
    reveal_strlit("organize.sort_sessions_by_date");
    reveal_strlit("organize.stop_and_archive_session");
    reveal_strlit("organize.stop_session");
    reveal_strlit("organize.stop_session_2");
    reveal_strlit("organize.tap_again_to_confirm_archive");
    reveal_strlit("organize.tap_again_to_confirm_remove");
    reveal_strlit("organize.tap_again_to_confirm_resume");
    reveal_strlit("organize.tap_again_to_confirm_resume_agent");
    reveal_with_fuel(keys_ascending, 11);
    reveal_with_fuel(lex_lt, 38);
}

proof fn lemma_part_13_ascending()
    ensures
        keys_ascending(catalog_part_13()),
        lex_lt(catalog_part_13().last().0, catalog_part_14()[0].0),
{
    reveal_strlit("organize.tap_again_to_confirm_resume_agent");
    reveal_strlit("organize.tap_again_to_confirm_stop");
    reveal_strlit("pairing.connect");
    reveal_strlit("pairing.forget");
    reveal_strlit("pairing.pair");
    reveal_strlit("pairing.pair_with_an_unpeel_host");
    reveal_strlit("pairing.pairing_code_from_the_host");
    reveal_strlit("pairing.previously_paired");
    reveal_strlit("pairing.switch");
    reveal_strlit("pairing.viewing");
    reveal_strlit("pairing.viewing_2");
    reveal_with_fuel(keys_ascending, 11);
    reveal_with_fuel(lex_lt, 32);
}

proof fn lemma_part_14_ascending()
    ensures
        keys_ascending(catalog_part_14()),
        lex_lt(catalog_part_14().last().0, catalog_part_15()[0].0),
{
    reveal_strlit("pairing.viewing_2");
    reveal_strlit("presence.name_connected");
    reveal_strlit("presence.name_id");
    reveal_strlit("presence.no_viewers");
    reveal_strlit("presence.remote_viewer");
    reveal_strlit("presets.close_presets");
    reveal_strlit("presets.new_session");
    reveal_strlit("push.not_requested");
    reveal_strlit("push.notifications_are_denied_in_system_setti");
    reveal_strlit("push.notifications_are_off");
    reveal_strlit("push.notifications_aren_t_working");
    reveal_with_fuel(keys_ascending, 11);
    reveal_with_fuel(lex_lt, 25);
}

proof fn lemma_part_15_ascending()
    ensures
        keys_ascending(catalog_part_15()),
        lex_lt(catalog_part_15().last().0, catalog_part_16()[0].0),
{
    reveal_strlit("push.notifications_aren_t_working");
    reveal_strlit("push.ready_production");
    reveal_strlit("push.ready_sandbox");
    reveal_strlit("push.waiting_for_a_push_device_token");
    reveal_strlit("push.waiting_for_notification_permission");
    reveal_strlit("qr.camera_access_denied");
    reveal_strlit("qr.camera_unavailable");
    reveal_strlit("qr.point_the_camera_at_the_pairing_qr_code");
    reveal_strlit("qr.requesting_camera_access");
    reveal_strlit("qr.scanner_paused");
    reveal_strlit("settings.agents");
    reveal_with_fuel(keys_ascending, 11);
    reveal_with_fuel(lex_lt, 19);
}

proof fn lemma_part_16_ascending()
    ensures
        keys_ascending(catalog_part_16()),
        lex_lt(catalog_part_16().last().0, catalog_part_17()[0].0),
{
    reveal_strlit("settings.agents");
    reveal_strlit("settings.allow_agent_mcp_access");
    reveal_strlit("settings.allow_browser_use");
    reveal_strlit("settings.ask_before_writes");
    reveal_strlit("settings.ask_before_writing_to_another_session");
    reveal_strlit("settings.browser");
    reveal_strlit("settings.browser_use");
    reveal_strlit("settings.developer");
    reveal_strlit("settings.experimental");
    reveal_strlit("settings.features");
    reveal_strlit("settings.git_worktrees");
    reveal_with_fuel(keys_ascending, 11);
    reveal_with_fuel(lex_lt, 26);
}

proof fn lemma_part_17_ascending()
    ensures
        keys_ascending(catalog_part_17()),
        lex_lt(catalog_part_17().last().0, catalog_part_18()[0].0),
{
    reveal_strlit("settings.git_worktrees");
    reveal_strlit("settings.persist_logins");
    reveal_strlit("settings.plugins");
    reveal_strlit("settings.read_other_sessions");
    reveal_strlit("settings.remote_workspaces");
    reveal_strlit("settings.sessions");
    reveal_strlit("settings.sessions_use");
    reveal_strlit("settings.workspaces");
    reveal_strlit("settings.worktrees");
    reveal_strlit("ssh.forget");
    reveal_strlit("ssh.interactive_shell");
    reveal_with_fuel(keys_ascending, 11);
    reveal_with_fuel(lex_lt, 19);
}

proof fn lemma_part_18_ascending()
    ensures
        keys_ascending(catalog_part_18()),
        lex_lt(catalog_part_18().last().0, catalog_part_19()[0].0),
{
    reveal_strlit("ssh.interactive_shell");
    reveal_strlit("ssh.standard_ssh");
    reveal_strlit("status.connected");
    reveal_strlit("status.connecting");
    reveal_strlit("status.disconnected");
    reveal_strlit("tab.activity");
    reveal_strlit("tab.sessions");
    reveal_strlit("tab.settings");
    reveal_strlit("terminal.close");
    reveal_strlit("terminal.copy_all");
    reveal_strlit("terminal.inherit_terminal_default");
    reveal_with_fuel(keys_ascending, 11);
    reveal_with_fuel(lex_lt, 16);
}

proof fn lemma_part_19_ascending()
    ensures
        keys_ascending(catalog_part_19()),
        lex_lt(catalog_part_19().last().0, catalog_part_20()[0].0),
{
    reveal_strlit("terminal.inherit_terminal_default");
    reveal_strlit("terminal.select");
    reveal_strlit("terminal.select_text");
    reveal_strlit("workspaces.alacritty");
    reveal_strlit("workspaces.cursor");
    reveal_strlit("workspaces.finder");
    reveal_strlit("workspaces.fork");
    reveal_strlit("workspaces.ghostty");
    reveal_strlit("workspaces.git_worktrees");
    reveal_strlit("workspaces.github_desktop");
    reveal_strlit("workspaces.gitkraken");
    reveal_with_fuel(keys_ascending, 11);
    reveal_with_fuel(lex_lt, 17);
}

proof fn lemma_part_20_ascending()
    ensures
        keys_ascending(catalog_part_20()),
        lex_lt(catalog_part_20().last().0, catalog_part_21()[0].0),
{
    reveal_strlit("workspaces.gitkraken");
    reveal_strlit("workspaces.hyper");
    reveal_strlit("workspaces.intellij");
    reveal_strlit("workspaces.iterm2");
    reveal_strlit("workspaces.kitty");
    reveal_strlit("workspaces.path");
    reveal_strlit("workspaces.remove");
    reveal_strlit("workspaces.require_a_clean_tree_before_creating_a_w");
    reveal_strlit("workspaces.rio");
    reveal_strlit("workspaces.sourcetree");
    reveal_strlit("workspaces.sublime_merge");
    reveal_with_fuel(keys_ascending, 11);
    reveal_with_fuel(lex_lt, 15);
}

proof fn lemma_part_21_ascending()
    ensures
        keys_ascending(catalog_part_21()),
        lex_lt(catalog_part_21().last().0, catalog_part_22()[0].0),
{
    reveal_strlit("workspaces.sublime_merge");
    reveal_strlit("workspaces.tabby");
    reveal_strlit("workspaces.terminal");
    reveal_strlit("workspaces.tower");
    reveal_strlit("workspaces.uncommitted_changes");
    reveal_strlit("workspaces.vs_code");
    reveal_strlit("workspaces.warp");
    reveal_strlit("workspaces.wave");
    reveal_strlit("workspaces.webstorm");
    reveal_strlit("workspaces.wezterm");
    reveal_strlit("workspaces.xcode");
    reveal_with_fuel(keys_ascending, 11);
    reveal_with_fuel(lex_lt, 15);
}

proof fn lemma_part_22_ascending()
    ensures
        keys_ascending(catalog_part_22()),
{
    reveal_strlit("workspaces.xcode");
    reveal_strlit("workspaces.zed");
    reveal_with_fuel(keys_ascending, 3);
    reveal_with_fuel(lex_lt, 13);
}
/// No two catalog entries share a key: the keys ascend strictly, as the
/// catalog is written.
pub proof fn lemma_catalog_keys_distinct()
    ensures
        forall|i: int, j: int|
            0 <= i < j < catalog_spec().len() ==> lex_lt(#[trigger] catalog_spec()[i].0, #[trigger] catalog_spec()[j].0),
        forall|i: int, j: int|
            0 <= i < catalog_spec().len() && 0 <= j < catalog_spec().len() && i != j
                ==> #[trigger] catalog_spec()[i].0 != #[trigger] catalog_spec()[j].0,
{
    lemma_part_0_ascending();
    let c0 = catalog_part_0();
    lemma_part_1_ascending();
    lemma_concat_ascending(c0, catalog_part_1());
    let c1 = c0 + catalog_part_1();
    assert(c1.last() == catalog_part_1().last());
    lemma_part_2_ascending();
    lemma_concat_ascending(c1, catalog_part_2());
    let c2 = c1 + catalog_part_2();
    assert(c2.last() == catalog_part_2().last());
    lemma_part_3_ascending();
    lemma_concat_ascending(c2, catalog_part_3());
    let c3 = c2 + catalog_part_3();
    assert(c3.last() == catalog_part_3().last());
    lemma_part_4_ascending();
    lemma_concat_ascending(c3, catalog_part_4());
    let c4 = c3 + catalog_part_4();
    assert(c4.last() == catalog_part_4().last());
    lemma_part_5_ascending();
    lemma_concat_ascending(c4, catalog_part_5());
    let c5 = c4 + catalog_part_5();
    assert(c5.last() == catalog_part_5().last());
    lemma_part_6_ascending();
    lemma_concat_ascending(c5, catalog_part_6());
    let c6 = c5 + catalog_part_6();
    assert(c6.last() == catalog_part_6().last());
    lemma_part_7_ascending();
    lemma_concat_ascending(c6, catalog_part_7());
    let c7 = c6 + catalog_part_7();
    assert(c7.last() == catalog_part_7().last());
    lemma_part_8_ascending();
    lemma_concat_ascending(c7, catalog_part_8());
    let c8 = c7 + catalog_part_8();
    assert(c8.last() == catalog_part_8().last());
    lemma_part_9_ascending();
    lemma_concat_ascending(c8, catalog_part_9());
    let c9 = c8 + catalog_part_9();
    assert(c9.last() == catalog_part_9().last());
    lemma_part_10_ascending();
    lemma_concat_ascending(c9, catalog_part_10());
    let c10 = c9 + catalog_part_10();
    assert(c10.last() == catalog_part_10().last());
    lemma_part_11_ascending();
    lemma_concat_ascending(c10, catalog_part_11());
    let c11 = c10 + catalog_part_11();
    assert(c11.last() == catalog_part_11().last());
    lemma_part_12_ascending();
    lemma_concat_ascending(c11, catalog_part_12());
    let c12 = c11 + catalog_part_12();
    assert(c12.last() == catalog_part_12().last());
    lemma_part_13_ascending();
    lemma_concat_ascending(c12, catalog_part_13());
    let c13 = c12 + catalog_part_13();
    assert(c13.last() == catalog_part_13().last());
    lemma_part_14_ascending();
    lemma_concat_ascending(c13, catalog_part_14());
    let c14 = c13 + catalog_part_14();
    assert(c14.last() == catalog_part_14().last());
    lemma_part_15_ascending();
    lemma_concat_ascending(c14, catalog_part_15());
    let c15 = c14 + catalog_part_15();
    assert(c15.last() == catalog_part_15().last());
    lemma_part_16_ascending();
    lemma_concat_ascending(c15, catalog_part_16());
    let c16 = c15 + catalog_part_16();
    assert(c16.last() == catalog_part_16().last());
    lemma_part_17_ascending();
    lemma_concat_ascending(c16, catalog_part_17());
    let c17 = c16 + catalog_part_17();
    assert(c17.last() == catalog_part_17().last());
    lemma_part_18_ascending();
    lemma_concat_ascending(c17, catalog_part_18());
    let c18 = c17 + catalog_part_18();
    assert(c18.last() == catalog_part_18().last());
    lemma_part_19_ascending();
    lemma_concat_ascending(c18, catalog_part_19());
    let c19 = c18 + catalog_part_19();
    assert(c19.last() == catalog_part_19().last());
    lemma_part_20_ascending();
    lemma_concat_ascending(c19, catalog_part_20());
    let c20 = c19 + catalog_part_20();
    assert(c20.last() == catalog_part_20().last());
    lemma_part_21_ascending();
    lemma_concat_ascending(c20, catalog_part_21());
    let c21 = c20 + catalog_part_21();
    assert(c21.last() == catalog_part_21().last());
    lemma_part_22_ascending();
    lemma_concat_ascending(c21, catalog_part_22());
    let c22 = c21 + catalog_part_22();
    assert(c22.last() == catalog_part_22().last());
    assert(c22 == catalog_spec());
    lemma_ascending_sorted(catalog_spec());
    assert forall|i: int, j: int|
        0 <= i < catalog_spec().len() && 0 <= j < catalog_spec().len() && i != j implies #[trigger] catalog_spec()[i].0
            != #[trigger] catalog_spec()[j].0 by {
        lemma_lex_irreflexive(catalog_spec()[i].0);
        lemma_lex_irreflexive(catalog_spec()[j].0);
    }
}

/// Index of the first entry of `c` with key `key`, or `-1`.
pub open spec fn key_index(c: Seq<(Seq<char>, Seq<char>)>, key: Seq<char>) -> int
    decreases c.len(),
{
    if c.len() == 0 {
        -1
    } else if c[0].0 == key {
        0
    } else {
        let r = key_index(c.drop_first(), key);
        if r < 0 {
            -1
        } else {
            r + 1
        }
    }
}

proof fn lemma_key_index(c: Seq<(Seq<char>, Seq<char>)>, key: Seq<char>)
    ensures
        -1 <= key_index(c, key) < c.len(),
        key_index(c, key) >= 0 ==> c[key_index(c, key)].0 == key,
        forall|j: int|
            0 <= j < c.len() && (key_index(c, key) < 0 || j < key_index(c, key)) ==> (#[trigger] c[j]).0
                != key,
    decreases c.len(),
{
    if c.len() > 0 && c[0].0 != key {
        lemma_key_index(c.drop_first(), key);
        assert forall|j: int| 0 < j < c.len() implies #[trigger] c[j] == c.drop_first()[j - 1] by {}
    }
}

/// The English message for `key`, or the key itself when the catalog has
/// no such key.
pub open spec fn message_spec(key: Seq<char>) -> Seq<char> {
    let i = key_index(catalog_spec(), key);
    if i >= 0 {
        catalog_spec()[i].1
    } else {
        key
    }
}

/// Padding added by the pseudo-locale to a message of `n` characters:
/// 40% of its length, rounded up.
pub open spec fn pad_len(n: nat) -> nat {
    (2 * n + 4) / 5
}

/// The pseudo-locale form of a message: `⟦`, the message, the padding
/// dots, `⟧`.
pub open spec fn pseudo_spec(m: Seq<char>) -> Seq<char> {
    seq!['⟦'] + m + Seq::new(pad_len(m.len()), |_i: int| '·') + seq!['⟧']
}

/// The message for `key` in `locale`.
pub open spec fn localized(key: Seq<char>, locale: Locale) -> Seq<char> {
    match locale {
        Locale::English => message_spec(key),
        Locale::Pseudo => pseudo_spec(message_spec(key)),
    }
}

/// The English message for `key` (see [`message_spec`]).
fn english_message(key: &str) -> (r: String)
    ensures
        r@ == message_spec(key@),
{
    let c = english_catalog();
    proof {
        lemma_key_index(catalog_spec(), key@);
    }
    let mut i: usize = 0;
    while i < c.len()
        invariant
            i <= c.len(),
            entry_views(c@) == catalog_spec(),
            -1 <= key_index(catalog_spec(), key@) < catalog_spec().len(),
            key_index(catalog_spec(), key@) >= 0 ==> catalog_spec()[key_index(catalog_spec(), key@)].0
                == key@,
            forall|j: int|
                0 <= j < catalog_spec().len() && (key_index(catalog_spec(), key@) < 0 || j < key_index(
                    catalog_spec(),
                    key@,
                )) ==> (#[trigger] catalog_spec()[j]).0 != key@,
            forall|j: int| 0 <= j < i ==> (#[trigger] catalog_spec()[j]).0 != key@,
        decreases c.len() - i,
    {
        let (k, m) = c[i];
        assert(catalog_spec()[i as int] == (k@, m@));
        if str_eq(k, key) {
            return owned(m);
        }
        i += 1;
    }
    owned(key)
}

/// Pseudo-locale transform (see [`pseudo_spec`]).
pub fn pseudo_transform(msg: &str) -> (r: String)
    ensures
        r@ == pseudo_spec(msg@),
{
    let n = chars_of(msg).len();
    let pad = n / 5 * 2 + (n % 5 * 2 + 4) / 5;
    assert(pad == pad_len(msg@.len())) by (nonlinear_arith)
        requires
            pad == n / 5 * 2 + (n % 5 * 2 + 4) / 5,
            n == msg@.len(),
    ;
    let mut out = String::new();
    push_char(&mut out, '⟦');
    push_str(&mut out, msg);
    let ghost head = out@;
    let mut k: usize = 0;
    while k < pad
        invariant
            k <= pad,
            head == seq!['⟦'] + msg@,
            out@ == head + Seq::new(k as nat, |_i: int| '·'),
        decreases pad - k,
    {
        push_char(&mut out, '·');
        k += 1;
        assert(out@ =~= head + Seq::new(k as nat, |_i: int| '·'));
    }
    push_char(&mut out, '⟧');
    assert(out@ =~= pseudo_spec(msg@));
    out
}

/// Look up a message by key in a specific locale; a missing key falls back
/// to the key itself.
pub fn t_with_locale(key: &str, locale: Locale) -> (r: String)
    ensures
        r@ == localized(key@, locale),
{
    let msg = english_message(key);
    match locale {
        Locale::English => msg,
        Locale::Pseudo => pseudo_transform(msg.as_str()),
    }
}

/// Look up a message by key in the shipped locale, English; a missing key
/// falls back to the key itself.
pub fn t(key: &str) -> (r: String)
    ensures
        r@ == message_spec(key@),
{
    t_with_locale(key, Locale::English)
}

/// A pseudo-locale message starts with `⟦`, ends with `⟧`, holds the
/// message right after the opening mark, and is longer than the message.
pub proof fn lemma_pseudo_wraps(m: Seq<char>)
    ensures
        pseudo_spec(m)[0] == '⟦',
        pseudo_spec(m).last() == '⟧',
        pseudo_spec(m).subrange(1, m.len() + 1 as int) == m,
        pseudo_spec(m).len() > m.len(),
{
    assert(pseudo_spec(m).subrange(1, m.len() + 1 as int) =~= m);
}

/// A key the catalog lacks is shown as itself, in English.
pub proof fn lemma_missing_key_falls_back(key: Seq<char>)
    requires
        forall|i: int| 0 <= i < catalog_spec().len() ==> (#[trigger] catalog_spec()[i]).0 != key,
    ensures
        localized(key, Locale::English) == key,
{
    lemma_key_index(catalog_spec(), key);
}

/// The catalog's keys.
pub open spec fn catalog_key_views() -> Seq<Seq<char>> {
    catalog_spec().map_values(|e: (Seq<char>, Seq<char>)| e.0)
}

/// All catalog keys, sorted ascending.
pub fn catalog_keys() -> (r: Vec<&'static str>)
    ensures
        str_views(r@).to_multiset() == catalog_key_views().to_multiset(),
        sorted_views(str_views(r@)),
{
    let c = english_catalog();
    let mut keys: Vec<&'static str> = Vec::new();
    let mut i: usize = 0;
    while i < c.len()
        invariant
            i <= c.len(),
            entry_views(c@) == catalog_spec(),
            str_views(keys@) == catalog_key_views().subrange(0, i as int),
        decreases c.len() - i,
    {
        let ghost before = keys@;
        keys.push(c[i].0);
        proof {
            assert(entry_views(c@)[i as int] == (c@[i as int].0@, c@[i as int].1@));
            assert(catalog_key_views()[i as int] == catalog_spec()[i as int].0);
            assert(str_views(keys@) =~= str_views(before).push(c@[i as int].0@));
            assert(catalog_key_views().subrange(0, i + 1) =~= catalog_key_views().subrange(0, i as int).push(
                catalog_key_views()[i as int],
            ));
        }
        assert(str_views(keys@) =~= catalog_key_views().subrange(0, i + 1));
        i += 1;
    }
    assert(catalog_key_views().subrange(0, c.len() as int) =~= catalog_key_views());
    sort_strs(keys)
}

} // verus!

