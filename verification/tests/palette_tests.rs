use unpeel_ui::palette::{build_palette_items, palette_command, PaletteCommand, PaletteKind};
use unpeel_ui::sessions::SessionSummary;

fn session(id: &str, title: &str, unread: bool) -> SessionSummary {
    SessionSummary { id: id.to_string(), title: title.to_string(), unread, ..Default::default() }
}

#[test]
fn palette_lists_sessions_then_commands() {
    let items = build_palette_items(&[session("a", "Build", true), session("b", "", false)], true);
    let ids: Vec<&str> = items.iter().map(|i| i.id.as_str()).collect();
    assert_eq!(
        ids,
        vec!["sess:a", "sess:b", "cmd:new-session", "cmd:open-archive", "cmd:open-gallery", "cmd:show-hosts"]
    );
    assert_eq!(items[0].title, "Build");
    assert!(items[0].unread);
    assert_eq!(items[0].kind, PaletteKind::Session);
    assert_eq!(items[1].title, "(untitled session)");
    assert_eq!(items[2].subtitle, Some("Start a session from a preset".to_string()));
    assert_eq!(items[2].kind, PaletteKind::Command);
    assert_eq!(items[5].keywords, "host switch pairing");
}

#[test]
fn palette_without_create_has_no_new_session_row() {
    let items = build_palette_items(&[], false);
    let ids: Vec<&str> = items.iter().map(|i| i.id.as_str()).collect();
    assert_eq!(ids, vec!["cmd:open-archive", "cmd:open-gallery", "cmd:show-hosts"]);
}

#[test]
fn running_rows() {
    assert_eq!(palette_command("sess:abc"), PaletteCommand::SelectSession("abc".to_string()));
    assert_eq!(palette_command("sess:"), PaletteCommand::SelectSession(String::new()));
    assert_eq!(palette_command("cmd:new-session"), PaletteCommand::NewSession);
    assert_eq!(palette_command("cmd:open-archive"), PaletteCommand::OpenArchive);
    assert_eq!(palette_command("cmd:open-gallery"), PaletteCommand::OpenGallery);
    assert_eq!(palette_command("cmd:show-hosts"), PaletteCommand::ShowHosts);
    assert_eq!(palette_command("cmd:nope"), PaletteCommand::Ignore);
}
