//! The command palette's rows and what running one does: one row per live
//! session, then the shell commands.
use vstd::prelude::*;
use crate::sessions::SessionSummary;
use crate::text::{owned, push_str, starts_with, str_eq, str_starts_with};

verus! {

/// A session row or a shell command.
#[derive(Debug, Clone, Copy, PartialEq, Eq, Structural)]
pub enum PaletteKind {
    Session,
    Command,
}

/// One palette row.
#[derive(Debug, Clone, PartialEq, Eq)]
pub struct PaletteItem {
    pub id: String,
    pub kind: PaletteKind,
    pub title: String,
    pub subtitle: Option<String>,
    /// Extra words the fuzzy filter matches.
    pub keywords: String,
    pub unread: bool,
}

/// A row as values: id, kind, title, subtitle, keywords, unread.
pub type ItemView = (Seq<char>, PaletteKind, Seq<char>, Option<Seq<char>>, Seq<char>, bool);

/// A row by its view.
pub open spec fn item_view(p: PaletteItem) -> ItemView {
    (
        p.id@,
        p.kind,
        p.title@,
        match p.subtitle {
            Some(s) => Some(s@),
            None => None,
        },
        p.keywords@,
        p.unread,
    )
}

/// A session's row: `sess:{id}`, titled by the session (or
/// `(untitled session)`), unread as the session is.
pub open spec fn session_row(s: SessionSummary) -> ItemView {
    (
        "sess:"@ + s.id@,
        PaletteKind::Session,
        if s.title@.len() == 0 {
            "(untitled session)"@
        } else {
            s.title@
        },
        None,
        Seq::empty(),
        s.unread,
    )
}

/// The rows: the sessions in order; the new-session command when
/// sessions can be created; then the archive library, the gallery and the
/// host switcher.
pub open spec fn palette_spec(sessions: Seq<SessionSummary>, can_create: bool) -> Seq<ItemView> {
    let new_session: Seq<ItemView> = if can_create {
        seq![
            (
                "cmd:new-session"@,
                PaletteKind::Command,
                "New session…"@,
                Some("Start a session from a preset"@),
                "new create preset"@,
                false,
            ),
        ]
    } else {
        Seq::empty()
    };
    sessions.map_values(|s: SessionSummary| session_row(s)) + new_session + seq![
        ("cmd:open-archive"@, PaletteKind::Command, "Archive library…"@, None, "archive restore"@, false),
        ("cmd:open-gallery"@, PaletteKind::Command, "Gallery"@, None, "gallery screenshots images"@, false),
        ("cmd:show-hosts"@, PaletteKind::Command, "Switch Host…"@, None, "host switch pairing"@, false),
    ]
}

fn command(id: &str, title: &str, subtitle: Option<&str>, keywords: &str) -> (r: PaletteItem)
    ensures
        item_view(r) == (
            id@,
            PaletteKind::Command,
            title@,
            match subtitle {
                Some(s) => Some(s@),
                None => None,
            },
            keywords@,
            false,
        ),
{
    PaletteItem {
        id: owned(id),
        kind: PaletteKind::Command,
        title: owned(title),
        subtitle: match subtitle {
            Some(s) => Some(owned(s)),
            None => None,
        },
        keywords: owned(keywords),
        unread: false,
    }
}

/// The palette rows for the live sessions.
pub fn build_palette_items(sessions: &[SessionSummary], can_create: bool) -> (r: Vec<PaletteItem>)
    ensures
        r@.map_values(|p: PaletteItem| item_view(p)) == palette_spec(sessions@, can_create),
{
    let mut items: Vec<PaletteItem> = Vec::new();
    let mut i: usize = 0;
    while i < sessions.len()
        invariant
            i <= sessions@.len(),
            items@.map_values(|p: PaletteItem| item_view(p)) == sessions@.take(i as int).map_values(
                |s: SessionSummary| session_row(s),
            ),
        decreases sessions@.len() - i,
    {
        let s = &sessions[i];
        let mut id = owned("sess:");
        push_str(&mut id, s.id.as_str());
        let title = if s.title.as_str().unicode_len() == 0 {
            owned("(untitled session)")
        } else {
            s.title.clone()
        };
        let item = PaletteItem {
            id,
            kind: PaletteKind::Session,
            title,
            subtitle: None,
            keywords: String::new(),
            unread: s.unread,
        };
        let ghost before = items@;
        items.push(item);
        proof {
            assert(item_view(item) == session_row(*s));
            assert(sessions@.take(i as int + 1) =~= sessions@.take(i as int).push(*s));
            assert(items@.map_values(|p: PaletteItem| item_view(p)) =~= before.map_values(
                |p: PaletteItem| item_view(p),
            ).push(item_view(item)));
            assert(sessions@.take(i as int + 1).map_values(|s: SessionSummary| session_row(s))
                =~= sessions@.take(i as int).map_values(|s: SessionSummary| session_row(s)).push(
                session_row(*s),
            ));
        }
        i += 1;
    }
    assert(sessions@.take(sessions@.len() as int) =~= sessions@);
    let ghost rows = items@.map_values(|p: PaletteItem| item_view(p));
    if can_create {
        items.push(command("cmd:new-session", "New session…", Some("Start a session from a preset"), "new create preset"));
    }
    items.push(command("cmd:open-archive", "Archive library…", None, "archive restore"));
    items.push(command("cmd:open-gallery", "Gallery", None, "gallery screenshots images"));
    items.push(command("cmd:show-hosts", "Switch Host…", None, "host switch pairing"));
    assert(items@.map_values(|p: PaletteItem| item_view(p)) =~= palette_spec(sessions@, can_create));
    items
}

/// What running a palette row asks of the shell.
#[derive(Debug, Clone, PartialEq, Eq)]
pub enum PaletteCommand {
    /// Select the session with this id.
    SelectSession(String),
    /// Open the preset drawer.
    NewSession,
    /// Open the archive library of the selected project.
    OpenArchive,
    OpenGallery,
    ShowHosts,
    /// Not a known row.
    Ignore,
}

/// Running palette row `id` (the palette closes either way): a `sess:`
/// row selects its session; the command rows name their commands;
/// anything else is ignored.
pub fn palette_command(id: &str) -> (r: PaletteCommand)
    ensures
        starts_with(id@, "sess:"@) ==> (r matches PaletteCommand::SelectSession(s) && s@ == id@.skip(5)),
        !starts_with(id@, "sess:"@) ==> r == if id@ == "cmd:new-session"@ {
            PaletteCommand::NewSession
        } else if id@ == "cmd:open-archive"@ {
            PaletteCommand::OpenArchive
        } else if id@ == "cmd:open-gallery"@ {
            PaletteCommand::OpenGallery
        } else if id@ == "cmd:show-hosts"@ {
            PaletteCommand::ShowHosts
        } else {
            PaletteCommand::Ignore
        },
{
    if str_starts_with(id, "sess:") {
        proof {
            reveal_strlit("sess:");
        }
        let v = crate::text::chars_of(id);
        let rest = crate::text::string_from_chars(&v, 5, v.len());
        assert(rest@ =~= id@.skip(5));
        return PaletteCommand::SelectSession(rest);
    }
    if str_eq(id, "cmd:new-session") {
        PaletteCommand::NewSession
    } else if str_eq(id, "cmd:open-archive") {
        PaletteCommand::OpenArchive
    } else if str_eq(id, "cmd:open-gallery") {
        PaletteCommand::OpenGallery
    } else if str_eq(id, "cmd:show-hosts") {
        PaletteCommand::ShowHosts
    } else {
        PaletteCommand::Ignore
    }
}

} // verus!
