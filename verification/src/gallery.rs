//! The artifact gallery: which entries are images, and the webview share
//! script for one entry.
//!
//! The share arguments (file name, MIME type, base64 bytes) travel as one
//! JSON object substituted once into the script, so a hostile file name
//! stays inside its JSON string and cannot corrupt the script.
use vstd::prelude::*;
use base64::Engine;
use crate::json::{json_quote, json_string};
use crate::text::{ends_with, lowercase, owned, push_str, str_ends_with, str_eq, to_lowercase};

verus! {

/// An artifact's metadata as the Host lists it.
#[derive(Clone, Debug, PartialEq, Eq)]
pub struct ArtifactMeta {
    pub kind: String,
    pub name: String,
    pub size: u64,
    pub modified_at_unix_ms: u64,
}

/// One gallery row as the app shell hands it to the panel.
#[derive(Clone, Debug, PartialEq, Eq)]
pub struct GalleryEntry {
    pub meta: ArtifactMeta,
    /// `data:` URL of the image preview; `None` while loading and for
    /// artifacts that are not images.
    pub preview_url: Option<String>,
}

impl GalleryEntry {
    /// Images and screenshots show a preview.
    pub fn is_image(&self) -> (r: bool)
        ensures
            r == (self.meta.kind@ == "image"@ || self.meta.kind@ == "screenshot"@),
    {
        str_eq(self.meta.kind.as_str(), "image") || str_eq(self.meta.kind.as_str(), "screenshot")
    }
}

/// A file name, lowercased, with an image extension.
pub open spec fn image_extension(lower_name: Seq<char>) -> bool {
    ||| ends_with(lower_name, ".png"@)
    ||| ends_with(lower_name, ".jpg"@)
    ||| ends_with(lower_name, ".jpeg"@)
    ||| ends_with(lower_name, ".gif"@)
    ||| ends_with(lower_name, ".webp"@)
    ||| ends_with(lower_name, ".bmp"@)
}

/// Whether an artifact gets a grid thumbnail: images and screenshots by
/// kind, and any artifact whose name ends in an image extension, in any
/// case.
pub fn artifact_is_image(meta: &ArtifactMeta) -> (r: bool)
    ensures
        r == (meta.kind@ == "image"@ || meta.kind@ == "screenshot"@ || image_extension(
            lowercase(meta.name@),
        )),
{
    if str_eq(meta.kind.as_str(), "image") || str_eq(meta.kind.as_str(), "screenshot") {
        return true;
    }
    let lower = to_lowercase(meta.name.as_str());
    let l = lower.as_str();
    str_ends_with(l, ".png") || str_ends_with(l, ".jpg") || str_ends_with(l, ".jpeg")
        || str_ends_with(l, ".gif") || str_ends_with(l, ".webp") || str_ends_with(l, ".bmp")
}

/// The cache key of one grid thumbnail: `{kind}/{name}`.
pub fn thumb_key(kind: &str, name: &str) -> (r: String)
    ensures
        r@ == kind@ + "/"@ + name@,
{
    let mut k = owned(kind);
    push_str(&mut k, "/");
    push_str(&mut k, name);
    k
}

/// Which annotation editor the detail view has open.
#[derive(Debug, Clone, Copy, PartialEq, Eq, Structural)]
pub enum AnnotationMode {
    Arrows,
    Freehand,
    Crop,
}

/// The standard base64 alphabet (RFC 4648): `A`–`Z`, `a`–`z`, `0`–`9`,
/// `+`, `/` for the values 0 to 63.
pub open spec fn base64_digit(v: int) -> char {
    if v < 26 {
        ((65 + v) as u32) as char
    } else if v < 52 {
        ((71 + v) as u32) as char
    } else if v < 62 {
        ((v - 4) as u32) as char
    } else if v == 62 {
        '+'
    } else {
        '/'
    }
}

/// Standard padded base64 (RFC 4648), what the `base64` crate's
/// `general_purpose::STANDARD` engine gives: each group of three bytes
/// becomes four digits of six bits each, most significant first; a final
/// group of one or two bytes is filled with zero bits and padded with `=`
/// to four characters.
#[verifier::opaque]
pub open spec fn base64_standard(bytes: Seq<u8>) -> Seq<char>
    decreases bytes.len(),
{
    if bytes.len() == 0 {
        Seq::empty()
    } else if bytes.len() == 1 {
        let b0 = bytes[0] as int;
        seq![base64_digit(b0 / 4), base64_digit((b0 % 4) * 16), '=', '=']
    } else if bytes.len() == 2 {
        let b0 = bytes[0] as int;
        let b1 = bytes[1] as int;
        seq![base64_digit(b0 / 4), base64_digit((b0 % 4) * 16 + b1 / 16), base64_digit((b1 % 16) * 4), '=']
    } else {
        let b0 = bytes[0] as int;
        let b1 = bytes[1] as int;
        let b2 = bytes[2] as int;
        seq![
            base64_digit(b0 / 4),
            base64_digit((b0 % 4) * 16 + b1 / 16),
            base64_digit((b1 % 16) * 4 + b2 / 64),
            base64_digit(b2 % 64),
        ] + base64_standard(bytes.skip(3))
    }
}

/// The padded base64 length of `n` bytes.
pub open spec fn base64_len(n: nat) -> nat {
    4 * ((n + 2) / 3)
}

/// `base64::engine::general_purpose::STANDARD.encode`: standard padded
/// base64 of `bytes` (see [`base64_standard`]). The crate panics when the
/// padded length overflows `usize`, which the precondition rules out.
#[verifier::external_body]
fn base64_encode(bytes: &[u8]) -> (r: String)
    requires
        base64_len(bytes@.len()) <= usize::MAX,
    ensures
        r@ == base64_standard(bytes@),
{
    base64::engine::general_purpose::STANDARD.encode(bytes)
}

/// The share arguments as one JSON object, keys in `serde_json`'s order:
/// `b64`, `mime`, `name`, each value a JSON string literal.
pub open spec fn share_payload_spec(name: Seq<char>, mime: Seq<char>, bytes: Seq<u8>) -> Seq<char> {
    "{\"b64\":"@ + json_string(base64_standard(bytes)) + ",\"mime\":"@ + json_string(mime)
        + ",\"name\":"@ + json_string(name) + "}"@
}

/// Serialize the webview share arguments as one JSON object.
pub fn share_entry_payload(name: &str, mime: &str, bytes: &[u8]) -> (r: String)
    requires
        base64_len(bytes@.len()) <= usize::MAX,
    ensures
        r@ == share_payload_spec(name@, mime@, bytes@),
{
    let b64 = base64_encode(bytes);
    let mut out = owned("{\"b64\":");
    push_str(&mut out, json_quote(b64.as_str()).as_str());
    push_str(&mut out, ",\"mime\":");
    push_str(&mut out, json_quote(mime).as_str());
    push_str(&mut out, ",\"name\":");
    push_str(&mut out, json_quote(name).as_str());
    push_str(&mut out, "}");
    out
}

/// The share script before the payload: an async function that shares
/// the file through `navigator.share` where the webview can, and falls
/// back to a download.
pub open spec fn share_head() -> Seq<char> {
    "\n(async (payload) => {\n  const { name, mime, b64 } = payload;\n  try {\n    const bytes = Uint8Array.from(atob(b64), c => c.charCodeAt(0));\n    const file = new File([bytes], name, { type: mime });\n    if (navigator.canShare && navigator.canShare({ files: [file] })) {\n      await navigator.share({ files: [file] });\n      dioxus.send('share:shared');\n    } else {\n      const url = URL.createObjectURL(new Blob([bytes], { type: mime }));\n      const a = document.createElement('a');\n      a.href = url;\n      a.download = name;\n      document.body.appendChild(a);\n      a.click();\n      a.remove();\n      setTimeout(() => URL.revokeObjectURL(url), 10000);\n      dioxus.send('share:downloaded');\n    }\n  } catch (e) {\n    dioxus.send('share:error:' + (e && e.message ? e.message : 'share failed'));\n  }\n})("@
}

/// The share script after the payload.
pub open spec fn share_tail() -> Seq<char> {
    ")\n"@
}

/// Build the webview share script for one entry: the payload of
/// [`share_entry_payload`] substituted once, as the function's argument.
pub fn share_entry_js(name: &str, mime: &str, bytes: &[u8]) -> (r: String)
    requires
        base64_len(bytes@.len()) <= usize::MAX,
    ensures
        r@ == share_head() + share_payload_spec(name@, mime@, bytes@) + share_tail(),
{
    let mut js = owned(
        "\n(async (payload) => {\n  const { name, mime, b64 } = payload;\n  try {\n    const bytes = Uint8Array.from(atob(b64), c => c.charCodeAt(0));\n    const file = new File([bytes], name, { type: mime });\n    if (navigator.canShare && navigator.canShare({ files: [file] })) {\n      await navigator.share({ files: [file] });\n      dioxus.send('share:shared');\n    } else {\n      const url = URL.createObjectURL(new Blob([bytes], { type: mime }));\n      const a = document.createElement('a');\n      a.href = url;\n      a.download = name;\n      document.body.appendChild(a);\n      a.click();\n      a.remove();\n      setTimeout(() => URL.revokeObjectURL(url), 10000);\n      dioxus.send('share:downloaded');\n    }\n  } catch (e) {\n    dioxus.send('share:error:' + (e && e.message ? e.message : 'share failed'));\n  }\n})(",
    );
    push_str(&mut js, share_entry_payload(name, mime, bytes).as_str());
    push_str(&mut js, ")\n");
    js
}


/// A control of the detail view.
#[derive(Debug, Clone, Copy, PartialEq, Eq, Structural)]
pub enum GalleryAction {
    Share,
    AddToMessage,
    /// The first delete tap: asks for confirmation.
    Delete,
    /// The second delete tap: deletes.
    ConfirmDelete,
    Arrows,
    Draw,
    Crop,
}

/// The controls the detail view offers, in order: share (and add to the
/// message, where the shell can) for images; delete, or its confirmation
/// once asked; and the annotation editors for an image while no editor is
/// open.
pub open spec fn detail_actions_spec(
    image: bool,
    can_add_to_message: bool,
    confirming_delete: bool,
    editor_open: bool,
) -> Seq<GalleryAction> {
    let share: Seq<GalleryAction> = if image {
        if can_add_to_message {
            seq![GalleryAction::Share, GalleryAction::AddToMessage]
        } else {
            seq![GalleryAction::Share]
        }
    } else {
        Seq::empty()
    };
    let delete: Seq<GalleryAction> = if confirming_delete {
        seq![GalleryAction::ConfirmDelete]
    } else {
        seq![GalleryAction::Delete]
    };
    let editors: Seq<GalleryAction> = if image && !editor_open {
        seq![GalleryAction::Arrows, GalleryAction::Draw, GalleryAction::Crop]
    } else {
        Seq::empty()
    };
    share + delete + editors
}

/// The detail view's controls for `entry`.
pub fn detail_actions(
    entry: &GalleryEntry,
    can_add_to_message: bool,
    confirming_delete: bool,
    editor: Option<AnnotationMode>,
) -> (r: Vec<GalleryAction>)
    ensures
        r@ == detail_actions_spec(
            entry.meta.kind@ == "image"@ || entry.meta.kind@ == "screenshot"@,
            can_add_to_message,
            confirming_delete,
            editor is Some,
        ),
{
    let image = entry.is_image();
    let mut out: Vec<GalleryAction> = Vec::new();
    if image {
        out.push(GalleryAction::Share);
        if can_add_to_message {
            out.push(GalleryAction::AddToMessage);
        }
    }
    if confirming_delete {
        out.push(GalleryAction::ConfirmDelete);
    } else {
        out.push(GalleryAction::Delete);
    }
    if image && editor.is_none() {
        out.push(GalleryAction::Arrows);
        out.push(GalleryAction::Draw);
        out.push(GalleryAction::Crop);
    }
    assert(out@ =~= detail_actions_spec(image, can_add_to_message, confirming_delete, editor is Some));
    out
}

} // verus!
