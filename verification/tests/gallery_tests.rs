use unpeel_ui::gallery::{
    artifact_is_image, detail_actions, share_entry_js, share_entry_payload, AnnotationMode,
    ArtifactMeta, GalleryAction, GalleryEntry,
};

fn entry(kind: &str, name: &str) -> GalleryEntry {
    GalleryEntry {
        meta: ArtifactMeta { kind: kind.into(), name: name.into(), size: 42, modified_at_unix_ms: 0 },
        preview_url: None,
    }
}

#[test]
fn image_kinds() {
    assert!(entry("image", "a.png").is_image());
    assert!(entry("screenshot", "s.png").is_image());
    assert!(!entry("file", "f.txt").is_image());
}

#[test]
fn share_payload_round_trips_hostile_name() {
    let hostile = "evil{PAYLOAD}{B64}{NAME}{MIME}\"; alert(1); \"";
    let payload = share_entry_payload(hostile, "image/png", b"bytes");
    let v: serde_json::Value = serde_json::from_str(&payload).expect("payload is valid JSON");
    assert_eq!(v["name"], hostile);
    assert_eq!(v["mime"], "image/png");
    assert_eq!(v["b64"], "Ynl0ZXM=");
}

#[test]
fn share_js_substitutes_payload_exactly_once() {
    let hostile = "x{PAYLOAD}y";
    let payload = share_entry_payload(hostile, "image/png", b"bytes");
    let js = share_entry_js(hostile, "image/png", b"bytes");
    assert!(js.contains(&payload), "the complete JSON payload is embedded verbatim");
    assert_eq!(
        js.matches("{PAYLOAD}").count(),
        payload.matches("{PAYLOAD}").count(),
        "template placeholder fully substituted"
    );
    assert!(!js.contains("})({PAYLOAD})"), "the template's substitution site must not survive");
}

#[test]
fn share_payload_exact_text() {
    assert_eq!(
        share_entry_payload("a.png", "image/png", b"hi"),
        "{\"b64\":\"aGk=\",\"mime\":\"image/png\",\"name\":\"a.png\"}"
    );
    assert_eq!(share_entry_payload("", "", b""), "{\"b64\":\"\",\"mime\":\"\",\"name\":\"\"}");
}

#[test]
fn share_js_ends_with_the_payload_call() {
    let payload = share_entry_payload("n", "m", b"abc");
    let js = share_entry_js("n", "m", b"abc");
    assert!(js.ends_with(&format!("}})({})\n", payload)));
    assert!(js.starts_with("\n(async (payload) => {"));
}

fn meta(kind: &str, name: &str) -> ArtifactMeta {
    ArtifactMeta { kind: kind.into(), name: name.into(), size: 1, modified_at_unix_ms: 0 }
}

#[test]
fn thumbnails_go_to_images_by_kind_or_extension() {
    assert!(artifact_is_image(&meta("image", "x.bin")));
    assert!(artifact_is_image(&meta("screenshot", "s")));
    assert!(artifact_is_image(&meta("file", "Photo.JPG")));
    assert!(artifact_is_image(&meta("file", "a.webp")));
    assert!(artifact_is_image(&meta("file", "a.jpeg")));
    assert!(!artifact_is_image(&meta("file", "notes.txt")));
    assert!(!artifact_is_image(&meta("file", "png")));
}

#[test]
fn thumb_keys_join_kind_and_name() {
    assert_eq!(unpeel_ui::gallery::thumb_key("image", "a.png"), "image/a.png");
}

#[test]
fn detail_actions_follow_kind_editor_and_delete_state() {
    let img = entry("image", "a.png");
    assert_eq!(
        detail_actions(&img, true, false, None),
        vec![
            GalleryAction::Share,
            GalleryAction::AddToMessage,
            GalleryAction::Delete,
            GalleryAction::Arrows,
            GalleryAction::Draw,
            GalleryAction::Crop
        ]
    );
    assert_eq!(
        detail_actions(&img, false, true, Some(AnnotationMode::Crop)),
        vec![GalleryAction::Share, GalleryAction::ConfirmDelete]
    );
    assert_eq!(detail_actions(&entry("file", "f.txt"), true, false, None), vec![GalleryAction::Delete]);
}

#[test]
fn share_payload_escapes_and_encodes_exactly() {
    assert_eq!(
        share_entry_payload("a\"\\\n\u{1}\u{1f}/é", "", b"Man"),
        "{\"b64\":\"TWFu\",\"mime\":\"\",\"name\":\"a\\\"\\\\\\n\\u0001\\u001f/é\"}"
    );
    assert_eq!(
        share_entry_payload("\t\r\u{8}\u{c}", "", &[0xff, 0xfe]),
        "{\"b64\":\"//4=\",\"mime\":\"\",\"name\":\"\\t\\r\\b\\f\"}"
    );
}
