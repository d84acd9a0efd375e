use unpeel_ui::i18n::{catalog_keys, english_catalog, t, t_with_locale, Locale};

#[test]
fn english_catalog_has_no_empty_messages() {
    let catalog = english_catalog();
    for key in catalog_keys() {
        let msg = catalog.iter().find(|(k, _)| *k == key).map(|(_, m)| *m).unwrap();
        assert!(!msg.is_empty(), "empty message for key {}", key);
    }
}

#[test]
fn pseudo_locale_wraps_and_expands() {
    let out = t_with_locale("approve", Locale::Pseudo);
    assert!(out.starts_with("⟦"), "missing open marker: {}", out);
    assert!(out.ends_with("⟧"), "missing close marker: {}", out);
    assert!(out.contains("Approve"), "message lost: {}", out);
    // Pseudo is longer than the source (catches layout overflow).
    assert!(out.chars().count() > "Approve".chars().count());
}

#[test]
fn missing_key_falls_back_to_key() {
    assert_eq!(t_with_locale("no.such.key", Locale::English), "no.such.key");
}

#[test]
fn pseudo_padding_is_forty_percent_rounded_up() {
    // "Approve" has 7 characters: ceil(7 * 0.4) = 3 dots.
    assert_eq!(t_with_locale("approve", Locale::Pseudo), "⟦Approve···⟧");
    // "Cancel" has 6 characters: ceil(2.4) = 3 dots.
    assert_eq!(t_with_locale("cancel", Locale::Pseudo), "⟦Cancel···⟧");
    // An empty key falls back to itself and gets no padding.
    assert_eq!(t_with_locale("", Locale::Pseudo), "⟦⟧");
}

#[test]
fn shipped_locale_is_english() {
    assert_eq!(t("approve"), "Approve");
    assert_eq!(t("activity.using_a_web_browser"), "Using a web browser");
    assert_eq!(Locale::default(), Locale::English);
}

#[test]
fn catalog_keys_are_sorted_and_complete() {
    let keys = catalog_keys();
    assert_eq!(keys.len(), english_catalog().len());
    for w in keys.windows(2) {
        assert!(w[0] < w[1], "{} before {}", w[0], w[1]);
    }
}

#[test]
fn catalog_keys_are_distinct_and_ascending() {
    let c = english_catalog();
    for w in c.windows(2) {
        assert!(w[0].0 < w[1].0, "{} before {}", w[0].0, w[1].0);
    }
    let keys = catalog_keys();
    let mut dedup = keys.clone();
    dedup.dedup();
    assert_eq!(dedup.len(), keys.len());
}
