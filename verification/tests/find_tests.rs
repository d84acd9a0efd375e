use unpeel_ui::find::{
    find_bar_key, find_counter_text, find_matches, split_run_for_find, FindBarCommand, FindBarKey,
    FindMatch, FindState,
};

fn snap(rows: &[&str]) -> Vec<String> {
    rows.iter().map(|t| t.to_string()).collect()
}

#[test]
fn empty_query_matches_nothing() {
    let s = snap(&["hello world"]);
    assert!(find_matches(&s, "").is_empty());
}

#[test]
fn case_insensitive_row_major() {
    let s = snap(&["Hello World", "say HELLO again", "nothing here"]);
    let m = find_matches(&s, "hello");
    assert_eq!(m.len(), 2);
    assert_eq!(m[0], FindMatch { row: 0, col: 0, len: 5 });
    assert_eq!(m[1], FindMatch { row: 1, col: 4, len: 5 });
}

#[test]
fn matches_do_not_overlap() {
    let s = snap(&["aaa"]);
    let m = find_matches(&s, "aa");
    assert_eq!(m.len(), 1);
    assert_eq!(m[0].col, 0);
}

#[test]
fn unicode_char_offsets() {
    let s = snap(&["héllo wörld"]);
    let m = find_matches(&s, "wörld");
    assert_eq!(m.len(), 1);
    // char offset, not byte offset: "héllo " is 6 chars.
    assert_eq!(m[0].col, 6);
    assert_eq!(m[0].len, 5);
}

#[test]
fn counter_text_branches() {
    assert_eq!(find_counter_text("", 5, Some(0)), "");
    assert_eq!(find_counter_text("x", 0, None), "No results");
    assert_eq!(find_counter_text("x", 17, None), "17");
    assert_eq!(find_counter_text("x", 17, Some(2)), "3 of 17");
}

#[test]
fn state_next_prev_wrap() {
    let s = snap(&["a a a"]);
    let mut st = FindState::new();
    st.set_query(&s, "a".to_string());
    assert_eq!(st.matches().len(), 3);
    assert_eq!(st.selected(), Some(0));
    st.next();
    assert_eq!(st.selected(), Some(1));
    st.next();
    st.next();
    assert_eq!(st.selected(), Some(0)); // wraps
    st.prev();
    assert_eq!(st.selected(), Some(2)); // wraps backward
}

#[test]
fn state_no_matches_next_is_noop() {
    let s = snap(&["abc"]);
    let mut st = FindState::new();
    st.set_query(&s, "zzz".to_string());
    assert_eq!(st.counter_text(), "No results");
    st.next();
    st.prev();
    assert_eq!(st.selected(), None);
}

#[test]
fn state_refresh_keeps_anchor() {
    let s1 = snap(&["foo bar", "foo baz"]);
    let mut st = FindState::new();
    st.set_query(&s1, "foo".to_string());
    st.next(); // select (1, 0)
    assert_eq!(st.selected_match(), Some(FindMatch { row: 1, col: 0, len: 3 }));
    // Same content, new snapshot object: anchor survives.
    let s2 = snap(&["foo bar", "foo baz"]);
    st.refresh(&s2);
    assert_eq!(st.selected(), Some(1));
    // Anchor row gone: falls back to first match.
    let s3 = snap(&["foo bar"]);
    st.refresh(&s3);
    assert_eq!(st.selected(), Some(0));
}

#[test]
fn state_highlight_and_clear() {
    let mut st = FindState::new();
    assert!(st.highlight().is_none());
    st.set_query(&snap(&["xx"]), "x".to_string());
    let h = st.highlight().unwrap();
    assert_eq!(h.matches.len(), 2);
    assert_eq!(h.selected, Some(0));
    assert_eq!(st.counter_text(), "1 of 2");
    assert_eq!(st.query(), "x");
    st.clear();
    assert!(st.matches().is_empty());
    assert_eq!(st.selected(), None);
}

#[test]
fn split_run_segments() {
    // "hello world", match "world" at (6, 11), current.
    let segs = split_run_for_find("hello world", 0, &[(6, 11, true)]);
    assert_eq!(
        segs,
        vec![("hello ".to_string(), None), ("world".to_string(), Some(true)),]
    );
}

#[test]
fn split_run_partial_overlap_and_current_flag() {
    // Run starts mid-row; two matches, only the second is current.
    let segs = split_run_for_find("abXXcdYYef", 10, &[(12, 14, false), (16, 18, true)]);
    assert_eq!(
        segs,
        vec![
            ("ab".to_string(), None),
            ("XX".to_string(), Some(false)),
            ("cd".to_string(), None),
            ("YY".to_string(), Some(true)),
            ("ef".to_string(), None),
        ]
    );
}

#[test]
fn split_run_no_ranges_passthrough() {
    let segs = split_run_for_find("plain", 0, &[]);
    assert_eq!(segs, vec![("plain".to_string(), None)]);
}

#[test]
fn split_run_clips_ranges_to_the_run() {
    // A range straddling the run's start and one outside it.
    let segs = split_run_for_find("abcd", 5, &[(3, 7, false), (20, 30, true)]);
    assert_eq!(segs, vec![("ab".to_string(), Some(false)), ("cd".to_string(), None)]);
}

#[test]
fn find_bar_keys() {
    assert_eq!(find_bar_key(FindBarKey::Enter, false), Some(FindBarCommand::Next));
    assert_eq!(find_bar_key(FindBarKey::Enter, true), Some(FindBarCommand::Prev));
    assert_eq!(find_bar_key(FindBarKey::Escape, true), Some(FindBarCommand::Close));
    assert_eq!(find_bar_key(FindBarKey::Other, false), None);
}
