use unpeel_ui::pty_resize::{GridSize, PtyResize};

fn grid(cols: u16, rows: u16) -> GridSize {
    GridSize { cols, rows }
}

fn start() -> PtyResize {
    PtyResize { size: grid(80, 24), generation: 4, remodel: false }
}

#[test]
fn no_claim_without_a_needed_resize_or_open_terminal() {
    let mut s = start();
    assert_eq!(s.claim(grid(100, 30), false, true), None);
    assert_eq!(s.claim(grid(100, 30), true, false), None);
    assert_eq!(s, start());
}

#[test]
fn a_claim_takes_the_size_under_a_new_generation() {
    let mut s = start();
    let c = s.claim(grid(100, 30), true, true).unwrap();
    assert_eq!(c.generation, 5);
    assert_eq!(c.previous, grid(80, 24));
    assert_eq!(c.next, grid(100, 30));
    assert_eq!(s.size, grid(100, 30));
    assert!(s.owns(&c));
    s.finish(&c, true);
    assert!(s.remodel);
}

#[test]
fn a_failed_resize_reverts_and_a_stale_one_is_ignored() {
    let mut s = start();
    let first = s.claim(grid(100, 30), true, true).unwrap();
    let second = s.claim(grid(120, 40), true, true).unwrap();
    assert!(!s.owns(&first));
    s.finish(&first, false);
    assert_eq!(s.size, grid(120, 40));
    s.finish(&second, false);
    assert_eq!(s.size, grid(100, 30));
    assert!(!s.remodel);
}
