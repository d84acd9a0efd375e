use unpeel_ui::drop_targets::{
    event_size_ok, lexically_normalize, DropTargetMap, DropTargetRegion, PathDragMap, PathDragRow,
};

fn drop_map(now: u64) -> DropTargetMap {
    DropTargetMap {
        version: 1,
        process_id: 1234,
        updated_at: now,
        regions: vec![DropTargetRegion {
            screen_row: 2,
            start_column: 4,
            end_row: 6,
            end_column: 20,
        }],
    }
}

#[test]
fn drop_region_contains_edges() {
    let r = DropTargetRegion {
        screen_row: 2,
        start_column: 4,
        end_row: 6,
        end_column: 20,
    };
    assert!(r.contains(2, 4));
    assert!(r.contains(5, 19));
    assert!(!r.contains(6, 4)); // end_row exclusive
    assert!(!r.contains(2, 20)); // end_column exclusive
    assert!(!r.contains(1, 4));
}

#[test]
fn drop_accepts_fresh_map_only() {
    let now = 1_000_000u64;
    let map = drop_map(now);
    assert!(map.accepts(3, 10, now + 1_000));
    assert!(!map.accepts(0, 0, now + 1_000)); // outside regions
    assert!(!map.accepts(3, 10, now + 5_001)); // stale
    assert!(map.accepts(3, 10, now - 1)); // updated_at in the future is fine within skew
    let future = DropTargetMap {
        updated_at: now + 6_000,
        ..drop_map(now)
    };
    assert!(!future.accepts(3, 10, now)); // beyond future skew
    let bad_version = DropTargetMap {
        version: 2,
        ..drop_map(now)
    };
    assert!(!bad_version.accepts(3, 10, now));
    let dead_pid = DropTargetMap {
        process_id: 0,
        ..drop_map(now)
    };
    assert!(!dead_pid.accepts(3, 10, now));
}

#[test]
fn drop_accepts_wrapping_bounds() {
    // now + skew wraps past u64::MAX: the wrapped bound is small, so an
    // update time above it is refused.
    let map = drop_map(10_000);
    assert!(!map.accepts(3, 10, u64::MAX - 10));
    // updated_at + age wraps: the wrapped bound is small, so a later now
    // is refused.
    let late = drop_map(u64::MAX - 10);
    assert!(!late.accepts(3, 10, u64::MAX));
}

#[test]
fn size_caps() {
    assert!(DropTargetMap::admits_size(65_536));
    assert!(!DropTargetMap::admits_size(65_537));
    assert!(PathDragMap::admits_size(65_536));
    assert!(!PathDragMap::admits_size(65_537));
    assert!(event_size_ok(1_048_576));
    assert!(!event_size_ok(1_048_577));
}

#[test]
fn path_map_resolves_absolute_paths() {
    let now = 2_000_000u64;
    let map = PathDragMap {
        version: 1,
        process_id: 99,
        updated_at: now,
        rows: vec![
            PathDragRow {
                screen_row: 7,
                start_column: 0,
                end_column: 40,
                path: "/tmp/./a/../b.txt".into(),
            },
            PathDragRow {
                screen_row: 8,
                start_column: 0,
                end_column: 40,
                path: "relative/c.txt".into(),
            },
        ],
    };
    assert_eq!(map.path_at(7, 5, now + 100).as_deref(), Some("/tmp/b.txt"));
    assert_eq!(map.path_at(8, 5, now + 100), None); // not absolute
    assert_eq!(map.path_at(9, 5, now + 100), None); // no row
    assert_eq!(map.path_at(7, 40, now + 100), None); // end_column exclusive
    assert_eq!(map.path_at(7, 5, now + 9_999), None); // stale
}

#[test]
fn normalization_edges() {
    assert_eq!(lexically_normalize("/"), "/");
    assert_eq!(lexically_normalize("/.."), "/");
    assert_eq!(lexically_normalize("//a///b/"), "/a/b");
    assert_eq!(lexically_normalize("/a/b/../../.."), "/");
    assert_eq!(lexically_normalize("/a/./.b/..c"), "/a/.b/..c");
}

#[test]
fn normalize_keeps_relative_paths_relative() {
    assert_eq!(lexically_normalize("a/b"), "a/b");
    assert_eq!(lexically_normalize("./a/../b/"), "b");
    assert_eq!(lexically_normalize("../x"), "x");
    assert_eq!(lexically_normalize("a/.."), "");
    assert_eq!(lexically_normalize(""), "");
}
