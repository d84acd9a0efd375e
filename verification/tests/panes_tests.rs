use unpeel_ui::durable::{reconcile, DurableLayout, V1Group, V1Layout, V1Pane};
use unpeel_ui::ids::{canonical_id, is_uuid};
use unpeel_ui::panes::{
    clamp_ratio, FocusDirection, Pane, PaneContent, PaneEdge, PaneGroup, PaneNode, Ratio,
    SplitDirection,
};

fn pane(id: &str, session: &str) -> PaneNode {
    PaneNode::Leaf(Pane {
        id: id.to_string(),
        content: PaneContent::Session {
            id: session.to_string(),
        },
    })
}

fn leaf_ids(node: &PaneNode) -> Vec<String> {
    node.leaves().iter().map(|p| p.id.clone()).collect()
}

fn same_value(r: Ratio, num: u64, den: u64) -> bool {
    (r.num as u128) * (den as u128) == (num as u128) * (r.den as u128)
}

#[test]
fn ratio_clamp() {
    // An undefined fraction becomes the even split.
    assert_eq!(clamp_ratio(0, 0), Ratio { num: 1, den: 2 });
    assert_eq!(clamp_ratio(1, 100), Ratio { num: 1, den: 10 });
    assert_eq!(clamp_ratio(99, 100), Ratio { num: 9, den: 10 });
    assert_eq!(clamp_ratio(4, 10), Ratio { num: 4, den: 10 });
}

#[test]
fn insert_left_and_right_edges() {
    let mut g = PaneGroup::new("g".into(), "p1".into(), pane("p1", "s1"));
    assert!(g.insert_session("s2", "p1", PaneEdge::Right, "p2".into()));
    assert_eq!(leaf_ids(&g.root), vec!["p1", "p2"]);
    let mut g2 = PaneGroup::new("g".into(), "p1".into(), pane("p1", "s1"));
    assert!(g2.insert_session("s2", "p1", PaneEdge::Left, "p2".into()));
    assert_eq!(leaf_ids(&g2.root), vec!["p2", "p1"]);
    // vertical: left child goes on top
    let mut g3 = PaneGroup::new("g".into(), "p1".into(), pane("p1", "s1"));
    assert!(g3.insert_session("s2", "p1", PaneEdge::Up, "p2".into()));
    assert_eq!(leaf_ids(&g3.root), vec!["p2", "p1"]);
    match &g3.root {
        PaneNode::Split(s) => assert_eq!(s.direction, SplitDirection::Vertical),
        _ => panic!("expected split"),
    }
}

#[test]
fn group_edge_insert_share() {
    let mut g = PaneGroup::new("g".into(), "p1".into(), pane("p1", "s1"));
    g.insert_session("s2", "p1", PaneEdge::Right, "p2".into());
    assert!(g.insert_session_at_group_edge("s3", PaneEdge::Down, "p3".into()));
    match &g.root {
        PaneNode::Split(s) => {
            // Down edge: the new leaf lands on the right/bottom, so the
            // existing two leaves keep 2/3.
            assert!(same_value(s.ratio, 2, 3));
            assert_eq!(s.direction, SplitDirection::Vertical);
        }
        _ => panic!("expected split"),
    }
    assert_eq!(leaf_ids(&g.root), vec!["p1", "p2", "p3"]);
    // Left edge: the new leaf lands on the left and takes 1/(n+1).
    let mut h = PaneGroup::new("h".into(), "p1".into(), pane("p1", "s1"));
    h.insert_session("s2", "p1", PaneEdge::Right, "p2".into());
    assert!(h.insert_session_at_group_edge("s3", PaneEdge::Left, "p3".into()));
    match &h.root {
        PaneNode::Split(s) => {
            assert!(same_value(s.ratio, 1, 3));
        }
        _ => panic!("expected split"),
    }
    assert_eq!(leaf_ids(&h.root), vec!["p3", "p1", "p2"]);
}

#[test]
fn detach_collapses_parent() {
    let mut g = PaneGroup::new("g".into(), "p1".into(), pane("p1", "s1"));
    g.insert_session("s2", "p1", PaneEdge::Right, "p2".into());
    g.insert_session("s3", "p2", PaneEdge::Right, "p3".into());
    assert!(g.detach_pane("p2"));
    assert_eq!(leaf_ids(&g.root), vec!["p1", "p3"]);
    // Representative promotion when the representative is detached.
    let mut g2 = PaneGroup::new("g".into(), "p9".into(), pane("p9", "s9"));
    g2.insert_session("s8", "p9", PaneEdge::Right, "p8".into());
    g2.detach_pane("p9");
    assert_eq!(g2.representative_pane_id, "p8");
}

#[test]
fn detach_dissolves_below_two_sessions() {
    let mut g = PaneGroup::new("g".into(), "p1".into(), pane("p1", "s1"));
    g.insert_session("s2", "p1", PaneEdge::Right, "p2".into());
    assert!(!g.detach_pane("p2")); // 1 session left → dissolves
    // 1 session + 1 live launcher survives.
    let mut g2 = PaneGroup::new("g".into(), "p1".into(), pane("p1", "s1"));
    g2.insert_launcher("proj", "p1", PaneEdge::Right, "l1".into());
    g2.bind_launcher("l1", "s2");
    // now 2 sessions; detach one → 1 session, no launcher → dissolves
    assert!(!g2.detach_pane("p1"));
}

#[test]
fn equalize_weights() {
    // root horizontal [p1 | vertical [p2 / p3]]: left weight 1, right
    // weight 1 (perpendicular) → 1/2; inner vertical 1/(1+1) = 1/2.
    let mut g = PaneGroup::new("g".into(), "p1".into(), pane("p1", "s1"));
    g.insert_session("s2", "p1", PaneEdge::Right, "p2".into());
    g.insert_session("s3", "p2", PaneEdge::Down, "p3".into());
    if let PaneNode::Split(root) = &mut g.root {
        root.ratio = Ratio { num: 8, den: 10 };
        if let PaneNode::Split(inner) = &mut *root.right {
            inner.ratio = Ratio { num: 2, den: 10 };
        }
    }
    g.equalize();
    match &g.root {
        PaneNode::Split(root) => {
            assert!(same_value(root.ratio, 1, 2));
            match &*root.right {
                PaneNode::Split(inner) => assert!(same_value(inner.ratio, 1, 2)),
                _ => panic!("expected inner split"),
            }
        }
        _ => panic!("expected split"),
    }
}

#[test]
fn swap_panes_keeps_representative() {
    let mut g = PaneGroup::new("g".into(), "p1".into(), pane("p1", "s1"));
    g.insert_session("s2", "p1", PaneEdge::Right, "p2".into());
    assert!(g.swap_panes("p1", "p2"));
    assert_eq!(leaf_ids(&g.root), vec!["p2", "p1"]);
    assert_eq!(g.representative_pane_id, "p1");
}

#[test]
fn launcher_snapshot_restore() {
    let mut g = PaneGroup::new("g".into(), "p1".into(), pane("p1", "s1"));
    g.insert_session("s2", "p1", PaneEdge::Right, "p2".into());
    let before = g.root.clone();
    assert!(g.insert_launcher("proj", "p2", PaneEdge::Right, "l1".into()));
    assert!(g.root.contains_launcher());
    assert!(g.remove_launcher("l1"));
    assert_eq!(g.root, before);
    assert!(!g.root.contains_launcher());
}

#[test]
fn launcher_bind_keeps_geometry() {
    let mut g = PaneGroup::new("g".into(), "p1".into(), pane("p1", "s1"));
    g.insert_launcher("proj", "p1", PaneEdge::Right, "l1".into());
    assert!(g.bind_launcher("l1", "s9"));
    let leaf = g.root.leaf("l1").unwrap();
    assert_eq!(leaf.content.session_id(), Some("s9"));
    assert_eq!(g.root.session_leaves().len(), 2);
}

#[test]
fn focus_neighbor_spatial() {
    let mut g = PaneGroup::new("g".into(), "p1".into(), pane("p1", "s1"));
    g.insert_session("s2", "p1", PaneEdge::Right, "p2".into());
    assert_eq!(
        g.focus_neighbor("p1", FocusDirection::Right).as_deref(),
        Some("p2")
    );
    assert_eq!(
        g.focus_neighbor("p2", FocusDirection::Left).as_deref(),
        Some("p1")
    );
    assert_eq!(g.focus_neighbor("p1", FocusDirection::Left), None);
}

#[test]
fn durable_round_trip_strips_launchers() {
    // Ids must be canonical lowercase UUIDs (non-UUID ids are replaced at
    // restore); use canonical ids so the round trip is exact.
    let p1 = "00000000-0000-4000-8000-000000000001";
    let p2 = "00000000-0000-4000-8000-000000000002";
    let mut g = PaneGroup::new(
        "11111111-0000-4000-8000-000000000001".into(),
        p1.into(),
        pane(p1, "s1"),
    );
    g.insert_session("s2", p1, PaneEdge::Right, p2.into());
    g.insert_launcher("proj", p2, PaneEdge::Right, "l1".into());
    // Launcher live + snapshot → the snapshot is what gets encoded.
    let encoded = DurableLayout::encode(std::slice::from_ref(&g));
    assert_eq!(encoded.groups.len(), 1);
    let root = &encoded.groups[0].root;
    assert!(!format!("{root:?}").contains("Launcher"));
    let decoded = encoded.decode();
    assert_eq!(decoded.len(), 1);
    assert_eq!(leaf_ids(&decoded[0].root), vec![p1, p2]);
}

#[test]
fn v1_migration_folds_right_leaning() {
    let v1 = V1Layout {
        groups: vec![V1Group {
            id: "11111111-0000-4000-8000-000000000001".into(),
            representative_pane_id: "00000000-0000-4000-8000-000000000001".into(),
            panes: vec![
                V1Pane {
                    id: "00000000-0000-4000-8000-000000000001".into(),
                    session_id: "s1".into(),
                    fraction: 600_000,
                },
                V1Pane {
                    id: "00000000-0000-4000-8000-000000000002".into(),
                    session_id: "s2".into(),
                    fraction: 400_000,
                },
            ],
        }],
    };
    let groups = v1.decode();
    assert_eq!(groups.len(), 1);
    match &groups[0].root {
        PaneNode::Split(s) => {
            assert_eq!(s.direction, SplitDirection::Horizontal);
            assert!(same_value(s.ratio, 6, 10));
            assert_eq!(
                leaf_ids(&groups[0].root),
                vec![
                    "00000000-0000-4000-8000-000000000001",
                    "00000000-0000-4000-8000-000000000002"
                ]
            );
        }
        _ => panic!("expected split"),
    }
}

#[test]
fn v1_single_pane_group_dropped() {
    let v1 = V1Layout {
        groups: vec![V1Group {
            id: "g".into(),
            representative_pane_id: "p1".into(),
            panes: vec![V1Pane {
                id: "p1".into(),
                session_id: "s1".into(),
                fraction: 1_000_000,
            }],
        }],
    };
    assert!(v1.decode().is_empty());
}

#[test]
fn reconcile_drops_dead_sessions() {
    let mut g = PaneGroup::new("g".into(), "p1".into(), pane("p1", "s1"));
    g.insert_session("s2", "p1", PaneEdge::Right, "p2".into());
    g.insert_session("s3", "p2", PaneEdge::Right, "p3".into());
    let mut groups = vec![g];
    let eligible: Vec<String> = vec!["s1".to_string(), "s3".to_string()];
    reconcile(&mut groups, &eligible);
    assert_eq!(groups.len(), 1);
    assert_eq!(leaf_ids(&groups[0].root), vec!["p1", "p3"]);
}

#[test]
fn canonical_id_replaces_non_uuid() {
    let a = canonical_id("not-a-uuid");
    let b = canonical_id("not-a-uuid");
    assert_eq!(a, b);
    assert!(is_uuid(&a));
    assert_eq!(
        canonical_id("AAAAAAAA-0000-4000-8000-000000000001"),
        "aaaaaaaa-0000-4000-8000-000000000001"
    );
}

#[test]
fn swap_twice_restores_tree() {
    let mut g = PaneGroup::new("g".into(), "p1".into(), pane("p1", "s1"));
    g.insert_session("s2", "p1", PaneEdge::Right, "p2".into());
    g.insert_session("s3", "p2", PaneEdge::Down, "p3".into());
    let before = g.root.clone();
    assert!(g.swap_panes("p1", "p3"));
    assert_eq!(leaf_ids(&g.root), vec!["p3", "p2", "p1"]);
    assert!(g.swap_panes("p1", "p3"));
    assert_eq!(g.root, before);
    assert!(!g.swap_panes("p1", "p1"));
    assert!(!g.swap_panes("p1", "nope"));
    assert_eq!(g.root, before);
}

#[test]
fn launcher_insert_then_remove_restores_tree() {
    let mut g = PaneGroup::new("g".into(), "p1".into(), pane("p1", "s1"));
    g.insert_session("s2", "p1", PaneEdge::Down, "p2".into());
    let before = g.root.clone();
    assert!(g.insert_launcher("proj", "p1", PaneEdge::Left, "l1".into()));
    assert_eq!(leaf_ids(&g.root), vec!["l1", "p1", "p2"]);
    assert!(g.remove_launcher("l1"));
    assert_eq!(g.root, before);
    assert!(g.launcher_snapshot().is_none());
    assert!(!g.root.contains_launcher());
}

#[test]
fn canonical_id_is_idempotent() {
    for x in [
        "not-a-uuid",
        "  AAAAAAAA-0000-4000-8000-00000000000F ",
        "aaaaaaaa-0000-4000-8000-000000000001",
        "",
        "Pane 7",
    ] {
        let c = canonical_id(x);
        assert!(is_uuid(&c));
        assert_eq!(c, c.to_lowercase());
        assert_eq!(canonical_id(&c), c);
    }
    assert_eq!(
        canonical_id("  AAAAAAAA-0000-4000-8000-00000000000F "),
        "aaaaaaaa-0000-4000-8000-00000000000f"
    );
}
