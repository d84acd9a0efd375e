use unpeel_ui::panes::{
    layout_bind_launcher, layout_close_group, layout_detach_pane, layout_equalize,
    layout_focus_neighbor, layout_insert_launcher, layout_insert_session, layout_remove_launcher,
    layout_resize_split, layout_swap_panes, live_leaves, FocusDirection, InsertTarget, LiveLeaf,
    Pane, PaneContent, PaneEdge, PaneGroup, PaneNode, PaneOpError, PaneSplitBranch, PaneSplitPath,
    Ratio,
};

fn pane(id: &str, session: &str) -> PaneNode {
    PaneNode::Leaf(Pane { id: id.to_string(), content: PaneContent::Session { id: session.to_string() } })
}

fn two_pane_layout() -> Vec<PaneGroup> {
    let mut groups = Vec::new();
    layout_insert_session(
        &mut groups,
        "s2",
        InsertTarget::BesideSolo {
            session_id: "s1".to_string(),
            new_group_id: "g".to_string(),
            new_representative_pane_id: "p1".to_string(),
        },
        PaneEdge::Right,
        "p2".to_string(),
    )
    .unwrap();
    groups
}

fn ids(g: &PaneGroup) -> Vec<String> {
    g.root.leaves().iter().map(|p| p.id.clone()).collect()
}

#[test]
fn insert_beside_solo_creates_a_group() {
    let groups = two_pane_layout();
    assert_eq!(groups.len(), 1);
    assert_eq!(groups[0].id, "g");
    assert_eq!(groups[0].representative_pane_id, "p1");
    assert_eq!(ids(&groups[0]), vec!["p1", "p2"]);
}

#[test]
fn insert_rejects_duplicates_and_unknown_targets() {
    let mut groups = two_pane_layout();
    let dup = layout_insert_session(
        &mut groups,
        "s1",
        InsertTarget::Pane { pane_id: "p2".to_string() },
        PaneEdge::Down,
        "p9".to_string(),
    );
    assert_eq!(dup, Err(PaneOpError::DuplicateSession));
    let missing = layout_insert_session(
        &mut groups,
        "s3",
        InsertTarget::Pane { pane_id: "zz".to_string() },
        PaneEdge::Down,
        "p3".to_string(),
    );
    assert_eq!(missing, Err(PaneOpError::PaneNotFound));
    let no_group = layout_insert_session(
        &mut groups,
        "s3",
        InsertTarget::GroupEdge { group_id: "nope".to_string() },
        PaneEdge::Down,
        "p3".to_string(),
    );
    assert_eq!(no_group, Err(PaneOpError::GroupNotFound));
    assert_eq!(
        layout_insert_session(
            &mut groups,
            "s3",
            InsertTarget::GroupEdge { group_id: "g".to_string() },
            PaneEdge::Down,
            "p3".to_string()
        ),
        Ok(())
    );
    assert_eq!(ids(&groups[0]), vec!["p1", "p2", "p3"]);
}

#[test]
fn insert_stops_at_the_session_cap() {
    let mut groups = two_pane_layout();
    for i in 3..=8 {
        let r = layout_insert_session(
            &mut groups,
            &format!("s{i}"),
            InsertTarget::GroupEdge { group_id: "g".to_string() },
            PaneEdge::Right,
            format!("p{i}"),
        );
        assert_eq!(r, Ok(()));
    }
    let full = layout_insert_session(
        &mut groups,
        "s9",
        InsertTarget::Pane { pane_id: "p1".to_string() },
        PaneEdge::Right,
        "p9".to_string(),
    );
    assert_eq!(full, Err(PaneOpError::CapacityReached));
}

#[test]
fn detaching_below_two_sessions_dissolves_the_group() {
    let mut groups = two_pane_layout();
    assert_eq!(layout_detach_pane(&mut groups, "zz"), Err(PaneOpError::PaneNotFound));
    assert_eq!(layout_detach_pane(&mut groups, "p2"), Ok(()));
    assert!(groups.is_empty());
}

#[test]
fn close_resize_equalize() {
    let mut groups = two_pane_layout();
    let root_path = PaneSplitPath { components: vec![] };
    assert_eq!(layout_resize_split(&mut groups, "g", &root_path, 3, 10), Ok(()));
    match &groups[0].root {
        PaneNode::Split(s) => assert_eq!(s.ratio, Ratio { num: 3, den: 10 }),
        _ => panic!("expected split"),
    }
    let deeper = PaneSplitPath { components: vec![PaneSplitBranch::Left] };
    assert_eq!(layout_resize_split(&mut groups, "g", &deeper, 1, 2), Err(PaneOpError::SplitNotFound));
    assert_eq!(layout_resize_split(&mut groups, "x", &root_path, 1, 2), Err(PaneOpError::GroupNotFound));
    assert_eq!(layout_equalize(&mut groups, "g"), Ok(()));
    match &groups[0].root {
        PaneNode::Split(s) => assert_eq!(s.ratio.num * 2, s.ratio.den),
        _ => panic!("expected split"),
    }
    assert_eq!(layout_equalize(&mut groups, "x"), Err(PaneOpError::GroupNotFound));
    assert_eq!(layout_close_group(&mut groups, "x"), Err(PaneOpError::GroupNotFound));
    assert_eq!(layout_close_group(&mut groups, "g"), Ok(()));
    assert!(groups.is_empty());
}

#[test]
fn swapping_needs_one_group() {
    let mut groups = two_pane_layout();
    groups.push(PaneGroup::new("h".into(), "q1".into(), pane("q1", "t1")));
    assert_eq!(layout_swap_panes(&mut groups, "p1", "p2"), Ok(()));
    assert_eq!(ids(&groups[0]), vec!["p2", "p1"]);
    assert_eq!(layout_swap_panes(&mut groups, "p1", "q1"), Err(PaneOpError::PanesBelongToDifferentGroups));
    assert_eq!(layout_swap_panes(&mut groups, "p1", "zz"), Err(PaneOpError::PaneNotFound));
}

#[test]
fn launcher_insert_bind_remove() {
    let mut groups = two_pane_layout();
    assert_eq!(
        layout_insert_launcher(&mut groups, "proj", "p2", PaneEdge::Right, "l1".to_string()),
        Ok(())
    );
    assert_eq!(
        live_leaves(&groups[0]),
        vec![
            LiveLeaf::Session { pane_id: "p1".into(), session_id: "s1".into() },
            LiveLeaf::Session { pane_id: "p2".into(), session_id: "s2".into() },
            LiveLeaf::Launcher { pane_id: "l1".into(), project_id: "proj".into() },
        ]
    );
    assert_eq!(layout_bind_launcher(&mut groups, "l1", "s3"), Ok(()));
    assert_eq!(
        live_leaves(&groups[0])[2],
        LiveLeaf::Session { pane_id: "l1".into(), session_id: "s3".into() }
    );
    assert_eq!(layout_bind_launcher(&mut groups, "zz", "s4"), Err(PaneOpError::PaneNotFound));
    assert_eq!(
        layout_insert_launcher(&mut groups, "proj", "p1", PaneEdge::Left, "l2".to_string()),
        Ok(())
    );
    assert_eq!(layout_remove_launcher(&mut groups, "l2"), Ok(()));
    assert_eq!(ids(&groups[0]), vec!["p1", "p2", "l1"]);
    assert_eq!(layout_remove_launcher(&mut groups, "zz"), Err(PaneOpError::PaneNotFound));
}

#[test]
fn focus_moves_between_neighbours() {
    let groups = two_pane_layout();
    assert_eq!(layout_focus_neighbor(&groups, "p1", FocusDirection::Right), Ok(Some("p2".to_string())));
    assert_eq!(layout_focus_neighbor(&groups, "p1", FocusDirection::Left), Ok(None));
    assert_eq!(layout_focus_neighbor(&groups, "zz", FocusDirection::Left), Err(PaneOpError::PaneNotFound));
}
