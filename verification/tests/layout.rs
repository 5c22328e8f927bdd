use herdr_ferry::layout::{
    rect_debug, second_child_rect, LayoutError, LayoutNode, LayoutSnapshot, Rect, SnapshotPane, SnapshotSplit,
    SplitDirection,
};

fn pane(id: &str, x: u16, width: u16) -> SnapshotPane {
    SnapshotPane {
        pane_id: id.into(),
        rect: Rect {
            x,
            y: 0,
            width,
            height: 20,
        },
        focused: id == "p1",
    }
}

#[test]
fn rebuilds_nested_layout_from_reported_rectangles() {
    let snapshot = LayoutSnapshot {
        workspace_id: "w1".into(),
        tab_id: "w1:t1".into(),
        zoomed: false,
        area: Rect {
            x: 0,
            y: 0,
            width: 100,
            height: 20,
        },
        focused_pane_id: "p1".into(),
        panes: vec![pane("p1", 0, 25), pane("p2", 25, 25), pane("p3", 50, 50)],
        splits: vec![
            SnapshotSplit {
                direction: SplitDirection::Right,
                ratio_bits: 0.5f32.to_bits(),
                rect: Rect {
                    x: 0,
                    y: 0,
                    width: 100,
                    height: 20,
                },
            },
            SnapshotSplit {
                direction: SplitDirection::Right,
                ratio_bits: 0.5f32.to_bits(),
                rect: Rect {
                    x: 0,
                    y: 0,
                    width: 50,
                    height: 20,
                },
            },
        ],
    };

    let root = LayoutNode::from_snapshot(&snapshot).unwrap();

    assert_eq!(root.anchor(), "p1");
    assert_eq!(root.leaves(), vec!["p1", "p2", "p3"]);
    let LayoutNode::Split { first, second, .. } = root else {
        panic!("expected root split");
    };
    assert_eq!(first.leaves(), vec!["p1", "p2"]);
    assert_eq!(second.leaves(), vec!["p3"]);
}

#[test]
fn rejects_incomplete_layout_snapshots() {
    let snapshot = LayoutSnapshot {
        workspace_id: "w1".into(),
        tab_id: "w1:t1".into(),
        zoomed: false,
        area: Rect {
            x: 0,
            y: 0,
            width: 20,
            height: 20,
        },
        focused_pane_id: "p1".into(),
        panes: Vec::new(),
        splits: Vec::new(),
    };

    assert!(LayoutNode::from_snapshot(&snapshot).is_err());
}

#[test]
fn unmapped_area_is_reported_with_its_rectangle() {
    let snapshot = LayoutSnapshot {
        workspace_id: "w1".into(),
        tab_id: "w1:t1".into(),
        zoomed: false,
        area: Rect {
            x: 0,
            y: 0,
            width: 20,
            height: 20,
        },
        focused_pane_id: "p1".into(),
        panes: Vec::new(),
        splits: Vec::new(),
    };
    let error = LayoutNode::from_snapshot(&snapshot).err().unwrap();
    assert_eq!(
        error,
        LayoutError::Unmapped {
            area: Rect {
                x: 0,
                y: 0,
                width: 20,
                height: 20
            }
        }
    );
    assert_eq!(
        error.message(),
        "layout area does not map to a pane or split: Rect { x: 0, y: 0, width: 20, height: 20 }"
    );
}

#[test]
fn split_without_second_child_is_reported() {
    let area = Rect {
        x: 0,
        y: 0,
        width: 100,
        height: 20,
    };
    let snapshot = LayoutSnapshot {
        workspace_id: "w1".into(),
        tab_id: "w1:t1".into(),
        zoomed: false,
        area,
        focused_pane_id: "p1".into(),
        panes: vec![pane("p1", 0, 100)],
        splits: vec![SnapshotSplit {
            direction: SplitDirection::Down,
            ratio_bits: 0.5f32.to_bits(),
            rect: area,
        }],
    };
    let error = LayoutNode::from_snapshot(&snapshot).err().unwrap();
    assert_eq!(
        error.message(),
        "could not find the second child of the down split at Rect { x: 0, y: 0, width: 100, height: 20 }"
    );
}

#[test]
fn second_child_is_the_largest_candidate() {
    let area = Rect {
        x: 0,
        y: 0,
        width: 100,
        height: 20,
    };
    let small = Rect {
        x: 80,
        y: 0,
        width: 20,
        height: 20,
    };
    let large = Rect {
        x: 50,
        y: 0,
        width: 50,
        height: 20,
    };
    let unrelated = Rect {
        x: 0,
        y: 0,
        width: 50,
        height: 20,
    };
    let rects = vec![unrelated, small, large];
    assert_eq!(second_child_rect(&rects, area, SplitDirection::Right), Ok(large));
    assert!(second_child_rect(&rects, area, SplitDirection::Down).is_err());
}

#[test]
fn split_directions_have_their_names() {
    assert_eq!(SplitDirection::Right.as_str(), "right");
    assert_eq!(SplitDirection::Down.as_str(), "down");
    assert_eq!(
        rect_debug(Rect {
            x: 1,
            y: 2,
            width: 3,
            height: 4
        }),
        "Rect { x: 1, y: 2, width: 3, height: 4 }"
    );
}
