use merces_tui::constraint::Constraint;
use merces_tui::geometry::{Direction, Rect};
use merces_tui::layout::{handle_node, LayoutBuilder, Node, NodeKind};
use merces_tui::layout_result::{same_text, LayoutResult};

fn three_fills() -> LayoutBuilder {
    LayoutBuilder::new().child(
        Node::horizontal()
            .spacing(1)
            .child(Node::leaf("a"))
            .child(Node::leaf("b"))
            .child(Node::leaf("c")),
    )
}

#[test]
fn three_leaves_across_thirty_one_columns() {
    let layout = three_fills().build(Rect::new(0, 0, 31, 4));
    assert_eq!(layout.len(), 3);
    assert_eq!(layout.get("a"), Some(Rect::new(0, 0, 10, 4)));
    assert_eq!(layout.get("b"), Some(Rect::new(11, 0, 10, 4)));
    assert_eq!(layout.get("c"), Some(Rect::new(22, 0, 9, 4)));
}

#[test]
fn laying_out_again_gives_the_same_mapping() {
    let area = Rect::new(2, 3, 47, 19);
    let first = three_fills().build(area);
    let second = three_fills().build(area);
    assert_eq!(first.len(), second.len());
    for name in ["a", "b", "c"] {
        assert!(first.get(name).is_some());
        assert_eq!(first.get(name), second.get(name));
    }
}

#[test]
fn a_repeated_name_keeps_the_last_rectangle() {
    let layout = LayoutBuilder::new()
        .child(Node::leaf("x").constraint(Constraint::Fixed(3)))
        .child(Node::leaf("x").constraint(Constraint::Fixed(5)))
        .build(Rect::new(0, 0, 20, 10));
    assert_eq!(layout.len(), 1);
    assert_eq!(layout.get("x"), Some(Rect::new(0, 3, 20, 5)));
}

#[test]
fn a_repeated_name_across_subtrees() {
    let layout = LayoutBuilder::new()
        .child(Node::horizontal().child(Node::leaf("x")).child(Node::leaf("y")))
        .child(Node::horizontal().child(Node::leaf("z")).child(Node::leaf("x")))
        .build(Rect::new(0, 0, 10, 10));
    assert_eq!(layout.len(), 3);
    assert_eq!(layout.get("y"), Some(Rect::new(5, 0, 5, 5)));
    assert_eq!(layout.get("z"), Some(Rect::new(0, 5, 5, 5)));
    assert_eq!(layout.get("x"), Some(Rect::new(5, 5, 5, 5)));
}

#[test]
fn a_missing_name_has_no_rectangle() {
    let layout = three_fills().build(Rect::new(0, 0, 31, 4));
    assert_eq!(layout.get("d"), None);
    assert!(!layout.contains("d"));
    assert!(layout.contains("a"));
}

#[test]
fn an_empty_container_gives_no_entries() {
    let layout = LayoutBuilder::new().build(Rect::new(0, 0, 80, 24));
    assert!(layout.is_empty());
    assert_eq!(layout.len(), 0);
    let layout = LayoutBuilder::new()
        .child(Node::horizontal())
        .child(Node::vertical())
        .build(Rect::new(0, 0, 80, 24));
    assert!(layout.is_empty());
}

#[test]
fn the_root_lays_out_from_top_to_bottom() {
    let layout = LayoutBuilder::new()
        .child(Node::leaf("top").constraint(Constraint::Fixed(15)))
        .child(Node::leaf("title").constraint(Constraint::Fixed(4)))
        .child(Node::leaf("rest"))
        .build(Rect::new(1, 2, 100, 40));
    assert_eq!(layout.get("top"), Some(Rect::new(1, 2, 100, 15)));
    assert_eq!(layout.get("title"), Some(Rect::new(1, 17, 100, 4)));
    assert_eq!(layout.get("rest"), Some(Rect::new(1, 21, 100, 21)));
}

#[test]
fn nested_containers_keep_the_cross_extent() {
    let layout = LayoutBuilder::new()
        .child(
            Node::horizontal()
                .spacing(1)
                .child(Node::leaf("gauge").constraint(Constraint::Percentage(25)))
                .child(Node::leaf("graph").constraint(Constraint::Percentage(50)))
                .child(
                    Node::vertical()
                        .child(Node::leaf("v0"))
                        .child(Node::leaf("v1"))
                        .child(Node::leaf("v2"))
                        .constraint(Constraint::Percentage(25)),
                )
                .constraint(Constraint::Fixed(30)),
        )
        .child(Node::leaf("below").constraint(Constraint::Fixed(3)))
        .build(Rect::new(0, 0, 122, 90));
    // usable width 120: 30, 60, 30
    assert_eq!(layout.get("gauge"), Some(Rect::new(0, 0, 30, 30)));
    assert_eq!(layout.get("graph"), Some(Rect::new(31, 0, 60, 30)));
    assert_eq!(layout.get("v0"), Some(Rect::new(92, 0, 30, 10)));
    assert_eq!(layout.get("v1"), Some(Rect::new(92, 10, 30, 10)));
    assert_eq!(layout.get("v2"), Some(Rect::new(92, 20, 30, 10)));
    assert_eq!(layout.get("below"), Some(Rect::new(0, 30, 122, 3)));
    assert_eq!(layout.len(), 6);
}

#[test]
fn fixed_children_may_leave_the_area() {
    let layout = LayoutBuilder::new()
        .child(Node::leaf("a").constraint(Constraint::Fixed(8)))
        .child(Node::leaf("b").constraint(Constraint::Fixed(8)))
        .build(Rect::new(0, 0, 10, 10));
    assert_eq!(layout.get("a"), Some(Rect::new(0, 0, 10, 8)));
    assert_eq!(layout.get("b"), Some(Rect::new(0, 8, 10, 8)));
}

#[test]
fn the_constraint_of_the_root_is_ignored() {
    let plain = LayoutBuilder::new().child(Node::leaf("a"));
    let mut other = LayoutBuilder::new().child(Node::leaf("a"));
    other.root = other.root.constraint(Constraint::Fixed(1));
    let area = Rect::new(0, 0, 9, 9);
    assert_eq!(plain.build(area).get("a"), Some(area));
    assert_eq!(other.build(area).get("a"), Some(area));
}

#[test]
fn builders_make_what_they_say() {
    let leaf = Node::leaf("n");
    assert_eq!(leaf.constraint, Constraint::Fill(1));
    assert!(matches!(leaf.kind, NodeKind::Leaf("n")));
    let v = Node::vertical();
    match &v.kind {
        NodeKind::Container { direction, spacing, children } => {
            assert_eq!(*direction, Direction::Vertical);
            assert_eq!(*spacing, 0);
            assert!(children.is_empty());
        }
        NodeKind::Leaf(_) => panic!("a container was asked for"),
    }
    let h = Node::horizontal().spacing(2).child(Node::leaf("k")).constraint(Constraint::Max(9));
    assert_eq!(h.constraint, Constraint::Max(9));
    match &h.kind {
        NodeKind::Container { direction, spacing, children } => {
            assert_eq!(*direction, Direction::Horizontal);
            assert_eq!(*spacing, 2);
            assert_eq!(children.len(), 1);
            assert!(matches!(children[0].kind, NodeKind::Leaf("k")));
        }
        NodeKind::Leaf(_) => panic!("a container was asked for"),
    }
}

#[test]
fn a_leaf_takes_no_child_and_no_gap() {
    let leaf = Node::leaf("n").child(Node::leaf("m")).spacing(3);
    assert!(matches!(leaf.kind, NodeKind::Leaf("n")));
    assert_eq!(leaf.constraint, Constraint::Fill(1));
}

#[test]
fn nodes_from_names_and_builders() {
    let node = Node::from("name");
    assert!(matches!(node.kind, NodeKind::Leaf("name")));
    assert_eq!(node.constraint, Constraint::Fill(1));
    let node = Node::from(LayoutBuilder::new().child(Node::leaf("in")));
    match &node.kind {
        NodeKind::Container { direction, children, .. } => {
            assert_eq!(*direction, Direction::Vertical);
            assert_eq!(children.len(), 1);
        }
        NodeKind::Leaf(_) => panic!("a container was asked for"),
    }
    let layout = LayoutBuilder::new()
        .child(Node::from(LayoutBuilder::new().child("p".into()).child("q".into())))
        .build(Rect::new(0, 0, 4, 4));
    assert_eq!(layout.get("p"), Some(Rect::new(0, 0, 4, 2)));
    assert_eq!(layout.get("q"), Some(Rect::new(0, 2, 4, 2)));
}

#[test]
fn ill_formed_trees_are_not_laid_out() {
    let area = Rect::new(0, 0, 10, 10);
    let bad = LayoutBuilder::new().child(Node::leaf("a").constraint(Constraint::Percentage(150)));
    assert!(!bad.fits(area));
    assert!(bad.try_build(area).is_none());
    let bad = LayoutBuilder::new()
        .child(Node::horizontal().child(Node::leaf("a").constraint(Constraint::Ratio(1, 0))));
    assert!(!bad.root.is_wf());
    assert!(bad.try_build(area).is_none());
    let good = three_fills();
    assert!(good.fits(area));
    assert!(good.root.is_wf());
    let layout = good.try_build(area).unwrap();
    assert_eq!(layout.len(), 3);
}

#[test]
fn areas_at_the_edge_of_the_machine() {
    let far = Rect::new(u64::MAX, 0, 10, 10);
    assert!(!three_fills().fits(far));
    assert!(three_fills().try_build(far).is_none());
    // a lone leaf is never moved
    let mut lone = LayoutBuilder::new();
    lone.root = Node::leaf("only");
    assert!(lone.fits(far));
    assert_eq!(lone.build(far).get("only"), Some(far));
}

#[test]
fn spans_count_slots_and_depth() {
    assert_eq!(Node::leaf("a").span_of(), Some(0));
    assert_eq!(Node::vertical().span_of(), Some(0));
    assert_eq!(three_fills().root.span_of(), Some(131_070 + 3 * 131_070));
}

#[test]
fn result_mapping_replaces_and_counts() {
    let mut map = LayoutResult::new();
    assert!(map.is_empty());
    map.insert("a", Rect::new(0, 0, 1, 1));
    map.insert("b", Rect::new(1, 0, 1, 1));
    map.insert("a", Rect::new(2, 0, 1, 1));
    assert_eq!(map.len(), 2);
    assert_eq!(map.get("a"), Some(Rect::new(2, 0, 1, 1)));
    assert_eq!(map.get("b"), Some(Rect::new(1, 0, 1, 1)));
    assert_eq!(map.get("c"), None);
    assert!(!map.is_empty());
}

#[test]
fn names_are_compared_by_their_characters() {
    assert!(same_text("", ""));
    assert!(same_text("txs_graph", "txs_graph"));
    assert!(!same_text("txs_graph", "txs_grapf"));
    assert!(!same_text("a", "ab"));
    assert!(same_text("\u{f002} Search", "\u{f002} Search"));
    assert!(!same_text("\u{f002}", "\u{f003}"));
}

#[test]
fn a_walk_adds_to_what_the_mapping_holds() {
    let mut map = LayoutResult::new();
    map.insert("kept", Rect::new(9, 9, 1, 1));
    map.insert("a", Rect::new(9, 9, 1, 1));
    let node = Node::horizontal().child(Node::leaf("a")).child(Node::leaf("b"));
    handle_node(&node, Rect::new(0, 0, 8, 2), &mut map);
    assert_eq!(map.len(), 3);
    assert_eq!(map.get("kept"), Some(Rect::new(9, 9, 1, 1)));
    assert_eq!(map.get("a"), Some(Rect::new(0, 0, 4, 2)));
    assert_eq!(map.get("b"), Some(Rect::new(4, 0, 4, 2)));
}

#[test]
fn a_new_builder_is_an_empty_column() {
    for builder in [LayoutBuilder::default(), LayoutBuilder::new()] {
        assert_eq!(builder.root.constraint, Constraint::Fill(1));
        match &builder.root.kind {
            NodeKind::Container { direction, spacing, children } => {
                assert_eq!(*direction, Direction::Vertical);
                assert_eq!(*spacing, 0);
                assert!(children.is_empty());
            }
            NodeKind::Leaf(_) => panic!("a container was asked for"),
        }
    }
}

fn with_first_leaf(first: &'static str) -> LayoutBuilder {
    LayoutBuilder::new()
        .child(
            Node::horizontal().spacing(1).child(Node::leaf("a")).child(
                Node::vertical().child(Node::leaf(first)).child(Node::leaf("b")),
            ),
        )
        .child(Node::leaf("c").constraint(Constraint::Fixed(2)))
        .child(Node::horizontal().child(Node::leaf("x")).child(Node::leaf("d")))
}

#[test]
fn a_name_repeated_at_another_depth_changes_nothing_else() {
    let area = Rect::new(0, 0, 21, 12);
    let repeated = with_first_leaf("x").build(area);
    let plain = with_first_leaf("w").build(area);
    assert_eq!(plain.len(), 6);
    assert_eq!(repeated.len(), 5);
    for name in ["a", "b", "c", "d", "x"] {
        assert!(plain.get(name).is_some());
        assert_eq!(repeated.get(name), plain.get(name));
    }
    assert_eq!(repeated.get("w"), None);
    assert_eq!(plain.get("w"), Some(Rect::new(11, 0, 10, 3)));
    // the leaf that is walked second has the name
    assert_eq!(repeated.get("x"), Some(Rect::new(0, 7, 11, 5)));
    assert_eq!(repeated.get("b"), Some(Rect::new(11, 3, 10, 2)));
    assert_eq!(repeated.get("c"), Some(Rect::new(0, 5, 21, 2)));
    assert_eq!(repeated.get("d"), Some(Rect::new(11, 7, 10, 5)));
}

#[test]
fn a_name_repeated_three_times_keeps_the_last() {
    let layout = LayoutBuilder::new()
        .child(Node::leaf("x"))
        .child(Node::horizontal().child(Node::leaf("x")).child(Node::leaf("y")))
        .child(Node::leaf("x"))
        .build(Rect::new(0, 0, 6, 9));
    assert_eq!(layout.len(), 2);
    assert_eq!(layout.get("x"), Some(Rect::new(0, 6, 6, 3)));
    assert_eq!(layout.get("y"), Some(Rect::new(3, 3, 3, 3)));
}
