use mosaic::layout::{LayoutNode, Placement, Rect, SplitOrientation};
use mosaic::panels::{Panel, PanelChild, PanelHandler};

fn leaf(id: &str) -> LayoutNode {
    LayoutNode::Leaf { panel_id: String::from(id) }
}

fn rect(x: u16, y: u16, width: u16, height: u16) -> Rect {
    Rect { x, y, width, height }
}

fn shape(node: &LayoutNode) -> String {
    match node {
        LayoutNode::Leaf { panel_id } => panel_id.clone(),
        LayoutNode::Split { orientation, children, ratios } => {
            let parts: Vec<String> = children.iter().map(shape).collect();
            format!(
                "{}{:?}[{}]",
                if *orientation == SplitOrientation::Horizontal { "H" } else { "V" },
                ratios,
                parts.join(",")
            )
        }
    }
}

fn handler_with(root: LayoutNode) -> PanelHandler {
    let mut handler = PanelHandler::new();
    handler.root = Some(root);
    handler
}

fn covered(map: &mosaic::rect_map::RectMap, x: u16, y: u16) -> usize {
    let mut n = 0;
    for i in 0..map.len() {
        let r = map.rect_at(i);
        if r.x <= x
            && (x as u32) < r.x as u32 + r.width as u32
            && r.y <= y
            && (y as u32) < r.y as u32 + r.height as u32
        {
            n += 1;
        }
    }
    n
}

#[test]
fn add_relative_right_then_resolve() {
    let mut root = leaf("A");
    assert!(root.add_relative("A", String::from("B"), Placement::Right));
    match &root {
        LayoutNode::Split { orientation, children, ratios } => {
            assert_eq!(*orientation, SplitOrientation::Vertical);
            assert_eq!(children.len(), 2);
            assert!(matches!(&children[0], LayoutNode::Leaf { panel_id } if panel_id == "A"));
            assert!(matches!(&children[1], LayoutNode::Leaf { panel_id } if panel_id == "B"));
            assert_eq!(ratios, &vec![50, 50]);
        }
        LayoutNode::Leaf { .. } => panic!("expected a split"),
    }
    let mut handler = handler_with(root);
    let map = handler.compute_layout(rect(0, 0, 100, 10));
    assert_eq!(map.get("A"), Some(rect(0, 0, 50, 10)));
    assert_eq!(map.get("B"), Some(rect(50, 0, 50, 10)));
    assert_eq!(map.len(), 2);
}

#[test]
fn stacked_one_one_two_over_forty() {
    let mut handler = handler_with(LayoutNode::Split {
        orientation: SplitOrientation::Horizontal,
        children: vec![leaf("a"), leaf("b"), leaf("c")],
        ratios: vec![1, 1, 2],
    });
    let map = handler.compute_layout(rect(0, 0, 7, 40));
    assert_eq!(map.get("a"), Some(rect(0, 0, 7, 10)));
    assert_eq!(map.get("b"), Some(rect(0, 10, 7, 10)));
    assert_eq!(map.get("c"), Some(rect(0, 20, 7, 20)));
}

#[test]
fn add_relative_orders_the_children_by_placement() {
    let mut top = leaf("A");
    assert!(top.add_relative("A", String::from("B"), Placement::Top));
    assert_eq!(shape(&top), "H[50, 50][B,A]");
    let mut bottom = leaf("A");
    assert!(bottom.add_relative("A", String::from("B"), Placement::Bottom));
    assert_eq!(shape(&bottom), "H[50, 50][A,B]");
    let mut left = leaf("A");
    assert!(left.add_relative("A", String::from("B"), Placement::Left));
    assert_eq!(shape(&left), "V[50, 50][B,A]");
    let mut right = leaf("A");
    assert!(right.add_relative("A", String::from("B"), Placement::Right));
    assert_eq!(shape(&right), "V[50, 50][A,B]");
}

#[test]
fn add_relative_replace_renames_the_leaf() {
    let mut root = leaf("A");
    assert!(root.add_relative("A", String::from("B"), Placement::Replace));
    assert_eq!(shape(&root), "B");
}

#[test]
fn add_relative_without_the_target_changes_nothing() {
    let mut root = LayoutNode::Split {
        orientation: SplitOrientation::Vertical,
        children: vec![leaf("A"), leaf("B")],
        ratios: vec![3, 1],
    };
    assert!(!root.add_relative("C", String::from("D"), Placement::Top));
    assert_eq!(shape(&root), "V[3, 1][A,B]");
}

#[test]
fn add_relative_takes_the_first_leaf_in_depth_first_order() {
    let mut root = LayoutNode::Split {
        orientation: SplitOrientation::Vertical,
        children: vec![
            LayoutNode::Split {
                orientation: SplitOrientation::Horizontal,
                children: vec![leaf("A"), leaf("T")],
                ratios: vec![1, 1],
            },
            leaf("T"),
        ],
        ratios: vec![1, 1],
    };
    assert!(root.add_relative("T", String::from("N"), Placement::Left));
    assert_eq!(shape(&root), "V[1, 1][H[1, 1][A,V[50, 50][N,T]],T]");
}

#[test]
fn first_panel_becomes_the_root() {
    let mut handler = PanelHandler::new();
    assert!(handler.root.is_none());
    handler.add_panel(Panel::new(String::from("A"), PanelChild::Editor), Some("x"), Placement::Top);
    assert_eq!(shape(handler.root.as_ref().unwrap()), "A");
    assert_eq!(handler.find_panel_index("A"), Some(0));
    assert_eq!(handler.find_panel_index("B"), None);
}

#[test]
fn panel_with_a_target_goes_beside_it() {
    let mut handler = PanelHandler::new();
    handler.add_panel(Panel::new(String::from("A"), PanelChild::Editor), None, Placement::Right);
    handler.add_panel(
        Panel::new(String::from("B"), PanelChild::Explorer),
        Some("A"),
        Placement::Bottom,
    );
    handler.add_panel(Panel::new(String::from("C"), PanelChild::Editor), Some("A"), Placement::Left);
    assert_eq!(shape(handler.root.as_ref().unwrap()), "H[50, 50][V[50, 50][C,A],B]");
    assert_eq!(handler.find_panel_index("C"), Some(2));
}

#[test]
fn panel_whose_target_is_missing_takes_a_fifth_at_the_side() {
    let mut handler = PanelHandler::new();
    handler.add_panel(Panel::new(String::from("A"), PanelChild::Editor), None, Placement::Right);
    handler.add_panel(Panel::new(String::from("B"), PanelChild::Editor), Some("Z"), Placement::Top);
    assert_eq!(shape(handler.root.as_ref().unwrap()), "V[80, 20][A,B]");
    let map = handler.compute_layout(rect(0, 0, 100, 30));
    assert_eq!(map.get("A"), Some(rect(0, 0, 80, 30)));
    assert_eq!(map.get("B"), Some(rect(80, 0, 20, 30)));
}

#[test]
fn panel_without_a_target_splits_the_whole_tree() {
    let mut handler = PanelHandler::new();
    handler.add_panel(Panel::new(String::from("A"), PanelChild::Editor), None, Placement::Right);
    handler.add_panel(Panel::new(String::from("B"), PanelChild::Editor), None, Placement::Right);
    handler.add_panel(Panel::new(String::from("C"), PanelChild::Editor), None, Placement::Top);
    assert_eq!(shape(handler.root.as_ref().unwrap()), "H[50, 50][C,V[50, 50][A,B]]");
    handler.add_panel(Panel::new(String::from("D"), PanelChild::Editor), None, Placement::Left);
    assert_eq!(
        shape(handler.root.as_ref().unwrap()),
        "V[50, 50][D,H[50, 50][C,V[50, 50][A,B]]]"
    );
    handler.add_panel(Panel::new(String::from("E"), PanelChild::Editor), None, Placement::Bottom);
    assert_eq!(
        shape(handler.root.as_ref().unwrap()),
        "H[50, 50][V[50, 50][D,H[50, 50][C,V[50, 50][A,B]]],E]"
    );
}

#[test]
fn replace_without_a_target_leaves_the_new_panel_alone() {
    let mut handler = PanelHandler::new();
    handler.add_panel(Panel::new(String::from("A"), PanelChild::Editor), None, Placement::Right);
    handler.add_panel(Panel::new(String::from("B"), PanelChild::Editor), None, Placement::Replace);
    assert_eq!(shape(handler.root.as_ref().unwrap()), "B");
}

#[test]
fn layout_of_no_tree_is_empty() {
    let mut handler = PanelHandler::new();
    let map = handler.compute_layout(rect(0, 0, 80, 24));
    assert_eq!(map.len(), 0);
    assert_eq!(map.get("A"), None);
}

#[test]
fn leaf_takes_the_whole_rectangle() {
    let mut handler = handler_with(leaf("A"));
    let map = handler.compute_layout(rect(3, 4, 80, 24));
    assert_eq!(map.get("A"), Some(rect(3, 4, 80, 24)));
    assert_eq!(map.len(), 1);
    assert_eq!(map.id_at(0), "A");
    assert_eq!(map.rect_at(0), rect(3, 4, 80, 24));
}

#[test]
fn last_child_takes_what_rounding_leaves() {
    let mut handler = handler_with(LayoutNode::Split {
        orientation: SplitOrientation::Vertical,
        children: vec![leaf("a"), leaf("b"), leaf("c")],
        ratios: vec![1, 1, 1],
    });
    let map = handler.compute_layout(rect(5, 2, 10, 4));
    assert_eq!(map.get("a"), Some(rect(5, 2, 3, 4)));
    assert_eq!(map.get("b"), Some(rect(8, 2, 3, 4)));
    assert_eq!(map.get("c"), Some(rect(11, 2, 4, 4)));
}

#[test]
fn a_half_is_rounded_up() {
    let mut handler = handler_with(LayoutNode::Split {
        orientation: SplitOrientation::Horizontal,
        children: vec![leaf("a"), leaf("b")],
        ratios: vec![1, 1],
    });
    let map = handler.compute_layout(rect(0, 0, 1, 5));
    assert_eq!(map.get("a"), Some(rect(0, 0, 1, 3)));
    assert_eq!(map.get("b"), Some(rect(0, 3, 1, 2)));
}

#[test]
fn nested_splits_tile_the_screen() {
    let mut handler = handler_with(LayoutNode::Split {
        orientation: SplitOrientation::Vertical,
        children: vec![
            leaf("tree"),
            LayoutNode::Split {
                orientation: SplitOrientation::Horizontal,
                children: vec![
                    leaf("edit"),
                    LayoutNode::Split {
                        orientation: SplitOrientation::Vertical,
                        children: vec![leaf("log"), leaf("term"), leaf("help")],
                        ratios: vec![2, 3, 2],
                    },
                ],
                ratios: vec![7, 3],
            },
        ],
        ratios: vec![1, 4],
    });
    let full = rect(2, 1, 83, 27);
    let map = handler.compute_layout(full);
    assert_eq!(map.len(), 5);
    assert_eq!(map.get("tree"), Some(rect(2, 1, 17, 27)));
    assert_eq!(map.get("edit"), Some(rect(19, 1, 66, 19)));
    assert_eq!(map.get("log"), Some(rect(19, 20, 19, 8)));
    assert_eq!(map.get("term"), Some(rect(38, 20, 28, 8)));
    assert_eq!(map.get("help"), Some(rect(66, 20, 19, 8)));
    for x in 0..90 {
        for y in 0..30 {
            let inside = x >= 2 && x < 85 && y >= 1 && y < 28;
            assert_eq!(covered(&map, x, y), if inside { 1 } else { 0 });
        }
    }
}

#[test]
fn shares_that_add_up_to_too_much_reach_outside() {
    let mut handler = handler_with(LayoutNode::Split {
        orientation: SplitOrientation::Horizontal,
        children: vec![
            leaf("a"),
            leaf("b"),
            leaf("c"),
            leaf("d"),
            leaf("e"),
            leaf("f"),
            leaf("g"),
        ],
        ratios: vec![1, 1, 1, 1, 1, 1, 1],
    });
    let map = handler.compute_layout(rect(0, 0, 1, 4));
    assert_eq!(map.get("a"), Some(rect(0, 0, 1, 1)));
    assert_eq!(map.get("f"), Some(rect(0, 5, 1, 1)));
    assert_eq!(map.get("g"), Some(rect(0, 6, 1, 0)));
}

#[test]
fn of_two_leaves_with_one_id_the_later_one_stays() {
    let mut handler = handler_with(LayoutNode::Split {
        orientation: SplitOrientation::Vertical,
        children: vec![leaf("A"), leaf("A")],
        ratios: vec![1, 3],
    });
    let map = handler.compute_layout(rect(0, 0, 8, 2));
    assert_eq!(map.len(), 1);
    assert_eq!(map.get("A"), Some(rect(2, 0, 6, 2)));
}

#[test]
fn layout_is_written_to_the_panels() {
    let mut handler = PanelHandler::new();
    handler.add_panel(Panel::new(String::from("A"), PanelChild::Editor), None, Placement::Right);
    handler.add_panel(Panel::new(String::from("B"), PanelChild::Editor), Some("A"), Placement::Top);
    assert_eq!(handler.panel(0).position, (0, 0));
    assert_eq!(handler.panel(0).size, (0, 0));
    let _ = handler.compute_layout(rect(0, 0, 10, 10));
    assert_eq!(handler.panel_count(), 2);
    assert_eq!(handler.panel(0).id, "A");
    assert_eq!(handler.panel(0).position, (0, 5));
    assert_eq!(handler.panel(0).size, (10, 5));
    assert_eq!(handler.panel(1).position, (0, 0));
    assert_eq!(handler.panel(1).size, (10, 5));
    handler.root = None;
    let _ = handler.compute_layout(rect(0, 0, 99, 99));
    assert_eq!(handler.panel(0).size, (10, 5));
}

#[test]
fn map_insert_replaces_what_was_under_the_id() {
    let mut map = mosaic::rect_map::RectMap::new();
    map.insert(String::from("a"), rect(0, 0, 1, 1));
    map.insert(String::from("b"), rect(1, 0, 1, 1));
    map.insert(String::from("a"), rect(2, 0, 1, 1));
    assert_eq!(map.len(), 2);
    assert_eq!(map.get("a"), Some(rect(2, 0, 1, 1)));
    assert_eq!(map.get("b"), Some(rect(1, 0, 1, 1)));
    assert_eq!(map.get("c"), None);
}

#[test]
fn well_formed_trees() {
    assert!(leaf("A").is_well_formed());
    let good = LayoutNode::Split {
        orientation: SplitOrientation::Vertical,
        children: vec![leaf("A"), leaf("B")],
        ratios: vec![1, 2],
    };
    assert!(good.is_well_formed());
    let no_children = LayoutNode::Split {
        orientation: SplitOrientation::Vertical,
        children: vec![],
        ratios: vec![],
    };
    assert!(!no_children.is_well_formed());
    let short = LayoutNode::Split {
        orientation: SplitOrientation::Vertical,
        children: vec![leaf("A"), leaf("B")],
        ratios: vec![1],
    };
    assert!(!short.is_well_formed());
    let zero = LayoutNode::Split {
        orientation: SplitOrientation::Vertical,
        children: vec![leaf("A"), leaf("B")],
        ratios: vec![1, 0],
    };
    assert!(!zero.is_well_formed());
    let nested = LayoutNode::Split {
        orientation: SplitOrientation::Horizontal,
        children: vec![leaf("A"), no_children],
        ratios: vec![1, 1],
    };
    assert!(!nested.is_well_formed());
}

#[test]
fn rectangles_at_the_far_edge_of_the_screen() {
    let mut handler = handler_with(LayoutNode::Split {
        orientation: SplitOrientation::Vertical,
        children: vec![leaf("a"), leaf("b")],
        ratios: vec![1, 1],
    });
    let map = handler.compute_layout(rect(65525, 65535, 10, 0));
    assert_eq!(map.get("a"), Some(rect(65525, 65535, 5, 0)));
    assert_eq!(map.get("b"), Some(rect(65530, 65535, 5, 0)));
}
