use tiling::tile::{find_node, tile, tile_horizontal, tile_vertical, untile, Dimensions, Node, NodeType, Orientation};

fn screen() -> Dimensions {
    Dimensions { x: (0, 1920), y: (0, 1080) }
}

fn window(id: i32, x: (i32, i32), y: (i32, i32)) -> Node<i32> {
    Node { node_type: NodeType::Window(id), dim: Dimensions { x, y } }
}

fn window_id(node: &Node<i32>) -> Option<i32> {
    match node.node_type {
        NodeType::Window(id) => Some(id),
        _ => None,
    }
}

/// Checks that every separator's children hold the halves of its rectangle.
fn assert_tiled(node: &Node<i32>) {
    if let NodeType::Separator(o, left, right) = &node.node_type {
        let (a, b) = match o {
            Orientation::Horizontal => tile_horizontal(&node.dim),
            Orientation::Vertical => tile_vertical(&node.dim),
        };
        assert_eq!(left.dim, a);
        assert_eq!(right.dim, b);
        assert_tiled(left);
        assert_tiled(right);
    }
}

#[test]
fn tile_vertical_splits_dimensions_in_half() {
    let base_dim = Dimensions { x: (0, 1920), y: (0, 1080) };

    let (left_dim, right_dim) = tile_vertical(&base_dim);

    assert_eq!((0, 960), left_dim.x);
    assert_eq!((0, 1080), left_dim.y);
    assert_eq!((961, 960), right_dim.x);
    assert_eq!((0, 1080), right_dim.y);
}

#[test]
fn tile_horizontal_splits_dimensions_in_half() {
    let base_dim = Dimensions { x: (0, 1920), y: (0, 1080) };

    let (top_dim, bot_dim) = tile_horizontal(&base_dim);

    assert_eq!((0, 1920), top_dim.x);
    assert_eq!((0, 540), top_dim.y);
    assert_eq!((0, 1920), bot_dim.x);
    assert_eq!((541, 540), bot_dim.y);
}

#[test]
fn untile_right_leaf_should_make_left_leaf_root() {
    let left_leaf: Node<i32> = Node {
        node_type: NodeType::Window(1),
        dim: Dimensions { x: (0, 960), y: (0, 1080) },
    };
    let right_leaf: Node<i32> = Node {
        node_type: NodeType::Window(2),
        dim: Dimensions { x: (961, 960), y: (0, 1080) },
    };

    let mut root: Node<i32> = Node {
        node_type: NodeType::Separator(Orientation::Vertical, Box::new(left_leaf), Box::new(right_leaf)),
        dim: Dimensions { x: (0, 1920), y: (0, 1080) },
    };

    untile(&mut root, &2);
    if let NodeType::Window(val) = root.node_type {
        assert_eq!(val, 1);
    } else {
        panic!("Root is not a Window type");
    }
}

#[test]
fn untile_left_leaf_should_make_right_leaf_root() {
    let left_leaf: Node<i32> = Node {
        node_type: NodeType::Window(1),
        dim: Dimensions { x: (0, 960), y: (0, 1080) },
    };
    let right_leaf: Node<i32> = Node {
        node_type: NodeType::Window(2),
        dim: Dimensions { x: (961, 960), y: (0, 1080) },
    };

    let mut root: Node<i32> = Node {
        node_type: NodeType::Separator(Orientation::Vertical, Box::new(left_leaf), Box::new(right_leaf)),
        dim: Dimensions { x: (0, 1920), y: (0, 1080) },
    };

    untile(&mut root, &1);
    if let NodeType::Window(val) = root.node_type {
        assert_eq!(val, 2);
    } else {
        panic!("Root is not a Window type");
    }
}

#[test]
fn tile_should_create_vertical_root_with_children() {
    let mut root: Node<i32> = Node {
        node_type: NodeType::Window(1),
        dim: Dimensions { x: (0, 960), y: (0, 1080) },
    };

    tile(&mut root, Orientation::Vertical, 2);

    if let NodeType::Separator(Orientation::Vertical, left, right) = root.node_type {
        if let NodeType::Window(val) = left.node_type {
            assert_eq!(val, 1);
        } else {
            panic!("left child is not type window");
        }

        if let NodeType::Window(val) = right.node_type {
            assert_eq!(val, 2);
        } else {
            panic!("left child is not type window");
        }
    } else {
        panic!("Vertical separator is not the new root of the subtree.");
    }
}

#[test]
fn tile_should_create_vertical_root_with_dimensions_totaling_root() {
    let mut root: Node<i32> = Node {
        node_type: NodeType::Window(1),
        dim: Dimensions { x: (0, 1920), y: (0, 1080) },
    };

    tile(&mut root, Orientation::Vertical, 2);

    if let NodeType::Separator(Orientation::Vertical, left, right) = root.node_type {
        let left_dim = left.dim;
        assert_eq!(left_dim, Dimensions { x: (0, 960), y: (0, 1080) });

        let right_dim = right.dim;
        assert_eq!(right_dim, Dimensions { x: (961, 960), y: (0, 1080) });
    } else {
        panic!("Vertical separator is not the new root of the subtree.");
    }
}

#[test]
fn tile_should_create_horizontal_root_with_children() {
    let mut root: Node<i32> = Node {
        node_type: NodeType::Window(1),
        dim: Dimensions { x: (0, 960), y: (0, 1080) },
    };

    tile(&mut root, Orientation::Horizontal, 2);

    if let NodeType::Separator(Orientation::Horizontal, left, right) = root.node_type {
        if let NodeType::Window(val) = left.node_type {
            assert_eq!(val, 1);
        } else {
            panic!("left child is not type window");
        }

        if let NodeType::Window(val) = right.node_type {
            assert_eq!(val, 2);
        } else {
            panic!("left child is not type window");
        }
    } else {
        panic!("Horizontal separator is not the new root of the subtree.");
    }
}

#[test]
fn tile_should_create_horizontal_root_with_dimensions_totaling_root() {
    let mut root: Node<i32> = Node {
        node_type: NodeType::Window(1),
        dim: Dimensions { x: (0, 1920), y: (0, 1080) },
    };

    tile(&mut root, Orientation::Horizontal, 2);

    if let NodeType::Separator(Orientation::Horizontal, left, right) = root.node_type {
        let left_dim = left.dim;
        assert_eq!(left_dim, Dimensions { x: (0, 1920), y: (0, 540) });

        let right_dim = right.dim;
        assert_eq!(right_dim, Dimensions { x: (0, 1920), y: (541, 540) });
    } else {
        panic!("Horizontal separator is not the new root of the subtree.");
    }
}

#[test]
fn split_odd_length_leaves_seam_and_floors() {
    let d = Dimensions { x: (10, 1001), y: (-5, 7) };
    let (left, right) = tile_vertical(&d);
    assert_eq!(left, Dimensions { x: (10, 500), y: (-5, 7) });
    assert_eq!(right, Dimensions { x: (511, 500), y: (-5, 7) });
    assert!(left.x.1 + right.x.1 <= d.x.1 && d.x.1 <= left.x.1 + right.x.1 + 1);

    let (top, bottom) = tile_horizontal(&d);
    assert_eq!(top, Dimensions { x: (10, 1001), y: (-5, 3) });
    assert_eq!(bottom, Dimensions { x: (10, 1001), y: (-1, 3) });
}

#[test]
fn split_zero_length() {
    let d = Dimensions { x: (4, 0), y: (0, 0) };
    let (left, right) = tile_vertical(&d);
    assert_eq!(left.x, (4, 0));
    assert_eq!(right.x, (5, 0));
}

#[test]
fn insert_split_remove_scenario() {
    let mut root: Node<i32> = Node { node_type: NodeType::Empty, dim: screen() };

    tile(&mut root, Orientation::Horizontal, 1);
    assert_eq!(window_id(&root), Some(1));
    assert_eq!(root.dim, screen());

    tile(&mut root, Orientation::Vertical, 2);
    match &root.node_type {
        NodeType::Separator(Orientation::Vertical, left, right) => {
            assert_eq!(window_id(left), Some(1));
            assert_eq!(left.dim, Dimensions { x: (0, 960), y: (0, 1080) });
            assert_eq!(window_id(right), Some(2));
            assert_eq!(right.dim, Dimensions { x: (961, 960), y: (0, 1080) });
        },
        _ => panic!("root is not a vertical separator"),
    }

    untile(&mut root, &1);
    assert_eq!(window_id(&root), Some(2));
    assert_eq!(root.dim, screen());
}

#[test]
fn insert_then_find_returns_window_leaf() {
    let mut root: Node<i32> = Node { node_type: NodeType::Empty, dim: screen() };
    for id in 1..6 {
        tile(&mut root, Orientation::Vertical, id);
        let found = find_node(&mut root, id).expect("inserted window is found");
        assert_eq!(window_id(found), Some(id));
    }
    assert!(find_node(&mut root, 42).is_none());
}

#[test]
fn remove_then_find_fails() {
    let mut root: Node<i32> = Node { node_type: NodeType::Empty, dim: screen() };
    for id in 1..6 {
        tile(&mut root, Orientation::Horizontal, id);
    }
    for id in [3, 1, 5, 2] {
        untile(&mut root, &id);
        assert!(find_node(&mut root, id).is_none());
        assert_tiled(&root);
    }
    assert_eq!(window_id(&root), Some(4));
    assert_eq!(root.dim, screen());
}

#[test]
fn removing_the_only_window_keeps_it() {
    let mut root = window(7, (0, 1920), (0, 1080));
    untile(&mut root, &7);
    assert_eq!(window_id(&root), Some(7));
    assert!(find_node(&mut root, 7).is_some());
}

#[test]
fn removing_an_absent_window_changes_nothing() {
    let mut root: Node<i32> = Node { node_type: NodeType::Empty, dim: screen() };
    tile(&mut root, Orientation::Vertical, 1);
    tile(&mut root, Orientation::Horizontal, 2);
    untile(&mut root, &9);
    match &root.node_type {
        NodeType::Separator(Orientation::Horizontal, left, right) => {
            assert_eq!(left.dim, Dimensions { x: (0, 1920), y: (0, 540) });
            assert_eq!(window_id(right), Some(2));
        },
        _ => panic!("tree changed"),
    }
}

#[test]
fn promotion_lays_out_left_window_over_parent() {
    let mut root: Node<i32> = Node {
        node_type: NodeType::Separator(
            Orientation::Vertical,
            Box::new(window(1, (0, 960), (0, 1080))),
            Box::new(window(2, (961, 960), (0, 1080))),
        ),
        dim: screen(),
    };
    untile(&mut root, &2);
    assert_eq!(window_id(&root), Some(1));
    assert_eq!(root.dim, screen());
}

#[test]
fn promoted_subtree_is_laid_out_again() {
    let mut root: Node<i32> = Node { node_type: NodeType::Empty, dim: screen() };
    tile(&mut root, Orientation::Vertical, 1);
    tile(&mut root, Orientation::Horizontal, 2);
    tile(&mut root, Orientation::Vertical, 3);
    // Removing 3 promotes the horizontal separator of 1 and 2 back to the
    // whole screen.
    untile(&mut root, &3);
    assert_tiled(&root);
    match &root.node_type {
        NodeType::Separator(Orientation::Horizontal, left, right) => {
            assert_eq!(window_id(left), Some(1));
            assert_eq!(left.dim, Dimensions { x: (0, 1920), y: (0, 540) });
            assert_eq!(window_id(right), Some(2));
            assert_eq!(right.dim, Dimensions { x: (0, 1920), y: (541, 540) });
        },
        _ => panic!("root is not a horizontal separator"),
    }
}

#[test]
fn insert_at_deep_tree_rescales_old_content() {
    let mut root: Node<i32> = Node { node_type: NodeType::Empty, dim: screen() };
    tile(&mut root, Orientation::Vertical, 1);
    tile(&mut root, Orientation::Vertical, 2);
    tile(&mut root, Orientation::Horizontal, 3);
    assert_tiled(&root);
    match &root.node_type {
        NodeType::Separator(Orientation::Horizontal, top, bottom) => {
            assert_eq!(top.dim, Dimensions { x: (0, 1920), y: (0, 540) });
            assert_eq!(window_id(bottom), Some(3));
            match &top.node_type {
                NodeType::Separator(Orientation::Vertical, left, right) => {
                    assert_eq!(left.dim, Dimensions { x: (0, 960), y: (0, 540) });
                    assert_eq!(right.dim, Dimensions { x: (961, 960), y: (0, 540) });
                },
                _ => panic!("old content lost"),
            }
        },
        _ => panic!("root is not a horizontal separator"),
    }
}

#[test]
fn find_node_edits_through_reference() {
    let mut root: Node<i32> = Node { node_type: NodeType::Empty, dim: screen() };
    tile(&mut root, Orientation::Vertical, 1);
    tile(&mut root, Orientation::Vertical, 2);
    let anchor = find_node(&mut root, 1).expect("window 1 is present");
    tile(anchor, Orientation::Horizontal, 3);
    assert_tiled(&root);
    match &root.node_type {
        NodeType::Separator(Orientation::Vertical, left, _) => match &left.node_type {
            NodeType::Separator(Orientation::Horizontal, top, bottom) => {
                assert_eq!(window_id(top), Some(1));
                assert_eq!(window_id(bottom), Some(3));
                assert_eq!(bottom.dim, Dimensions { x: (0, 960), y: (541, 540) });
            },
            _ => panic!("anchor was not split"),
        },
        _ => panic!("root is not a vertical separator"),
    }
}
