use doom_core::assets::{AssetHandle, TextureType};
use doom_core::fixed::ONE;
use doom_core::geometry::{Interval, Line2, Plane2, Vec2, AABB2};
use doom_core::map::{LevelMap, Node, NodeChild, Sector, Seg, Subsector};

fn rect(x0: i64, x1: i64, y0: i64, y1: i64) -> AABB2 {
    AABB2 { x: Interval::new(x0 * ONE, x1 * ONE), y: Interval::new(y0 * ONE, y1 * ONE) }
}

fn seg(nx: i64, ny: i64, low: i64, high: i64) -> Seg {
    Seg {
        line: Line2::new(Vec2::new(0, 0), Vec2::new(0, 0)),
        normal: Vec2::new(nx * ONE, ny * ONE),
        interval: Interval::new(low, high),
        linedef: None,
    }
}

fn subsector(b: AABB2) -> Subsector {
    Subsector {
        segs: vec![
            seg(1, 0, b.x.min, b.x.max),
            seg(-1, 0, -b.x.max, -b.x.min),
            seg(0, 1, b.y.min, b.y.max),
            seg(0, -1, -b.y.max, -b.y.min),
        ],
        bbox: b,
        linedefs: Vec::new(),
        sector_index: 0,
    }
}

/// A square of 8 by 8 units cut at x = 4, its right half cut again at y = 4.
/// Subsector 0 is the left half, 1 the upper right quarter, 2 the lower right.
fn quartered() -> LevelMap {
    let root = Node {
        plane: Plane2 { normal: Vec2::new(ONE, 0), distance: 4 * ONE },
        linedefs: Vec::new(),
        child_bboxes: [rect(4, 8, 0, 8), rect(0, 4, 0, 8)],
        child_indices: [NodeChild::Node(1), NodeChild::Subsector(0)],
    };
    let right = Node {
        plane: Plane2 { normal: Vec2::new(0, ONE), distance: 4 * ONE },
        linedefs: Vec::new(),
        child_bboxes: [rect(4, 8, 4, 8), rect(4, 8, 0, 4)],
        child_indices: [NodeChild::Subsector(1), NodeChild::Subsector(2)],
    };
    LevelMap {
        anims_flat: Vec::new(),
        anims_wall: Vec::new(),
        bbox: rect(0, 8, 0, 8),
        linedefs: Vec::new(),
        nodes: vec![root, right],
        sectors: vec![Sector {
            interval: Interval::new(0, 128 * ONE),
            textures: [TextureType::Absent, TextureType::Absent],
            light_level: ONE,
            special_type: 0,
            sector_tag: 0,
            linedefs: Vec::new(),
            subsectors: vec![0, 1, 2],
            neighbours: Vec::new(),
        }],
        subsectors: vec![
            subsector(rect(0, 4, 0, 8)),
            subsector(rect(4, 8, 4, 8)),
            subsector(rect(4, 8, 0, 4)),
        ],
        sky: AssetHandle::new(0),
        switches: Vec::new(),
    }
}

#[test]
fn quartered_map_is_valid() {
    assert!(quartered().is_valid());
}

#[test]
fn find_subsector_descends_to_the_right_leaf() {
    let map = quartered();
    assert_eq!(map.find_subsector_index(Vec2::new(ONE, ONE)), 0);
    assert_eq!(map.find_subsector_index(Vec2::new(6 * ONE, 6 * ONE)), 1);
    assert_eq!(map.find_subsector_index(Vec2::new(6 * ONE, 2 * ONE)), 2);
    assert_eq!(map.find_subsector(Vec2::new(6 * ONE, 2 * ONE)).bbox, rect(4, 8, 0, 4));
}

#[test]
fn a_point_on_a_splitting_line_goes_to_the_back() {
    let map = quartered();
    // On x = 4: the back child of the root, whatever y is.
    assert_eq!(map.find_subsector_index(Vec2::new(4 * ONE, 7 * ONE)), 0);
    // Just in front of x = 4, on y = 4: the back child of the second node.
    assert_eq!(map.find_subsector_index(Vec2::new(4 * ONE + 1, 4 * ONE)), 2);
    assert_eq!(map.find_subsector_index(Vec2::new(4 * ONE + 1, 4 * ONE + 1)), 1);
}

#[test]
fn find_subsector_agrees_with_a_search_over_all_leaves() {
    let map = quartered();
    let mut x = 0;
    while x <= 8 * ONE {
        let mut y = 0;
        while y <= 8 * ONE {
            let p = Vec2::new(x, y);
            let found = map.find_subsector_index(p);
            let mut holders = Vec::new();
            for (i, s) in map.subsectors.iter().enumerate() {
                if s.contains(p) {
                    holders.push(i);
                }
            }
            assert!(holders.contains(&found), "point {:?} went to {}", p, found);
            assert!(map.find_subsector(p).contains(p));
            y += ONE / 2 + 1;
        }
        x += ONE / 2 + 1;
    }
}

#[test]
fn traversal_visits_a_node_before_what_lies_below_it() {
    let map = quartered();
    let mut out = Vec::new();
    // A box inside the upper right quarter.
    map.traverse_nodes(NodeChild::Node(0), &rect(5, 6, 5, 6), &mut out);
    assert_eq!(out, vec![NodeChild::Node(0), NodeChild::Node(1), NodeChild::Subsector(1)]);
}

#[test]
fn traversal_takes_both_sides_of_a_line_the_box_straddles() {
    let map = quartered();
    let mut out = Vec::new();
    map.traverse_nodes(NodeChild::Node(0), &rect(3, 5, 1, 2), &mut out);
    assert_eq!(
        out,
        vec![
            NodeChild::Node(0),
            NodeChild::Node(1),
            NodeChild::Subsector(2),
            NodeChild::Subsector(0),
        ]
    );
}

#[test]
fn traversal_of_the_whole_map_visits_every_leaf_front_first() {
    let map = quartered();
    let mut out = vec![NodeChild::Subsector(9)];
    map.traverse_nodes(NodeChild::Node(0), &rect(0, 8, 0, 8), &mut out);
    assert_eq!(
        out,
        vec![
            NodeChild::Subsector(9),
            NodeChild::Node(0),
            NodeChild::Node(1),
            NodeChild::Subsector(1),
            NodeChild::Subsector(2),
            NodeChild::Subsector(0),
        ]
    );
}

#[test]
fn traversal_reaches_the_leaf_of_every_point_of_the_box() {
    let map = quartered();
    let b = rect(3, 7, 3, 5);
    let mut out = Vec::new();
    map.traverse_nodes(NodeChild::Node(0), &b, &mut out);
    let mut x = b.x.min;
    while x <= b.x.max {
        let mut y = b.y.min;
        while y <= b.y.max {
            let leaf = NodeChild::Subsector(map.find_subsector_index(Vec2::new(x, y)));
            assert!(out.contains(&leaf));
            y += ONE / 3;
        }
        x += ONE / 3;
    }
}

#[test]
fn a_touching_box_counts_as_on_both_sides() {
    let map = quartered();
    let mut out = Vec::new();
    // The box ends exactly on x = 4.
    map.traverse_nodes(NodeChild::Node(0), &rect(2, 4, 5, 6), &mut out);
    assert_eq!(
        out,
        vec![
            NodeChild::Node(0),
            NodeChild::Node(1),
            NodeChild::Subsector(1),
            NodeChild::Subsector(0),
        ]
    );
}

#[test]
fn a_tree_with_a_backward_link_is_not_valid() {
    let mut map = quartered();
    map.nodes[1].child_indices[0] = NodeChild::Node(0);
    assert!(!map.is_valid());
    let mut map = quartered();
    map.nodes[0].child_indices[1] = NodeChild::Subsector(3);
    assert!(!map.is_valid());
    let mut map = quartered();
    map.nodes.clear();
    assert!(!map.is_valid());
}

#[test]
fn a_polygon_holds_what_lies_within_every_segment() {
    let s = subsector(rect(4, 8, 0, 4));
    assert!(s.contains(Vec2::new(4 * ONE, 0)));
    assert!(s.contains(Vec2::new(8 * ONE, 4 * ONE)));
    assert!(s.contains(Vec2::new(6 * ONE, ONE)));
    assert!(!s.contains(Vec2::new(4 * ONE - 1, ONE)));
    assert!(!s.contains(Vec2::new(6 * ONE, 4 * ONE + 1)));
    assert!(!s.contains(Vec2::new(6 * ONE, -1)));
    let open = Subsector { segs: Vec::new(), bbox: rect(0, 1, 0, 1), linedefs: Vec::new(), sector_index: 0 };
    assert!(open.contains(Vec2::new(99 * ONE, 99 * ONE)));
}

/// The quartered square with its nodes listed the other way round: the root
/// still first, but the nodes below it before their parents where they can.
fn three_deep(order: [usize; 3]) -> LevelMap {
    // Node a cuts at x = 4, node b (its front) at y = 4, node c (b's front)
    // at x = 6. `order[k]` is the place of node k in the list.
    let mut map = quartered();
    let plane = |nx: i64, ny: i64, d: i64| Plane2 { normal: Vec2::new(nx * ONE, ny * ONE), distance: d * ONE };
    let node = |p: Plane2, front: NodeChild, back: NodeChild| Node {
        plane: p,
        linedefs: Vec::new(),
        child_bboxes: [rect(0, 8, 0, 8), rect(0, 8, 0, 8)],
        child_indices: [front, back],
    };
    let a = node(plane(1, 0, 4), NodeChild::Node(order[1]), NodeChild::Subsector(0));
    let b = node(plane(0, 1, 4), NodeChild::Node(order[2]), NodeChild::Subsector(2));
    let c = node(plane(1, 0, 6), NodeChild::Subsector(1), NodeChild::Subsector(1));
    let mut nodes = vec![a.clone(), a.clone(), a.clone()];
    nodes[order[0]] = a;
    nodes[order[1]] = b;
    nodes[order[2]] = c;
    map.nodes = nodes;
    map
}

#[test]
fn a_tree_is_valid_in_whatever_order_its_nodes_are_listed() {
    let forward = three_deep([0, 1, 2]);
    assert!(forward.nodes_valid());
    assert!(forward.is_valid());
    let mixed = three_deep([0, 2, 1]);
    assert!(mixed.nodes_valid());
    assert!(mixed.is_valid());
    for map in [forward, mixed] {
        assert_eq!(map.find_subsector_index(Vec2::new(2 * ONE, 2 * ONE)), 0);
        assert_eq!(map.find_subsector_index(Vec2::new(7 * ONE, 7 * ONE)), 1);
        assert_eq!(map.find_subsector_index(Vec2::new(6 * ONE, 2 * ONE)), 2);
    }
}

#[test]
fn a_tree_with_a_loop_is_not_valid() {
    let mut map = quartered();
    map.nodes[1].child_indices[0] = NodeChild::Node(0);
    assert!(!map.nodes_valid());
    assert!(!map.is_valid());
    let mut own = quartered();
    own.nodes[1].child_indices[1] = NodeChild::Node(1);
    assert!(!own.nodes_valid());
    // A loop among nodes that the root does not lead to counts too.
    let mut aside = three_deep([0, 1, 2]);
    aside.nodes[0].child_indices[0] = NodeChild::Subsector(1);
    aside.nodes[2].child_indices[0] = NodeChild::Node(1);
    assert!(!aside.nodes_valid());
}

#[test]
fn a_child_that_does_not_exist_makes_the_tree_invalid() {
    let mut map = quartered();
    map.nodes[1].child_indices[0] = NodeChild::Node(2);
    assert!(!map.nodes_valid());
    let mut leaf = quartered();
    leaf.nodes[1].child_indices[0] = NodeChild::Subsector(3);
    assert!(!leaf.nodes_valid());
    let mut none = quartered();
    none.nodes.clear();
    assert!(!none.nodes_valid());
}
