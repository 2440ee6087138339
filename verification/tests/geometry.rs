use pathtracer::aabb::{Coord3, AABB};
use pathtracer::bvh::{sort_by_axis_min, BvhNode, Primitive};
use pathtracer::rect::AxisAlignedRectAxis;

fn boxed(min: (i64, i64, i64), max: (i64, i64, i64)) -> AABB {
    AABB::new(Coord3::new(min.0, min.1, min.2), Coord3::new(max.0, max.1, max.2))
}

fn contains(outer: &AABB, p: &Coord3) -> bool {
    outer.min().x <= p.x && p.x <= outer.max().x && outer.min().y <= p.y && p.y <= outer.max().y
        && outer.min().z <= p.z && p.z <= outer.max().z
}

fn corners(b: &AABB) -> Vec<Coord3> {
    let mut out = Vec::new();
    for &x in &[b.min().x, b.max().x] {
        for &y in &[b.min().y, b.max().y] {
            for &z in &[b.min().z, b.max().z] {
                out.push(Coord3::new(x, y, z));
            }
        }
    }
    out
}

#[test]
fn union_contains_every_corner_of_both_boxes() {
    let a = boxed((-5, 0, 2), (1, 4, 9));
    let b = boxed((0, -3, 4), (7, 1, 5));
    let u = AABB::get_union(&a, &b);
    assert_eq!(u.min(), Coord3::new(-5, -3, 2));
    assert_eq!(u.max(), Coord3::new(7, 4, 9));
    for corner in corners(&a).iter().chain(corners(&b).iter()) {
        assert!(contains(&u, corner));
    }
}

#[test]
fn union_of_nested_boxes_is_the_outer_box() {
    let outer = boxed((-10, -10, -10), (10, 10, 10));
    let inner = boxed((-1, -1, -1), (1, 1, 1));
    let u = AABB::get_union(&outer, &inner);
    assert_eq!(u.min(), outer.min());
    assert_eq!(u.max(), outer.max());
}

fn primitive(id: usize, min: (i64, i64, i64), max: (i64, i64, i64)) -> Primitive {
    let b = boxed(min, max);
    Primitive { id, key_bbox: b, bbox: b }
}

fn leaf_ids(node: &BvhNode, out: &mut Vec<usize>) {
    match node {
        BvhNode::Leaf { primitive } => out.push(primitive.id),
        BvhNode::Node { left, right, .. } => {
            leaf_ids(left, out);
            leaf_ids(right, out);
        }
    }
}

fn check_boxes(node: &BvhNode) {
    match node {
        BvhNode::Leaf { .. } => {}
        BvhNode::Node { left, right, bounding_box } => {
            for child in [left.as_ref(), right.as_ref()] {
                let cb = child.bounding_box();
                assert!(contains(bounding_box, &cb.min()));
                assert!(contains(bounding_box, &cb.max()));
                check_boxes(child);
            }
        }
    }
}

#[test]
fn bvh_holds_exactly_the_given_primitives() {
    let mut prims = Vec::new();
    for i in 0..13usize {
        let c = i as i64 * 3 - 20;
        prims.push(primitive(i, (c, -c, c % 5), (c + 2, -c + 1, c % 5 + 4)));
    }
    let tree = BvhNode::from_list(prims.clone());
    let mut ids = Vec::new();
    leaf_ids(&tree, &mut ids);
    assert_eq!(ids.len(), prims.len());
    ids.sort_unstable();
    let expected: Vec<usize> = (0..13).collect();
    assert_eq!(ids, expected);
}

fn tree_height(node: &BvhNode) -> usize {
    match node {
        BvhNode::Leaf { .. } => 1,
        BvhNode::Node { left, right, .. } => 1 + tree_height(left).max(tree_height(right)),
    }
}

#[test]
fn bvh_depth_is_logarithmic() {
    for n in [1usize, 2, 3, 5, 8, 13, 64, 100] {
        let prims: Vec<Primitive> =
            (0..n).map(|i| primitive(i, (i as i64, 0, 0), (i as i64 + 1, 1, 1))).collect();
        let tree = BvhNode::from_list(prims);
        let bound = (n as f64).log2().ceil() as usize + 1;
        assert!(tree_height(&tree) <= bound, "height {} over bound {bound} for n = {n}", tree_height(&tree));
    }
}

#[test]
fn bvh_node_boxes_contain_their_children() {
    let mut prims = Vec::new();
    for i in 0..9usize {
        let c = (i as i64 * 7) % 23 - 11;
        prims.push(primitive(i, (c, c * 2, -c), (c + 3, c * 2 + 1, -c + 2)));
    }
    let tree = BvhNode::from_list(prims.clone());
    check_boxes(&tree);
    let root = tree.bounding_box();
    for p in &prims {
        assert!(contains(&root, &p.bbox.min()));
        assert!(contains(&root, &p.bbox.max()));
    }
}

#[test]
fn bvh_of_one_and_two_primitives() {
    let single = vec![primitive(42, (0, 0, 0), (1, 1, 1))];
    let tree = BvhNode::from_list(single);
    let mut ids = Vec::new();
    leaf_ids(&tree, &mut ids);
    assert_eq!(ids, vec![42]);

    let pair = vec![primitive(1, (5, 0, 0), (6, 1, 1)), primitive(2, (-4, 0, 0), (-3, 1, 1))];
    let tree = BvhNode::from_list(pair);
    let mut ids = Vec::new();
    leaf_ids(&tree, &mut ids);
    ids.sort_unstable();
    assert_eq!(ids, vec![1, 2]);
    let root = tree.bounding_box();
    assert_eq!(root.min(), Coord3::new(-4, 0, 0));
    assert_eq!(root.max(), Coord3::new(6, 1, 1));
}

#[test]
fn sort_orders_by_box_minimum_on_the_chosen_axis() {
    let mut prims = vec![
        primitive(0, (4, 9, -1), (5, 10, 0)),
        primitive(1, (-2, 3, 7), (0, 4, 8)),
        primitive(2, (1, -6, 2), (2, -5, 3)),
    ];
    sort_by_axis_min(&mut prims, AxisAlignedRectAxis::X);
    let xs: Vec<i64> = prims.iter().map(|p| p.key_bbox.min().x).collect();
    assert_eq!(xs, vec![-2, 1, 4]);
    sort_by_axis_min(&mut prims, AxisAlignedRectAxis::Y);
    let ys: Vec<i64> = prims.iter().map(|p| p.key_bbox.min().y).collect();
    assert_eq!(ys, vec![-6, 3, 9]);
    sort_by_axis_min(&mut prims, AxisAlignedRectAxis::Z);
    let ids: Vec<usize> = prims.iter().map(|p| p.id).collect();
    assert_eq!(ids, vec![0, 2, 1]);
}
