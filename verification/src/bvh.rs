//! The bounding volume hierarchy, built once per scene over the primitives'
//! already-evaluated bounding boxes on the integer coordinate scale.
//!
//! The build is the original recursive scheme: pick one of the three axes
//! at random, sort the primitives by their box minimum along it, split at
//! the midpoint and recurse, with one- and two-primitive lists as leaves.
//! Verified here: the tree holds exactly the primitives it was given; its
//! depth is bounded by the ceiling base-two logarithm of their number,
//! plus one, since every split halves the list; and every interior box is
//! the union of its children's — so by the union law each node's box
//! contains the box of every primitive below it, which is what makes
//! pruning a missed box sound during traversal. Traversal itself compares
//! floating-point slab distances and lives with the caller.

use vstd::prelude::*;
use vstd::arithmetic::div_mod::lemma_div_is_ordered;
use vstd::seq_lib::lemma_multiset_commutative;
use crate::aabb::{AABB, lemma_union_contains};
use crate::noise::lemma_swap_preserves_multiset;
use crate::random::random_below;
use crate::rect::AxisAlignedRectAxis;

verus! {

/// A scene primitive as the hierarchy sees it: a caller-side handle, the
/// bounding box at the start of the time window (whose minima are the sort
/// keys), and the bounding box over the whole window (what the tree
/// unions, so motion inside the window stays bounded).
#[derive(Clone, Copy, PartialEq, Eq, Structural, Debug)]
pub struct Primitive {
    pub id: usize,
    pub key_bbox: AABB,
    pub bbox: AABB,
}

/// The coordinate a primitive is sorted by along the chosen axis.
pub open spec fn sort_key(p: Primitive, axis: AxisAlignedRectAxis) -> int {
    p.key_bbox.min.spec_component(axis) as int
}

/// Nondecreasing sort keys along the chosen axis.
pub open spec fn sorted_by_axis(s: Seq<Primitive>, axis: AxisAlignedRectAxis) -> bool {
    forall|a: int, b: int|
        0 <= a < b < s.len() ==> sort_key(#[trigger] s[a], axis) <= sort_key(#[trigger] s[b], axis)
}

/// Ceiling of the base-two logarithm: how often a count can be halved,
/// rounding up, before it reaches one.
pub open spec fn clog2(n: nat) -> nat
    decreases n,
{
    if n <= 1 {
        0
    } else {
        (1 + clog2(((n + 1) / 2) as nat)) as nat
    }
}

/// Halving (rounded up) respects order, so `clog2` does too.
pub proof fn lemma_clog2_monotone(a: nat, b: nat)
    requires
        a <= b,
    ensures
        clog2(a) <= clog2(b),
    decreases b,
{
    if a > 1 {
        assert((a + 1) / 2 <= (b + 1) / 2) by {
            lemma_div_is_ordered(a as int + 1, b as int + 1, 2);
        }
        assert((b + 1) / 2 < b) by (nonlinear_arith)
            requires
                b >= 2,
        ;
        lemma_clog2_monotone((((a + 1) / 2) as nat), (((b + 1) / 2) as nat));
    }
}

/// A node of the hierarchy. A single primitive is a leaf; the original
/// represents it as a node whose two children alias the same primitive,
/// which bounds the same box.
pub enum BvhNode {
    Leaf { primitive: Primitive },
    Node { left: Box<BvhNode>, right: Box<BvhNode>, bounding_box: AABB },
}

impl BvhNode {
    /// The primitives at the tree's leaves, left to right.
    pub open spec fn primitives(self) -> Seq<Primitive>
        decreases self,
    {
        match self {
            BvhNode::Leaf { primitive } => seq![primitive],
            BvhNode::Node { left, right, .. } => left.primitives() + right.primitives(),
        }
    }

    /// The box this node covers.
    pub open spec fn bounding_box_spec(self) -> AABB {
        match self {
            BvhNode::Leaf { primitive } => primitive.bbox,
            BvhNode::Node { left: _, right: _, bounding_box } => bounding_box,
        }
    }

    /// Every interior box is exactly the union of its children's boxes,
    /// and every box satisfies the box invariant.
    pub open spec fn wf(self) -> bool
        decreases self,
    {
        match self {
            BvhNode::Leaf { primitive } => primitive.bbox.wf(),
            BvhNode::Node { left, right, bounding_box } => {
                &&& left.wf()
                &&& right.wf()
                &&& bounding_box == AABB::union_spec(
                    left.bounding_box_spec(),
                    right.bounding_box_spec(),
                )
            },
        }
    }

    /// Levels of the tree: a leaf is one level, a node one more than its
    /// taller child.
    pub open spec fn height(self) -> nat
        decreases self,
    {
        match self {
            BvhNode::Leaf { primitive: _ } => 1,
            BvhNode::Node { left, right, bounding_box: _ } => 1 + if left.height() >= right.height() {
                left.height()
            } else {
                right.height()
            },
        }
    }

    pub fn bounding_box(&self) -> (r: AABB)
        ensures
            r == self.bounding_box_spec(),
    {
        match self {
            BvhNode::Leaf { primitive } => primitive.bbox,
            BvhNode::Node { left: _, right: _, bounding_box } => *bounding_box,
        }
    }

    /// Builds the hierarchy over a non-empty list of primitives: a random
    /// axis, a sort along it, a midpoint split, and a union of the two
    /// halves' boxes on the way back up. The tree holds exactly the given
    /// primitives.
    pub fn from_list(list: Vec<Primitive>) -> (r: BvhNode)
        requires
            list@.len() >= 1,
            forall|k: int| 0 <= k < list@.len() ==> (#[trigger] list@[k]).bbox.wf(),
        ensures
            r.wf(),
            r.primitives().to_multiset() == list@.to_multiset(),
            r.primitives().len() == list@.len(),
            r.height() <= clog2(list@.len() as nat) + 1,
        decreases list@.len(),
    {
        let ghost original = list@;
        let axis_choice = random_below(3);
        let axis = match axis_choice {
            0 => AxisAlignedRectAxis::X,
            1 => AxisAlignedRectAxis::Y,
            _ => AxisAlignedRectAxis::Z,
        };

        let mut local_list = list;
        sort_by_axis_min(&mut local_list, axis);
        proof {
            lemma_multiset_members(original, local_list@);
            assert forall|k: int|
                0 <= k < local_list@.len() implies (#[trigger] local_list@[k]).bbox.wf() by {
                let x = local_list@[k];
                let w = choose|w: int| 0 <= w < original.len() && original[w] == x;
                assert(original[w].bbox.wf());
            }
        }

        let list_length = local_list.len();
        if list_length == 1 {
            let primitive = local_list[0];
            let node = BvhNode::Leaf { primitive };
            proof {
                assert(node.wf());
                assert(node.primitives() =~= local_list@);
                assert(node.height() == 1);
            }
            node
        } else if list_length == 2 {
            let first = local_list[0];
            let second = local_list[1];
            let left = BvhNode::Leaf { primitive: first };
            let right = BvhNode::Leaf { primitive: second };
            let bounding_box = AABB::get_union(&first.bbox, &second.bbox);
            let node = BvhNode::Node { left: Box::new(left), right: Box::new(right), bounding_box };
            proof {
                assert(left.wf() && right.wf());
                assert(left.primitives() =~= seq![first]);
                assert(right.primitives() =~= seq![second]);
                assert(node.wf());
                assert(node.primitives() =~= local_list@);
                assert(left.height() == 1 && right.height() == 1);
                assert(node.height() == 2);
                assert(clog2(1nat) == 0);
                assert(clog2(2nat) == 1);
            }
            node
        } else {
            let ghost sorted_all = local_list@;
            let half = list_length / 2;
            let second_half = local_list.split_off(half);
            let ghost left_part = local_list@;
            let ghost right_part = second_half@;
            proof {
                assert forall|k: int|
                    0 <= k < left_part.len() implies (#[trigger] left_part[k]).bbox.wf() by {
                    assert(left_part[k] == sorted_all[k]);
                }
                assert forall|k: int|
                    0 <= k < right_part.len() implies (#[trigger] right_part[k]).bbox.wf() by {
                    assert(right_part[k] == sorted_all[half + k]);
                }
            }
            let left = BvhNode::from_list(local_list);
            let right = BvhNode::from_list(second_half);
            let box_left = left.bounding_box();
            let box_right = right.bounding_box();
            let bounding_box = AABB::get_union(&box_left, &box_right);
            let node = BvhNode::Node { left: Box::new(left), right: Box::new(right), bounding_box };
            proof {
                assert(node.wf());
                assert(node.primitives() =~= left.primitives() + right.primitives());
                assert(left_part + right_part =~= sorted_all);
                lemma_multiset_commutative(left_part, right_part);
                lemma_multiset_commutative(left.primitives(), right.primitives());
                assert(node.primitives().to_multiset() =~= sorted_all.to_multiset());

                // The split halves the count (rounding the right part up),
                // so each level of the tree at least halves what is left.
                let n = list_length as int;
                let a = half as int;
                let b = n - a;
                assert(a == n / 2 && b == (n + 1) / 2 && a <= b && 2 <= b) by (nonlinear_arith)
                    requires
                        n >= 3,
                        a == n / 2,
                        b == n - a,
                ;
                lemma_clog2_monotone(a as nat, b as nat);
                assert(clog2(n as nat) == 1 + clog2(b as nat));
                assert(node.height() == 1 + if left.height() >= right.height() {
                    left.height()
                } else {
                    right.height()
                });
                assert(node.height() <= clog2(n as nat) + 1);
            }
            node
        }
    }
}

/// Two sequences with the same entries: every entry of the second occurs in
/// the first, so pointwise facts about the first's entries carry over.
proof fn lemma_multiset_members(s1: Seq<Primitive>, s2: Seq<Primitive>)
    requires
        s1.to_multiset() == s2.to_multiset(),
    ensures
        forall|i: int| 0 <= i < s2.len() ==> s1.contains(#[trigger] s2[i]),
{
    broadcast use vstd::seq_lib::group_to_multiset_ensures;

    assert forall|i: int| 0 <= i < s2.len() implies s1.contains(#[trigger] s2[i]) by {
        assert(s2.to_multiset().count(s2[i]) > 0);
    }
}

/// Sorts the primitives by their key box minimum along the chosen axis
/// (insertion sort), rearranging and never changing them.
pub fn sort_by_axis_min(list: &mut Vec<Primitive>, axis: AxisAlignedRectAxis)
    ensures
        final(list)@.len() == old(list)@.len(),
        final(list)@.to_multiset() == old(list)@.to_multiset(),
        sorted_by_axis(final(list)@, axis),
{
    let n = list.len();
    if n <= 1 {
        return ;
    }
    let mut i: usize = 1;
    while i < n
        invariant
            1 <= i <= n,
            list@.len() == n,
            list@.to_multiset() == old(list)@.to_multiset(),
            forall|a: int, b: int|
                0 <= a < b < i ==> sort_key(#[trigger] list@[a], axis) <= sort_key(
                    #[trigger] list@[b],
                    axis,
                ),
        decreases n - i,
    {
        let mut j: usize = i;
        loop
            invariant
                j <= i < n,
                list@.len() == n,
                list@.to_multiset() == old(list)@.to_multiset(),
                forall|a: int, b: int|
                    0 <= a < b <= i && b != j ==> sort_key(#[trigger] list@[a], axis) <= sort_key(
                        #[trigger] list@[b],
                        axis,
                    ),
            ensures
                list@.len() == n,
                list@.to_multiset() == old(list)@.to_multiset(),
                forall|a: int, b: int|
                    0 <= a < b <= i ==> sort_key(#[trigger] list@[a], axis) <= sort_key(
                        #[trigger] list@[b],
                        axis,
                    ),
            decreases j,
        {
            if j == 0 {
                break ;
            }
            let prev = list[j - 1];
            let here = list[j];
            if prev.key_bbox.min.component(axis) <= here.key_bbox.min.component(axis) {
                break ;
            }
            proof {
                lemma_swap_preserves_multiset(list@, j - 1 as int, j as int);
            }
            list.set(j - 1, here);
            list.set(j, prev);
            j = j - 1;
        }
        i = i + 1;
    }
}

/// Soundness of pruning: in a well-formed hierarchy, each node's box
/// contains the whole box of every primitive below it, so a ray that
/// misses the node's box meets none of them and the traversal may skip the
/// subtree; searching the tree therefore inspects a superset of whatever a
/// linear scan of the same primitives would find in any box.
pub proof fn lemma_bvh_box_contains_primitives(node: BvhNode)
    requires
        node.wf(),
    ensures
        forall|i: int|
            0 <= i < node.primitives().len() ==> node.bounding_box_spec().contains_box(
                (#[trigger] node.primitives()[i]).bbox,
            ),
    decreases node,
{
    match node {
        BvhNode::Leaf { primitive } => {
        },
        BvhNode::Node { left, right, bounding_box } => {
            lemma_bvh_box_contains_primitives(*left);
            lemma_bvh_box_contains_primitives(*right);
            lemma_union_contains(left.bounding_box_spec(), right.bounding_box_spec());
            assert forall|i: int|
                0 <= i < node.primitives().len() implies node.bounding_box_spec().contains_box(
                (#[trigger] node.primitives()[i]).bbox,
            ) by {
                let nl = left.primitives().len() as int;
                if i < nl {
                    assert(node.primitives()[i] == left.primitives()[i]);
                } else {
                    assert(node.primitives()[i] == right.primitives()[i - nl]);
                }
            }
        },
    }
}

} // verus!
