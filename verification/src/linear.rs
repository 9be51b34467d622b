//! Flattened BVH nodes and the shape of a well-formed linear array.
//!
//! The linear encoding is "left-implicit, right-explicit": an interior node
//! at index `i` has its left child at `i + 1` and its right child at the
//! index stored in `offset`; a leaf stores in `offset` the position of its
//! primitive in the reordered primitive list.

use vstd::prelude::*;

use crate::aabb::{box_contains_box, merged, same_corners, AABB};

verus! {

/// One record of the flattened hierarchy.
///
/// For a leaf: `offset` indexes the reordered primitive list,
/// `n_primitives` is 1 and `axis` is 0.  For an interior node:
/// `n_primitives` is 0, `axis` is the split axis and `offset` is the array
/// index of the right child.
#[derive(Clone, Copy, Debug, PartialEq, Eq, Structural)]
pub struct LinearBVHNode {
    pub aabb: AABB,
    pub offset: i32,
    pub n_primitives: i32,
    pub axis: i32,
}

impl LinearBVHNode {
    pub fn new(aabb: AABB, offset: i32, n_primitives: i32, axis: i32) -> (r: LinearBVHNode)
        ensures
            r == (LinearBVHNode { aabb, offset, n_primitives, axis }),
    {
        LinearBVHNode { aabb, offset, n_primitives, axis }
    }
}

/// The records `[i, end)` of `s` form one well-formed subtree rooted at
/// `i`: a leaf spans exactly one slot; an interior node is followed
/// directly by its left subtree, its `offset` names the first slot of its
/// right subtree, the two subtrees cover the rest of the span exactly, and
/// the node's box has exactly the corners of the union of its two
/// children's boxes (so it contains both).
///
/// Walking the array by these rules from the root visits every slot of the
/// span exactly once: each span splits into its head and the two disjoint
/// child spans.
pub open spec fn lin_wf(s: Seq<LinearBVHNode>, i: int, end: int) -> bool
    decreases end - i,
{
    if !(0 <= i && i < end && end <= s.len()) {
        false
    } else if s[i].n_primitives > 0 {
        end == i + 1
    } else {
        let ofs = s[i].offset as int;
        if i + 1 < ofs && ofs < end {
            &&& s[i].n_primitives == 0
            &&& 0 <= s[i].axis < 3
            &&& box_contains_box(s[i].aabb, s[i + 1].aabb)
            &&& box_contains_box(s[i].aabb, s[ofs].aabb)
            &&& same_corners(s[i].aabb, merged(s[i + 1].aabb, s[ofs].aabb))
            &&& lin_wf(s, i + 1, ofs)
            &&& lin_wf(s, ofs, end)
        } else {
            false
        }
    }
}

/// The leaf records of `s`, in array order.
pub open spec fn leaf_records(s: Seq<LinearBVHNode>) -> Seq<LinearBVHNode>
    decreases s.len(),
{
    if s.len() == 0 {
        Seq::empty()
    } else if s.last().n_primitives > 0 {
        leaf_records(s.drop_last()).push(s.last())
    } else {
        leaf_records(s.drop_last())
    }
}

/// `leaf_records` distributes over concatenation.
pub proof fn lemma_leaf_records_add(a: Seq<LinearBVHNode>, b: Seq<LinearBVHNode>)
    ensures
        leaf_records(a + b) == leaf_records(a) + leaf_records(b),
    decreases b.len(),
{
    if b.len() == 0 {
        assert(a + b =~= a);
        assert(leaf_records(b) =~= Seq::<LinearBVHNode>::empty());
        assert(leaf_records(a) + leaf_records(b) =~= leaf_records(a));
    } else {
        assert((a + b).drop_last() =~= a + b.drop_last());
        assert((a + b).last() == b.last());
        lemma_leaf_records_add(a, b.drop_last());
        if b.last().n_primitives > 0 {
            assert(leaf_records(a) + leaf_records(b.drop_last()).push(b.last()) =~= (leaf_records(
                a,
            ) + leaf_records(b.drop_last())).push(b.last()));
        }
    }
}

/// The leaf records of a single-record sequence.
pub proof fn lemma_leaf_records_single(r: LinearBVHNode)
    ensures
        r.n_primitives > 0 ==> leaf_records(seq![r]) == seq![r],
        r.n_primitives <= 0 ==> leaf_records(seq![r]) == Seq::<LinearBVHNode>::empty(),
{
    assert(seq![r].drop_last() =~= Seq::<LinearBVHNode>::empty());
    assert(leaf_records(Seq::<LinearBVHNode>::empty()) =~= Seq::<LinearBVHNode>::empty());
    if r.n_primitives > 0 {
        assert(leaf_records(seq![r]) =~= seq![r]);
    }
}

/// Every record that holds primitives appears among the leaf records, at
/// a position that counts the primitive-holding records before it.  With
/// the builder's guarantee about `leaf_records`, this pins every such
/// record down: it holds exactly one primitive, at the next free offset.
pub proof fn lemma_leaf_records_complete(s: Seq<LinearBVHNode>, j: int)
    requires
        0 <= j < s.len(),
        s[j].n_primitives > 0,
    ensures
        leaf_records(s).contains(s[j]),
        leaf_records(s.take(j + 1)) == leaf_records(s.take(j)).push(s[j]),
    decreases s.len(),
{
    if j == s.len() - 1 {
        assert(s.take(j + 1) =~= s);
        assert(s.take(j) =~= s.drop_last());
        assert(leaf_records(s).last() == s[j]);
        assert(leaf_records(s).contains(s[j]));
    } else {
        lemma_leaf_records_complete(s.drop_last(), j);
        assert(s.drop_last().take(j + 1) =~= s.take(j + 1));
        assert(s.drop_last().take(j) =~= s.take(j));
        assert(s.drop_last()[j] == s[j]);
        let r = leaf_records(s.drop_last());
        assert(r.contains(s[j]));
        if s.last().n_primitives > 0 {
            assert(leaf_records(s) == r.push(s.last()));
            let i = choose|i: int| 0 <= i < r.len() && r[i] == s[j];
            assert(leaf_records(s)[i] == s[j]);
        }
    }
}

/// Traversal addressing inside a well-formed span: for every interior
/// record at `j`, the record at `j + 1` exists and is its left child, the
/// record at its stored `offset` exists and is its right child, and the
/// node's box is exactly the union of the two children's boxes.
pub proof fn lemma_node_addressing(s: Seq<LinearBVHNode>, i: int, end: int, j: int)
    requires
        lin_wf(s, i, end),
        i <= j < end,
    ensures
        s[j].n_primitives == 0 ==> {
            &&& 0 <= s[j].axis < 3
            &&& j + 1 < s[j].offset < end
            &&& box_contains_box(s[j].aabb, s[j + 1].aabb)
            &&& box_contains_box(s[j].aabb, s[s[j].offset as int].aabb)
            &&& same_corners(s[j].aabb, merged(s[j + 1].aabb, s[s[j].offset as int].aabb))
        },
    decreases end - i,
{
    if j != i {
        let ofs = s[i].offset as int;
        if j < ofs {
            lemma_node_addressing(s, i + 1, ofs, j);
        } else {
            lemma_node_addressing(s, ofs, end, j);
        }
    }
}

} // verus!
