//! Export stage: serialise the linear node array and the reordered
//! primitive list into flat numeric buffers with fixed per-record strides,
//! and size the square power-of-two textures that hold them.
//!
//! A node record is 12 values: box minimum and maximum (3 each), offset,
//! primitive count, axis, shape tag, constant, material tag.  A primitive
//! record is 33 values laid out per shape tag, zero-padded.  The front end
//! converts the values to its floating-point scale on upload; the strides
//! and field order here are the contract with the traversal shader.

use vstd::arithmetic::power::pow;
use vstd::arithmetic::power2::{
    is_pow2, is_pow2_equiv, is_pow2_exists, lemma2_to64, lemma_pow2_pos,
    lemma_pow2_strictly_increases, lemma_pow2_unfold, pow2,
};
use vstd::prelude::*;

use crate::bvh::BVHTree;
use crate::linear::LinearBVHNode;
use crate::object::{views_of, ObjectV};
use crate::utils::{material_tag, material_tag_value, shape_tag, shape_tag_value, Vec3, SHAPE};

verus! {

/// The 12 packed values of one linear node.
pub open spec fn node_record(n: LinearBVHNode) -> Seq<i64> {
    seq![
        n.aabb.min.x,
        n.aabb.min.y,
        n.aabb.min.z,
        n.aabb.max.x,
        n.aabb.max.y,
        n.aabb.max.z,
        n.offset as i64,
        n.n_primitives as i64,
        n.axis as i64,
        shape_tag(n.aabb.shape) as i64,
        n.aabb.constant,
        material_tag(n.aabb.material) as i64,
    ]
}

/// The node records of the whole array, concatenated in order.
pub open spec fn pack_nodes(s: Seq<LinearBVHNode>) -> Seq<i64>
    decreases s.len(),
{
    if s.len() == 0 {
        Seq::empty()
    } else {
        pack_nodes(s.drop_last()) + node_record(s.last())
    }
}

/// The coordinates of a vertex list, three values per vertex, in order.
pub open spec fn coords_of(vs: Seq<Vec3>) -> Seq<i64>
    decreases vs.len(),
{
    if vs.len() == 0 {
        Seq::empty()
    } else {
        coords_of(vs.drop_last()) + seq![vs.last().x, vs.last().y, vs.last().z]
    }
}

/// `k` zero values of padding.
pub open spec fn zeros(k: int) -> Seq<i64> {
    Seq::new(k as nat, |q: int| 0i64)
}

/// The packed record of one primitive: 33 values for every shape that is
/// drawn, nothing for a `NONE` primitive.
pub open spec fn prim_record(o: ObjectV) -> Seq<i64> {
    match o.shape {
        SHAPE::NONE => Seq::empty(),
        SHAPE::RT_SPHERE => seq![
            o.center.x,
            o.center.y,
            o.center.z,
            o.albedo.x,
            o.albedo.y,
            o.albedo.z,
            o.radius,
        ] + zeros(26),
        SHAPE::RT_MESH => coords_of(o.vertices),
        SHAPE::RT_TRIANGLE => coords_of(o.vertices) + seq![o.albedo.x, o.albedo.y, o.albedo.z]
            + zeros(18),
        SHAPE::RT_RECTANGLE => coords_of(o.vertices) + seq![o.albedo.x, o.albedo.y, o.albedo.z]
            + zeros(15),
        SHAPE::RT_VOLUME => coords_of(o.vertices) + seq![o.albedo.x, o.albedo.y, o.albedo.z]
            + zeros(18),
    }
}

/// The primitive records of the whole list, concatenated in order.
pub open spec fn pack_prims(s: Seq<ObjectV>) -> Seq<i64>
    decreases s.len(),
{
    if s.len() == 0 {
        Seq::empty()
    } else {
        pack_prims(s.drop_last()) + prim_record(s.last())
    }
}

/// How many packed primitive records the list yields: one per primitive
/// that is not `NONE`.
pub open spec fn record_count(s: Seq<ObjectV>) -> int
    decreases s.len(),
{
    if s.len() == 0 {
        0int
    } else {
        record_count(s.drop_last()) + if s.last().shape is NONE {
            0int
        } else {
            1int
        }
    }
}

/// There are never more records than primitives.
pub proof fn lemma_record_count_le(s: Seq<ObjectV>)
    ensures
        0 <= record_count(s) <= s.len(),
    decreases s.len(),
{
    if s.len() > 0 {
        lemma_record_count_le(s.drop_last());
    }
}

/// A power of two strictly below another is at most its half.
proof fn lemma_pow2_gap(p: int, q: int)
    requires
        is_pow2(p),
        is_pow2(q),
        p < q,
    ensures
        2 * p <= q,
{
    broadcast use is_pow2_equiv;
    broadcast use vstd::arithmetic::power::lemma_pow_positive;
    broadcast use lemma_pow2_strictly_increases;
    broadcast use lemma_pow2_unfold;

    let i = choose|i: nat| pow(2, i) == p;
    let j = choose|j: nat| pow(2, j) == q;
    assert(pow2(i) == p);
    assert(pow2(j) == q);
    if i >= j {
        if i > j {
            assert(pow2(j) < pow2(i));
        }
        assert(false);
    }
    assert(pow2(i + 1) == 2 * pow2(i));
    if i + 1 < j {
        assert(pow2(i + 1) < pow2(j));
    }
}

/// Side length of the square texture that holds `size` texels: the
/// smallest power of two whose square is at least `size`, found by
/// doubling from 1.
pub fn get_length(size: i32) -> (r: i32)
    ensures
        r >= 1,
        is_pow2(r as int),
        (r as int) * (r as int) >= size,
        forall|p: int| #[trigger] is_pow2(p) && p < r ==> p * p < size,
{
    let mut length: i64 = 1;
    let ghost mut e: nat = 0;
    proof {
        lemma2_to64();
    }
    loop
        invariant
            1 <= length <= 0x10000,
            length as int == pow2(e),
            e <= 16,
            length == 1 || ((length as int) / 2) * ((length as int) / 2) < size,
        ensures
            1 <= length <= 0x10000,
            length as int == pow2(e),
            (length as int) * (length as int) >= size,
            length == 1 || ((length as int) / 2) * ((length as int) / 2) < size,
        decreases 0x10000 - length,
    {
        proof {
            assert(1 <= length * length <= 0x1_0000_0000) by (nonlinear_arith)
                requires
                    1 <= length <= 0x10000,
            ;
        }
        let sq: i64 = length * length;
        if !(sq < size as i64) {
            break;
        }
        proof {
            lemma2_to64();
            if e == 16 {
                assert(length == 0x10000);
                assert(length * length == 0x1_0000_0000) by (nonlinear_arith)
                    requires
                        length == 0x10000,
                ;
                assert(false);
            }
            e = e + 1;
        }
        length = length * 2;
        proof {
            lemma2_to64();
            lemma_pow2_unfold(e);
            if e < 16 {
                lemma_pow2_strictly_increases(e, 16);
            }
        }
    }
    proof {
        lemma_pow2_pos(e);
        vstd::arithmetic::power::lemma_pow_positive(2, e);
        assert(pow(2, e) == length as int);
        assert(is_pow2_exists(length as int));
        broadcast use is_pow2_equiv;

        assert forall|p: int| is_pow2(p) && p < length as int implies p * p < size by {
            reveal(is_pow2);
            if length == 1 {
                assert(false);
            } else {
                lemma_pow2_gap(p, length as int);
                let h = (length as int) / 2;
                assert(p <= h);
                assert(p * p <= h * h) by (nonlinear_arith)
                    requires
                        1 <= p <= h,
                ;
            }
        }
    }
    length as i32
}

/// Side length of the square RGB texture that holds `n` packed values,
/// three to a texel: the smallest power of two `s` with `s * s * 3 >= n`,
/// found by doubling from 1.
pub fn texture_side(n: i32) -> (r: i32)
    ensures
        r >= 1,
        is_pow2(r as int),
        3 * ((r as int) * (r as int)) >= n,
        forall|p: int| #[trigger] is_pow2(p) && p < r ==> 3 * (p * p) < n,
{
    let mut length: i64 = 1;
    let ghost mut e: nat = 0;
    proof {
        lemma2_to64();
    }
    loop
        invariant
            1 <= length <= 0x10000,
            length as int == pow2(e),
            e <= 16,
            length == 1 || 3 * (((length as int) / 2) * ((length as int) / 2)) < n,
        ensures
            1 <= length <= 0x10000,
            length as int == pow2(e),
            3 * ((length as int) * (length as int)) >= n,
            length == 1 || 3 * (((length as int) / 2) * ((length as int) / 2)) < n,
        decreases 0x10000 - length,
    {
        proof {
            assert(1 <= length * length <= 0x1_0000_0000) by (nonlinear_arith)
                requires
                    1 <= length <= 0x10000,
            ;
        }
        let sq: i64 = length * length;
        let tri: i64 = 3 * sq;
        if !(tri < n as i64) {
            break;
        }
        proof {
            lemma2_to64();
            if e == 16 {
                assert(length == 0x10000);
                assert(length * length == 0x1_0000_0000) by (nonlinear_arith)
                    requires
                        length == 0x10000,
                ;
                assert(false);
            }
            e = e + 1;
        }
        length = length * 2;
        proof {
            lemma2_to64();
            lemma_pow2_unfold(e);
            if e < 16 {
                lemma_pow2_strictly_increases(e, 16);
            }
        }
    }
    proof {
        lemma_pow2_pos(e);
        vstd::arithmetic::power::lemma_pow_positive(2, e);
        assert(pow(2, e) == length as int);
        assert(is_pow2_exists(length as int));
        broadcast use is_pow2_equiv;

        assert forall|p: int| is_pow2(p) && p < length as int implies 3 * (p * p) < n by {
            reveal(is_pow2);
            if length == 1 {
                assert(false);
            } else {
                lemma_pow2_gap(p, length as int);
                let h = (length as int) / 2;
                assert(p <= h);
                assert(p * p <= h * h) by (nonlinear_arith)
                    requires
                        1 <= p <= h,
                ;
            }
        }
    }
    length as i32
}

impl BVHTree {
    /// Serialise the linear node array and the ordered primitive list into
    /// the two numeric buffers the textures are filled from, counting the
    /// emitted records into `node_number` and `vertices_number`.
    pub fn set_texture(&mut self) -> (r: (Vec<i64>, Vec<i64>))
        requires
            old(self).node_number + old(self).linear_bvh_node@.len() <= i32::MAX,
            old(self).vertices_number + old(self).primitives@.len() <= i32::MAX,
        ensures
            r.0@ == pack_nodes(old(self).linear_bvh_node@),
            r.1@ == pack_prims(views_of(old(self).primitives@)),
            final(self).node_number == old(self).node_number + old(
                self,
            ).linear_bvh_node@.len(),
            final(self).vertices_number == old(self).vertices_number + record_count(
                views_of(old(self).primitives@),
            ),
            final(self).primitives == old(self).primitives,
            final(self).linear_bvh_node == old(self).linear_bvh_node,
    {
        let mut node_data: Vec<i64> = Vec::new();
        let nn = self.linear_bvh_node.len();
        let mut node_count: i32 = self.node_number;
        let mut i: usize = 0;
        while i < nn
            invariant
                i <= nn,
                nn == self.linear_bvh_node@.len(),
                self.node_number + nn <= i32::MAX,
                node_count as int == self.node_number + i,
                node_data@ == pack_nodes(self.linear_bvh_node@.take(i as int)),
            decreases nn - i,
        {
            let node = self.linear_bvh_node[i];
            node_data.push(node.aabb.min.x);
            node_data.push(node.aabb.min.y);
            node_data.push(node.aabb.min.z);
            node_data.push(node.aabb.max.x);
            node_data.push(node.aabb.max.y);
            node_data.push(node.aabb.max.z);
            node_data.push(node.offset as i64);
            node_data.push(node.n_primitives as i64);
            node_data.push(node.axis as i64);
            node_data.push(shape_tag_value(node.aabb.shape));
            node_data.push(node.aabb.constant);
            node_data.push(material_tag_value(node.aabb.material));
            node_count = node_count + 1;
            proof {
                let lin = self.linear_bvh_node@;
                assert(lin.take(i + 1).drop_last() =~= lin.take(i as int));
                assert(lin.take(i + 1).last() == node);
                assert(node_data@ =~= pack_nodes(lin.take(i as int)) + node_record(node));
            }
            i = i + 1;
        }
        proof {
            assert(self.linear_bvh_node@.take(nn as int) =~= self.linear_bvh_node@);
        }
        self.node_number = node_count;
        let mut vertex_data: Vec<i64> = Vec::new();
        let pn = self.primitives.len();
        let mut vert_count: i32 = self.vertices_number;
        let mut i: usize = 0;
        while i < pn
            invariant
                i <= pn,
                pn == self.primitives@.len(),
                self.vertices_number + pn <= i32::MAX,
                vert_count as int == self.vertices_number + record_count(
                    views_of(self.primitives@.take(i as int)),
                ),
                vertex_data@ == pack_prims(views_of(self.primitives@.take(i as int))),
            decreases pn - i,
        {
            proof {
                lemma_record_count_le(views_of(self.primitives@.take(i as int)));
            }
            let ghost pre = vertex_data@;
            let o = &self.primitives[i];
            match o.shape {
                SHAPE::NONE => {},
                SHAPE::RT_SPHERE => {
                    vertex_data.push(o.center.x);
                    vertex_data.push(o.center.y);
                    vertex_data.push(o.center.z);
                    vertex_data.push(o.albedo.x);
                    vertex_data.push(o.albedo.y);
                    vertex_data.push(o.albedo.z);
                    vertex_data.push(o.radius);
                    let ghost mid = vertex_data@;
                    let mut q: usize = 0;
                    while q < 26
                        invariant
                            q <= 26,
                            vertex_data@ == mid + zeros(q as int),
                        decreases 26 - q,
                    {
                        vertex_data.push(0);
                        proof {
                            assert(vertex_data@ =~= mid + zeros(q as int + 1));
                        }
                        q = q + 1;
                    }
                    vert_count = vert_count + 1;
                    proof {
                        assert(vertex_data@ =~= pre + prim_record(o@));
                    }
                },
                SHAPE::RT_MESH => {
                    push_coords(&mut vertex_data, &o.vertices);
                    vert_count = vert_count + 1;
                },
                SHAPE::RT_TRIANGLE => {
                    push_coords(&mut vertex_data, &o.vertices);
                    vertex_data.push(o.albedo.x);
                    vertex_data.push(o.albedo.y);
                    vertex_data.push(o.albedo.z);
                    let ghost mid = vertex_data@;
                    let mut q: usize = 0;
                    while q < 18
                        invariant
                            q <= 18,
                            vertex_data@ == mid + zeros(q as int),
                        decreases 18 - q,
                    {
                        vertex_data.push(0);
                        proof {
                            assert(vertex_data@ =~= mid + zeros(q as int + 1));
                        }
                        q = q + 1;
                    }
                    vert_count = vert_count + 1;
                    proof {
                        assert(vertex_data@ =~= pre + prim_record(o@));
                    }
                },
                SHAPE::RT_RECTANGLE => {
                    push_coords(&mut vertex_data, &o.vertices);
                    vertex_data.push(o.albedo.x);
                    vertex_data.push(o.albedo.y);
                    vertex_data.push(o.albedo.z);
                    let ghost mid = vertex_data@;
                    let mut q: usize = 0;
                    while q < 15
                        invariant
                            q <= 15,
                            vertex_data@ == mid + zeros(q as int),
                        decreases 15 - q,
                    {
                        vertex_data.push(0);
                        proof {
                            assert(vertex_data@ =~= mid + zeros(q as int + 1));
                        }
                        q = q + 1;
                    }
                    vert_count = vert_count + 1;
                    proof {
                        assert(vertex_data@ =~= pre + prim_record(o@));
                    }
                },
                SHAPE::RT_VOLUME => {
                    push_coords(&mut vertex_data, &o.vertices);
                    vertex_data.push(o.albedo.x);
                    vertex_data.push(o.albedo.y);
                    vertex_data.push(o.albedo.z);
                    let ghost mid = vertex_data@;
                    let mut q: usize = 0;
                    while q < 18
                        invariant
                            q <= 18,
                            vertex_data@ == mid + zeros(q as int),
                        decreases 18 - q,
                    {
                        vertex_data.push(0);
                        proof {
                            assert(vertex_data@ =~= mid + zeros(q as int + 1));
                        }
                        q = q + 1;
                    }
                    vert_count = vert_count + 1;
                    proof {
                        assert(vertex_data@ =~= pre + prim_record(o@));
                    }
                },
            }
            proof {
                let prims = self.primitives@;
                assert(views_of(prims.take(i + 1)).drop_last() =~= views_of(prims.take(i as int)));
                assert(views_of(prims.take(i + 1)).last() == prims[i as int]@);
                assert(vertex_data@ =~= pack_prims(views_of(prims.take(i + 1))));
            }
            i = i + 1;
        }
        proof {
            assert(self.primitives@.take(pn as int) =~= self.primitives@);
        }
        self.vertices_number = vert_count;
        (node_data, vertex_data)
    }

    /// Side lengths of the two square textures the buffers are uploaded
    /// into: the node buffer spans four texels per counted node record,
    /// the primitive buffer eleven per counted primitive record.
    pub fn texture_lengths(&self) -> (r: (i32, i32))
        requires
            0 <= self.node_number,
            0 <= self.vertices_number,
            4 * self.node_number <= i32::MAX,
            11 * self.vertices_number <= i32::MAX,
        ensures
            r.0 >= 1,
            is_pow2(r.0 as int),
            (r.0 as int) * (r.0 as int) >= 4 * self.node_number,
            forall|p: int| #[trigger] is_pow2(p) && p < r.0 ==> p * p < 4 * self.node_number,
            r.1 >= 1,
            is_pow2(r.1 as int),
            (r.1 as int) * (r.1 as int) >= 11 * self.vertices_number,
            forall|p: int| #[trigger] is_pow2(p) && p < r.1 ==> p * p < 11 * self.vertices_number,
    {
        (get_length(self.node_number * 4), get_length(self.vertices_number * 11))
    }
}

/// Append the coordinates of every vertex, three values per vertex.
fn push_coords(data: &mut Vec<i64>, vs: &Vec<Vec3>)
    ensures
        final(data)@ == old(data)@ + coords_of(vs@),
{
    let n = vs.len();
    let mut t: usize = 0;
    while t < n
        invariant
            t <= n,
            n == vs@.len(),
            data@ == old(data)@ + coords_of(vs@.take(t as int)),
        decreases n - t,
    {
        let v = vs[t];
        data.push(v.x);
        data.push(v.y);
        data.push(v.z);
        proof {
            assert(vs@.take(t + 1).drop_last() =~= vs@.take(t as int));
            assert(vs@.take(t + 1).last() == v);
            assert(data@ =~= old(data)@ + coords_of(vs@.take(t + 1)));
        }
        t = t + 1;
    }
    proof {
        assert(vs@.take(n as int) =~= vs@);
        assert(coords_of(vs@.take(0)) =~= Seq::<i64>::empty());
    }
}

} // verus!
