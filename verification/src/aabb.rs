//! Axis-aligned bounding boxes and the merge operations of the builder.
//!
//! An AABB carries, besides its two corners, the shape tag, scalar constant
//! and material tag of the primitive it bounds; these ride along into the
//! packed GPU records.  A freshly constructed box is "empty": its per-axis
//! minimum is `MAX_COORD` and its maximum `MIN_COORD`, which makes it the
//! identity element of `merge_aabb`.

use vstd::prelude::*;

use crate::utils::{Vec3, COORD_LIMIT, MATERIAL, MAX_COORD, MIN_COORD, SHAPE};

verus! {

/// Bounding box of one primitive, or the union of several.
#[derive(Clone, Copy, Debug, PartialEq, Eq, Structural)]
pub struct AABB {
    pub min: Vec3,
    pub max: Vec3,
    pub shape: SHAPE,
    pub constant: i64,
    pub material: MATERIAL,
}

/// The smaller of two coordinates.
pub open spec fn min_int(a: int, b: int) -> int {
    if a <= b {
        a
    } else {
        b
    }
}

/// The larger of two coordinates.
pub open spec fn max_int(a: int, b: int) -> int {
    if a >= b {
        a
    } else {
        b
    }
}

/// The empty box: the identity element of `merge_aabb`.
pub open spec fn aabb_empty() -> AABB {
    AABB {
        min: Vec3 { x: MAX_COORD, y: MAX_COORD, z: MAX_COORD },
        max: Vec3 { x: MIN_COORD, y: MIN_COORD, z: MIN_COORD },
        shape: SHAPE::NONE,
        constant: 0,
        material: MATERIAL::NONE,
    }
}

/// One axis of a box is either a real interval with both ends `in_range`, or
/// still the untouched empty-box sentinel pair.
pub open spec fn axis_pair_ok(mn: int, mx: int) -> bool {
    ||| crate::utils::in_range(mn) && crate::utils::in_range(mx)
    ||| mn == MAX_COORD && mx == MIN_COORD
}

/// Every axis of the box is a real in-range interval or the sentinel pair.
pub open spec fn box_ok(a: AABB) -> bool {
    &&& axis_pair_ok(a.min.x as int, a.max.x as int)
    &&& axis_pair_ok(a.min.y as int, a.max.y as int)
    &&& axis_pair_ok(a.min.z as int, a.max.z as int)
}

/// Every coordinate of the box is `in_range` (no sentinel axes).
pub open spec fn box_in_range(a: AABB) -> bool {
    &&& crate::utils::in_range(a.min.x as int)
    &&& crate::utils::in_range(a.min.y as int)
    &&& crate::utils::in_range(a.min.z as int)
    &&& crate::utils::in_range(a.max.x as int)
    &&& crate::utils::in_range(a.max.y as int)
    &&& crate::utils::in_range(a.max.z as int)
}

/// `p` lies within `a` on every axis.
pub open spec fn box_contains_point(a: AABB, p: Vec3) -> bool {
    &&& a.min.x <= p.x <= a.max.x
    &&& a.min.y <= p.y <= a.max.y
    &&& a.min.z <= p.z <= a.max.z
}

/// `inner` lies within `outer` on every axis.
pub open spec fn box_contains_box(outer: AABB, inner: AABB) -> bool {
    &&& outer.min.x <= inner.min.x && inner.max.x <= outer.max.x
    &&& outer.min.y <= inner.min.y && inner.max.y <= outer.max.y
    &&& outer.min.z <= inner.min.z && inner.max.z <= outer.max.z
}

/// Result of `merge_aabb`: the axis-wise union interval of the two boxes.
/// Shape, constant and material are those of the empty box; callers must not
/// read meaning into them.
pub open spec fn merged(a: AABB, b: AABB) -> AABB {
    AABB {
        min: Vec3 {
            x: if a.min.x <= b.min.x { a.min.x } else { b.min.x },
            y: if a.min.y <= b.min.y { a.min.y } else { b.min.y },
            z: if a.min.z <= b.min.z { a.min.z } else { b.min.z },
        },
        max: Vec3 {
            x: if a.max.x >= b.max.x { a.max.x } else { b.max.x },
            y: if a.max.y >= b.max.y { a.max.y } else { b.max.y },
            z: if a.max.z >= b.max.z { a.max.z } else { b.max.z },
        },
        shape: SHAPE::NONE,
        constant: 0,
        material: MATERIAL::NONE,
    }
}

/// Result of `merge_vec3`: the box grown to take in the point `p`.
pub open spec fn merged_point(a: AABB, p: Vec3) -> AABB {
    AABB {
        min: Vec3 {
            x: if a.min.x <= p.x { a.min.x } else { p.x },
            y: if a.min.y <= p.y { a.min.y } else { p.y },
            z: if a.min.z <= p.z { a.min.z } else { p.z },
        },
        max: Vec3 {
            x: if a.max.x >= p.x { a.max.x } else { p.x },
            y: if a.max.y >= p.y { a.max.y } else { p.y },
            z: if a.max.z >= p.z { a.max.z } else { p.z },
        },
        shape: SHAPE::NONE,
        constant: 0,
        material: MATERIAL::NONE,
    }
}

/// Two boxes with the same corners (their tag fields may differ).
pub open spec fn same_corners(a: AABB, b: AABB) -> bool {
    a.min == b.min && a.max == b.max
}

/// Per-axis minimum of a point list, folded left to right into the
/// empty-box sentinel.
pub open spec fn fold_min(s: Seq<Vec3>, ax: int) -> int
    decreases s.len(),
{
    if s.len() == 0 {
        MAX_COORD as int
    } else {
        min_int(fold_min(s.drop_last(), ax), s.last().axis(ax))
    }
}

/// Per-axis maximum of a point list, folded left to right into the
/// empty-box sentinel.
pub open spec fn fold_max(s: Seq<Vec3>, ax: int) -> int
    decreases s.len(),
{
    if s.len() == 0 {
        MIN_COORD as int
    } else {
        max_int(fold_max(s.drop_last(), ax), s.last().axis(ax))
    }
}

/// The fold minimum is a lower bound on every listed point, and the fold
/// maximum an upper bound.
pub proof fn lemma_fold_bounds_elem(s: Seq<Vec3>, ax: int, k: int)
    requires
        0 <= k < s.len(),
    ensures
        fold_min(s, ax) <= s[k].axis(ax),
        fold_max(s, ax) >= s[k].axis(ax),
    decreases s.len(),
{
    if k < s.len() - 1 {
        lemma_fold_bounds_elem(s.drop_last(), ax, k);
    }
}

/// Over a non-empty list of points bounded by `b`, the folds land within
/// `[-b, b]`, in order.
pub proof fn lemma_fold_in_bound(s: Seq<Vec3>, ax: int, b: int)
    requires
        s.len() > 0,
        0 <= b,
        forall|k: int| 0 <= k < s.len() ==> -b <= #[trigger] s[k].axis(ax) <= b,
    ensures
        -b <= fold_min(s, ax) <= b,
        -b <= fold_max(s, ax) <= b,
        fold_min(s, ax) <= fold_max(s, ax),
    decreases s.len(),
{
    assert(s.last() == s[s.len() - 1]);
    if s.len() == 1 {
        assert(fold_min(s.drop_last(), ax) == MAX_COORD as int);
        assert(fold_max(s.drop_last(), ax) == MIN_COORD as int);
    } else {
        assert forall|k: int| 0 <= k < s.drop_last().len() implies -b <= #[trigger] s.drop_last()[k].axis(ax) <= b by {
            assert(s.drop_last()[k] == s[k]);
        }
        lemma_fold_in_bound(s.drop_last(), ax, b);
    }
}

impl AABB {
    /// A fresh empty box: the merge identity.
    pub fn new() -> (r: AABB)
        ensures
            r == aabb_empty(),
    {
        AABB {
            min: Vec3 { x: MAX_COORD, y: MAX_COORD, z: MAX_COORD },
            max: Vec3 { x: MIN_COORD, y: MIN_COORD, z: MIN_COORD },
            shape: SHAPE::NONE,
            constant: 0,
            material: MATERIAL::NONE,
        }
    }

    /// Bounds of a triangle sampled out of a mesh: the axis-wise fold of its
    /// defining points.
    pub fn new_mesh(vertices: Vec<Vec3>, constant: i64, material: MATERIAL) -> (r: AABB)
        ensures
            r == fold_box_spec(vertices@, SHAPE::RT_MESH, constant, material),
            forall|k: int|
                0 <= k < vertices@.len() ==> box_contains_point(r, #[trigger] vertices@[k]),
    {
        fold_box(&vertices, SHAPE::RT_MESH, constant, material)
    }

    /// Bounds of a sphere: the centre offset by the radius on every axis.
    pub fn new_sphere(center: Vec3, radius: i64, constant: i64, material: MATERIAL) -> (r: AABB)
        requires
            center.within(COORD_LIMIT as int),
            -COORD_LIMIT <= radius <= COORD_LIMIT,
        ensures
            r.min.x == center.x - radius,
            r.min.y == center.y - radius,
            r.min.z == center.z - radius,
            r.max.x == center.x + radius,
            r.max.y == center.y + radius,
            r.max.z == center.z + radius,
            r.shape == SHAPE::RT_SPHERE,
            r.constant == constant,
            r.material == material,
    {
        AABB {
            min: Vec3 { x: center.x - radius, y: center.y - radius, z: center.z - radius },
            max: Vec3 { x: center.x + radius, y: center.y + radius, z: center.z + radius },
            shape: SHAPE::RT_SPHERE,
            constant,
            material,
        }
    }

    /// Bounds of a triangle: the axis-wise fold of its defining points.
    pub fn new_triangle(vertices: Vec<Vec3>, constant: i64, material: MATERIAL) -> (r: AABB)
        ensures
            r == fold_box_spec(vertices@, SHAPE::RT_TRIANGLE, constant, material),
            forall|k: int|
                0 <= k < vertices@.len() ==> box_contains_point(r, #[trigger] vertices@[k]),
    {
        fold_box(&vertices, SHAPE::RT_TRIANGLE, constant, material)
    }

    /// Bounds of a rectangle: the axis-wise fold of its defining points.
    pub fn new_rectangle(vertices: Vec<Vec3>, constant: i64, material: MATERIAL) -> (r: AABB)
        ensures
            r == fold_box_spec(vertices@, SHAPE::RT_RECTANGLE, constant, material),
            forall|k: int|
                0 <= k < vertices@.len() ==> box_contains_point(r, #[trigger] vertices@[k]),
    {
        fold_box(&vertices, SHAPE::RT_RECTANGLE, constant, material)
    }

    /// Bounds of a box volume.  The first four input vertices are corners;
    /// three edge vectors are taken relative to the fourth, and the eight
    /// corner points they span are folded into the bounds.
    pub fn new_box_volume(vertices: Vec<Vec3>, constant: i64, material: MATERIAL) -> (r: AABB)
        requires
            vertices@.len() >= 4,
            forall|k: int| 0 <= k < 4 ==> (#[trigger] vertices@[k]).within(COORD_LIMIT as int),
        ensures
            r == fold_box_spec(
                volume_corners(vertices@),
                SHAPE::RT_VOLUME,
                constant,
                material,
            ),
            forall|k: int|
                0 <= k < volume_corners(vertices@).len() ==> box_contains_point(
                    r,
                    #[trigger] volume_corners(vertices@)[k],
                ),
    {
        let v0 = vertices[0];
        let v1 = vertices[1];
        let v2 = vertices[2];
        let v3 = vertices[3];
        let length = v_sub(&v0, &v3);
        let width = v_sub(&v1, &v3);
        let height = v_sub(&v2, &v3);
        let mut corners: Vec<Vec3> = Vec::new();
        corners.push(v0);
        corners.push(v1);
        corners.push(v2);
        corners.push(v3);
        corners.push(v_add(&v_add(&v_add(&v3, &length), &width), &height));
        corners.push(v_add(&v_add(&v3, &length), &width));
        corners.push(v_add(&v_add(&v3, &length), &height));
        corners.push(v_add(&v_add(&v3, &width), &height));
        proof {
            assert(corners@ =~= volume_corners(vertices@));
        }
        fold_box(&corners, SHAPE::RT_VOLUME, constant, material)
    }
}

/// Component-wise sum, exact under the coordinate headroom.
pub open spec fn vadd(a: Vec3, b: Vec3) -> Vec3 {
    Vec3 { x: (a.x + b.x) as i64, y: (a.y + b.y) as i64, z: (a.z + b.z) as i64 }
}

/// Component-wise difference, exact under the coordinate headroom.
pub open spec fn vsub(a: Vec3, b: Vec3) -> Vec3 {
    Vec3 { x: (a.x - b.x) as i64, y: (a.y - b.y) as i64, z: (a.z - b.z) as i64 }
}

/// The eight corner points a box volume spans: the four input corners, then
/// the fourth one offset by every sum of two or three of the edge vectors.
pub open spec fn volume_corners(vs: Seq<Vec3>) -> Seq<Vec3> {
    let length = vsub(vs[0], vs[3]);
    let width = vsub(vs[1], vs[3]);
    let height = vsub(vs[2], vs[3]);
    seq![
        vs[0],
        vs[1],
        vs[2],
        vs[3],
        vadd(vadd(vadd(vs[3], length), width), height),
        vadd(vadd(vs[3], length), width),
        vadd(vadd(vs[3], length), height),
        vadd(vadd(vs[3], width), height),
    ]
}

fn v_add(a: &Vec3, b: &Vec3) -> (r: Vec3)
    requires
        i64::MIN <= a.x + b.x <= i64::MAX,
        i64::MIN <= a.y + b.y <= i64::MAX,
        i64::MIN <= a.z + b.z <= i64::MAX,
    ensures
        r == vadd(*a, *b),
{
    Vec3 { x: a.x + b.x, y: a.y + b.y, z: a.z + b.z }
}

fn v_sub(a: &Vec3, b: &Vec3) -> (r: Vec3)
    requires
        i64::MIN <= a.x - b.x <= i64::MAX,
        i64::MIN <= a.y - b.y <= i64::MAX,
        i64::MIN <= a.z - b.z <= i64::MAX,
    ensures
        r == vsub(*a, *b),
{
    Vec3 { x: a.x - b.x, y: a.y - b.y, z: a.z - b.z }
}

/// The box a list of points folds to, with the given tags.
pub open spec fn fold_box_spec(
    points: Seq<Vec3>,
    shape: SHAPE,
    constant: i64,
    material: MATERIAL,
) -> AABB {
    AABB {
        min: Vec3 {
            x: fold_min(points, 0) as i64,
            y: fold_min(points, 1) as i64,
            z: fold_min(points, 2) as i64,
        },
        max: Vec3 {
            x: fold_max(points, 0) as i64,
            y: fold_max(points, 1) as i64,
            z: fold_max(points, 2) as i64,
        },
        shape,
        constant,
        material,
    }
}

/// Fold a point list into a fresh box, keeping the given tags.
fn fold_box(points: &Vec<Vec3>, shape: SHAPE, constant: i64, material: MATERIAL) -> (r: AABB)
    ensures
        r == fold_box_spec(points@, shape, constant, material),
        forall|k: int| 0 <= k < points@.len() ==> box_contains_point(r, #[trigger] points@[k]),
{
    let mut min = Vec3 { x: MAX_COORD, y: MAX_COORD, z: MAX_COORD };
    let mut max = Vec3 { x: MIN_COORD, y: MIN_COORD, z: MIN_COORD };
    let n = points.len();
    let mut i: usize = 0;
    while i < n
        invariant
            i <= n,
            n == points@.len(),
            min.x as int == fold_min(points@.take(i as int), 0),
            min.y as int == fold_min(points@.take(i as int), 1),
            min.z as int == fold_min(points@.take(i as int), 2),
            max.x as int == fold_max(points@.take(i as int), 0),
            max.y as int == fold_max(points@.take(i as int), 1),
            max.z as int == fold_max(points@.take(i as int), 2),
        decreases n - i,
    {
        let p = points[i];
        proof {
            assert(points@.take(i + 1).drop_last() =~= points@.take(i as int));
            assert(points@.take(i + 1).last() == p);
        }
        if p.x < min.x {
            min.x = p.x;
        }
        if p.y < min.y {
            min.y = p.y;
        }
        if p.z < min.z {
            min.z = p.z;
        }
        if p.x > max.x {
            max.x = p.x;
        }
        if p.y > max.y {
            max.y = p.y;
        }
        if p.z > max.z {
            max.z = p.z;
        }
        i = i + 1;
    }
    proof {
        assert(points@.take(n as int) =~= points@);
        assert forall|k: int| 0 <= k < points@.len() implies box_contains_point(
            AABB { min, max, shape, constant, material },
            #[trigger] points@[k],
        ) by {
            lemma_fold_bounds_elem(points@, 0, k);
            lemma_fold_bounds_elem(points@, 1, k);
            lemma_fold_bounds_elem(points@, 2, k);
        }
    }
    AABB { min, max, shape, constant, material }
}

/// Axis-wise union of two boxes; the tag fields are reset as by `AABB::new`.
pub fn merge_aabb(a: &AABB, b: &AABB) -> (r: AABB)
    ensures
        r == merged(*a, *b),
{
    AABB {
        min: Vec3 {
            x: if a.min.x <= b.min.x { a.min.x } else { b.min.x },
            y: if a.min.y <= b.min.y { a.min.y } else { b.min.y },
            z: if a.min.z <= b.min.z { a.min.z } else { b.min.z },
        },
        max: Vec3 {
            x: if a.max.x >= b.max.x { a.max.x } else { b.max.x },
            y: if a.max.y >= b.max.y { a.max.y } else { b.max.y },
            z: if a.max.z >= b.max.z { a.max.z } else { b.max.z },
        },
        shape: SHAPE::NONE,
        constant: 0,
        material: MATERIAL::NONE,
    }
}

/// Grow a box to take in a single point; the tag fields are reset as by
/// `AABB::new`.
pub fn merge_vec3(a: &AABB, b: &Vec3) -> (r: AABB)
    ensures
        r == merged_point(*a, *b),
{
    AABB {
        min: Vec3 {
            x: if a.min.x <= b.x { a.min.x } else { b.x },
            y: if a.min.y <= b.y { a.min.y } else { b.y },
            z: if a.min.z <= b.z { a.min.z } else { b.z },
        },
        max: Vec3 {
            x: if a.max.x >= b.x { a.max.x } else { b.x },
            y: if a.max.y >= b.y { a.max.y } else { b.y },
            z: if a.max.z >= b.z { a.max.z } else { b.z },
        },
        shape: SHAPE::NONE,
        constant: 0,
        material: MATERIAL::NONE,
    }
}

/// Axis choice of the recursive builder: the axis of the largest extent.
/// Axis 0 wins only when strictly larger than both others; otherwise axis 1
/// wins when strictly larger than axis 2; otherwise axis 2.
pub open spec fn dominant_axis(a: AABB) -> int {
    let d0 = a.max.x - a.min.x;
    let d1 = a.max.y - a.min.y;
    let d2 = a.max.z - a.min.z;
    if d0 > d1 && d0 > d2 {
        0
    } else if d1 > d2 {
        1
    } else {
        2
    }
}

/// Runtime value of `dominant_axis`.
pub fn aabb_axis(a: &AABB) -> (r: i32)
    requires
        box_in_range(*a),
    ensures
        r as int == dominant_axis(*a),
        0 <= r < 3,
{
    let d0 = a.max.x - a.min.x;
    let d1 = a.max.y - a.min.y;
    let d2 = a.max.z - a.min.z;
    if d0 > d1 && d0 > d2 {
        0
    } else if d1 > d2 {
        1
    } else {
        2
    }
}

/// Merging the empty box with any box `b` whose maxima are real coordinates
/// (at least `MIN_COORD`) gives back `b`'s corners unchanged: the empty box
/// is the identity element of `merge_aabb`.
pub proof fn lemma_merge_empty_identity(b: AABB)
    requires
        b.max.x >= MIN_COORD,
        b.max.y >= MIN_COORD,
        b.max.z >= MIN_COORD,
    ensures
        merged(aabb_empty(), b).min == b.min,
        merged(aabb_empty(), b).max == b.max,
        merged(b, aabb_empty()).min == b.min,
        merged(b, aabb_empty()).max == b.max,
{
}

} // verus!
