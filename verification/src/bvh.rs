//! The hierarchy builder: recursive median split, in-place partitioning,
//! and flattening of the tree into the linear array.

use vstd::prelude::*;

use crate::aabb::{
    aabb_axis, aabb_empty, box_contains_box, box_in_range, box_ok, dominant_axis,
    merge_aabb, merge_vec3, merged, merged_point, same_corners, AABB,
};
use crate::linear::{leaf_records, lin_wf, LinearBVHNode};
use crate::object::{clone_object, object_aabb, views_of, Object, ObjectV};
use crate::seqs::{lemma_map_values_multiset, lemma_swap_multiset, lemma_window_elements_from};
use crate::utils::{in_range, Vec3, MAX_COORD, MIN_COORD, SHAPE};

verus! {

/// Floor midpoint of two coordinates.
pub open spec fn mid2(a: int, b: int) -> int {
    (a + b) / 2
}

/// Per-primitive build record: the stable index of the primitive in the
/// input list, its bounding box, and the box's midpoint.
#[derive(Clone, Copy, Debug, PartialEq, Eq, Structural)]
pub struct BVHPrimitiveInfo {
    pub primitive_number: i32,
    pub centroid: Vec3,
    pub aabb: AABB,
}

/// Floor midpoint at runtime, defined for a real in-range axis pair and for
/// the empty-box sentinel pair (whose midpoint is 0).
fn mid_coord(a: i64, b: i64) -> (r: i64)
    requires
        crate::aabb::axis_pair_ok(a as int, b as int),
    ensures
        r as int == mid2(a as int, b as int),
        in_range(r as int),
{
    let s: i64 = a + b;
    if s >= 0 {
        ((s as u64) / 2) as i64
    } else {
        let q: u64 = (((-s) as u64) + 1) / 2;
        proof {
            let n = (-s) as int;
            assert((-n) / 2 == -((n + 1) / 2));
        }
        -(q as i64)
    }
}

impl BVHPrimitiveInfo {
    /// Record for primitive `primitive_number` with bounds `bounds`; the
    /// centroid is the floor midpoint of the bounds on every axis.
    pub fn new(primitive_number: i32, bounds: AABB) -> (r: BVHPrimitiveInfo)
        requires
            box_ok(bounds),
        ensures
            r.primitive_number == primitive_number,
            r.aabb == bounds,
            r.centroid.x as int == mid2(bounds.min.x as int, bounds.max.x as int),
            r.centroid.y as int == mid2(bounds.min.y as int, bounds.max.y as int),
            r.centroid.z as int == mid2(bounds.min.z as int, bounds.max.z as int),
            in_range(r.centroid.x as int),
            in_range(r.centroid.y as int),
            in_range(r.centroid.z as int),
    {
        let centroid = Vec3 {
            x: mid_coord(bounds.min.x, bounds.max.x),
            y: mid_coord(bounds.min.y, bounds.max.y),
            z: mid_coord(bounds.min.z, bounds.max.z),
        };
        BVHPrimitiveInfo { primitive_number, centroid, aabb: bounds }
    }
}

/// The build record is consistent with the primitive list it refers to.
pub open spec fn info_ok(pi: BVHPrimitiveInfo, prims: Seq<Object>) -> bool {
    &&& 0 <= pi.primitive_number < prims.len()
    &&& pi.aabb == object_aabb(prims[pi.primitive_number as int]@)
    &&& box_ok(pi.aabb)
    &&& pi.centroid.x as int == mid2(pi.aabb.min.x as int, pi.aabb.max.x as int)
    &&& pi.centroid.y as int == mid2(pi.aabb.min.y as int, pi.aabb.max.y as int)
    &&& pi.centroid.z as int == mid2(pi.aabb.min.z as int, pi.aabb.max.z as int)
    &&& in_range(pi.centroid.x as int)
    &&& in_range(pi.centroid.y as int)
    &&& in_range(pi.centroid.z as int)
}

/// Every build record is consistent with the primitive list.
pub open spec fn infos_wf(info: Seq<BVHPrimitiveInfo>, prims: Seq<Object>) -> bool {
    forall|k: int| 0 <= k < info.len() ==> info_ok(#[trigger] info[k], prims)
}

/// Union box of the records in `[a, b)`, folded left to right from the
/// empty box exactly as the builder's merge loop computes it.
pub open spec fn range_box(info: Seq<BVHPrimitiveInfo>, a: int, b: int) -> AABB
    decreases b - a,
{
    if b <= a {
        aabb_empty()
    } else {
        merged(range_box(info, a, b - 1), info[b - 1].aabb)
    }
}

/// Union box of the centroids of the records in `[a, b)`.
pub open spec fn range_cbox(info: Seq<BVHPrimitiveInfo>, a: int, b: int) -> AABB
    decreases b - a,
{
    if b <= a {
        aabb_empty()
    } else {
        merged_point(range_cbox(info, a, b - 1), info[b - 1].centroid)
    }
}

/// Centroid of a primitive's bounding box: the floor midpoint on every
/// axis.  Exact (no truncation) for well-formed geometry.
pub open spec fn object_centroid(o: ObjectV) -> Vec3 {
    let b = object_aabb(o);
    Vec3 {
        x: mid2(b.min.x as int, b.max.x as int) as i64,
        y: mid2(b.min.y as int, b.max.y as int) as i64,
        z: mid2(b.min.z as int, b.max.z as int) as i64,
    }
}

/// Union box of the centroids of the first `b` primitives of a scene: what
/// the builder's axis choice at the root looks at.
pub open spec fn scene_cbox(vs: Seq<ObjectV>, b: int) -> AABB
    decreases b,
{
    if b <= 0 {
        aabb_empty()
    } else {
        merged_point(scene_cbox(vs, b - 1), object_centroid(vs[b - 1]))
    }
}

/// The build records a scene starts from: record `k` points at primitive
/// `k` and carries its box and centroid.
pub open spec fn scene_infos(vs: Seq<ObjectV>) -> Seq<BVHPrimitiveInfo> {
    Seq::new(
        vs.len(),
        |k: int|
            BVHPrimitiveInfo {
                primitive_number: k as i32,
                centroid: object_centroid(vs[k]),
                aabb: object_aabb(vs[k]),
            },
    )
}

/// The centroid box of freshly made build records is the scene's centroid
/// box.
proof fn lemma_scene_cbox(info: Seq<BVHPrimitiveInfo>, prims: Seq<Object>, b: int)
    requires
        0 <= b <= info.len(),
        infos_wf(info, prims),
        forall|k: int| 0 <= k < info.len() ==> (#[trigger] info[k]).primitive_number == k,
    ensures
        range_cbox(info, 0, b) == scene_cbox(views_of(prims), b),
    decreases b,
{
    if b > 0 {
        lemma_scene_cbox(info, prims, b - 1);
        assert(info_ok(info[b - 1], prims));
        assert(info[b - 1].centroid == object_centroid(views_of(prims)[b - 1]));
    }
}

/// The range box contains the box of every record in the range.
pub proof fn lemma_range_box_elem(info: Seq<BVHPrimitiveInfo>, a: int, b: int, k: int)
    requires
        a <= k < b <= info.len(),
    ensures
        box_contains_box(range_box(info, a, b), info[k].aabb),
    decreases b - a,
{
    if k < b - 1 {
        lemma_range_box_elem(info, a, b - 1, k);
    }
}

/// The maxima of a range box never fall below the sentinel floor, and its
/// minima never rise above the sentinel ceiling.
pub proof fn lemma_range_box_sentinel(info: Seq<BVHPrimitiveInfo>, a: int, b: int)
    ensures
        range_box(info, a, b).max.x >= MIN_COORD,
        range_box(info, a, b).max.y >= MIN_COORD,
        range_box(info, a, b).max.z >= MIN_COORD,
        range_box(info, a, b).min.x <= MAX_COORD,
        range_box(info, a, b).min.y <= MAX_COORD,
        range_box(info, a, b).min.z <= MAX_COORD,
    decreases b - a,
{
    if b > a {
        lemma_range_box_sentinel(info, a, b - 1);
    }
}

/// A box that contains the box of every record of the range contains the
/// whole range box, provided its own corners are real coordinates.
pub proof fn lemma_range_box_contained(
    info: Seq<BVHPrimitiveInfo>,
    a: int,
    b: int,
    outer: AABB,
)
    requires
        outer.max.x >= MIN_COORD,
        outer.max.y >= MIN_COORD,
        outer.max.z >= MIN_COORD,
        forall|k: int| a <= k < b ==> box_contains_box(outer, #[trigger] info[k].aabb),
    ensures
        box_contains_box(outer, range_box(info, a, b)),
    decreases b - a,
{
    if b > a {
        lemma_range_box_contained(info, a, b - 1, outer);
    }
}

/// A range box over records all of which stand in the window of `base`
/// whose union is `range_box(base, oa, ob)` is contained in that union.
pub proof fn lemma_range_box_sub(
    base: Seq<BVHPrimitiveInfo>,
    oa: int,
    ob: int,
    sub: Seq<BVHPrimitiveInfo>,
    ia: int,
    ib: int,
)
    requires
        0 <= oa <= ob <= base.len(),
        forall|k: int| ia <= k < ib ==> base.subrange(oa, ob).contains(#[trigger] sub[k]),
    ensures
        box_contains_box(range_box(base, oa, ob), range_box(sub, ia, ib)),
{
    let outer = range_box(base, oa, ob);
    lemma_range_box_sentinel(base, oa, ob);
    assert forall|k: int| ia <= k < ib implies box_contains_box(
        outer,
        #[trigger] sub[k].aabb,
    ) by {
        let j = choose|j: int|
            0 <= j < ob - oa && base.subrange(oa, ob)[j] == sub[k];
        assert(base[oa + j] == sub[k]);
        lemma_range_box_elem(base, oa, ob, oa + j);
    }
    lemma_range_box_contained(sub, ia, ib, outer);
}

/// The range box reads only the records inside the range.
pub proof fn lemma_range_box_congruent(
    s1: Seq<BVHPrimitiveInfo>,
    s2: Seq<BVHPrimitiveInfo>,
    a: int,
    b: int,
)
    requires
        forall|k: int| a <= k < b ==> s1[k] == s2[k],
    ensures
        range_box(s1, a, b) == range_box(s2, a, b),
    decreases b - a,
{
    if b > a {
        lemma_range_box_congruent(s1, s2, a, b - 1);
    }
}

/// Splitting a range splits its union box: the range box over `[a, b)`
/// has the corners of the merge of the two partial range boxes.
pub proof fn lemma_range_box_split(info: Seq<BVHPrimitiveInfo>, a: int, c: int, b: int)
    requires
        a <= c <= b,
    ensures
        same_corners(range_box(info, a, b), merged(range_box(info, a, c), range_box(info, c, b))),
    decreases b - c,
{
    if b == c {
        lemma_range_box_sentinel(info, a, c);
    } else {
        lemma_range_box_split(info, a, c, b - 1);
    }
}

/// Reordering a window leaves its union box's corners unchanged.
pub proof fn lemma_range_box_permuted_corners(
    info0: Seq<BVHPrimitiveInfo>,
    info1: Seq<BVHPrimitiveInfo>,
    a: int,
    b: int,
)
    requires
        info0.len() == info1.len(),
        0 <= a <= b <= info0.len(),
        info1.subrange(a, b).to_multiset() == info0.subrange(a, b).to_multiset(),
    ensures
        same_corners(range_box(info1, a, b), range_box(info0, a, b)),
{
    lemma_window_elements_from(info0, info1, a, b);
    lemma_window_elements_from(info1, info0, a, b);
    lemma_range_box_sub(info0, a, b, info1, a, b);
    lemma_range_box_sub(info1, a, b, info0, a, b);
}

/// The centroid box of a non-empty range of consistent records has only
/// real in-range coordinates.
pub proof fn lemma_range_cbox_in_range(
    info: Seq<BVHPrimitiveInfo>,
    prims: Seq<Object>,
    a: int,
    b: int,
)
    requires
        0 <= a < b <= info.len(),
        infos_wf(info, prims),
    ensures
        box_in_range(range_cbox(info, a, b)),
    decreases b - a,
{
    assert(info_ok(info[b - 1], prims));
    if b - 1 > a {
        lemma_range_cbox_in_range(info, prims, a, b - 1);
    }
}

/// A freshly reordered window holds records that all already stood in the
/// old window, so consistency of every record carries over.
pub proof fn lemma_infos_wf_permuted(
    info0: Seq<BVHPrimitiveInfo>,
    info1: Seq<BVHPrimitiveInfo>,
    prims: Seq<Object>,
    a: int,
    b: int,
)
    requires
        info0.len() == info1.len(),
        0 <= a <= b <= info0.len(),
        infos_wf(info0, prims),
        forall|k: int|
            0 <= k < info0.len() && !(a <= k < b) ==> info1[k] == info0[k],
        info1.subrange(a, b).to_multiset() == info0.subrange(a, b).to_multiset(),
    ensures
        infos_wf(info1, prims),
{
    lemma_window_elements_from(info0, info1, a, b);
    assert forall|k: int| 0 <= k < info1.len() implies info_ok(#[trigger] info1[k], prims) by {
        if a <= k < b {
            let w = info0.subrange(a, b);
            assert(w.contains(info1[k]));
            let j = choose|j: int| 0 <= j < w.len() && w[j] == info1[k];
            assert(info0[a + j] == info1[k]);
            assert(info_ok(info0[a + j], prims));
        } else {
            assert(info_ok(info0[k], prims));
        }
    }
}

/// Centroid coordinate the partition compares on.
pub open spec fn cen(pi: BVHPrimitiveInfo, d: int) -> int {
    pi.centroid.axis(d)
}

/// A swap is due: the left scan element sits at or above the pivot value
/// while the right scan element sits below it.
pub open spec fn swap_pending(s: Seq<BVHPrimitiveInfo>, l: int, r: int, m: int, d: int) -> bool {
    cen(s[l], d) >= cen(s[m], d) && cen(s[r], d) < cen(s[m], d)
}

/// The Hoare two-pointer scan as a function of the record list and the two
/// scan pointers: advance `l` past records whose centroid coordinate on
/// axis `d` lies below that of the record currently at `m`, retreat `r`
/// past records at or above it, swap, and repeat until the pointers meet.
/// The pivot is positional, so a swap that lands on `m` changes the pivot
/// value mid-scan; this definition reproduces that behaviour exactly.
///
/// A step either narrows the pointer gap or clears a pending swap, so the
/// gap-plus-pending measure falls.
pub open spec fn hoare_scan(
    s: Seq<BVHPrimitiveInfo>,
    l: int,
    r: int,
    m: int,
    d: int,
) -> Seq<BVHPrimitiveInfo>
    decreases 2 * (r - l) + (if swap_pending(s, l, r, m, d) {
        1int
    } else {
        0int
    }),
    when 0 <= l <= r < s.len() && 0 <= m < s.len()
    via hoare_scan_decreases
{
    if l < r && cen(s[l], d) < cen(s[m], d) {
        hoare_scan(s, l + 1, r, m, d)
    } else if l < r && cen(s[r], d) >= cen(s[m], d) {
        hoare_scan(s, l, r - 1, m, d)
    } else if l >= r {
        s
    } else {
        hoare_scan(s.update(l, s[r]).update(r, s[l]), l, r, m, d)
    }
}

#[via_fn]
proof fn hoare_scan_decreases(s: Seq<BVHPrimitiveInfo>, l: int, r: int, m: int, d: int) {
    if 0 <= l <= r < s.len() && 0 <= m < s.len() {
        if l < r && !(cen(s[l], d) < cen(s[m], d)) && !(cen(s[r], d) >= cen(s[m], d)) {
            let s1 = s.update(l, s[r]).update(r, s[l]);
            if m == l {
                assert(!swap_pending(s1, l, r, m, d));
            } else if m == r {
                assert(!swap_pending(s1, l, r, m, d));
            } else {
                assert(s1[m] == s[m]);
                assert(!swap_pending(s1, l, r, m, d));
            }
        }
    }
}

/// The whole recursion's effect on the record list, as a function: a
/// single-record window is left alone; a larger window is partitioned by
/// the Hoare scan around its positional median record on the dominant
/// axis of its centroid box, and then both halves are rebuilt in turn.
pub open spec fn build_windows(
    info: Seq<BVHPrimitiveInfo>,
    start: int,
    end: int,
) -> Seq<BVHPrimitiveInfo>
    decreases end - start,
{
    if end - start <= 1 {
        info
    } else {
        let mid = (start + end) / 2;
        let dim = dominant_axis(range_cbox(info, start, end));
        let info1 = hoare_scan(info, start, end - 1, mid, dim);
        let info2 = build_windows(info1, start, mid);
        build_windows(info2, mid, end)
    }
}

/// Hoare-style two-pointer partition of the window `[start, end)` around
/// the centroid coordinate (on axis `dim`) of the record currently at
/// `mid`: advance from the left past records below the pivot value,
/// retreat from the right past records at or above it, swap, and repeat
/// until the pointers meet.
///
/// The pivot is positional, and a swap involving `mid` changes the pivot
/// value mid-scan, so the two halves are not promised to be separated by
/// the pivot value; the recursion above tolerates that.  The outcome is
/// still a function of the window: the routine computes exactly
/// `hoare_scan` of the records from the pointers `start` and `end - 1`
/// (so in particular the window keeps its multiset of records), and
/// nothing outside the window moves.
fn partition_by_median(
    primitive_info: &mut Vec<BVHPrimitiveInfo>,
    start: usize,
    mid: usize,
    end: usize,
    dim: usize,
)
    requires
        start <= mid < end <= old(primitive_info)@.len(),
        dim < 3,
    ensures
        final(primitive_info)@.len() == old(primitive_info)@.len(),
        forall|k: int|
            0 <= k < old(primitive_info)@.len() && !(start <= k < end)
                ==> final(primitive_info)@[k] == old(primitive_info)@[k],
        final(primitive_info)@.subrange(start as int, end as int).to_multiset() == old(
            primitive_info,
        )@.subrange(start as int, end as int).to_multiset(),
        final(primitive_info)@ == hoare_scan(
            old(primitive_info)@,
            start as int,
            end as int - 1,
            mid as int,
            dim as int,
        ),
{
    let mut left = start;
    let mut right = end - 1;
    loop
        invariant
            start <= left <= right < end <= primitive_info@.len(),
            start <= mid < end,
            dim < 3,
            primitive_info@.len() == old(primitive_info)@.len(),
            forall|k: int|
                0 <= k < old(primitive_info)@.len() && !(start <= k < end)
                    ==> primitive_info@[k] == old(primitive_info)@[k],
            primitive_info@.subrange(start as int, end as int).to_multiset() == old(
                primitive_info,
            )@.subrange(start as int, end as int).to_multiset(),
            hoare_scan(old(primitive_info)@, start as int, end as int - 1, mid as int, dim as int)
                == hoare_scan(
                primitive_info@,
                left as int,
                right as int,
                mid as int,
                dim as int,
            ),
        ensures
            primitive_info@.len() == old(primitive_info)@.len(),
            forall|k: int|
                0 <= k < old(primitive_info)@.len() && !(start <= k < end)
                    ==> primitive_info@[k] == old(primitive_info)@[k],
            primitive_info@.subrange(start as int, end as int).to_multiset() == old(
                primitive_info,
            )@.subrange(start as int, end as int).to_multiset(),
            left >= right,
            hoare_scan(old(primitive_info)@, start as int, end as int - 1, mid as int, dim as int)
                == hoare_scan(
                primitive_info@,
                left as int,
                right as int,
                mid as int,
                dim as int,
            ),
        decreases 2 * (right - left) + (if swap_pending(
            primitive_info@,
            left as int,
            right as int,
            mid as int,
            dim as int,
        ) {
            1int
        } else {
            0int
        }),
    {
        let ghost l0 = left as int;
        let ghost r0 = right as int;
        let ghost s0 = primitive_info@;
        while left < right && primitive_info[left].centroid.get_axis(dim)
            < primitive_info[mid].centroid.get_axis(dim)
            invariant
                start <= left <= right < end <= primitive_info@.len(),
                start <= mid < end,
                dim < 3,
                l0 <= left,
                hoare_scan(old(primitive_info)@, start as int, end as int - 1, mid as int, dim as int)
                    == hoare_scan(
                    primitive_info@,
                    left as int,
                    right as int,
                    mid as int,
                    dim as int,
                ),
            decreases right - left,
        {
            proof {
                assert(hoare_scan(
                    primitive_info@,
                    left as int,
                    right as int,
                    mid as int,
                    dim as int,
                ) == hoare_scan(
                    primitive_info@,
                    left as int + 1,
                    right as int,
                    mid as int,
                    dim as int,
                ));
            }
            left = left + 1;
        }
        let ghost r1 = right as int;
        proof {
            // why the first scan stopped: the pointers met, or the record
            // at `left` sits at or above the pivot value
            assert(left as int >= r1 || cen(s0[left as int], dim as int) >= cen(
                s0[mid as int],
                dim as int,
            ));
        }
        while left < right && primitive_info[right].centroid.get_axis(dim)
            >= primitive_info[mid].centroid.get_axis(dim)
            invariant
                start <= left <= right < end <= primitive_info@.len(),
                start <= mid < end,
                dim < 3,
                right <= r0,
                right as int <= r1,
                primitive_info@ == s0,
                left as int >= r1 || cen(s0[left as int], dim as int) >= cen(
                    s0[mid as int],
                    dim as int,
                ),
                hoare_scan(old(primitive_info)@, start as int, end as int - 1, mid as int, dim as int)
                    == hoare_scan(
                    primitive_info@,
                    left as int,
                    right as int,
                    mid as int,
                    dim as int,
                ),
            decreases right - left,
        {
            proof {
                assert(hoare_scan(
                    primitive_info@,
                    left as int,
                    right as int,
                    mid as int,
                    dim as int,
                ) == hoare_scan(
                    primitive_info@,
                    left as int,
                    right as int - 1,
                    mid as int,
                    dim as int,
                ));
            }
            right = right - 1;
        }
        if left >= right {
            break;
        }
        let a = primitive_info[left];
        let b = primitive_info[right];
        primitive_info.set(left, b);
        primitive_info.set(right, a);
        proof {
            let l = left as int;
            let r = right as int;
            let m = mid as int;
            let d = dim as int;
            let s1 = s0.update(l, s0[r]).update(r, s0[l]);
            // The swap is exactly the scan's swap step: both scans stopped
            // with the pointers apart, so a swap is pending.
            assert(l < r1);
            assert(cen(s0[l], d) >= cen(s0[m], d));
            assert(cen(s0[r], d) < cen(s0[m], d));
            assert(hoare_scan(s0, l, r, m, d) == hoare_scan(s1, l, r, m, d));
            assert(primitive_info@ =~= s1);
            // The window keeps its contents: a swap permutes it.
            let w0 = s0.subrange(start as int, end as int);
            let w1 = primitive_info@.subrange(start as int, end as int);
            assert(w1 =~= w0.update(l - start, w0[r - start]).update(r - start, w0[l - start]));
            lemma_swap_multiset(w0, l - start, r - start);
            // Termination: either a scan pointer moved, or the swap has
            // cleared the pending pair, so the measure falls either way.
            if l == l0 && r == r0 {
                assert(cen(s0[l], d) >= cen(s0[m], d));
                assert(cen(s0[r], d) < cen(s0[m], d));
                if m == l {
                    assert(!swap_pending(s1, l, r, m, d));
                } else if m == r {
                    assert(!swap_pending(s1, l, r, m, d));
                } else {
                    assert(s1[m] == s0[m]);
                    assert(!swap_pending(s1, l, r, m, d));
                }
            }
        }
    }
    proof {
        // With the pointers met, the scan returns the records as they are.
        assert(hoare_scan(
            primitive_info@,
            left as int,
            right as int,
            mid as int,
            dim as int,
        ) == primitive_info@);
    }
}

/// Assembly of an interior node's postconditions out of what the
/// partition and the two recursive calls guarantee.  `info0` is the record
/// list as the parent found it, `info1` after partitioning, `info2` after
/// the left recursion, `info3` after the right one; `ord0`, `ord1`, `ord2`
/// are the ordered output list before, between and after the recursions.
#[verifier::rlimit(80)]
proof fn lemma_interior_assembly(
    info0: Seq<BVHPrimitiveInfo>,
    info1: Seq<BVHPrimitiveInfo>,
    info2: Seq<BVHPrimitiveInfo>,
    info3: Seq<BVHPrimitiveInfo>,
    prims: Seq<Object>,
    ord0: Seq<Object>,
    ord1: Seq<Object>,
    ord2: Seq<Object>,
    left_node: BVHNode,
    right_node: BVHNode,
    node: BVHNode,
    aabb: AABB,
    s: int,
    m: int,
    e: int,
)
    requires
        0 <= s < m < e <= info0.len(),
        info1.len() == info0.len(),
        info2.len() == info0.len(),
        info3.len() == info0.len(),
        forall|k: int| 0 <= k < info0.len() && !(s <= k < e) ==> info1[k] == info0[k],
        info1.subrange(s, e).to_multiset() == info0.subrange(s, e).to_multiset(),
        forall|k: int| s <= k < e ==> info0.subrange(s, e).contains(#[trigger] info1[k]),
        forall|k: int| 0 <= k < info0.len() && !(s <= k < m) ==> info2[k] == info1[k],
        info2.subrange(s, m).to_multiset() == info1.subrange(s, m).to_multiset(),
        tree_wf(left_node),
        tree_size(left_node) == 2 * (m - s) - 1,
        same_corners(node_aabb(left_node), range_box(info1, s, m)),
        ord1.len() == ord0.len() + (m - s),
        forall|k: int| 0 <= k < ord0.len() ==> ord1[k] == ord0[k],
        leaves(left_node).len() == m - s,
        forall|j: int|
            0 <= j < m - s ==> {
                let lf = #[trigger] leaves(left_node)[j];
                &&& lf is Leaf
                &&& lf->Leaf_primitive_number == 1
                &&& lf->Leaf_first_offset == ord0.len() + j
                &&& node_aabb(lf) == object_aabb(ord1[ord0.len() + j]@)
                &&& ord1[ord0.len() + j]@ == prims[info2[s + j].primitive_number as int]@
            },
        views_of(ord1.subrange(ord0.len() as int, ord1.len() as int)).to_multiset()
            == range_views(info1, prims, s, m).to_multiset(),
        forall|k: int| 0 <= k < info0.len() && !(m <= k < e) ==> info3[k] == info2[k],
        info3.subrange(m, e).to_multiset() == info2.subrange(m, e).to_multiset(),
        tree_wf(right_node),
        tree_size(right_node) == 2 * (e - m) - 1,
        same_corners(node_aabb(right_node), range_box(info2, m, e)),
        ord2.len() == ord1.len() + (e - m),
        forall|k: int| 0 <= k < ord1.len() ==> ord2[k] == ord1[k],
        leaves(right_node).len() == e - m,
        forall|j: int|
            0 <= j < e - m ==> {
                let lf = #[trigger] leaves(right_node)[j];
                &&& lf is Leaf
                &&& lf->Leaf_primitive_number == 1
                &&& lf->Leaf_first_offset == ord1.len() + j
                &&& node_aabb(lf) == object_aabb(ord2[ord1.len() + j]@)
                &&& ord2[ord1.len() + j]@ == prims[info3[m + j].primitive_number as int]@
            },
        views_of(ord2.subrange(ord1.len() as int, ord2.len() as int)).to_multiset()
            == range_views(info2, prims, m, e).to_multiset(),
        node matches BVHNode::Interior { aabb: na, left, right, axis } && na == aabb && *left
            == left_node && *right == right_node && 0 <= axis < 3,
        aabb == range_box(info0, s, e),
    ensures
        forall|k: int| 0 <= k < info0.len() && !(s <= k < e) ==> info3[k] == info0[k],
        info3.subrange(s, e).to_multiset() == info0.subrange(s, e).to_multiset(),
        tree_wf(node),
        tree_size(node) == 2 * (e - s) - 1,
        same_corners(node_aabb(node), range_box(info0, s, e)),
        leaves(node).len() == e - s,
        forall|j: int|
            0 <= j < e - s ==> {
                let lf = #[trigger] leaves(node)[j];
                &&& lf is Leaf
                &&& lf->Leaf_primitive_number == 1
                &&& lf->Leaf_first_offset == ord0.len() + j
                &&& node_aabb(lf) == object_aabb(ord2[ord0.len() + j]@)
                &&& ord2[ord0.len() + j]@ == prims[info3[s + j].primitive_number as int]@
            },
        views_of(ord2.subrange(ord0.len() as int, ord2.len() as int)).to_multiset()
            == range_views(info0, prims, s, e).to_multiset(),
{
    broadcast use vstd::seq_lib::lemma_multiset_commutative;

    let w0 = info0.subrange(s, e);
    let w1 = info1.subrange(s, e);
    let w3 = info3.subrange(s, e);
    // The whole window keeps its contents across partition and recursion.
    assert(w1 =~= info1.subrange(s, m) + info1.subrange(m, e));
    assert(w3 =~= info3.subrange(s, m) + info3.subrange(m, e));
    assert(info3.subrange(s, m) =~= info2.subrange(s, m));
    assert(info2.subrange(m, e) =~= info1.subrange(m, e));
    assert(w3.to_multiset() == w1.to_multiset());
    // The parent box contains both children's boxes.
    lemma_range_box_sub(info0, s, e, info1, s, m);
    assert forall|k: int| m <= k < e implies info0.subrange(s, e).contains(
        #[trigger] info2[k],
    ) by {
        assert(info2[k] == info1[k]);
    }
    lemma_range_box_sub(info0, s, e, info2, m, e);
    assert(box_contains_box(aabb, node_aabb(left_node)));
    assert(box_contains_box(aabb, node_aabb(right_node)));
    // The parent box is exactly the union of the children's boxes.
    lemma_range_box_permuted_corners(info0, info1, s, e);
    lemma_range_box_split(info1, s, m, e);
    lemma_range_box_congruent(info2, info1, m, e);
    assert(same_corners(
        merged(node_aabb(left_node), node_aabb(right_node)),
        merged(range_box(info1, s, m), range_box(info1, m, e)),
    ));
    assert(same_corners(aabb, merged(node_aabb(left_node), node_aabb(right_node))));
    assert(tree_wf(node));
    // Leaves line up left to right, with consecutive offsets.
    assert(leaves(node) =~= leaves(left_node) + leaves(right_node));
    assert forall|j: int| 0 <= j < e - s implies {
        let lf = #[trigger] leaves(node)[j];
        &&& lf is Leaf
        &&& lf->Leaf_primitive_number == 1
        &&& lf->Leaf_first_offset == ord0.len() + j
        &&& node_aabb(lf) == object_aabb(ord2[ord0.len() + j]@)
        &&& ord2[ord0.len() + j]@ == prims[info3[s + j].primitive_number as int]@
    } by {
        if j < m - s {
            assert(leaves(node)[j] == leaves(left_node)[j]);
            let lf = leaves(left_node)[j];
            assert(ord0.len() + j < ord1.len());
            assert(ord2[ord0.len() + j] == ord1[ord0.len() + j]);
            assert(info3[s + j] == info2[s + j]);
        } else {
            assert(leaves(node)[j] == leaves(right_node)[j - (m - s)]);
            let lf = leaves(right_node)[j - (m - s)];
            assert(lf->Leaf_first_offset == ord1.len() + (j - (m - s)));
            assert(ord1.len() + (j - (m - s)) == ord0.len() + j);
            assert(m + (j - (m - s)) == s + j);
        }
    }
    // The appended primitives are exactly the window's primitives.
    let a01 = ord1.subrange(ord0.len() as int, ord1.len() as int);
    let a12 = ord2.subrange(ord1.len() as int, ord2.len() as int);
    let a02 = ord2.subrange(ord0.len() as int, ord2.len() as int);
    assert(ord2.subrange(ord0.len() as int, ord1.len() as int) =~= a01);
    assert(a02 =~= a01 + a12);
    assert(views_of(a02) =~= views_of(a01) + views_of(a12));
    assert forall|j: int| 0 <= j < e - m implies range_views(info2, prims, m, e)[j]
        == range_views(info1, prims, m, e)[j] by {
        assert(info2[m + j] == info1[m + j]);
    }
    assert(range_views(info2, prims, m, e) =~= range_views(info1, prims, m, e));
    assert(range_views(info1, prims, s, m) + range_views(info1, prims, m, e) =~= range_views(
        info1,
        prims,
        s,
        e,
    ));
    assert(views_of(a02).to_multiset() == range_views(info1, prims, s, e).to_multiset());
    // A reordered window maps to the same multiset of primitives.
    let f = |pi: BVHPrimitiveInfo| prims[pi.primitive_number as int]@;
    assert(range_views(info1, prims, s, e) =~= w1.map_values(f));
    assert(range_views(info0, prims, s, e) =~= w0.map_values(f));
    lemma_map_values_multiset(w1, w0, f);
}

/// In-memory node of the hierarchy while it is being built.  An interior
/// node owns its two children outright; the tree is read once by the
/// flattening pass and then discarded.
pub enum BVHNode {
    Leaf { aabb: AABB, primitive_number: i32, first_offset: i32 },
    Interior { aabb: AABB, left: Box<BVHNode>, right: Box<BVHNode>, axis: i32 },
}

/// Bounding box stored in a node.
pub open spec fn node_aabb(n: BVHNode) -> AABB {
    match n {
        BVHNode::Leaf { aabb, .. } => aabb,
        BVHNode::Interior { aabb, .. } => aabb,
    }
}

/// Number of nodes in the subtree.
pub open spec fn tree_size(n: BVHNode) -> int
    decreases n,
{
    match n {
        BVHNode::Leaf { .. } => 1,
        BVHNode::Interior { left, right, .. } => 1 + tree_size(*left) + tree_size(*right),
    }
}

/// The leaves of the subtree, left to right.
pub open spec fn leaves(n: BVHNode) -> Seq<BVHNode>
    decreases n,
{
    match n {
        BVHNode::Leaf { .. } => seq![n],
        BVHNode::Interior { left, right, .. } => leaves(*left) + leaves(*right),
    }
}

/// Well-formed tree: every leaf holds exactly one primitive at a real
/// offset, every interior node has a split axis in range and a box whose
/// corners are exactly those of the union of its children's boxes (so in
/// particular it contains both).
pub open spec fn tree_wf(n: BVHNode) -> bool
    decreases n,
{
    match n {
        BVHNode::Leaf { primitive_number, first_offset, .. } => primitive_number == 1
            && first_offset >= 0,
        BVHNode::Interior { aabb, left, right, axis } => {
            &&& 0 <= axis < 3
            &&& box_contains_box(aabb, node_aabb(*left))
            &&& box_contains_box(aabb, node_aabb(*right))
            &&& same_corners(aabb, merged(node_aabb(*left), node_aabb(*right)))
            &&& tree_wf(*left)
            &&& tree_wf(*right)
        },
    }
}

impl BVHNode {
    /// The default node: an empty leaf over the empty box.
    pub fn new() -> (r: BVHNode)
        ensures
            r == (BVHNode::Leaf { aabb: aabb_empty(), primitive_number: 0, first_offset: 0 }),
    {
        BVHNode::Leaf { aabb: AABB::new(), primitive_number: 0, first_offset: 0 }
    }

    pub fn new_leaf(primitive_number: i32, first_offset: i32, aabb: AABB) -> (r: BVHNode)
        ensures
            r == (BVHNode::Leaf { aabb, primitive_number, first_offset }),
    {
        BVHNode::Leaf { aabb, primitive_number, first_offset }
    }

    pub fn new_interior(left: Box<BVHNode>, right: Box<BVHNode>, aabb: AABB, axis: i32) -> (r:
        BVHNode)
        ensures
            r == (BVHNode::Interior { aabb, left, right, axis }),
    {
        BVHNode::Interior { aabb, left, right, axis }
    }
}

/// The flattened encoding of a subtree placed at array index `at`: the
/// node's own record first, then the whole left subtree, then the whole
/// right subtree, with the interior record's `offset` pointing at the
/// right subtree's first slot.
pub open spec fn flat(n: BVHNode, at: int) -> Seq<LinearBVHNode>
    decreases n,
{
    match n {
        BVHNode::Leaf { aabb, primitive_number, first_offset } => seq![
            LinearBVHNode { aabb, offset: first_offset, n_primitives: primitive_number, axis: 0 },
        ],
        BVHNode::Interior { aabb, left, right, axis } => seq![
            LinearBVHNode {
                aabb,
                offset: (at + 1 + tree_size(*left)) as i32,
                n_primitives: 0,
                axis,
            },
        ] + flat(*left, at + 1) + flat(*right, at + 1 + tree_size(*left)),
    }
}

/// Shape of the flattened subtree: its length is the subtree's size, and
/// its first record carries the root's box and tags.
pub proof fn lemma_flat_shape(n: BVHNode, at: int)
    ensures
        flat(n, at).len() == tree_size(n),
        tree_size(n) >= 1,
        flat(n, at)[0].aabb == node_aabb(n),
        n is Leaf ==> flat(n, at)[0] == (LinearBVHNode {
            aabb: node_aabb(n),
            offset: n->Leaf_first_offset,
            n_primitives: n->Leaf_primitive_number,
            axis: 0,
        }),
        n is Interior ==> flat(n, at)[0].n_primitives == 0 && flat(n, at)[0].axis
            == n->Interior_axis && flat(n, at)[0].offset == (at + 1 + tree_size(
            *(n->Interior_left),
        )) as i32,
    decreases n,
{
    match n {
        BVHNode::Leaf { .. } => {},
        BVHNode::Interior { left, right, .. } => {
            lemma_flat_shape(*left, at + 1);
            lemma_flat_shape(*right, at + 1 + tree_size(*left));
        },
    }
}

/// A well-formed tree flattened into the slots `[at, at + size)` of an
/// array makes that span a well-formed linear subtree.
pub proof fn lemma_flat_lin_wf(n: BVHNode, s: Seq<LinearBVHNode>, at: int)
    requires
        tree_wf(n),
        0 <= at,
        at + tree_size(n) <= s.len(),
        at + tree_size(n) <= 0x7FFF_FFFF,
        forall|k: int| 0 <= k < tree_size(n) ==> s[at + k] == flat(n, at)[k],
    ensures
        lin_wf(s, at, at + tree_size(n)),
    decreases n,
{
    lemma_flat_shape(n, at);
    match n {
        BVHNode::Leaf { .. } => {
            assert(s[at] == flat(n, at)[0]);
        },
        BVHNode::Interior { aabb, left, right, axis } => {
            let sl = tree_size(*left);
            let sr = tree_size(*right);
            lemma_flat_shape(*left, at + 1);
            lemma_flat_shape(*right, at + 1 + sl);
            assert(s[at] == flat(n, at)[0]);
            let ofs = s[at].offset as int;
            assert(ofs == at + 1 + sl);
            assert forall|k: int| 0 <= k < sl implies s[at + 1 + k] == #[trigger] flat(*left, at + 1)[k] by {
                assert(s[at + 1 + k] == flat(n, at)[1 + k]);
            }
            assert forall|k: int| 0 <= k < sr implies s[ofs + k] == #[trigger] flat(
                *right,
                at + 1 + sl,
            )[k] by {
                assert(s[ofs + k] == flat(n, at)[1 + sl + k]);
            }
            lemma_flat_lin_wf(*left, s, at + 1);
            lemma_flat_lin_wf(*right, s, at + 1 + sl);
            assert(s[at + 1] == flat(*left, at + 1)[0]);
            assert(s[ofs] == flat(*right, at + 1 + sl)[0]);
            assert(box_contains_box(s[at].aabb, s[at + 1].aabb));
            assert(box_contains_box(s[at].aabb, s[ofs].aabb));
        },
    }
}

/// Linear record of a leaf node.
pub open spec fn leaf_lin(m: BVHNode) -> LinearBVHNode {
    LinearBVHNode {
        aabb: node_aabb(m),
        offset: m->Leaf_first_offset,
        n_primitives: m->Leaf_primitive_number,
        axis: 0,
    }
}

/// The leaf records of a flattened well-formed tree are its leaves in
/// left-to-right order.
pub proof fn lemma_flat_leaf_records(n: BVHNode, at: int)
    requires
        tree_wf(n),
    ensures
        leaf_records(flat(n, at)) == leaves(n).map_values(|m: BVHNode| leaf_lin(m)),
    decreases n,
{
    match n {
        BVHNode::Leaf { .. } => {
            let rec = flat(n, at)[0];
            assert(flat(n, at) =~= seq![rec]);
            crate::linear::lemma_leaf_records_single(rec);
            assert(leaves(n).map_values(|m: BVHNode| leaf_lin(m)) =~= seq![rec]);
        },
        BVHNode::Interior { aabb, left, right, axis } => {
            let sl = tree_size(*left);
            lemma_flat_shape(n, at);
            let head = flat(n, at)[0];
            let fl = flat(*left, at + 1);
            let fr = flat(*right, at + 1 + sl);
            assert(flat(n, at) == seq![head] + fl + fr);
            crate::linear::lemma_leaf_records_add(seq![head] + fl, fr);
            crate::linear::lemma_leaf_records_add(seq![head], fl);
            crate::linear::lemma_leaf_records_single(head);
            lemma_flat_leaf_records(*left, at + 1);
            lemma_flat_leaf_records(*right, at + 1 + sl);
            assert(leaf_records(flat(n, at)) =~= leaves(*left).map_values(
                |m: BVHNode| leaf_lin(m),
            ) + leaves(*right).map_values(|m: BVHNode| leaf_lin(m)));
            assert(leaves(n).map_values(|m: BVHNode| leaf_lin(m)) =~= leaves(*left).map_values(
                |m: BVHNode| leaf_lin(m),
            ) + leaves(*right).map_values(|m: BVHNode| leaf_lin(m)));
        },
    }
}

/// The primitives a window of build records points at, as mathematical
/// values, in record order.
pub open spec fn range_views(
    info: Seq<BVHPrimitiveInfo>,
    prims: Seq<Object>,
    a: int,
    b: int,
) -> Seq<ObjectV> {
    Seq::new((b - a) as nat, |j: int| prims[info[a + j].primitive_number as int]@)
}

/// Why a build was refused.  A refused build leaves the structure exactly
/// as it was.
#[derive(Clone, Copy, Debug, PartialEq, Eq, Structural)]
pub enum BuildError {
    /// The input primitive list was empty.
    NoPrimitives,
    /// Some primitive's vertex list does not have the length its shape tag
    /// fixes, or a geometric coordinate lies outside `COORD_LIMIT`.
    InvalidPrimitiveGeometry,
}

/// The acceleration structure: the primitive list in leaf-visitation order
/// and the flattened node array, together with the running record counts
/// of the packing stage.
pub struct BVHTree {
    pub primitives: Vec<Object>,
    pub linear_bvh_node: Vec<LinearBVHNode>,
    pub node_number: i32,
    pub vertices_number: i32,
}

impl BVHTree {
    /// An empty structure; `build` fills it.
    pub fn new() -> (r: BVHTree)
        ensures
            r.primitives@.len() == 0,
            r.linear_bvh_node@.len() == 0,
            r.node_number == 0,
            r.vertices_number == 0,
    {
        BVHTree {
            primitives: Vec::new(),
            linear_bvh_node: Vec::new(),
            node_number: 0,
            vertices_number: 0,
        }
    }

    /// Recursive median-split construction over the record window
    /// `[start, end)`.
    ///
    /// Computes the window's union box; a single record becomes a leaf and
    /// its primitive is appended to the ordered output list; a larger
    /// window picks the dominant axis of the centroid box, partitions
    /// around the positional median record, and recurses on both halves.
    /// The reordering of the record list is pinned exactly: it is
    /// `build_windows` of the list as the call found it, and the appended
    /// primitives are the ones the reordered records point at, in order.
    #[verifier::rlimit(60)]
    fn recursive_build(
        &self,
        primitive_info: &mut Vec<BVHPrimitiveInfo>,
        start: usize,
        end: usize,
        total_nodes: &mut i32,
        ordered_primitives: &mut Vec<Object>,
    ) -> (node: BVHNode)
        requires
            start < end <= old(primitive_info)@.len(),
            old(primitive_info)@.len() <= 0x3FFF_FFFF,
            infos_wf(old(primitive_info)@, self.primitives@),
            old(ordered_primitives)@.len() + (end - start) <= 0x3FFF_FFFF,
            *old(total_nodes) + 2 * (end - start) <= i32::MAX,
            *old(total_nodes) >= 0,
        ensures
            final(primitive_info)@.len() == old(primitive_info)@.len(),
            forall|k: int|
                0 <= k < old(primitive_info)@.len() && !(start <= k < end)
                    ==> final(primitive_info)@[k] == old(primitive_info)@[k],
            final(primitive_info)@.subrange(start as int, end as int).to_multiset() == old(
                primitive_info,
            )@.subrange(start as int, end as int).to_multiset(),
            infos_wf(final(primitive_info)@, self.primitives@),
            tree_wf(node),
            tree_size(node) == 2 * (end - start) - 1,
            *final(total_nodes) == *old(total_nodes) + tree_size(node),
            same_corners(
                node_aabb(node),
                range_box(old(primitive_info)@, start as int, end as int),
            ),
            final(ordered_primitives)@.len() == old(ordered_primitives)@.len() + (end - start),
            forall|k: int|
                0 <= k < old(ordered_primitives)@.len() ==> final(ordered_primitives)@[k] == old(
                    ordered_primitives,
                )@[k],
            leaves(node).len() == end - start,
            forall|j: int|
                0 <= j < end - start ==> {
                    let lf = #[trigger] leaves(node)[j];
                    &&& lf is Leaf
                    &&& lf->Leaf_primitive_number == 1
                    &&& lf->Leaf_first_offset == old(ordered_primitives)@.len() + j
                    &&& node_aabb(lf) == object_aabb(
                        final(ordered_primitives)@[old(ordered_primitives)@.len() + j]@,
                    )
                    &&& final(ordered_primitives)@[old(ordered_primitives)@.len() + j]@
                        == self.primitives@[final(primitive_info)@[start + j].primitive_number as int]@
                },
            final(primitive_info)@ == build_windows(
                old(primitive_info)@,
                start as int,
                end as int,
            ),
            end - start == 1 ==> node is Leaf && final(primitive_info)@ == old(
                primitive_info,
            )@,
            end - start >= 2 ==> {
                &&& node is Interior
                &&& node->Interior_axis as int == dominant_axis(
                    range_cbox(old(primitive_info)@, start as int, end as int),
                )
                &&& tree_size(*(node->Interior_left)) == 2 * ((start + end) / 2 - start) - 1
                &&& tree_size(*(node->Interior_right)) == 2 * (end - (start + end) / 2) - 1
            },
            views_of(
                final(ordered_primitives)@.subrange(
                    old(ordered_primitives)@.len() as int,
                    final(ordered_primitives)@.len() as int,
                ),
            ).to_multiset() == range_views(
                old(primitive_info)@,
                self.primitives@,
                start as int,
                end as int,
            ).to_multiset(),
        decreases end - start,
    {
        let ghost info0 = primitive_info@;
        let ghost ord0 = ordered_primitives@;
        let ghost prims = self.primitives@;
        let mut aabb = AABB::new();
        let mut i: usize = start;
        while i < end
            invariant
                start <= i <= end <= primitive_info@.len(),
                primitive_info@ == info0,
                aabb == range_box(info0, start as int, i as int),
            decreases end - i,
        {
            aabb = merge_aabb(&aabb, &primitive_info[i].aabb);
            i = i + 1;
        }
        let primitives_number = end - start;
        if primitives_number == 1 {
            let first_offset = ordered_primitives.len();
            let pn = primitive_info[start].primitive_number;
            proof {
                assert(info_ok(info0[start as int], prims));
            }
            let obj = clone_object(&self.primitives[pn as usize]);
            ordered_primitives.push(obj);
            *total_nodes = *total_nodes + 1;
            let node = BVHNode::new_leaf(1, first_offset as i32, primitive_info[start].aabb);
            proof {
                let s = start as int;
                assert(leaves(node) =~= seq![node]);
                // the single-record union box has the record's corners
                assert(range_box(info0, s, s + 1) == merged(aabb_empty(), info0[s].aabb));
                assert(same_corners(node_aabb(node), range_box(info0, s, s + 1)));
                // the appended primitive is the one the record points at
                let appended = ordered_primitives@.subrange(
                    ord0.len() as int,
                    ordered_primitives@.len() as int,
                );
                assert(appended =~= seq![obj]);
                assert(views_of(appended) =~= seq![obj@]);
                assert(range_views(info0, prims, s, s + 1) =~= seq![prims[pn as int]@]);
                assert(views_of(appended) == range_views(info0, prims, s, s + 1));
            }
            node
        } else {
            let mut centroid_aabb = AABB::new();
            let mut j: usize = start;
            while j < end
                invariant
                    start <= j <= end <= primitive_info@.len(),
                    primitive_info@ == info0,
                    centroid_aabb == range_cbox(info0, start as int, j as int),
                decreases end - j,
            {
                centroid_aabb = merge_vec3(&centroid_aabb, &primitive_info[j].centroid);
                j = j + 1;
            }
            proof {
                lemma_range_cbox_in_range(info0, prims, start as int, end as int);
            }
            let dim = aabb_axis(&centroid_aabb);
            let mid = (start + end) / 2;
            partition_by_median(primitive_info, start, mid, end, dim as usize);
            let ghost info1 = primitive_info@;
            proof {
                lemma_infos_wf_permuted(info0, info1, prims, start as int, end as int);
                lemma_window_elements_from(info0, info1, start as int, end as int);
            }
            *total_nodes = *total_nodes + 1;
            let left_node = self.recursive_build(
                primitive_info,
                start,
                mid,
                total_nodes,
                ordered_primitives,
            );
            let ghost info2 = primitive_info@;
            let ghost ord1 = ordered_primitives@;
            let right_node = self.recursive_build(
                primitive_info,
                mid,
                end,
                total_nodes,
                ordered_primitives,
            );
            let ghost info3 = primitive_info@;
            let ghost ord2 = ordered_primitives@;
            let node = BVHNode::new_interior(Box::new(left_node), Box::new(right_node), aabb, dim);
            proof {
                let s = start as int;
                let m = mid as int;
                let e = end as int;
                lemma_interior_assembly(
                    info0,
                    info1,
                    info2,
                    info3,
                    prims,
                    ord0,
                    ord1,
                    ord2,
                    left_node,
                    right_node,
                    node,
                    aabb,
                    s,
                    m,
                    e,
                );
                // the record list went through exactly the scan and the two
                // half-window rebuilds
                assert(m == (s + e) / 2);
                assert(dim as int == dominant_axis(range_cbox(info0, s, e)));
                assert(info1 == hoare_scan(info0, s, e - 1, m, dim as int));
                assert(info2 == build_windows(info1, s, m));
                assert(info3 == build_windows(info2, m, e));
                assert(build_windows(info0, s, e) == info3);
            }
            node
        }
    }

    /// Pre-order flattening: reserve the node's slot, emit the left subtree
    /// right behind it, emit the right subtree, then patch the reserved
    /// record's `offset` with the right subtree's first index.  Returns the
    /// flattened subtree's first index.
    fn flatten_bvh(&mut self, node: &BVHNode, offset: &mut i32) -> (r: i32)
        requires
            old(self).linear_bvh_node@.len() == *old(offset),
            *old(offset) >= 0,
            old(self).linear_bvh_node@.len() + tree_size(*node) <= 0x7FFF_FFFF,
            tree_wf(*node),
        ensures
            final(self).linear_bvh_node@ == old(self).linear_bvh_node@ + flat(
                *node,
                old(self).linear_bvh_node@.len() as int,
            ),
            final(self).primitives == old(self).primitives,
            final(self).node_number == old(self).node_number,
            final(self).vertices_number == old(self).vertices_number,
            *final(offset) == *old(offset) + tree_size(*node),
            r == *old(offset),
        decreases *node,
    {
        proof {
            lemma_flat_shape(*node, *old(offset) as int);
        }
        let my_offset: i32 = *offset;
        *offset = *offset + 1;
        let ghost base = self.linear_bvh_node@;
        let idx = my_offset as usize;
        match node {
            BVHNode::Leaf { aabb, primitive_number, first_offset } => {
                let linear_node = LinearBVHNode::new(*aabb, 0, *primitive_number, 0);
                self.linear_bvh_node.push(linear_node);
                let cur = self.linear_bvh_node[idx];
                self.linear_bvh_node.set(
                    idx,
                    LinearBVHNode { offset: *first_offset, n_primitives: *primitive_number, ..cur },
                );
                proof {
                    assert(self.linear_bvh_node@ =~= base + flat(*node, base.len() as int));
                }
            },
            BVHNode::Interior { aabb, left, right, axis } => {
                let linear_node = LinearBVHNode::new(*aabb, 0, 0, *axis);
                self.linear_bvh_node.push(linear_node);
                proof {
                    lemma_flat_shape(**left, base.len() as int + 1);
                    lemma_flat_shape(**right, base.len() as int + 1 + tree_size(**left));
                }
                self.flatten_bvh(left, offset);
                let right_start = self.flatten_bvh(right, offset);
                let cur = self.linear_bvh_node[idx];
                self.linear_bvh_node.set(idx, LinearBVHNode { offset: right_start, ..cur });
                proof {
                    assert(self.linear_bvh_node@ =~= base + flat(*node, base.len() as int));
                }
            },
        }
        my_offset
    }

    /// Build the hierarchy from `primitives`, replacing the stored
    /// structure wholesale: on success `primitives` holds the input
    /// permuted into leaf-visitation order and `linear_bvh_node` the
    /// flattened tree, whose leaf records carry offsets 0, 1, ... in array
    /// order, each leaf's box being the box computed for the primitive at
    /// its offset.  The output order is a function of the scene alone:
    /// the reordered list is the input read through `build_windows` of the
    /// scene's own build records, and the root's split axis is the
    /// dominant axis of the scene's centroid box.  An empty input or a
    /// primitive with malformed geometry is refused, and a refused build
    /// leaves the structure untouched.  The input length is capped so that
    /// the node count and every stored offset fit in `i32`.
    #[verifier::rlimit(60)]
    pub fn build(&mut self, primitives: &Vec<Object>) -> (r: Result<(), BuildError>)
        requires
            primitives@.len() <= 0x3FFF_FFFF,
        ensures
            r is Ok <==> primitives@.len() >= 1 && (forall|k: int|
                0 <= k < primitives@.len() ==> crate::object::wf_geometry(
                    (#[trigger] primitives@[k])@,
                )),
            r == Err::<(), BuildError>(BuildError::NoPrimitives) <==> primitives@.len() == 0,
            r is Err ==> *final(self) == *old(self),
            r is Ok ==> final(self).primitives@.len() == primitives@.len(),
            r is Ok ==> final(self).linear_bvh_node@.len() == 2 * primitives@.len() - 1,
            r is Ok ==> lin_wf(
                final(self).linear_bvh_node@,
                0,
                final(self).linear_bvh_node@.len() as int,
            ),
            r is Ok ==> leaf_records(final(self).linear_bvh_node@).len() == primitives@.len(),
            r is Ok ==> forall|j: int|
                0 <= j < primitives@.len() ==> {
                    let lf = #[trigger] leaf_records(final(self).linear_bvh_node@)[j];
                    &&& lf.offset == j
                    &&& lf.n_primitives == 1
                    &&& lf.axis == 0
                    &&& lf.aabb == object_aabb(final(self).primitives@[j]@)
                },
            r is Ok && primitives@.len() >= 2 ==> final(self).linear_bvh_node@[0].axis as int
                == dominant_axis(scene_cbox(views_of(primitives@), primitives@.len() as int)),
            r is Ok ==> forall|j: int|
                0 <= j < primitives@.len() ==> (#[trigger] final(self).primitives@[j])@
                    == primitives@[build_windows(
                    scene_infos(views_of(primitives@)),
                    0,
                    primitives@.len() as int,
                )[j].primitive_number as int]@,
            r is Ok ==> views_of(final(self).primitives@).to_multiset() == views_of(
                primitives@,
            ).to_multiset(),
            final(self).node_number == old(self).node_number,
            final(self).vertices_number == old(self).vertices_number,
    {
        let n = primitives.len();
        if n == 0 {
            return Err(BuildError::NoPrimitives);
        }
        let mut i: usize = 0;
        while i < n
            invariant
                i <= n,
                n == primitives@.len(),
                forall|k: int|
                    0 <= k < i ==> crate::object::wf_geometry((#[trigger] primitives@[k])@),
            decreases n - i,
        {
            if !primitives[i].geometry_ok() {
                return Err(BuildError::InvalidPrimitiveGeometry);
            }
            i = i + 1;
        }
        let mut prims_copy: Vec<Object> = Vec::new();
        let mut i: usize = 0;
        while i < n
            invariant
                i <= n,
                n == primitives@.len(),
                prims_copy@.len() == i,
                forall|k: int| 0 <= k < i ==> (#[trigger] prims_copy@[k])@ == primitives@[k]@,
            decreases n - i,
        {
            prims_copy.push(clone_object(&primitives[i]));
            i = i + 1;
        }
        self.primitives = prims_copy;
        let ghost prims0 = self.primitives@;
        proof {
            assert forall|k: int| 0 <= k < n implies crate::object::wf_geometry(
                (#[trigger] prims0[k])@,
            ) by {
                assert(prims0[k]@ == primitives@[k]@);
            }
        }
        let mut primitive_info: Vec<BVHPrimitiveInfo> = Vec::new();
        let mut i: usize = 0;
        while i < n
            invariant
                i <= n,
                n == self.primitives@.len(),
                n <= 0x3FFF_FFFF,
                self.primitives@ == prims0,
                forall|k: int|
                    0 <= k < n ==> crate::object::wf_geometry((#[trigger] prims0[k])@),
                primitive_info@.len() == i,
                forall|k: int| 0 <= k < i ==> info_ok(#[trigger] primitive_info@[k], prims0),
                forall|k: int|
                    0 <= k < i ==> (#[trigger] primitive_info@[k]).primitive_number == k,
            decreases n - i,
        {
            let o = &self.primitives[i];
            let mut aabb = AABB::new();
            match o.shape {
                SHAPE::NONE => {},
                SHAPE::RT_SPHERE => {
                    aabb = AABB::new_sphere(o.center, o.radius, o.constant, o.material);
                },
                SHAPE::RT_MESH => {
                    let mut vertex: Vec<Vec3> = Vec::new();
                    vertex.push(o.vertices[0]);
                    vertex.push(o.vertices[3]);
                    vertex.push(o.vertices[6]);
                    proof {
                        assert(vertex@ =~= crate::object::mesh_points(o.vertices@));
                    }
                    aabb = AABB::new_mesh(vertex, o.constant, o.material);
                },
                SHAPE::RT_TRIANGLE => {
                    let mut vertex: Vec<Vec3> = Vec::new();
                    vertex.push(o.vertices[0]);
                    vertex.push(o.vertices[1]);
                    vertex.push(o.vertices[2]);
                    proof {
                        assert(vertex@ =~= crate::object::triangle_points(o.vertices@));
                    }
                    aabb = AABB::new_triangle(vertex, o.constant, o.material);
                },
                SHAPE::RT_RECTANGLE => {
                    let mut vertex: Vec<Vec3> = Vec::new();
                    vertex.push(o.vertices[0]);
                    vertex.push(o.vertices[1]);
                    vertex.push(o.vertices[2]);
                    vertex.push(o.vertices[3]);
                    proof {
                        assert(vertex@ =~= crate::object::rectangle_points(o.vertices@));
                    }
                    aabb = AABB::new_rectangle(vertex, o.constant, o.material);
                },
                SHAPE::RT_VOLUME => {
                    let mut vertex: Vec<Vec3> = Vec::new();
                    vertex.push(o.vertices[0]);
                    vertex.push(o.vertices[1]);
                    vertex.push(o.vertices[2]);
                    vertex.push(o.vertices[3]);
                    proof {
                        assert(vertex@ =~= o.vertices@);
                    }
                    aabb = AABB::new_box_volume(vertex, o.constant, o.material);
                },
            }
            proof {
                assert(aabb == object_aabb(prims0[i as int]@));
                crate::object::lemma_object_aabb_ok(prims0[i as int]@);
            }
            let info = BVHPrimitiveInfo::new(i as i32, aabb);
            primitive_info.push(info);
            i = i + 1;
        }
        let ghost info_entry = primitive_info@;
        let mut ordered_prims: Vec<Object> = Vec::new();
        let mut total_nodes: i32 = 0;
        let root = self.recursive_build(
            &mut primitive_info,
            0,
            n,
            &mut total_nodes,
            &mut ordered_prims,
        );
        let ghost info_final = primitive_info@;
        let ghost ordv = ordered_prims@;
        self.primitives = ordered_prims;
        self.linear_bvh_node = Vec::new();
        let mut offset: i32 = 0;
        self.flatten_bvh(&root, &mut offset);
        proof {
            let ni = n as int;
            let s = self.linear_bvh_node@;
            let p = self.primitives@;
            assert(s =~= flat(root, 0));
            lemma_flat_shape(root, 0);
            assert forall|k: int| 0 <= k < tree_size(root) implies s[0 + k] == #[trigger] flat(
                root,
                0,
            )[k] by {}
            lemma_flat_lin_wf(root, s, 0);
            lemma_flat_leaf_records(root, 0);
            let lr = leaf_records(s);
            assert(lr.len() == ni);
            assert forall|j: int| 0 <= j < ni implies {
                let lf = #[trigger] lr[j];
                &&& lf.offset == j
                &&& lf.n_primitives == 1
                &&& lf.axis == 0
                &&& lf.aabb == object_aabb(p[j]@)
            } by {
                assert(lr[j] == leaves(root).map_values(|m: BVHNode| leaf_lin(m))[j]);
                assert(lr[j] == leaf_lin(leaves(root)[j]));
            }
            assert(ordv.subrange(0, ni) =~= ordv);
            assert forall|j: int| 0 <= j < ni implies #[trigger] range_views(
                info_entry,
                prims0,
                0,
                ni,
            )[j] == views_of(primitives@)[j] by {
                assert(info_entry[j].primitive_number == j);
                assert(prims0[j]@ == primitives@[j]@);
            }
            assert(range_views(info_entry, prims0, 0, ni) =~= views_of(primitives@));
            assert(views_of(p).to_multiset() == views_of(primitives@).to_multiset());
            if ni >= 2 {
                lemma_scene_cbox(info_entry, prims0, ni);
                assert(views_of(prims0) =~= views_of(primitives@));
                assert(root is Interior);
                assert(s[0] == flat(root, 0)[0]);
                assert(s[0].axis == root->Interior_axis);
                assert(s[0].axis as int == dominant_axis(
                    scene_cbox(views_of(primitives@), ni),
                ));
            }
            // the output order is a function of the scene: the record list
            // went through exactly the window rebuilds, starting from the
            // scene's own records
            assert forall|k: int| 0 <= k < ni implies info_entry[k] == #[trigger] scene_infos(
                views_of(primitives@),
            )[k] by {
                assert(info_ok(info_entry[k], prims0));
                assert(prims0[k]@ == primitives@[k]@);
            }
            assert(scene_infos(views_of(primitives@)) =~= info_entry);
            assert(info_final == build_windows(scene_infos(views_of(primitives@)), 0, ni));
            assert forall|j: int| 0 <= j < ni implies (#[trigger] p[j])@ == primitives@[
                build_windows(scene_infos(views_of(primitives@)), 0, ni)[j].primitive_number as int
            ]@ by {
                assert(leaves(root)[j] is Leaf);
                assert(p[j]@ == prims0[info_final[j].primitive_number as int]@);
                assert(info_ok(info_final[j], prims0));
                assert(prims0[info_final[j].primitive_number as int]@ == primitives@[
                    info_final[j].primitive_number as int
                ]@);
            }
        }
        Ok(())
    }
}

} // verus!
