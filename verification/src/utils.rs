//! Shared value types: shape and material tags, fixed-point coordinates.

use vstd::prelude::*;

verus! {

/// Shape tag of a renderable primitive.
#[allow(non_camel_case_types)]
#[derive(Clone, Copy, Debug, PartialEq, Eq, Structural)]
pub enum SHAPE {
    NONE,
    RT_SPHERE,
    RT_MESH,
    RT_TRIANGLE,
    RT_RECTANGLE,
    RT_VOLUME,
}

/// Material tag of a renderable primitive.
#[allow(non_camel_case_types)]
#[derive(Clone, Copy, Debug, PartialEq, Eq, Structural)]
pub enum MATERIAL {
    NONE,
    DIFFUSE,
    METAL,
    DIELECTRIC,
    DIFFUSE_LIGHT,
}

/// Numeric code of a shape tag in the packed GPU buffers.
pub open spec fn shape_tag(s: SHAPE) -> int {
    match s {
        SHAPE::NONE => 0,
        SHAPE::RT_SPHERE => 1,
        SHAPE::RT_MESH => 2,
        SHAPE::RT_TRIANGLE => 3,
        SHAPE::RT_RECTANGLE => 4,
        SHAPE::RT_VOLUME => 5,
    }
}

/// Numeric code of a material tag in the packed GPU buffers.
pub open spec fn material_tag(m: MATERIAL) -> int {
    match m {
        MATERIAL::NONE => 0,
        MATERIAL::DIFFUSE => 1,
        MATERIAL::METAL => 2,
        MATERIAL::DIELECTRIC => 3,
        MATERIAL::DIFFUSE_LIGHT => 4,
    }
}

/// Runtime value of `shape_tag`.
pub fn shape_tag_value(s: SHAPE) -> (r: i64)
    ensures
        r as int == shape_tag(s),
{
    match s {
        SHAPE::NONE => 0,
        SHAPE::RT_SPHERE => 1,
        SHAPE::RT_MESH => 2,
        SHAPE::RT_TRIANGLE => 3,
        SHAPE::RT_RECTANGLE => 4,
        SHAPE::RT_VOLUME => 5,
    }
}

/// Runtime value of `material_tag`.
pub fn material_tag_value(m: MATERIAL) -> (r: i64)
    ensures
        r as int == material_tag(m),
{
    match m {
        MATERIAL::NONE => 0,
        MATERIAL::DIFFUSE => 1,
        MATERIAL::METAL => 2,
        MATERIAL::DIELECTRIC => 3,
        MATERIAL::DIFFUSE_LIGHT => 4,
    }
}

/// Largest coordinate value; the per-axis minimum of a freshly constructed
/// (empty) bounding box, so that any real point merged into it replaces it.
pub const MAX_COORD: i64 = i64::MAX;

/// Smallest coordinate value; the per-axis maximum of an empty bounding box.
pub const MIN_COORD: i64 = -i64::MAX;

/// Bound on the coordinates of input geometry.  Keeping every vertex, centre
/// and radius within this bound leaves enough headroom for the derived box
/// corners, merged bounds and centroids to stay exact in `i64`.
pub const COORD_LIMIT: i64 = 0x0400_0000_0000_0000;

/// Bound that every coordinate of a non-empty bounding box satisfies: wide
/// enough for any value derived from in-limit geometry, narrow enough that
/// sums and differences of two such values still fit in `i64`.
pub open spec fn in_range(c: int) -> bool {
    -0x2000_0000_0000_0000 <= c <= 0x2000_0000_0000_0000
}

/// A point or vector with fixed-point coordinates.
#[derive(Clone, Copy, Debug, PartialEq, Eq, Structural)]
pub struct Vec3 {
    pub x: i64,
    pub y: i64,
    pub z: i64,
}

impl Vec3 {
    /// Coordinate on the given axis (0 = x, 1 = y, 2 = z).
    pub open spec fn axis(self, i: int) -> int {
        if i == 0 {
            self.x as int
        } else if i == 1 {
            self.y as int
        } else {
            self.z as int
        }
    }

    /// All three coordinates within `bound`.
    pub open spec fn within(self, bound: int) -> bool {
        &&& -bound <= self.x <= bound
        &&& -bound <= self.y <= bound
        &&& -bound <= self.z <= bound
    }

    pub fn new(x: i64, y: i64, z: i64) -> (r: Vec3)
        ensures
            r == (Vec3 { x, y, z }),
    {
        Vec3 { x, y, z }
    }

    /// Runtime coordinate access by axis index.
    pub fn get_axis(&self, i: usize) -> (r: i64)
        requires
            i < 3,
        ensures
            r as int == self.axis(i as int),
    {
        if i == 0 {
            self.x
        } else if i == 1 {
            self.y
        } else {
            self.z
        }
    }
}

} // verus!
