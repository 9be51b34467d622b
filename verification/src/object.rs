//! Renderable primitives as the builder consumes them.
//!
//! An `Object` is a tagged record: the shape tag says which of the
//! geometric fields carry meaning and how many entries the vertex list
//! holds.  The builder only reads objects; it never invents or edits them.

use vstd::prelude::*;

use crate::aabb::{
    aabb_empty, box_ok, fold_box_spec, lemma_fold_in_bound, volume_corners, AABB,
};
use crate::utils::{Vec3, COORD_LIMIT, MATERIAL, SHAPE};

verus! {

/// One primitive handed to the builder.
///
/// The vertex list length is fixed by the shape tag (the packed GPU record
/// layout depends on it): 11 entries for a mesh triangle (three groups of
/// position, normal and texture coordinate, then two texture-index
/// entries), 4 for a triangle (three corners and a normal), 5 for a
/// rectangle (four corners and a normal), 4 for a box volume (four
/// corners).  Spheres and `NONE` primitives carry no vertices.
#[derive(Debug)]
pub struct Object {
    pub shape: SHAPE,
    pub vertices: Vec<Vec3>,
    pub center: Vec3,
    pub radius: i64,
    pub albedo: Vec3,
    pub constant: i64,
    pub material: MATERIAL,
}

/// Mathematical value of an `Object`.
#[verifier::ext_equal]
pub struct ObjectV {
    pub shape: SHAPE,
    pub vertices: Seq<Vec3>,
    pub center: Vec3,
    pub radius: i64,
    pub albedo: Vec3,
    pub constant: i64,
    pub material: MATERIAL,
}

impl View for Object {
    type V = ObjectV;

    open spec fn view(&self) -> ObjectV {
        ObjectV {
            shape: self.shape,
            vertices: self.vertices@,
            center: self.center,
            radius: self.radius,
            albedo: self.albedo,
            constant: self.constant,
            material: self.material,
        }
    }
}

/// Number of vertex-list entries the shape tag fixes.
pub open spec fn vertex_count(s: SHAPE) -> int {
    match s {
        SHAPE::NONE => 0,
        SHAPE::RT_SPHERE => 0,
        SHAPE::RT_MESH => 11,
        SHAPE::RT_TRIANGLE => 4,
        SHAPE::RT_RECTANGLE => 5,
        SHAPE::RT_VOLUME => 4,
    }
}

/// Well-formed geometry: the vertex list has the length its shape tag
/// fixes, and every geometric coordinate stays within `COORD_LIMIT` so that
/// bounds and centroids are exact.
pub open spec fn wf_geometry(o: ObjectV) -> bool {
    &&& o.vertices.len() == vertex_count(o.shape)
    &&& forall|k: int|
        0 <= k < o.vertices.len() ==> (#[trigger] o.vertices[k]).within(COORD_LIMIT as int)
    &&& (o.shape is RT_SPHERE ==> o.center.within(COORD_LIMIT as int) && -COORD_LIMIT
        <= o.radius <= COORD_LIMIT)
}

/// The three positions of a mesh triangle: every third vertex entry.
pub open spec fn mesh_points(vs: Seq<Vec3>) -> Seq<Vec3> {
    seq![vs[0], vs[3], vs[6]]
}

/// The three corners of a triangle.
pub open spec fn triangle_points(vs: Seq<Vec3>) -> Seq<Vec3> {
    seq![vs[0], vs[1], vs[2]]
}

/// The four corners of a rectangle.
pub open spec fn rectangle_points(vs: Seq<Vec3>) -> Seq<Vec3> {
    seq![vs[0], vs[1], vs[2], vs[3]]
}

/// The bounding box the builder computes for a primitive: the fold of its
/// defining points per its shape constructor, or the empty box for `NONE`.
pub open spec fn object_aabb(o: ObjectV) -> AABB {
    match o.shape {
        SHAPE::NONE => aabb_empty(),
        SHAPE::RT_SPHERE => AABB {
            min: Vec3 {
                x: (o.center.x - o.radius) as i64,
                y: (o.center.y - o.radius) as i64,
                z: (o.center.z - o.radius) as i64,
            },
            max: Vec3 {
                x: (o.center.x + o.radius) as i64,
                y: (o.center.y + o.radius) as i64,
                z: (o.center.z + o.radius) as i64,
            },
            shape: SHAPE::RT_SPHERE,
            constant: o.constant,
            material: o.material,
        },
        SHAPE::RT_MESH => fold_box_spec(
            mesh_points(o.vertices),
            SHAPE::RT_MESH,
            o.constant,
            o.material,
        ),
        SHAPE::RT_TRIANGLE => fold_box_spec(
            triangle_points(o.vertices),
            SHAPE::RT_TRIANGLE,
            o.constant,
            o.material,
        ),
        SHAPE::RT_RECTANGLE => fold_box_spec(
            rectangle_points(o.vertices),
            SHAPE::RT_RECTANGLE,
            o.constant,
            o.material,
        ),
        SHAPE::RT_VOLUME => fold_box_spec(
            volume_corners(o.vertices),
            SHAPE::RT_VOLUME,
            o.constant,
            o.material,
        ),
    }
}

/// The box of a well-formed primitive has only real in-range axes, or is
/// the empty box for a `NONE` primitive.
pub proof fn lemma_object_aabb_ok(o: ObjectV)
    requires
        wf_geometry(o),
    ensures
        box_ok(object_aabb(o)),
{
    let l = COORD_LIMIT as int;
    match o.shape {
        SHAPE::NONE => {},
        SHAPE::RT_SPHERE => {},
        SHAPE::RT_MESH => {
            lemma_points_fold_ok(mesh_points(o.vertices), 2 * l);
        },
        SHAPE::RT_TRIANGLE => {
            lemma_points_fold_ok(triangle_points(o.vertices), 2 * l);
        },
        SHAPE::RT_RECTANGLE => {
            lemma_points_fold_ok(rectangle_points(o.vertices), 2 * l);
        },
        SHAPE::RT_VOLUME => {
            lemma_points_fold_ok(volume_corners(o.vertices), 8 * l);
        },
    }
}

/// Folding a non-empty list of points bounded coordinate-wise by `b`
/// (itself within the working range) gives a box with real in-range axes.
proof fn lemma_points_fold_ok(pts: Seq<Vec3>, b: int)
    requires
        pts.len() > 0,
        0 <= b <= 0x2000_0000_0000_0000,
        forall|k: int| 0 <= k < pts.len() ==> (#[trigger] pts[k]).within(b),
    ensures
        forall|ax: int|
            0 <= ax < 3 ==> -b <= #[trigger] crate::aabb::fold_min(pts, ax) <= b && -b
                <= crate::aabb::fold_max(pts, ax) <= b && crate::aabb::fold_min(pts, ax)
                <= crate::aabb::fold_max(pts, ax),
{
    assert forall|ax: int| 0 <= ax < 3 implies -b <= #[trigger] crate::aabb::fold_min(pts, ax)
        <= b && -b <= crate::aabb::fold_max(pts, ax) <= b && crate::aabb::fold_min(pts, ax)
        <= crate::aabb::fold_max(pts, ax) by {
        assert forall|k: int| 0 <= k < pts.len() implies -b <= #[trigger] pts[k].axis(ax)
            <= b by {
            assert(pts[k].within(b));
        }
        lemma_fold_in_bound(pts, ax, b);
    }
}

impl Object {
    /// A primitive assembled from explicit fields.
    pub fn new(
        shape: SHAPE,
        vertices: Vec<Vec3>,
        center: Vec3,
        radius: i64,
        albedo: Vec3,
        constant: i64,
        material: MATERIAL,
    ) -> (r: Object)
        ensures
            r@ == (ObjectV {
                shape,
                vertices: vertices@,
                center,
                radius,
                albedo,
                constant,
                material,
            }),
    {
        Object { shape, vertices, center, radius, albedo, constant, material }
    }

    /// A mesh triangle primitive: it carries only its vertex list; the
    /// unused geometric fields are zero.
    pub fn new_mesh(vertices: Vec<Vec3>, constant: i64, material: MATERIAL) -> (r: Object)
        ensures
            r@ == (ObjectV {
                shape: SHAPE::RT_MESH,
                vertices: vertices@,
                center: Vec3 { x: 0, y: 0, z: 0 },
                radius: 0,
                albedo: Vec3 { x: 0, y: 0, z: 0 },
                constant,
                material,
            }),
    {
        Object {
            shape: SHAPE::RT_MESH,
            vertices,
            center: Vec3 { x: 0, y: 0, z: 0 },
            radius: 0,
            albedo: Vec3 { x: 0, y: 0, z: 0 },
            constant,
            material,
        }
    }

    /// The six rectangle faces of a box, cut out of a list of thirty
    /// vertex entries: six groups of five (four corners and a normal),
    /// each group becoming one rectangle primitive that shares the box's
    /// albedo, constant and material.
    pub fn new_box(
        vertices: Vec<Vec3>,
        albedo: Vec3,
        constant: i64,
        material: MATERIAL,
    ) -> (r: Vec<Object>)
        requires
            vertices@.len() == 30,
        ensures
            r@.len() == 6,
            forall|i: int|
                0 <= i < 6 ==> (#[trigger] r@[i])@ == (ObjectV {
                    shape: SHAPE::RT_RECTANGLE,
                    vertices: vertices@.subrange(5 * i, 5 * i + 5),
                    center: Vec3 { x: 0, y: 0, z: 0 },
                    radius: 0,
                    albedo,
                    constant,
                    material,
                }),
    {
        let mut objects: Vec<Object> = Vec::new();
        let mut i: usize = 0;
        while i < 6
            invariant
                i <= 6,
                vertices@.len() == 30,
                objects@.len() == i,
                forall|k: int|
                    0 <= k < i ==> (#[trigger] objects@[k])@ == (ObjectV {
                        shape: SHAPE::RT_RECTANGLE,
                        vertices: vertices@.subrange(5 * k, 5 * k + 5),
                        center: Vec3 { x: 0, y: 0, z: 0 },
                        radius: 0,
                        albedo,
                        constant,
                        material,
                    }),
            decreases 6 - i,
        {
            let mut vertex: Vec<Vec3> = Vec::new();
            vertex.push(vertices[i * 5]);
            vertex.push(vertices[i * 5 + 1]);
            vertex.push(vertices[i * 5 + 2]);
            vertex.push(vertices[i * 5 + 3]);
            vertex.push(vertices[i * 5 + 4]);
            proof {
                assert(vertex@ =~= vertices@.subrange(5 * i as int, 5 * i as int + 5));
            }
            let object = Object {
                shape: SHAPE::RT_RECTANGLE,
                vertices: vertex,
                center: Vec3 { x: 0, y: 0, z: 0 },
                radius: 0,
                albedo,
                constant,
                material,
            };
            objects.push(object);
            i = i + 1;
        }
        objects
    }

    /// Runtime check of `wf_geometry`.
    pub fn geometry_ok(&self) -> (r: bool)
        ensures
            r == wf_geometry(self@),
    {
        let expected: usize = match self.shape {
            SHAPE::NONE => 0,
            SHAPE::RT_SPHERE => 0,
            SHAPE::RT_MESH => 11,
            SHAPE::RT_TRIANGLE => 4,
            SHAPE::RT_RECTANGLE => 5,
            SHAPE::RT_VOLUME => 4,
        };
        if self.vertices.len() != expected {
            return false;
        }
        let n = self.vertices.len();
        let mut i: usize = 0;
        while i < n
            invariant
                i <= n,
                n == self.vertices@.len(),
                forall|k: int|
                    0 <= k < i ==> (#[trigger] self.vertices@[k]).within(COORD_LIMIT as int),
            decreases n - i,
        {
            let v = self.vertices[i];
            if v.x < -COORD_LIMIT || v.x > COORD_LIMIT || v.y < -COORD_LIMIT || v.y > COORD_LIMIT
                || v.z < -COORD_LIMIT || v.z > COORD_LIMIT {
                return false;
            }
            i = i + 1;
        }
        if let SHAPE::RT_SPHERE = self.shape {
            let c = self.center;
            if c.x < -COORD_LIMIT || c.x > COORD_LIMIT || c.y < -COORD_LIMIT || c.y > COORD_LIMIT
                || c.z < -COORD_LIMIT || c.z > COORD_LIMIT {
                return false;
            }
            if self.radius < -COORD_LIMIT || self.radius > COORD_LIMIT {
                return false;
            }
        }
        true
    }
}

/// The mathematical values of a primitive list.
pub open spec fn views_of(s: Seq<Object>) -> Seq<ObjectV> {
    s.map_values(|o: Object| o@)
}

/// A field-for-field copy of a primitive.
pub fn clone_object(o: &Object) -> (r: Object)
    ensures
        r@ == o@,
{
    let mut vertices: Vec<Vec3> = Vec::new();
    let n = o.vertices.len();
    let mut i: usize = 0;
    while i < n
        invariant
            i <= n,
            n == o.vertices@.len(),
            vertices@ =~= o.vertices@.take(i as int),
        decreases n - i,
    {
        vertices.push(o.vertices[i]);
        i = i + 1;
    }
    proof {
        assert(vertices@ =~= o.vertices@);
    }
    let r = Object {
        shape: o.shape,
        vertices,
        center: o.center,
        radius: o.radius,
        albedo: o.albedo,
        constant: o.constant,
        material: o.material,
    };
    proof {
        assert(r@ =~= o@);
    }
    r
}

} // verus!
