use ray_tracer::aabb::{merge_vec3, AABB};
use ray_tracer::bvh::{BVHPrimitiveInfo, BVHTree};
use ray_tracer::object::Object;
use ray_tracer::pack::{get_length, texture_side};
use ray_tracer::utils::{Vec3, MATERIAL, SHAPE};

fn v3(x: i64, y: i64, z: i64) -> Vec3 {
    Vec3 { x, y, z }
}

fn sphere(cx: i64, cy: i64, cz: i64, r: i64) -> Object {
    Object::new(
        SHAPE::RT_SPHERE,
        Vec::new(),
        v3(cx, cy, cz),
        r,
        v3(900, 500, 100),
        3,
        MATERIAL::DIELECTRIC,
    )
}

#[test]
fn single_sphere_buffers() {
    let mut tree = BVHTree::new();
    assert!(tree.build(&vec![sphere(2, -3, 4, 5)]).is_ok());
    let (node_data, vertex_data) = tree.set_texture();

    // one node record: min, max, offset, count, axis, shape, constant, material
    assert_eq!(
        node_data,
        vec![-3, -8, -1, 7, 2, 9, 0, 1, 0, 1, 3, 3]
    );

    // one sphere record: centre, albedo, radius, then zero padding to 33
    let mut want = vec![2, -3, 4, 900, 500, 100, 5];
    want.extend(std::iter::repeat(0).take(26));
    assert_eq!(vertex_data, want);

    assert_eq!(tree.node_number, 1);
    assert_eq!(tree.vertices_number, 1);
}

#[test]
fn none_primitive_packs_nothing() {
    let none = Object::new(
        SHAPE::NONE,
        Vec::new(),
        v3(0, 0, 0),
        0,
        v3(0, 0, 0),
        0,
        MATERIAL::NONE,
    );
    let mut tree = BVHTree::new();
    assert!(tree.build(&vec![none, sphere(4, 0, 0, 1)]).is_ok());
    let (node_data, vertex_data) = tree.set_texture();
    assert_eq!(node_data.len(), 3 * 12);
    // only the sphere yields a record
    assert_eq!(vertex_data.len(), 33);
    assert_eq!(tree.node_number, 3);
    assert_eq!(tree.vertices_number, 1);
}

#[test]
fn every_shape_record_is_33_values() {
    let mut vs11 = vec![v3(0, 0, 0); 11];
    vs11[0] = v3(1, 2, 3);
    let mesh = Object::new_mesh(vs11, 0, MATERIAL::DIFFUSE);
    let triangle = Object::new(
        SHAPE::RT_TRIANGLE,
        vec![v3(0, 0, 0), v3(1, 0, 0), v3(0, 1, 0), v3(0, 0, 1)],
        v3(0, 0, 0),
        0,
        v3(7, 8, 9),
        0,
        MATERIAL::DIFFUSE,
    );
    let rectangle = Object::new(
        SHAPE::RT_RECTANGLE,
        vec![v3(0, 0, 0), v3(1, 0, 0), v3(1, 1, 0), v3(0, 1, 0), v3(0, 0, 1)],
        v3(0, 0, 0),
        0,
        v3(7, 8, 9),
        0,
        MATERIAL::DIFFUSE_LIGHT,
    );
    let volume = Object::new(
        SHAPE::RT_VOLUME,
        vec![v3(1, 0, 0), v3(0, 2, 0), v3(0, 0, 3), v3(0, 0, 0)],
        v3(0, 0, 0),
        0,
        v3(7, 8, 9),
        0,
        MATERIAL::METAL,
    );
    let prims = vec![mesh, triangle, rectangle, volume, sphere(0, 0, 0, 1)];
    let mut tree = BVHTree::new();
    assert!(tree.build(&prims).is_ok());
    let (node_data, vertex_data) = tree.set_texture();
    assert_eq!(node_data.len(), (2 * 5 - 1) * 12);
    assert_eq!(vertex_data.len(), 5 * 33);
    assert_eq!(tree.vertices_number, 5);
}

#[test]
fn triangle_record_layout() {
    let triangle = Object::new(
        SHAPE::RT_TRIANGLE,
        vec![v3(1, 2, 3), v3(4, 5, 6), v3(7, 8, 9), v3(0, 0, 1)],
        v3(0, 0, 0),
        0,
        v3(11, 12, 13),
        0,
        MATERIAL::DIFFUSE,
    );
    let mut tree = BVHTree::new();
    assert!(tree.build(&vec![triangle]).is_ok());
    let (_, vertex_data) = tree.set_texture();
    let mut want = vec![1, 2, 3, 4, 5, 6, 7, 8, 9, 0, 0, 1, 11, 12, 13];
    want.extend(std::iter::repeat(0).take(18));
    assert_eq!(vertex_data, want);
}

#[test]
fn record_counts_accumulate_across_calls() {
    let mut tree = BVHTree::new();
    assert!(tree.build(&vec![sphere(0, 0, 0, 1), sphere(5, 0, 0, 1)]).is_ok());
    tree.set_texture();
    assert_eq!(tree.node_number, 3);
    assert_eq!(tree.vertices_number, 2);
    tree.set_texture();
    assert_eq!(tree.node_number, 6);
    assert_eq!(tree.vertices_number, 4);
}

#[test]
fn get_length_values() {
    assert_eq!(get_length(0), 1);
    assert_eq!(get_length(1), 1);
    assert_eq!(get_length(2), 2);
    assert_eq!(get_length(4), 2);
    assert_eq!(get_length(5), 4);
    assert_eq!(get_length(16), 4);
    assert_eq!(get_length(17), 8);
    assert_eq!(get_length(64), 8);
    assert_eq!(get_length(65), 16);
    assert_eq!(get_length(i32::MAX), 0x10000);
}

#[test]
fn texture_side_values() {
    assert_eq!(texture_side(0), 1);
    assert_eq!(texture_side(1), 1);
    assert_eq!(texture_side(3), 1);
    assert_eq!(texture_side(4), 2);
    assert_eq!(texture_side(12), 2);
    assert_eq!(texture_side(13), 4);
    assert_eq!(texture_side(48), 4);
    assert_eq!(texture_side(49), 8);
    assert_eq!(texture_side(50), 8);
    assert_eq!(texture_side(192), 8);
    assert_eq!(texture_side(193), 16);
}

#[test]
fn centroid_is_floor_midpoint() {
    let b = AABB::new_sphere(v3(0, -5, 2), 0, 0, MATERIAL::DIFFUSE);
    let info = BVHPrimitiveInfo::new(0, b);
    assert_eq!(info.centroid, v3(0, -5, 2));
    let c = AABB::new_sphere(v3(2, 2, 2), 3, 0, MATERIAL::DIFFUSE);
    // spans [-1, 5]: the midpoint is exact
    let info2 = BVHPrimitiveInfo::new(1, c);
    assert_eq!(info2.centroid, v3(2, 2, 2));
    // an odd span rounds the midpoint down
    let d = merge_vec3(&merge_vec3(&AABB::new(), &v3(-5, 0, 0)), &v3(0, 1, 1));
    let info3 = BVHPrimitiveInfo::new(2, d);
    assert_eq!(info3.centroid, v3(-3, 0, 0));
}

#[test]
fn texture_lengths_for_two_spheres() {
    let mut tree = BVHTree::new();
    assert!(tree.build(&vec![sphere(0, 0, 0, 1), sphere(5, 0, 0, 1)]).is_ok());
    tree.set_texture();
    // 3 node records span 12 texels, 2 primitive records span 22
    let (bvh_side, vertex_side) = tree.texture_lengths();
    assert_eq!(bvh_side, 4);
    assert_eq!(vertex_side, 8);
}
