use ray_tracer::aabb::{aabb_axis, merge_aabb, merge_vec3, AABB};
use ray_tracer::utils::{Vec3, MATERIAL, MAX_COORD, MIN_COORD, SHAPE};

fn v3(x: i64, y: i64, z: i64) -> Vec3 {
    Vec3 { x, y, z }
}

#[test]
fn empty_box_sentinels() {
    let b = AABB::new();
    assert_eq!(b.min, v3(MAX_COORD, MAX_COORD, MAX_COORD));
    assert_eq!(b.max, v3(MIN_COORD, MIN_COORD, MIN_COORD));
    assert_eq!(b.shape, SHAPE::NONE);
    assert_eq!(b.constant, 0);
    assert_eq!(b.material, MATERIAL::NONE);
}

#[test]
fn merge_with_empty_is_identity() {
    let b = AABB::new_sphere(v3(3, -4, 5), 2, 9, MATERIAL::DIELECTRIC);
    let m1 = merge_aabb(&AABB::new(), &b);
    assert_eq!(m1.min, b.min);
    assert_eq!(m1.max, b.max);
    let m2 = merge_aabb(&b, &AABB::new());
    assert_eq!(m2.min, b.min);
    assert_eq!(m2.max, b.max);
}

#[test]
fn merge_takes_axiswise_union() {
    let a = AABB::new_sphere(v3(0, 0, 0), 1, 0, MATERIAL::DIFFUSE);
    let b = AABB::new_sphere(v3(10, -10, 3), 2, 0, MATERIAL::DIFFUSE);
    let m = merge_aabb(&a, &b);
    assert_eq!(m.min, v3(-1, -12, -1));
    assert_eq!(m.max, v3(12, 1, 5));
    // the merged tags are reset, as by AABB::new
    assert_eq!(m.shape, SHAPE::NONE);
    assert_eq!(m.constant, 0);
    assert_eq!(m.material, MATERIAL::NONE);
}

#[test]
fn merge_point_grows_box() {
    let a = AABB::new_sphere(v3(0, 0, 0), 1, 0, MATERIAL::DIFFUSE);
    let m = merge_vec3(&a, &v3(5, 0, -9));
    assert_eq!(m.min, v3(-1, -1, -9));
    assert_eq!(m.max, v3(5, 1, 1));
}

#[test]
fn sphere_bounds_are_center_plus_minus_radius() {
    let b = AABB::new_sphere(v3(2, -3, 4), 5, 1, MATERIAL::METAL);
    assert_eq!(b.min, v3(-3, -8, -1));
    assert_eq!(b.max, v3(7, 2, 9));
    assert_eq!(b.shape, SHAPE::RT_SPHERE);
    assert_eq!(b.constant, 1);
    assert_eq!(b.material, MATERIAL::METAL);
}

#[test]
fn triangle_bounds_cover_vertices() {
    let vs = vec![v3(0, 0, 0), v3(4, -1, 2), v3(-2, 3, 7)];
    let b = AABB::new_triangle(vs.clone(), 0, MATERIAL::DIFFUSE);
    assert_eq!(b.min, v3(-2, -1, 0));
    assert_eq!(b.max, v3(4, 3, 7));
    assert_eq!(b.shape, SHAPE::RT_TRIANGLE);
    for v in vs {
        assert!(b.min.x <= v.x && v.x <= b.max.x);
        assert!(b.min.y <= v.y && v.y <= b.max.y);
        assert!(b.min.z <= v.z && v.z <= b.max.z);
    }
}

#[test]
fn rectangle_bounds_cover_vertices() {
    let vs = vec![v3(1, 1, 1), v3(5, 1, 1), v3(5, 6, 1), v3(1, 6, 1)];
    let b = AABB::new_rectangle(vs, 0, MATERIAL::DIFFUSE_LIGHT);
    assert_eq!(b.min, v3(1, 1, 1));
    assert_eq!(b.max, v3(5, 6, 1));
    assert_eq!(b.shape, SHAPE::RT_RECTANGLE);
}

#[test]
fn mesh_bounds_fold_all_points() {
    let vs = vec![v3(-2, 1, 0), v3(4, -3, 2), v3(1, 5, -6)];
    let b = AABB::new_mesh(vs, 0, MATERIAL::DIFFUSE);
    assert_eq!(b.min, v3(-2, -3, -6));
    assert_eq!(b.max, v3(4, 5, 2));
    assert_eq!(b.shape, SHAPE::RT_MESH);
}

#[test]
fn box_volume_bounds_span_derived_corners() {
    // corners relative to the fourth vertex: edges (1,0,0), (0,2,0), (0,0,3)
    let vs = vec![v3(1, 0, 0), v3(0, 2, 0), v3(0, 0, 3), v3(0, 0, 0)];
    let b = AABB::new_box_volume(vs, 0, MATERIAL::DIFFUSE);
    assert_eq!(b.min, v3(0, 0, 0));
    assert_eq!(b.max, v3(1, 2, 3));
    assert_eq!(b.shape, SHAPE::RT_VOLUME);
}

#[test]
fn box_volume_with_offset_base() {
    // the same edges hanging off a base at (10, 10, 10)
    let vs = vec![v3(12, 10, 10), v3(10, 13, 10), v3(10, 10, 14), v3(10, 10, 10)];
    let b = AABB::new_box_volume(vs, 0, MATERIAL::DIFFUSE);
    assert_eq!(b.min, v3(10, 10, 10));
    assert_eq!(b.max, v3(12, 13, 14));
}

#[test]
fn dominant_axis_prefers_strictly_larger() {
    let wide = AABB::new_sphere(v3(0, 0, 0), 1, 0, MATERIAL::DIFFUSE);
    let stretched_x = merge_vec3(&wide, &v3(10, 0, 0));
    assert_eq!(aabb_axis(&stretched_x), 0);
    let stretched_y = merge_vec3(&wide, &v3(0, 10, 0));
    assert_eq!(aabb_axis(&stretched_y), 1);
    let stretched_z = merge_vec3(&wide, &v3(0, 0, 10));
    assert_eq!(aabb_axis(&stretched_z), 2);
}

#[test]
fn dominant_axis_tie_break() {
    // equal extents everywhere: axis 0 is not strictly the largest and
    // axis 1 does not beat axis 2, so axis 2 wins
    let cube = AABB::new_sphere(v3(0, 0, 0), 1, 0, MATERIAL::DIFFUSE);
    assert_eq!(aabb_axis(&cube), 2);
    // x and y tie ahead of z: axis 0 is not strictly larger than axis 1,
    // axis 1 is strictly larger than axis 2, so axis 1 wins
    let slab = merge_vec3(&merge_vec3(&cube, &v3(9, 0, 0)), &v3(0, 9, 0));
    assert_eq!(aabb_axis(&slab), 1);
}
