use ray_tracer::bvh::{BVHTree, BuildError};
use ray_tracer::object::Object;
use ray_tracer::utils::{Vec3, MATERIAL, SHAPE};

fn v3(x: i64, y: i64, z: i64) -> Vec3 {
    Vec3 { x, y, z }
}

fn sphere(cx: i64, cy: i64, cz: i64, r: i64) -> Object {
    Object::new(
        SHAPE::RT_SPHERE,
        Vec::new(),
        v3(cx, cy, cz),
        r,
        v3(900, 500, 100),
        0,
        MATERIAL::DIFFUSE,
    )
}

#[test]
fn single_primitive_build() {
    let mut tree = BVHTree::new();
    let prims = vec![sphere(0, 0, 0, 1)];
    let r = tree.build(&prims);
    assert!(r.is_ok());
    assert_eq!(tree.linear_bvh_node.len(), 1);
    let leaf = tree.linear_bvh_node[0];
    assert_eq!(leaf.offset, 0);
    assert_eq!(leaf.n_primitives, 1);
    assert_eq!(leaf.axis, 0);
    assert_eq!(leaf.aabb.min, v3(-1, -1, -1));
    assert_eq!(leaf.aabb.max, v3(1, 1, 1));
    assert_eq!(tree.primitives.len(), 1);
    assert_eq!(tree.primitives[0].center, v3(0, 0, 0));
}

#[test]
fn two_spheres_build() {
    let mut tree = BVHTree::new();
    let prims = vec![sphere(0, 0, 0, 1), sphere(5, 0, 0, 1)];
    let r = tree.build(&prims);
    assert!(r.is_ok());
    assert_eq!(tree.linear_bvh_node.len(), 3);

    let root = tree.linear_bvh_node[0];
    assert_eq!(root.n_primitives, 0);
    assert_eq!(root.axis, 0);
    assert_eq!(root.offset, 2);
    assert_eq!(root.aabb.min, v3(-1, -1, -1));
    assert_eq!(root.aabb.max, v3(6, 1, 1));

    let left = tree.linear_bvh_node[1];
    assert_eq!(left.n_primitives, 1);
    assert_eq!(left.offset, 0);
    assert_eq!(left.aabb.min, v3(-1, -1, -1));
    assert_eq!(left.aabb.max, v3(1, 1, 1));

    let right = tree.linear_bvh_node[2];
    assert_eq!(right.n_primitives, 1);
    assert_eq!(right.offset, 1);
    assert_eq!(right.aabb.min, v3(4, -1, -1));
    assert_eq!(right.aabb.max, v3(6, 1, 1));

    // both halves hold one element, so the output keeps the input order
    assert_eq!(tree.primitives.len(), 2);
    assert_eq!(tree.primitives[0].center, v3(0, 0, 0));
    assert_eq!(tree.primitives[1].center, v3(5, 0, 0));
}

#[test]
fn empty_input_is_refused() {
    let mut tree = BVHTree::new();
    let prims: Vec<Object> = Vec::new();
    let r = tree.build(&prims);
    assert!(matches!(r, Err(BuildError::NoPrimitives)));
    assert_eq!(tree.linear_bvh_node.len(), 0);
    assert_eq!(tree.primitives.len(), 0);
}

#[test]
fn short_vertex_list_is_refused() {
    let mut tree = BVHTree::new();
    // a mesh primitive must carry 11 vertex entries
    let bad = Object::new(
        SHAPE::RT_MESH,
        vec![v3(0, 0, 0), v3(1, 0, 0)],
        v3(0, 0, 0),
        0,
        v3(0, 0, 0),
        0,
        MATERIAL::DIFFUSE,
    );
    let r = tree.build(&vec![bad]);
    assert!(matches!(r, Err(BuildError::InvalidPrimitiveGeometry)));
    assert_eq!(tree.linear_bvh_node.len(), 0);
}

#[test]
fn out_of_limit_coordinate_is_refused() {
    let mut tree = BVHTree::new();
    let far = sphere(ray_tracer::utils::COORD_LIMIT + 1, 0, 0, 1);
    let r = tree.build(&vec![far]);
    assert!(matches!(r, Err(BuildError::InvalidPrimitiveGeometry)));
}

#[test]
fn rebuild_replaces_everything() {
    let mut tree = BVHTree::new();
    let first = vec![sphere(0, 0, 0, 1), sphere(5, 0, 0, 1)];
    assert!(tree.build(&first).is_ok());
    assert_eq!(tree.linear_bvh_node.len(), 3);
    let second = vec![sphere(7, 7, 7, 2)];
    assert!(tree.build(&second).is_ok());
    assert_eq!(tree.linear_bvh_node.len(), 1);
    assert_eq!(tree.primitives.len(), 1);
    assert_eq!(tree.primitives[0].center, v3(7, 7, 7));
}

#[test]
fn seven_spheres_structure() {
    // walk the array the way the traversal shader does and check counts,
    // offsets, containment and the permutation on a concrete scene
    let centers: [(i64, i64, i64); 7] = [
        (10, 0, 0),
        (-4, 8, 2),
        (0, -9, 5),
        (3, 3, -12),
        (-7, -2, 1),
        (6, -5, 9),
        (1, 14, -3),
    ];
    let mut prims = Vec::new();
    for &(x, y, z) in centers.iter() {
        prims.push(sphere(x, y, z, 1));
    }
    let mut tree = BVHTree::new();
    assert!(tree.build(&prims).is_ok());
    let n = prims.len();
    let nodes = &tree.linear_bvh_node;
    assert_eq!(nodes.len(), 2 * n - 1);
    assert_eq!(tree.primitives.len(), n);

    // leaves appear in array order with offsets 0, 1, ..., n-1
    let mut next_offset = 0;
    for node in nodes.iter() {
        if node.n_primitives > 0 {
            assert_eq!(node.n_primitives, 1);
            assert_eq!(node.offset as usize, next_offset);
            assert_eq!(node.axis, 0);
            next_offset += 1;
        }
    }
    assert_eq!(next_offset, n);

    // walking from the root visits every slot exactly once
    let mut visited = vec![false; nodes.len()];
    let mut stack = vec![0usize];
    while let Some(i) = stack.pop() {
        assert!(i < nodes.len());
        assert!(!visited[i]);
        visited[i] = true;
        let node = nodes[i];
        if node.n_primitives == 0 {
            assert!(0 <= node.axis && node.axis < 3);
            let right = node.offset as usize;
            assert!(i + 2 <= right && right < nodes.len());
            // the parent box contains both children's boxes
            for (lo, hi, clo, chi) in [
                (node.aabb.min.x, node.aabb.max.x, nodes[i + 1].aabb.min.x, nodes[i + 1].aabb.max.x),
                (node.aabb.min.y, node.aabb.max.y, nodes[i + 1].aabb.min.y, nodes[i + 1].aabb.max.y),
                (node.aabb.min.z, node.aabb.max.z, nodes[i + 1].aabb.min.z, nodes[i + 1].aabb.max.z),
                (node.aabb.min.x, node.aabb.max.x, nodes[right].aabb.min.x, nodes[right].aabb.max.x),
                (node.aabb.min.y, node.aabb.max.y, nodes[right].aabb.min.y, nodes[right].aabb.max.y),
                (node.aabb.min.z, node.aabb.max.z, nodes[right].aabb.min.z, nodes[right].aabb.max.z),
            ] {
                assert!(lo <= clo && chi <= hi);
            }
            // and is exactly their union
            let (l, r) = (nodes[i + 1].aabb, nodes[right].aabb);
            assert_eq!(node.aabb.min.x, l.min.x.min(r.min.x));
            assert_eq!(node.aabb.min.y, l.min.y.min(r.min.y));
            assert_eq!(node.aabb.min.z, l.min.z.min(r.min.z));
            assert_eq!(node.aabb.max.x, l.max.x.max(r.max.x));
            assert_eq!(node.aabb.max.y, l.max.y.max(r.max.y));
            assert_eq!(node.aabb.max.z, l.max.z.max(r.max.z));
            stack.push(i + 1);
            stack.push(right);
        } else {
            // each leaf's box is the box of the primitive at its offset
            let p = &tree.primitives[node.offset as usize];
            assert_eq!(node.aabb.min.x, p.center.x - p.radius);
            assert_eq!(node.aabb.max.x, p.center.x + p.radius);
            assert_eq!(node.aabb.min.y, p.center.y - p.radius);
            assert_eq!(node.aabb.max.y, p.center.y + p.radius);
            assert_eq!(node.aabb.min.z, p.center.z - p.radius);
            assert_eq!(node.aabb.max.z, p.center.z + p.radius);
        }
    }
    assert!(visited.iter().all(|&v| v));

    // the ordered list is a permutation of the input
    let mut seen: Vec<(i64, i64, i64)> =
        tree.primitives.iter().map(|p| (p.center.x, p.center.y, p.center.z)).collect();
    seen.sort();
    let mut want = centers.to_vec();
    want.sort();
    assert_eq!(seen, want);
}

#[test]
fn coincident_centroids_build() {
    // all centroids equal: the tie-break picks axis 2, and the build still
    // produces one leaf per primitive
    let prims = vec![sphere(2, 2, 2, 1), sphere(2, 2, 2, 1), sphere(2, 2, 2, 1)];
    let mut tree = BVHTree::new();
    assert!(tree.build(&prims).is_ok());
    assert_eq!(tree.linear_bvh_node.len(), 5);
    let root = tree.linear_bvh_node[0];
    assert_eq!(root.n_primitives, 0);
    assert_eq!(root.axis, 2);
    let leaves: Vec<_> =
        tree.linear_bvh_node.iter().filter(|n| n.n_primitives > 0).collect();
    assert_eq!(leaves.len(), 3);
}

#[test]
fn none_primitive_rides_along() {
    let none = Object::new(
        SHAPE::NONE,
        Vec::new(),
        v3(0, 0, 0),
        0,
        v3(0, 0, 0),
        0,
        MATERIAL::NONE,
    );
    let prims = vec![none, sphere(4, 0, 0, 1)];
    let mut tree = BVHTree::new();
    assert!(tree.build(&prims).is_ok());
    assert_eq!(tree.linear_bvh_node.len(), 3);
    assert_eq!(tree.primitives.len(), 2);
    let shapes: Vec<SHAPE> = tree.primitives.iter().map(|p| p.shape).collect();
    assert!(shapes.contains(&SHAPE::NONE));
    assert!(shapes.contains(&SHAPE::RT_SPHERE));
}

#[test]
fn mesh_leaf_bounds() {
    // the mesh box folds vertex entries 0, 3 and 6 (the three positions)
    let mut vs = vec![v3(0, 0, 0); 11];
    vs[0] = v3(-2, 1, 0);
    vs[3] = v3(4, -3, 2);
    vs[6] = v3(1, 5, -6);
    let mesh = Object::new_mesh(vs, 7, MATERIAL::METAL);
    let mut tree = BVHTree::new();
    assert!(tree.build(&vec![mesh]).is_ok());
    let leaf = tree.linear_bvh_node[0];
    assert_eq!(leaf.aabb.min, v3(-2, -3, -6));
    assert_eq!(leaf.aabb.max, v3(4, 5, 2));
    assert_eq!(leaf.aabb.shape, SHAPE::RT_MESH);
    assert_eq!(leaf.aabb.constant, 7);
    assert_eq!(leaf.aabb.material, MATERIAL::METAL);
}

#[test]
fn box_splits_into_six_rectangles() {
    let mut vs: Vec<Vec3> = Vec::new();
    for f in 0..6i64 {
        // four corners and a normal per face, tagged by face index
        vs.push(v3(f, 0, 0));
        vs.push(v3(f, 1, 0));
        vs.push(v3(f, 1, 1));
        vs.push(v3(f, 0, 1));
        vs.push(v3(f, 9, 9));
    }
    let faces = Object::new_box(vs, v3(7, 8, 9), 2, MATERIAL::METAL);
    assert_eq!(faces.len(), 6);
    for (f, face) in faces.iter().enumerate() {
        assert_eq!(face.shape, SHAPE::RT_RECTANGLE);
        assert_eq!(face.vertices.len(), 5);
        for v in face.vertices.iter() {
            assert_eq!(v.x, f as i64);
        }
        assert_eq!(face.vertices[4], v3(f as i64, 9, 9));
        assert_eq!(face.albedo, v3(7, 8, 9));
        assert_eq!(face.constant, 2);
        assert_eq!(face.material, MATERIAL::METAL);
    }
    // the faces are valid rectangle primitives for the builder
    let mut tree = BVHTree::new();
    assert!(tree.build(&faces).is_ok());
    assert_eq!(tree.linear_bvh_node.len(), 11);
}
