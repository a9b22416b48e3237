use voxel_world::cache::MeshCache;
use voxel_world::mesh::{synthesize, Mesh, Vertex};
use voxel_world::voxel::{
    Voxel, FACE_MASK_BACK, FACE_MASK_BOTTOM, FACE_MASK_DEFAULT, FACE_MASK_FRONT, FACE_MASK_LEFT,
    FACE_MASK_RIGHT, FACE_MASK_TOP,
};

#[test]
fn synthesize_sizes_follow_popcount() {
    for m in 0u8..64 {
        let mesh = synthesize(m);
        let faces = m.count_ones() as usize;
        assert_eq!(mesh.vertices.len(), faces * 4);
        assert_eq!(mesh.indices.len(), faces * 6);
    }
}

#[test]
fn synthesize_empty_mask_gives_empty_mesh() {
    let mesh = synthesize(FACE_MASK_DEFAULT);
    assert!(mesh.vertices.is_empty());
    assert!(mesh.indices.is_empty());
}

#[test]
fn synthesize_top_face_exact() {
    let mesh = synthesize(FACE_MASK_TOP);
    let n = (0, 1, 0);
    assert_eq!(
        mesh.vertices,
        vec![
            Vertex { position: (1, 1, -1), normal: n, uv: (1, 0) },
            Vertex { position: (-1, 1, -1), normal: n, uv: (0, 0) },
            Vertex { position: (-1, 1, 1), normal: n, uv: (0, 1) },
            Vertex { position: (1, 1, 1), normal: n, uv: (1, 1) },
        ]
    );
    assert_eq!(mesh.indices, vec![0, 1, 2, 2, 3, 0]);
}

#[test]
fn synthesize_indices_continue_in_face_order() {
    let mesh = synthesize(FACE_MASK_BOTTOM | FACE_MASK_BACK);
    assert_eq!(mesh.indices, vec![0, 1, 2, 2, 3, 0, 4, 5, 6, 6, 7, 4]);
    assert_eq!(mesh.vertices[0].normal, (0, -1, 0));
    assert_eq!(mesh.vertices[4].normal, (0, 0, -1));
}

#[test]
fn synthesize_normals_point_outward() {
    let all = synthesize(0b111111);
    let normals: Vec<(i8, i8, i8)> = all.vertices.iter().step_by(4).map(|v| v.normal).collect();
    assert_eq!(
        normals,
        vec![(0, 1, 0), (0, -1, 0), (-1, 0, 0), (1, 0, 0), (0, 0, 1), (0, 0, -1)]
    );
    for (k, v) in all.vertices.iter().enumerate() {
        let face_normal = normals[k / 4];
        let p = v.position;
        // every corner of a face lies on the side its normal points to
        assert!(p.0 * face_normal.0 + p.1 * face_normal.1 + p.2 * face_normal.2 == 1);
    }
}

#[test]
fn synthesize_is_deterministic() {
    for m in 0u8..64 {
        let a = synthesize(m);
        let b = synthesize(m);
        assert_eq!(a.vertices, b.vertices);
        assert_eq!(a.indices, b.indices);
    }
}

#[test]
fn mesh_from_voxel_uses_its_mask() {
    let v = Voxel { solid: true, mask: FACE_MASK_LEFT | FACE_MASK_RIGHT | FACE_MASK_FRONT };
    let m: Mesh = Mesh::from_voxel(&v);
    assert_eq!(m.vertices.len(), 12);
    assert_eq!(m.vertices[0].normal, (-1, 0, 0));
    assert_eq!(m.vertices[4].normal, (1, 0, 0));
    assert_eq!(m.vertices[8].normal, (0, 0, 1));
}

#[test]
fn voxel_default_and_face_set() {
    let v = Voxel::default();
    assert!(!v.solid);
    assert_eq!(v.mask, FACE_MASK_DEFAULT);
    let w = Voxel { solid: true, mask: FACE_MASK_TOP | FACE_MASK_FRONT };
    assert_eq!(w.to_face_set(), (true, false, false, false, true, false));
    let all = Voxel { solid: true, mask: 0b111111 };
    assert_eq!(all.to_face_set(), (true, true, true, true, true, true));
}

#[test]
fn cache_builds_each_mask_once() {
    let mut cache = MeshCache::new();
    assert_eq!(cache.len(), 0);
    assert_eq!(cache.get(5), None);
    let h1 = cache.get_or_create(5);
    let h2 = cache.get_or_create(5);
    assert_eq!(h1, h2);
    assert_eq!(cache.len(), 1);
    let h3 = cache.get_or_create(FACE_MASK_TOP);
    assert_ne!(h1, h3);
    assert_eq!(cache.len(), 2);
    assert_eq!(cache.get(5), Some(h1));
    assert_eq!(cache.mesh(h3).vertices, synthesize(FACE_MASK_TOP).vertices);
    assert_eq!(cache.mesh(h1).indices.len(), 12);
}

#[test]
fn cache_handles_all_masks() {
    let mut cache = MeshCache::new();
    for round in 0..2 {
        for m in 0u8..64 {
            let h = cache.get_or_create(m);
            assert_eq!(cache.mesh(h).vertices, synthesize(m).vertices);
            if round == 1 {
                assert_eq!(cache.get(m), Some(h));
            }
        }
    }
    assert_eq!(cache.len(), 64);
}

#[test]
fn faces_wind_counter_clockwise_from_outside() {
    let mesh = synthesize(0b111111);
    for (f, quad) in mesh.vertices.chunks(4).enumerate() {
        let p = |k: usize| {
            let v = quad[k].position;
            (v.0 as i32, v.1 as i32, v.2 as i32)
        };
        let (a, b, c) = (p(0), p(1), p(2));
        let u = (b.0 - a.0, b.1 - a.1, b.2 - a.2);
        let v = (c.0 - a.0, c.1 - a.1, c.2 - a.2);
        let n = quad[0].normal;
        let turn = (u.1 * v.2 - u.2 * v.1) * n.0 as i32
            + (u.2 * v.0 - u.0 * v.2) * n.1 as i32
            + (u.0 * v.1 - u.1 * v.0) * n.2 as i32;
        assert_eq!(turn, 4, "face {f}");
    }
}
