use voxel_world::chunk::{Chunk, ChunkCoordinate};
use voxel_world::systems::{
    mesh_chunk, spawn_world, toggle_simulation, update_chunk, SimulationState,
};
use voxel_world::voxel::{
    FACE_MASK_BACK, FACE_MASK_BOTTOM, FACE_MASK_DEFAULT, FACE_MASK_FRONT, FACE_MASK_LEFT,
    FACE_MASK_RIGHT, FACE_MASK_TOP,
};
use voxel_world::world::{voxel_world_cell, VoxelWorld};

fn chunk_of(w: u16, d: u16, h: u16, solids: Vec<bool>) -> Chunk {
    Chunk::new(ChunkCoordinate(0, 0, 0), w, d, h, &solids)
}

fn masks(c: &Chunk) -> Vec<u8> {
    c.voxels.iter().map(|v| v.mask).collect()
}

#[test]
fn lone_solid_voxel_shows_all_faces() {
    let mut solids = vec![false; 8];
    solids[0] = true;
    let mut c = chunk_of(2, 2, 2, solids);
    c.recompute();
    assert_eq!(c.voxel(0, 0, 0).mask, 0b111111);
    for i in 1..8 {
        assert_eq!(c.voxels[i].mask, FACE_MASK_DEFAULT);
    }
}

#[test]
fn full_chunk_shows_only_outer_faces() {
    let mut c = chunk_of(2, 2, 2, vec![true; 8]);
    c.recompute();
    for x in 0..2u16 {
        for y in 0..2u16 {
            for z in 0..2u16 {
                let mut want = 0u8;
                want |= if y == 1 { FACE_MASK_TOP } else { FACE_MASK_BOTTOM };
                want |= if x == 0 { FACE_MASK_LEFT } else { FACE_MASK_RIGHT };
                want |= if z == 1 { FACE_MASK_FRONT } else { FACE_MASK_BACK };
                assert_eq!(c.voxel(x, y, z).mask, want, "voxel ({x}, {y}, {z})");
            }
        }
    }
}

#[test]
fn boundary_faces_always_visible() {
    // a checkerboard of solid voxels in a 3x3x3 chunk
    let solids: Vec<bool> = (0..27).map(|i| i % 2 == 1).collect();
    let mut c = chunk_of(3, 3, 3, solids);
    c.recompute();
    for x in 0..3u16 {
        for y in 0..3u16 {
            for z in 0..3u16 {
                let v = c.voxel(x, y, z);
                if !v.solid {
                    assert_eq!(v.mask, 0);
                    continue;
                }
                if y == 2 { assert_eq!(v.mask & FACE_MASK_TOP, FACE_MASK_TOP); }
                if y == 0 { assert_eq!(v.mask & FACE_MASK_BOTTOM, FACE_MASK_BOTTOM); }
                if x == 0 { assert_eq!(v.mask & FACE_MASK_LEFT, FACE_MASK_LEFT); }
                if x == 2 { assert_eq!(v.mask & FACE_MASK_RIGHT, FACE_MASK_RIGHT); }
                if z == 2 { assert_eq!(v.mask & FACE_MASK_FRONT, FACE_MASK_FRONT); }
                if z == 0 { assert_eq!(v.mask & FACE_MASK_BACK, FACE_MASK_BACK); }
            }
        }
    }
    // the centre voxel (index 13) is solid and its six neighbours are not
    assert_eq!(c.voxel(1, 1, 1).mask, 0b111111);
}

#[test]
fn partly_hidden_voxel() {
    // a 1x1x3 column along z, all solid: the middle one hides front and back
    let mut c = chunk_of(1, 1, 3, vec![true, true, true]);
    c.recompute();
    assert_eq!(masks(&c), vec![0b111101, 0b111100, 0b111110]);
}

#[test]
fn set_solid_marks_dirty() {
    let mut c = chunk_of(2, 1, 1, vec![true, true]);
    c.updated = false;
    c.set_solid(1, 0, 0, false);
    assert!(c.updated);
    assert!(!c.voxel(1, 0, 0).solid);
    c.recompute();
    assert_eq!(masks(&c), vec![0b111111, 0]);
}

fn small_world() -> VoxelWorld {
    // 2 x 1 x 1 chunks of 2 x 2 x 2 voxels
    let mut first = vec![false; 8];
    first[0] = true;
    let second = vec![true; 8];
    VoxelWorld::new(2, 1, 1, 2, 2, 2, &vec![first, second])
}

#[test]
fn update_cycle_meshes_dirty_chunks() {
    let mut world = small_world();
    let out = world.update(SimulationState::Running);
    assert_eq!(out.len(), 2);
    assert_eq!(out[0].len(), 8);
    assert!(out[0][0].is_some());
    for i in 1..8 {
        assert!(out[0][i].is_none());
    }
    assert!(out[1].iter().all(|h| h.is_some()));
    assert!(world.chunks.iter().all(|c| !c.updated));
    let h = out[0][0].unwrap();
    assert_eq!(world.mesh_cache.mesh(h).vertices.len(), 24);
    for (k, h) in out[1].iter().enumerate() {
        let mesh = world.mesh_cache.mesh(h.unwrap());
        assert_eq!(mesh.vertices.len(), 12, "voxel {k}");
    }
    // one mask for the lone voxel, eight corner masks in the full chunk
    assert_eq!(world.mesh_cache.len(), 9);
    // a second cycle finds every chunk clean
    let again = world.update(SimulationState::Running);
    assert!(again.iter().all(|c| c.is_empty()));
    assert_eq!(world.mesh_cache.len(), 9);
}

#[test]
fn empty_voxels_get_no_mesh() {
    let solids: Vec<bool> = (0..8).map(|i| i % 3 == 0).collect();
    let mut world = VoxelWorld::new(1, 1, 1, 2, 2, 2, &vec![solids.clone()]);
    let out = world.update(SimulationState::Running);
    for (i, h) in out[0].iter().enumerate() {
        assert_eq!(h.is_some(), solids[i]);
    }
}

#[test]
fn paused_cycle_changes_nothing() {
    let mut world = small_world();
    let out = world.update(SimulationState::Paused);
    assert!(out.is_empty());
    assert!(world.chunks.iter().all(|c| c.updated));
    assert!(world.chunks.iter().all(|c| c.voxels.iter().all(|v| v.mask == 0)));
    assert_eq!(world.mesh_cache.len(), 0);

    world.update(SimulationState::Running);
    world.chunks[1].set_solid(0, 0, 0, false);
    let before: Vec<Vec<u8>> = world.chunks.iter().map(masks).collect();
    update_chunk(&mut world, SimulationState::Paused);
    let out = mesh_chunk(&mut world, SimulationState::Paused);
    assert!(out.is_empty());
    assert!(world.chunks[1].updated);
    assert!(!world.chunks[0].updated);
    let after: Vec<Vec<u8>> = world.chunks.iter().map(masks).collect();
    assert_eq!(before, after);
}

#[test]
fn separate_passes_match_cycle() {
    let mut world = small_world();
    update_chunk(&mut world, SimulationState::Running);
    assert!(world.chunks.iter().all(|c| c.updated));
    assert_eq!(world.chunks[0].voxels[0].mask, 0b111111);
    let out = mesh_chunk(&mut world, SimulationState::Running);
    assert_eq!(out.len(), 2);
    assert!(world.chunks.iter().all(|c| !c.updated));
}

#[test]
fn chunk_lookup_by_coordinate() {
    let world = VoxelWorld::new(2, 1, 3, 1, 1, 1, &vec![vec![true]; 6]);
    for i in 0..6 {
        let c = world.chunks[i].coordinate;
        assert_eq!(world.chunk_index(c), Some(i));
    }
    assert_eq!(world.chunk_index(ChunkCoordinate(1, 0, 2)), Some(5));
    assert_eq!(world.chunk_index(ChunkCoordinate(2, 0, 0)), None);
    assert_eq!(world.chunk_index(ChunkCoordinate(0, 1, 0)), None);
    let v = ChunkCoordinate(1, 0, 2).into_ivec3();
    assert_eq!((v.x, v.y, v.z), (1, 0, 2));
}

#[test]
fn world_cell_of_voxel() {
    assert_eq!(voxel_world_cell(ChunkCoordinate(2, 0, 3), 16, 16, 16, 5, 6, 7), (37, 6, 55));
    assert_eq!(
        voxel_world_cell(ChunkCoordinate(65535, 0, 0), 65535, 1, 1, 65535, 0, 0),
        (65535 * 65535 + 65535, 0, 0)
    );
}

#[test]
fn spawned_world_has_configured_extents() {
    let world = spawn_world();
    assert_eq!(world.chunks.len(), 16);
    assert!(world.chunks.iter().all(|c| c.voxels.len() == 4096 && c.updated));
    assert_eq!(world.chunk_index(ChunkCoordinate(3, 0, 3)), Some(15));
    assert_eq!(world.mesh_cache.len(), 0);
}

#[test]
fn toggle_flips_only_on_key() {
    assert_eq!(toggle_simulation(false, SimulationState::Running), SimulationState::Running);
    assert_eq!(toggle_simulation(true, SimulationState::Running), SimulationState::Paused);
    assert_eq!(toggle_simulation(true, SimulationState::Paused), SimulationState::Running);
    assert_eq!(toggle_simulation(false, SimulationState::Paused), SimulationState::Paused);
    assert_eq!(SimulationState::default(), SimulationState::Running);
}
