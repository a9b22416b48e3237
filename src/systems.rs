use vstd::prelude::*;

use crate::cache::MeshHandle;
use crate::chunk::{lemma_attached_in_extends, lemma_attached_in_same_voxels, Chunk};
use crate::grid::lemma_grid_index_bound;
use crate::voxel::FACE_MASK_DEFAULT;
use crate::world::{
    VoxelWorld, CHUNK_DEPTH_IN_BLOCKS, CHUNK_HEIGHT_IN_BLOCKS, CHUNK_WIDTH_IN_BLOCKS,
    WORLD_DEPTH_IN_CHUNKS, WORLD_HEIGHT_IN_CHUNKS, WORLD_WIDTH_IN_CHUNKS,
};

verus! {

/// Whether the update cycle runs.
#[derive(Clone, Copy, Debug, PartialEq, Eq, Structural)]
pub enum SimulationState {
    Running,
    Paused,
}

impl Default for SimulationState {
    fn default() -> (r: Self)
        ensures
            r == SimulationState::Running,
    {
        SimulationState::Running
    }
}

/// The next simulation state: the pause key flips it, else it stays.
pub fn toggle_simulation(pause_pressed: bool, current: SimulationState) -> (r: SimulationState)
    ensures
        r == (if !pause_pressed {
            current
        } else if current == SimulationState::Running {
            SimulationState::Paused
        } else {
            SimulationState::Running
        }),
{
    if !pause_pressed {
        return current;
    }
    match current {
        SimulationState::Running => SimulationState::Paused,
        SimulationState::Paused => SimulationState::Running,
    }
}

/// `after` is `before` with each listed chunk of `before` replaced by one
/// that keeps its place and extents and still fits the world.
pub open spec fn keeps_layout(before: VoxelWorld, after: VoxelWorld) -> bool {
    &&& after.same_shape(before)
    &&& forall|j: int|
        0 <= j < after.chunks.len() ==> (#[trigger] after.chunks@[j]).coordinate
            == before.chunks@[j].coordinate && after.fits(after.chunks@[j])
}

proof fn lemma_keeps_layout_wf(before: VoxelWorld, after: VoxelWorld)
    requires
        before.wf(),
        keeps_layout(before, after),
        after.mesh_cache.wf(),
    ensures
        after.wf(),
{
    assert forall|x: int, y: int, z: int| after.holds_chunk(x, y, z) implies (
    #[trigger] after.chunks@[after.slot(x, y, z)]).coordinate == crate::chunk::ChunkCoordinate(
        x as u16,
        y as u16,
        z as u16,
    ) by {
        lemma_grid_index_bound(after.width as int, after.depth as int, after.height as int, x, y, z);
        assert(before.chunks@[before.slot(x, y, z)].coordinate == crate::chunk::ChunkCoordinate(
            x as u16,
            y as u16,
            z as u16,
        ));
    }
}

/// Visibility pass: while running, recomputes the masks of every dirty
/// chunk; clean chunks and the cache are left alone. While paused nothing
/// changes.
pub fn update_chunk(world: &mut VoxelWorld, state: SimulationState)
    requires
        old(world).wf(),
    ensures
        final(world).wf(),
        state == SimulationState::Paused ==> *final(world) == *old(world),
        state == SimulationState::Running ==> {
            &&& final(world).same_shape(*old(world))
            &&& final(world).mesh_cache == old(world).mesh_cache
            &&& forall|i: int|
                0 <= i < old(world).chunks.len() ==> if old(world).chunks@[i].updated {
                    (#[trigger] final(world).chunks@[i]).recomputed_from(old(world).chunks@[i])
                } else {
                    final(world).chunks@[i] == old(world).chunks@[i]
                }
        },
{
    if let SimulationState::Paused = state {
        return;
    }
    let n = world.chunks.len();
    let mut i: usize = 0;
    while i < n
        invariant
            n == world.chunks.len(),
            i <= n,
            old(world).wf(),
            keeps_layout(*old(world), *world),
            world.mesh_cache == old(world).mesh_cache,
            forall|j: int|
                0 <= j < i ==> if old(world).chunks@[j].updated {
                    (#[trigger] world.chunks@[j]).recomputed_from(old(world).chunks@[j])
                } else {
                    world.chunks@[j] == old(world).chunks@[j]
                },
            forall|j: int| i <= j < n ==> #[trigger] world.chunks@[j] == old(world).chunks@[j],
        decreases n - i,
    {
        if world.chunks[i].updated {
            let ghost before = world.chunks@;
            world.chunks[i].recompute();
            proof {
                assert forall|j: int| 0 <= j < n && j != i implies #[trigger] world.chunks@[j] == before[j] by {}
            }
        }
        i += 1;
    }
    proof {
        lemma_keeps_layout_wf(*old(world), *world);
    }
}

/// Slot `j` after the mesh pass: a dirty chunk is marked clean and `out[j]`
/// holds its attachments in `after`'s cache; a clean chunk is untouched and
/// gets none.
pub open spec fn mesh_pass_done(
    before: VoxelWorld,
    after: VoxelWorld,
    out: Seq<Vec<Option<MeshHandle>>>,
    j: int,
) -> bool {
    if before.chunks@[j].updated {
        &&& after.chunks@[j].cleaned_from(before.chunks@[j])
        &&& before.chunks@[j].attached_in(out[j]@, after.mesh_cache)
    } else {
        &&& after.chunks@[j] == before.chunks@[j]
        &&& out[j].len() == 0
    }
}

/// Mesh pass: while running, gives each voxel of every dirty chunk its
/// attachment (the cached mesh of its mask if solid, nothing otherwise) and
/// marks the chunk clean. Entry `i` of the result belongs to chunk slot `i`
/// and is empty for a clean chunk. While paused nothing changes and the
/// result is empty.
pub fn mesh_chunk(world: &mut VoxelWorld, state: SimulationState) -> (r: Vec<Vec<Option<MeshHandle>>>)
    requires
        old(world).wf(),
    ensures
        final(world).wf(),
        state == SimulationState::Paused ==> *final(world) == *old(world) && r.len() == 0,
        state == SimulationState::Running ==> {
            &&& final(world).same_shape(*old(world))
            &&& final(world).mesh_cache.extends(old(world).mesh_cache)
            &&& r.len() == old(world).chunks.len()
            &&& forall|i: int|
                0 <= i < old(world).chunks.len() ==> #[trigger] mesh_pass_done(
                    *old(world),
                    *final(world),
                    r@,
                    i,
                )
        },
{
    let mut out: Vec<Vec<Option<MeshHandle>>> = Vec::new();
    if let SimulationState::Paused = state {
        return out;
    }
    let n = world.chunks.len();
    let mut i: usize = 0;
    while i < n
        invariant
            n == world.chunks.len(),
            i <= n,
            out.len() == i,
            old(world).wf(),
            keeps_layout(*old(world), *world),
            world.mesh_cache.wf(),
            world.mesh_cache.extends(old(world).mesh_cache),
            forall|j: int| 0 <= j < i ==> #[trigger] mesh_pass_done(*old(world), *world, out@, j),
            forall|j: int| i <= j < n ==> #[trigger] world.chunks@[j] == old(world).chunks@[j],
        decreases n - i,
    {
        let ghost w0 = *world;
        let ghost out0 = out@;
        if world.chunks[i].updated {
            let attached = world.chunks[i].attach_meshes(&mut world.mesh_cache);
            world.chunks[i].updated = false;
            out.push(attached);
            proof {
                crate::cache::lemma_extends_trans(old(world).mesh_cache, w0.mesh_cache, world.mesh_cache);
                assert forall|j: int| 0 <= j < i + 1 implies #[trigger] mesh_pass_done(
                    *old(world),
                    *world,
                    out@,
                    j,
                ) by {
                    if j < i {
                        assert(mesh_pass_done(*old(world), w0, out0, j));
                        assert(world.chunks@[j] == w0.chunks@[j]);
                        assert(out@[j] == out0[j]);
                        if old(world).chunks@[j].updated {
                            lemma_attached_in_extends(
                                old(world).chunks@[j],
                                out0[j]@,
                                w0.mesh_cache,
                                world.mesh_cache,
                            );
                        }
                    } else {
                        assert(w0.chunks@[j] == old(world).chunks@[j]);
                    }
                }
                assert forall|j: int| i + 1 <= j < n implies #[trigger] world.chunks@[j] == old(world).chunks@[j] by {
                    assert(world.chunks@[j] == w0.chunks@[j]);
                }
                assert forall|j: int| 0 <= j < world.chunks.len() implies (#[trigger] world.chunks@[j]).coordinate
                    == old(world).chunks@[j].coordinate && world.fits(world.chunks@[j]) by {
                    if j != i {
                        assert(world.chunks@[j] == w0.chunks@[j]);
                    } else {
                        assert(w0.chunks@[j] == old(world).chunks@[j]);
                    }
                }
            }
        } else {
            out.push(Vec::new());
            proof {
                assert forall|j: int| 0 <= j < i + 1 implies #[trigger] mesh_pass_done(
                    *old(world),
                    *world,
                    out@,
                    j,
                ) by {
                    if j < i {
                        assert(mesh_pass_done(*old(world), w0, out0, j));
                        assert(out@[j] == out0[j]);
                    } else {
                        assert(w0.chunks@[j] == old(world).chunks@[j]);
                    }
                }
            }
        }
        i += 1;
    }
    proof {
        lemma_keeps_layout_wf(*old(world), *world);
    }
    out
}

/// Slot `i` after a running update cycle: a dirty chunk ends clean with its
/// solidity kept, each mask resolved from the chunk as it was, and `r[i]`
/// holding its attachments in `after`'s cache; a clean chunk is untouched and
/// gets none.
pub open spec fn cycle_done(before: VoxelWorld, after: VoxelWorld, r: Seq<Vec<Option<MeshHandle>>>, i: int) -> bool {
    let prev = before.chunks@[i];
    let c = after.chunks@[i];
    if prev.updated {
        &&& c.wf()
        &&& c.same_frame(&prev)
        &&& !c.updated
        &&& c.attached_in(r[i]@, after.mesh_cache)
        &&& forall|k: int| 0 <= k < c.voxels.len() ==> (#[trigger] c.voxels@[k]).solid == prev.voxels@[k].solid
        &&& forall|x: int, y: int, z: int|
            c.in_bounds(x, y, z) ==> (#[trigger] c.voxel_at(x, y, z)).mask == prev.resolved_mask(x, y, z)
    } else {
        &&& c == prev
        &&& r[i].len() == 0
    }
}

impl VoxelWorld {
    /// One update cycle: the visibility pass, then the mesh pass. While
    /// running, every dirty chunk ends clean with recomputed masks and an
    /// attachment for each solid voxel; clean chunks are untouched. While
    /// paused no chunk or mask changes and nothing is attached.
    pub fn update(&mut self, state: SimulationState) -> (r: Vec<Vec<Option<MeshHandle>>>)
        requires
            old(self).wf(),
        ensures
            final(self).wf(),
            state == SimulationState::Paused ==> *final(self) == *old(self) && r.len() == 0,
            state == SimulationState::Running ==> {
                &&& final(self).same_shape(*old(self))
                &&& final(self).mesh_cache.extends(old(self).mesh_cache)
                &&& r.len() == old(self).chunks.len()
                &&& forall|i: int|
                    0 <= i < old(self).chunks.len() ==> #[trigger] cycle_done(*old(self), *final(self), r@, i)
            },
    {
        update_chunk(self, state);
        let ghost mid = *self;
        let r = mesh_chunk(self, state);
        proof {
            if state == SimulationState::Running {
                assert forall|i: int| 0 <= i < old(self).chunks.len() implies #[trigger] cycle_done(
                    *old(self),
                    *self,
                    r@,
                    i,
                ) by {
                    let m = mid.chunks@[i];
                    let c = self.chunks@[i];
                    assert(mesh_pass_done(mid, *self, r@, i));
                    if old(self).chunks@[i].updated {
                        assert(m.recomputed_from(old(self).chunks@[i]));
                        assert(c.cleaned_from(m));
                        lemma_attached_in_same_voxels(m, c, r@[i]@, self.mesh_cache);
                        assert forall|x: int, y: int, z: int| c.in_bounds(x, y, z) implies (
                        #[trigger] c.voxel_at(x, y, z)).mask == old(self).chunks@[i].resolved_mask(x, y, z) by {
                            assert(c.voxel_at(x, y, z) == m.voxel_at(x, y, z));
                        }
                        assert forall|k: int| 0 <= k < c.voxels.len() implies (#[trigger] c.voxels@[k]).solid
                            == old(self).chunks@[i].voxels@[k].solid by {
                            assert(c.voxels@[k] == m.voxels@[k]);
                        }
                    } else {
                        assert(m == old(self).chunks@[i]);
                    }
                }
            }
        }
        r
    }
}

/// Relies on rand::random: a fresh value from the thread-local generator.
/// Nothing is promised of the value.
pub assume_specification<T>[ rand::random::<T> ]() -> (r: T)
    where
        rand::distributions::Standard: rand::distributions::Distribution<T>,
;

/// `count` random solidity flags.
fn random_solids(count: usize) -> (r: Vec<bool>)
    ensures
        r.len() == count,
{
    let mut solids: Vec<bool> = Vec::new();
    let mut i: usize = 0;
    while i < count
        invariant
            i <= count,
            solids.len() == i,
        decreases count - i,
    {
        solids.push(rand::random::<bool>());
        i += 1;
    }
    solids
}

/// A world of the configured extents whose voxels are each solid at random;
/// every chunk starts dirty with clear masks and the cache is empty.
pub fn spawn_world() -> (r: VoxelWorld)
    ensures
        r.wf(),
        r.width == WORLD_WIDTH_IN_CHUNKS,
        r.depth == WORLD_DEPTH_IN_CHUNKS,
        r.height == WORLD_HEIGHT_IN_CHUNKS,
        r.chunk_width == CHUNK_WIDTH_IN_BLOCKS,
        r.chunk_depth == CHUNK_DEPTH_IN_BLOCKS,
        r.chunk_height == CHUNK_HEIGHT_IN_BLOCKS,
        r.mesh_cache.count() == 0,
        forall|i: int| 0 <= i < r.chunks.len() ==> (#[trigger] r.chunks@[i]).updated,
        forall|i: int, k: int|
            0 <= i < r.chunks.len() && 0 <= k < r.chunks@[i].voxels.len() ==> (
            #[trigger] r.chunks@[i].voxels@[k]).mask == FACE_MASK_DEFAULT,
{
    assert(WORLD_WIDTH_IN_CHUNKS == 4 && WORLD_DEPTH_IN_CHUNKS == 1 && WORLD_HEIGHT_IN_CHUNKS == 4);
    assert(CHUNK_WIDTH_IN_BLOCKS == 16 && CHUNK_DEPTH_IN_BLOCKS == 16 && CHUNK_HEIGHT_IN_BLOCKS == 16);
    let n_chunks: usize = (WORLD_WIDTH_IN_CHUNKS * WORLD_DEPTH_IN_CHUNKS * WORLD_HEIGHT_IN_CHUNKS) as usize;
    let per_chunk: usize = (CHUNK_WIDTH_IN_BLOCKS * CHUNK_DEPTH_IN_BLOCKS * CHUNK_HEIGHT_IN_BLOCKS) as usize;
    let mut solids: Vec<Vec<bool>> = Vec::new();
    let mut i: usize = 0;
    while i < n_chunks
        invariant
            i <= n_chunks,
            n_chunks == 16,
            per_chunk == 4096,
            solids.len() == i,
            forall|j: int| 0 <= j < i ==> (#[trigger] solids@[j]).len() == per_chunk,
        decreases n_chunks - i,
    {
        solids.push(random_solids(per_chunk));
        i += 1;
    }
    let r = VoxelWorld::new(
        WORLD_WIDTH_IN_CHUNKS,
        WORLD_DEPTH_IN_CHUNKS,
        WORLD_HEIGHT_IN_CHUNKS,
        CHUNK_WIDTH_IN_BLOCKS,
        CHUNK_DEPTH_IN_BLOCKS,
        CHUNK_HEIGHT_IN_BLOCKS,
        &solids,
    );
    proof {
        assert forall|i: int, k: int| 0 <= i < r.chunks.len() && 0 <= k < r.chunks@[i].voxels.len() implies (
        #[trigger] r.chunks@[i].voxels@[k]).mask == FACE_MASK_DEFAULT by {
            assert(r.fits(r.chunks@[i]));
            assert(solids@[i].len() == per_chunk);
        }
    }
    r
}

} // verus!
