use vstd::prelude::*;

use crate::cache::MeshCache;
use crate::chunk::{Chunk, ChunkCoordinate};
use crate::grid::{
    grid_index, in_box, lemma_grid_index_bound, lemma_grid_index_carry,
    lemma_grid_index_injective,
};
use crate::voxel::{Voxel, FACE_MASK_DEFAULT};

verus! {

/// Chunk extent along z, in voxels.
pub const CHUNK_HEIGHT_IN_BLOCKS: u16 = 16;

/// Chunk extent along x, in voxels.
pub const CHUNK_WIDTH_IN_BLOCKS: u16 = 16;

/// Chunk extent along y, in voxels.
pub const CHUNK_DEPTH_IN_BLOCKS: u16 = 16;

/// World extent along z, in chunks.
pub const WORLD_HEIGHT_IN_CHUNKS: u16 = 4;

/// World extent along x, in chunks.
pub const WORLD_WIDTH_IN_CHUNKS: u16 = 4;

/// World extent along y, in chunks.
pub const WORLD_DEPTH_IN_CHUNKS: u16 = 1;

/// All chunks of the world, stored x-major by chunk coordinate, and the
/// cache of meshes they share.
pub struct VoxelWorld {
    /// Extent along x, in chunks.
    pub width: u16,
    /// Extent along y, in chunks.
    pub depth: u16,
    /// Extent along z, in chunks.
    pub height: u16,
    pub chunk_width: u16,
    pub chunk_depth: u16,
    pub chunk_height: u16,
    pub chunks: Vec<Chunk>,
    pub mesh_cache: MeshCache,
}

impl VoxelWorld {
    /// `c` is a well-formed chunk of this world's chunk extents.
    pub open spec fn fits(&self, c: Chunk) -> bool {
        &&& c.wf()
        &&& c.width == self.chunk_width
        &&& c.depth == self.chunk_depth
        &&& c.height == self.chunk_height
    }

    /// The slot of the chunk at chunk coordinate (x, y, z).
    pub open spec fn slot(&self, x: int, y: int, z: int) -> int {
        grid_index(self.depth as int, self.height as int, x, y, z)
    }

    pub open spec fn holds_chunk(&self, x: int, y: int, z: int) -> bool {
        in_box(self.width as int, self.depth as int, self.height as int, x, y, z)
    }

    /// One fitting chunk per chunk coordinate, each in its slot, and a
    /// well-formed cache.
    pub open spec fn wf(&self) -> bool {
        &&& self.chunks.len() == self.width * self.depth * self.height
        &&& forall|i: int| 0 <= i < self.chunks.len() ==> self.fits(#[trigger] self.chunks@[i])
        &&& forall|x: int, y: int, z: int|
            self.holds_chunk(x, y, z) ==> (#[trigger] self.chunks@[self.slot(x, y, z)]).coordinate
                == ChunkCoordinate(x as u16, y as u16, z as u16)
        &&& self.mesh_cache.wf()
    }

    /// Same extents.
    pub open spec fn same_shape(&self, other: VoxelWorld) -> bool {
        &&& self.width == other.width
        &&& self.depth == other.depth
        &&& self.height == other.height
        &&& self.chunk_width == other.chunk_width
        &&& self.chunk_depth == other.chunk_depth
        &&& self.chunk_height == other.chunk_height
        &&& self.chunks.len() == other.chunks.len()
    }

    /// A world of `width` × `depth` × `height` chunks, each of
    /// `chunk_width` × `chunk_depth` × `chunk_height` voxels, with an empty
    /// cache. Chunk `i` in slot order takes its solidity from `solids[i]`,
    /// and every chunk starts dirty with clear masks.
    pub fn new(
        width: u16,
        depth: u16,
        height: u16,
        chunk_width: u16,
        chunk_depth: u16,
        chunk_height: u16,
        solids: &Vec<Vec<bool>>,
    ) -> (r: VoxelWorld)
        requires
            solids.len() == width * depth * height,
            forall|i: int|
                0 <= i < solids.len() ==> (#[trigger] solids@[i]).len() == chunk_width * chunk_depth
                    * chunk_height,
        ensures
            r.wf(),
            r.width == width,
            r.depth == depth,
            r.height == height,
            r.chunk_width == chunk_width,
            r.chunk_depth == chunk_depth,
            r.chunk_height == chunk_height,
            r.mesh_cache.count() == 0,
            forall|i: int| 0 <= i < r.chunks.len() ==> (#[trigger] r.chunks@[i]).updated,
            forall|i: int, k: int|
                0 <= i < r.chunks.len() && 0 <= k < solids@[i].len() ==> (
                #[trigger] r.chunks@[i].voxels@[k]) == (Voxel {
                    solid: solids@[i]@[k],
                    mask: FACE_MASK_DEFAULT,
                }),
    {
        let n = solids.len();
        let ghost w = width as int;
        let ghost d = depth as int;
        let ghost h = height as int;
        let mut chunks: Vec<Chunk> = Vec::new();
        let mesh_cache = MeshCache::new();
        if n == 0 {
            let r = VoxelWorld { width, depth, height, chunk_width, chunk_depth, chunk_height, chunks, mesh_cache };
            assert forall|x: int, y: int, z: int| r.holds_chunk(x, y, z) implies (
            #[trigger] r.chunks@[r.slot(x, y, z)]).coordinate == ChunkCoordinate(x as u16, y as u16, z as u16) by {
                lemma_grid_index_bound(w, d, h, x, y, z);
            }
            return r;
        }
        assert(w > 0 && d > 0 && h > 0) by (nonlinear_arith)
            requires
                w * d * h > 0,
                w >= 0,
                d >= 0,
                h >= 0,
        ;
        let mut x: usize = 0;
        let mut y: usize = 0;
        let mut z: usize = 0;
        let mut i: usize = 0;
        proof {
            lemma_grid_index_carry(d, h, w, 0);
            lemma_grid_index_carry(d, h, 0, 0);
        }
        while i < n
            invariant
                n == solids.len(),
                n == w * d * h,
                w == width,
                d == depth,
                h == height,
                0 < w && 0 < d && 0 < h,
                grid_index(d, h, w, 0, 0) == n,
                y < d,
                z < h,
                x < w || (x == w && y == 0 && z == 0),
                i == grid_index(d, h, x as int, y as int, z as int),
                i <= n,
                chunks.len() == i,
                forall|j: int|
                    0 <= j < solids.len() ==> (#[trigger] solids@[j]).len() == chunk_width
                        * chunk_depth * chunk_height,
                forall|j: int|
                    0 <= j < i ==> {
                        let c = #[trigger] chunks@[j];
                        &&& c.wf()
                        &&& c.width == chunk_width
                        &&& c.depth == chunk_depth
                        &&& c.height == chunk_height
                        &&& c.updated
                        &&& forall|k: int|
                            0 <= k < solids@[j].len() ==> (#[trigger] c.voxels@[k]) == (Voxel {
                                solid: solids@[j]@[k],
                                mask: FACE_MASK_DEFAULT,
                            })
                    },
                forall|a: int, b: int, c: int|
                    in_box(w, d, h, a, b, c) && grid_index(d, h, a, b, c) < i ==> (
                    #[trigger] chunks@[grid_index(d, h, a, b, c)]).coordinate == ChunkCoordinate(
                        a as u16,
                        b as u16,
                        c as u16,
                    ),
            decreases n - i,
        {
            proof {
                lemma_grid_index_bound(w, d, h, x as int, y as int, z as int);
            }
            let chunk = Chunk::new(
                ChunkCoordinate(x as u16, y as u16, z as u16),
                chunk_width,
                chunk_depth,
                chunk_height,
                &solids[i],
            );
            let ghost before = chunks@;
            chunks.push(chunk);
            proof {
                assert forall|a: int, b: int, c: int|
                    in_box(w, d, h, a, b, c) && grid_index(d, h, a, b, c) < i + 1 implies (
                #[trigger] chunks@[grid_index(d, h, a, b, c)]).coordinate == ChunkCoordinate(
                    a as u16,
                    b as u16,
                    c as u16,
                ) by {
                    if grid_index(d, h, a, b, c) == i {
                        lemma_grid_index_injective(w, d, h, a, b, c, x as int, y as int, z as int);
                    } else {
                        assert(chunks@[grid_index(d, h, a, b, c)] == before[grid_index(d, h, a, b, c)]);
                    }
                }
            }
            i += 1;
            proof {
                lemma_grid_index_carry(d, h, x as int, y as int);
            }
            z += 1;
            if z == height as usize {
                z = 0;
                y += 1;
                if y == depth as usize {
                    y = 0;
                    x += 1;
                }
            }
        }
        let r = VoxelWorld { width, depth, height, chunk_width, chunk_depth, chunk_height, chunks, mesh_cache };
        assert forall|a: int, b: int, c: int| r.holds_chunk(a, b, c) implies (
        #[trigger] r.chunks@[r.slot(a, b, c)]).coordinate == ChunkCoordinate(a as u16, b as u16, c as u16) by {
            lemma_grid_index_bound(w, d, h, a, b, c);
        }
        r
    }

    /// The slot of the chunk at `c`, or `None` when the world has no chunk there.
    pub fn chunk_index(&self, c: ChunkCoordinate) -> (r: Option<usize>)
        requires
            self.wf(),
        ensures
            r == (if self.holds_chunk(c.0 as int, c.1 as int, c.2 as int) {
                Some(self.slot(c.0 as int, c.1 as int, c.2 as int) as usize)
            } else {
                None
            }),
            r matches Some(i) ==> i < self.chunks.len() && self.chunks@[i as int].coordinate == c,
    {
        if c.0 < self.width && c.1 < self.depth && c.2 < self.height {
            proof {
                lemma_grid_index_bound(
                    self.width as int,
                    self.depth as int,
                    self.height as int,
                    c.0 as int,
                    c.1 as int,
                    c.2 as int,
                );
                assert(self.chunks@[self.slot(c.0 as int, c.1 as int, c.2 as int)].coordinate == c);
            }
            Some((c.0 as usize * self.depth as usize + c.1 as usize) * self.height as usize + c.2 as usize)
        } else {
            None
        }
    }
}

proof fn lemma_cell_fits(a: u16, b: u16, c: u16)
    ensures
        a * b + c <= u32::MAX,
{
    assert(a * b <= 65535 * 65535) by (nonlinear_arith)
        requires
            a <= 65535,
            b <= 65535,
            0 <= a,
            0 <= b,
    ;
}

/// The world cell of voxel (x, y, z) of the chunk at `chunk`, for chunks of
/// the given extents: the chunk's coordinate times the extent plus the local
/// coordinate, on each axis.
pub fn voxel_world_cell(
    chunk: ChunkCoordinate,
    chunk_width: u16,
    chunk_depth: u16,
    chunk_height: u16,
    x: u16,
    y: u16,
    z: u16,
) -> (r: (u32, u32, u32))
    ensures
        r.0 == chunk.0 * chunk_width + x,
        r.1 == chunk.1 * chunk_depth + y,
        r.2 == chunk.2 * chunk_height + z,
{
    proof {
        lemma_cell_fits(chunk.0, chunk_width, x);
        lemma_cell_fits(chunk.1, chunk_depth, y);
        lemma_cell_fits(chunk.2, chunk_height, z);
    }
    (
        chunk.0 as u32 * chunk_width as u32 + x as u32,
        chunk.1 as u32 * chunk_depth as u32 + y as u32,
        chunk.2 as u32 * chunk_height as u32 + z as u32,
    )
}

} // verus!
