use vstd::prelude::*;

use crate::cache::{lemma_extends_trans, MeshCache, MeshHandle};
use crate::grid::{
    grid_index, in_box, lemma_grid_index_bound, lemma_grid_index_carry,
    lemma_grid_index_injective,
};
use crate::mesh::mesh_of;
use crate::voxel::{
    mask_has, Voxel, FACE_MASK_BACK, FACE_MASK_BOTTOM, FACE_MASK_COUNT, FACE_MASK_DEFAULT,
    FACE_MASK_FRONT, FACE_MASK_LEFT, FACE_MASK_RIGHT, FACE_MASK_TOP,
};

verus! {

/// Position of a chunk in chunk space.
#[derive(Clone, Copy, Debug, PartialEq, Eq, Structural)]
pub struct ChunkCoordinate(pub u16, pub u16, pub u16);

/// A signed integer triple.
#[derive(Clone, Copy, Debug, PartialEq, Eq, Structural)]
pub struct IVec3 {
    pub x: i32,
    pub y: i32,
    pub z: i32,
}

impl ChunkCoordinate {
    /// The coordinate as a signed triple.
    pub fn into_ivec3(&self) -> (r: IVec3)
        ensures
            r.x == self.0 as int,
            r.y == self.1 as int,
            r.z == self.2 as int,
    {
        IVec3 { x: self.0 as i32, y: self.1 as i32, z: self.2 as i32 }
    }
}

/// The mask whose bits are the given face flags: top, bottom, left, right,
/// front, back.
pub open spec fn mask_from_flags(t: bool, b: bool, l: bool, r: bool, f: bool, k: bool) -> u8 {
    (if t {
        FACE_MASK_TOP
    } else {
        0u8
    }) | (if b {
        FACE_MASK_BOTTOM
    } else {
        0u8
    }) | (if l {
        FACE_MASK_LEFT
    } else {
        0u8
    }) | (if r {
        FACE_MASK_RIGHT
    } else {
        0u8
    }) | (if f {
        FACE_MASK_FRONT
    } else {
        0u8
    }) | (if k {
        FACE_MASK_BACK
    } else {
        0u8
    })
}

/// Each bit of a mask built from flags is its flag, and no other bit is set.
pub proof fn lemma_mask_from_flags(t: bool, b: bool, l: bool, r: bool, f: bool, k: bool)
    ensures
        mask_has(mask_from_flags(t, b, l, r, f, k), 0) == t,
        mask_has(mask_from_flags(t, b, l, r, f, k), 1) == b,
        mask_has(mask_from_flags(t, b, l, r, f, k), 2) == l,
        mask_has(mask_from_flags(t, b, l, r, f, k), 3) == r,
        mask_has(mask_from_flags(t, b, l, r, f, k), 4) == f,
        mask_has(mask_from_flags(t, b, l, r, f, k), 5) == k,
        mask_from_flags(t, b, l, r, f, k) < FACE_MASK_COUNT,
{
    let a0: u8 = if t { 32 } else { 0 };
    let a1: u8 = if b { 16 } else { 0 };
    let a2: u8 = if l { 8 } else { 0 };
    let a3: u8 = if r { 4 } else { 0 };
    let a4: u8 = if f { 2 } else { 0 };
    let a5: u8 = if k { 1 } else { 0 };
    assert(mask_from_flags(t, b, l, r, f, k) == a0 | a1 | a2 | a3 | a4 | a5);
    assert({
        let m = a0 | a1 | a2 | a3 | a4 | a5;
        &&& (m & 32 == 32) == (a0 == 32)
        &&& (m & 16 == 16) == (a1 == 16)
        &&& (m & 8 == 8) == (a2 == 8)
        &&& (m & 4 == 4) == (a3 == 4)
        &&& (m & 2 == 2) == (a4 == 2)
        &&& (m & 1 == 1) == (a5 == 1)
        &&& m < 64
    }) by (bit_vector)
        requires
            a0 == 0 || a0 == 32,
            a1 == 0 || a1 == 16,
            a2 == 0 || a2 == 8,
            a3 == 0 || a3 == 4,
            a4 == 0 || a4 == 2,
            a5 == 0 || a5 == 1,
    ;
}

/// A fixed-size box of voxels, stored x-major, then y, then z, with the flag
/// that marks it for reprocessing.
pub struct Chunk {
    pub coordinate: ChunkCoordinate,
    /// Extent along x.
    pub width: u16,
    /// Extent along y.
    pub depth: u16,
    /// Extent along z.
    pub height: u16,
    pub voxels: Vec<Voxel>,
    /// Set while visibility and meshes must be rebuilt (the chunk is dirty).
    pub updated: bool,
}

impl Chunk {
    /// One voxel per cell of the box, and every mask a face mask.
    pub open spec fn wf(&self) -> bool {
        &&& self.voxels.len() == self.width * self.depth * self.height
        &&& forall|i: int|
            0 <= i < self.voxels.len() ==> (#[trigger] self.voxels@[i]).mask < FACE_MASK_COUNT
    }

    pub open spec fn in_bounds(&self, x: int, y: int, z: int) -> bool {
        in_box(self.width as int, self.depth as int, self.height as int, x, y, z)
    }

    pub open spec fn index_of(&self, x: int, y: int, z: int) -> int {
        grid_index(self.depth as int, self.height as int, x, y, z)
    }

    /// The voxel at local coordinate (x, y, z).
    pub open spec fn voxel_at(&self, x: int, y: int, z: int) -> Voxel {
        self.voxels@[self.index_of(x, y, z)]
    }

    /// Whether a face whose neighbour cell is (x, y, z) can be seen: the cell
    /// lies outside the chunk, or holds a voxel that is not solid.
    pub open spec fn face_open(&self, x: int, y: int, z: int) -> bool {
        !self.in_bounds(x, y, z) || !self.voxel_at(x, y, z).solid
    }

    /// The visible faces of a solid voxel at (x, y, z).
    pub open spec fn visible_mask(&self, x: int, y: int, z: int) -> u8 {
        mask_from_flags(
            self.face_open(x, y + 1, z),
            self.face_open(x, y - 1, z),
            self.face_open(x - 1, y, z),
            self.face_open(x + 1, y, z),
            self.face_open(x, y, z + 1),
            self.face_open(x, y, z - 1),
        )
    }

    /// The mask that recomputation gives the voxel at (x, y, z): its visible
    /// faces if solid, else none.
    pub open spec fn resolved_mask(&self, x: int, y: int, z: int) -> u8 {
        if self.voxel_at(x, y, z).solid {
            self.visible_mask(x, y, z)
        } else {
            FACE_MASK_DEFAULT
        }
    }

    /// Same place and extents.
    pub open spec fn same_frame(&self, other: &Chunk) -> bool {
        &&& self.coordinate == other.coordinate
        &&& self.width == other.width
        &&& self.depth == other.depth
        &&& self.height == other.height
        &&& self.voxels.len() == other.voxels.len()
    }

    /// `self` is `prev` with every mask recomputed: solidity, place, extents
    /// and flag kept, and the voxel at each coordinate given its resolved mask.
    pub open spec fn recomputed_from(&self, prev: Chunk) -> bool {
        &&& self.wf()
        &&& self.same_frame(&prev)
        &&& self.updated == prev.updated
        &&& forall|i: int|
            0 <= i < prev.voxels.len() ==> (#[trigger] self.voxels@[i]).solid == prev.voxels@[i].solid
        &&& forall|x: int, y: int, z: int|
            prev.in_bounds(x, y, z) ==> (#[trigger] self.voxel_at(x, y, z)).mask == prev.resolved_mask(
                x,
                y,
                z,
            )
    }

    /// `self` is `prev` marked clean, its voxels untouched.
    pub open spec fn cleaned_from(&self, prev: Chunk) -> bool {
        &&& self.same_frame(&prev)
        &&& self.voxels@ == prev.voxels@
        &&& !self.updated
    }

    /// `r` gives each solid voxel of this chunk the cached mesh of its mask,
    /// and each other voxel nothing.
    pub open spec fn attached_in(&self, r: Seq<Option<MeshHandle>>, cache: MeshCache) -> bool {
        &&& r.len() == self.voxels.len()
        &&& forall|i: int| 0 <= i < r.len() ==> (#[trigger] r[i] is Some) == self.voxels@[i].solid
        &&& forall|i: int|
            0 <= i < r.len() && (#[trigger] r[i] is Some) ==> {
                let h = r[i]->0;
                &&& cache.holds(h)
                &&& cache.entry(self.voxels@[i].mask) == Some(h)
                &&& cache.mesh_view(h) == mesh_of(self.voxels@[i].mask)
            }
    }

    /// A dirty chunk whose voxel `i` is solid when `solids[i]` holds, with
    /// every mask clear.
    pub fn new(coordinate: ChunkCoordinate, width: u16, depth: u16, height: u16, solids: &Vec<bool>) -> (r: Chunk)
        requires
            solids.len() == width * depth * height,
        ensures
            r.wf(),
            r.coordinate == coordinate,
            r.width == width,
            r.depth == depth,
            r.height == height,
            r.updated,
            forall|i: int|
                0 <= i < solids.len() ==> #[trigger] r.voxels@[i] == (Voxel {
                    solid: solids@[i],
                    mask: FACE_MASK_DEFAULT,
                }),
    {
        let mut voxels: Vec<Voxel> = Vec::new();
        let mut i: usize = 0;
        while i < solids.len()
            invariant
                i <= solids.len(),
                voxels.len() == i,
                forall|j: int|
                    0 <= j < i ==> #[trigger] voxels@[j] == (Voxel {
                        solid: solids@[j],
                        mask: FACE_MASK_DEFAULT,
                    }),
            decreases solids.len() - i,
        {
            voxels.push(Voxel { solid: solids[i], mask: FACE_MASK_DEFAULT });
            i += 1;
        }
        Chunk { coordinate, width, depth, height, voxels, updated: true }
    }

    /// The voxel at (x, y, z).
    pub fn voxel(&self, x: u16, y: u16, z: u16) -> (r: Voxel)
        requires
            self.wf(),
            self.in_bounds(x as int, y as int, z as int),
        ensures
            r == self.voxel_at(x as int, y as int, z as int),
    {
        proof {
            lemma_grid_index_bound(self.width as int, self.depth as int, self.height as int, x as int, y as int, z as int);
        }
        self.voxels[(x as usize * self.depth as usize + y as usize) * self.height as usize + z as usize]
    }

    /// Whether the face whose neighbour cell is (x, y, z) can be seen; the
    /// coordinates may reach one past the far edge.
    fn open_exec(&self, x: usize, y: usize, z: usize) -> (r: bool)
        requires
            self.wf(),
            x <= self.width,
            y <= self.depth,
            z <= self.height,
        ensures
            r == self.face_open(x as int, y as int, z as int),
    {
        if x >= self.width as usize || y >= self.depth as usize || z >= self.height as usize {
            true
        } else {
            proof {
                lemma_grid_index_bound(self.width as int, self.depth as int, self.height as int, x as int, y as int, z as int);
            }
            let i = (x * self.depth as usize + y) * self.height as usize + z;
            !self.voxels[i].solid
        }
    }

    /// The visible faces of the voxel at (x, y, z) if it were solid.
    fn visible_mask_exec(&self, x: usize, y: usize, z: usize) -> (r: u8)
        requires
            self.wf(),
            self.in_bounds(x as int, y as int, z as int),
        ensures
            r == self.visible_mask(x as int, y as int, z as int),
    {
        let t = self.open_exec(x, y + 1, z);
        let b = y == 0 || self.open_exec(x, y - 1, z);
        let l = x == 0 || self.open_exec(x - 1, y, z);
        let r = self.open_exec(x + 1, y, z);
        let f = self.open_exec(x, y, z + 1);
        let k = z == 0 || self.open_exec(x, y, z - 1);
        (if t {
            FACE_MASK_TOP
        } else {
            0u8
        }) | (if b {
            FACE_MASK_BOTTOM
        } else {
            0u8
        }) | (if l {
            FACE_MASK_LEFT
        } else {
            0u8
        }) | (if r {
            FACE_MASK_RIGHT
        } else {
            0u8
        }) | (if f {
            FACE_MASK_FRONT
        } else {
            0u8
        }) | (if k {
            FACE_MASK_BACK
        } else {
            0u8
        })
    }

    /// Recomputes the face mask of every voxel: a solid voxel gets a bit for
    /// each face whose neighbour is outside the chunk or not solid; a voxel
    /// that is not solid gets none. Solidity, extents and the flag stay.
    pub fn recompute(&mut self)
        requires
            old(self).wf(),
        ensures
            final(self).recomputed_from(*old(self)),
    {
        let n = self.voxels.len();
        let ghost w = self.width as int;
        let ghost d = self.depth as int;
        let ghost h = self.height as int;
        if n == 0 {
            assert forall|x: int, y: int, z: int| old(self).in_bounds(x, y, z) implies (
            #[trigger] self.voxel_at(x, y, z)).mask == old(self).resolved_mask(x, y, z) by {
                lemma_grid_index_bound(w, d, h, x, y, z);
            }
            return;
        }
        assert(w > 0 && d > 0 && h > 0) by (nonlinear_arith)
            requires
                w * d * h > 0,
                w >= 0,
                d >= 0,
                h >= 0,
        ;
        let mut x: usize = 0;
        let mut y: usize = 0;
        let mut z: usize = 0;
        let mut j: usize = 0;
        proof {
            lemma_grid_index_carry(d, h, w, 0);
            lemma_grid_index_carry(d, h, 0, 0);
        }
        while j < n
            invariant
                self.wf(),
                self.same_frame(&*old(self)),
                self.updated == old(self).updated,
                n == self.voxels.len(),
                w == self.width,
                d == self.depth,
                h == self.height,
                0 < w && 0 < d && 0 < h,
                grid_index(d, h, w, 0, 0) == n,
                y < d,
                z < h,
                x < w || (x == w && y == 0 && z == 0),
                j == grid_index(d, h, x as int, y as int, z as int),
                j <= n,
                forall|i: int|
                    0 <= i < n ==> (#[trigger] self.voxels@[i]).solid == old(self).voxels@[i].solid,
                forall|a: int, b: int, c: int|
                    old(self).in_bounds(a, b, c) && grid_index(d, h, a, b, c) < j ==> (
                    #[trigger] self.voxel_at(a, b, c)).mask == old(self).resolved_mask(a, b, c),
            decreases n - j,
        {
            proof {
                lemma_grid_index_bound(w, d, h, x as int, y as int, z as int);
            }
            let ghost before = *self;
            let cur = self.voxels[j];
            let mask = if cur.solid {
                self.visible_mask_exec(x, y, z)
            } else {
                FACE_MASK_DEFAULT
            };
            proof {
                let xi = x as int;
                let yi = y as int;
                let zi = z as int;
                lemma_mask_from_flags(
                    before.face_open(xi, yi + 1, zi),
                    before.face_open(xi, yi - 1, zi),
                    before.face_open(xi - 1, yi, zi),
                    before.face_open(xi + 1, yi, zi),
                    before.face_open(xi, yi, zi + 1),
                    before.face_open(xi, yi, zi - 1),
                );
                assert forall|a: int, b: int, c: int| before.in_bounds(a, b, c) implies #[trigger] before.face_open(
                    a,
                    b,
                    c,
                ) == old(self).face_open(a, b, c) by {
                    lemma_grid_index_bound(w, d, h, a, b, c);
                }
                assert(before.visible_mask(xi, yi, zi) == old(self).visible_mask(xi, yi, zi));
            }
            self.voxels.set(j, Voxel { solid: cur.solid, mask });
            proof {
                assert forall|a: int, b: int, c: int|
                    old(self).in_bounds(a, b, c) && grid_index(d, h, a, b, c) < j + 1 implies (
                #[trigger] self.voxel_at(a, b, c)).mask == old(self).resolved_mask(a, b, c) by {
                    lemma_grid_index_bound(w, d, h, a, b, c);
                    if grid_index(d, h, a, b, c) == j {
                        lemma_grid_index_injective(w, d, h, a, b, c, x as int, y as int, z as int);
                    } else {
                        assert(before.voxel_at(a, b, c) == self.voxel_at(a, b, c));
                    }
                }
                assert forall|i: int| 0 <= i < self.voxels.len() implies (#[trigger] self.voxels@[i]).mask
                    < FACE_MASK_COUNT by {
                    if i != j {
                        assert(before.voxels@[i] == self.voxels@[i]);
                    }
                }
            }
            j += 1;
            proof {
                lemma_grid_index_carry(d, h, x as int, y as int);
            }
            z += 1;
            if z == self.height as usize {
                z = 0;
                y += 1;
                if y == self.depth as usize {
                    y = 0;
                    x += 1;
                }
            }
        }
        proof {
            assert forall|a: int, b: int, c: int| old(self).in_bounds(a, b, c) implies (
            #[trigger] self.voxel_at(a, b, c)).mask == old(self).resolved_mask(a, b, c) by {
                lemma_grid_index_bound(w, d, h, a, b, c);
            }
        }
    }

    /// Fetches or builds the cached mesh of each solid voxel's mask, in voxel
    /// order. A voxel that is not solid gets no mesh.
    pub fn attach_meshes(&self, cache: &mut MeshCache) -> (r: Vec<Option<MeshHandle>>)
        requires
            self.wf(),
            old(cache).wf(),
        ensures
            final(cache).wf(),
            final(cache).extends(*old(cache)),
            self.attached_in(r@, *final(cache)),
    {
        let mut out: Vec<Option<MeshHandle>> = Vec::new();
        let mut i: usize = 0;
        while i < self.voxels.len()
            invariant
                self.wf(),
                cache.wf(),
                cache.extends(*old(cache)),
                i <= self.voxels.len(),
                out.len() == i,
                forall|j: int| 0 <= j < i ==> (#[trigger] out@[j] is Some) == self.voxels@[j].solid,
                forall|j: int|
                    0 <= j < i && (#[trigger] out@[j] is Some) ==> {
                        let h = out@[j]->0;
                        &&& cache.holds(h)
                        &&& cache.entry(self.voxels@[j].mask) == Some(h)
                        &&& cache.mesh_view(h) == mesh_of(self.voxels@[j].mask)
                    },
            decreases self.voxels.len() - i,
        {
            let v = self.voxels[i];
            if v.solid {
                let ghost prev = *cache;
                let h = cache.get_or_create(v.mask);
                proof {
                    lemma_extends_trans(*old(cache), prev, *cache);
                    assert forall|j: int| 0 <= j < i && (#[trigger] out@[j] is Some) implies {
                        let g = out@[j]->0;
                        &&& cache.holds(g)
                        &&& cache.entry(self.voxels@[j].mask) == Some(g)
                        &&& cache.mesh_view(g) == mesh_of(self.voxels@[j].mask)
                    } by {
                        assert(prev.holds(out@[j]->0));
                        assert(prev.entry(self.voxels@[j].mask) is Some);
                    }
                }
                out.push(Some(h));
            } else {
                out.push(None);
            }
            i += 1;
        }
        out
    }

    /// Makes voxel (x, y, z) solid or empty and marks the chunk dirty.
    pub fn set_solid(&mut self, x: u16, y: u16, z: u16, solid: bool)
        requires
            old(self).wf(),
            old(self).in_bounds(x as int, y as int, z as int),
        ensures
            final(self).wf(),
            final(self).updated,
            final(self).coordinate == old(self).coordinate,
            final(self).width == old(self).width,
            final(self).depth == old(self).depth,
            final(self).height == old(self).height,
            final(self).voxels@ == old(self).voxels@.update(
                old(self).index_of(x as int, y as int, z as int),
                Voxel { solid, mask: old(self).voxel_at(x as int, y as int, z as int).mask },
            ),
    {
        proof {
            lemma_grid_index_bound(self.width as int, self.depth as int, self.height as int, x as int, y as int, z as int);
        }
        let i = (x as usize * self.depth as usize + y as usize) * self.height as usize + z as usize;
        let mask = self.voxels[i].mask;
        self.voxels.set(i, Voxel { solid, mask });
        self.updated = true;
        proof {
            assert forall|j: int| 0 <= j < self.voxels.len() implies (#[trigger] self.voxels@[j]).mask
                < FACE_MASK_COUNT by {
                if j != i {
                    assert(old(self).voxels@[j] == self.voxels@[j]);
                }
            }
        }
    }
}

/// Attachments stay valid in a cache that extends the one they came from.
pub proof fn lemma_attached_in_extends(c: Chunk, r: Seq<Option<MeshHandle>>, c1: MeshCache, c2: MeshCache)
    requires
        c.attached_in(r, c1),
        c2.extends(c1),
    ensures
        c.attached_in(r, c2),
{
    assert forall|i: int| 0 <= i < r.len() && (#[trigger] r[i] is Some) implies {
        let h = r[i]->0;
        &&& c2.holds(h)
        &&& c2.entry(c.voxels@[i].mask) == Some(h)
        &&& c2.mesh_view(h) == mesh_of(c.voxels@[i].mask)
    } by {
        assert(c1.holds(r[i]->0));
        assert(c1.entry(c.voxels@[i].mask) is Some);
        assert(c2.mesh_view(r[i]->0) == c1.mesh_view(r[i]->0));
    }
}

/// A voxel that is not solid is never given a mesh.
pub proof fn lemma_empty_voxel_unattached(c: Chunk, r: Seq<Option<MeshHandle>>, cache: MeshCache, i: int)
    requires
        c.attached_in(r, cache),
        0 <= i < c.voxels.len(),
        !c.voxels@[i].solid,
    ensures
        r[i] is None,
{
}

/// Attachments depend on a chunk's voxels alone.
pub proof fn lemma_attached_in_same_voxels(c1: Chunk, c2: Chunk, r: Seq<Option<MeshHandle>>, cache: MeshCache)
    requires
        c1.attached_in(r, cache),
        c1.voxels@ == c2.voxels@,
    ensures
        c2.attached_in(r, cache),
{
}

/// A voxel on the edge of its chunk shows each face that looks out of the
/// chunk, whatever the chunk holds.
pub proof fn lemma_boundary_faces_visible(c: Chunk, x: int, y: int, z: int)
    requires
        c.in_bounds(x, y, z),
    ensures
        y + 1 == c.depth ==> mask_has(c.visible_mask(x, y, z), 0),
        y == 0 ==> mask_has(c.visible_mask(x, y, z), 1),
        x == 0 ==> mask_has(c.visible_mask(x, y, z), 2),
        x + 1 == c.width ==> mask_has(c.visible_mask(x, y, z), 3),
        z + 1 == c.height ==> mask_has(c.visible_mask(x, y, z), 4),
        z == 0 ==> mask_has(c.visible_mask(x, y, z), 5),
{
    lemma_mask_from_flags(
        c.face_open(x, y + 1, z),
        c.face_open(x, y - 1, z),
        c.face_open(x - 1, y, z),
        c.face_open(x + 1, y, z),
        c.face_open(x, y, z + 1),
        c.face_open(x, y, z - 1),
    );
}

/// After recomputation, a solid voxel on the edge of its chunk has the bit
/// of each face that looks out of the chunk set in its stored mask.
pub proof fn lemma_recomputed_boundary_faces(c: Chunk, prev: Chunk, x: int, y: int, z: int)
    requires
        c.recomputed_from(prev),
        prev.in_bounds(x, y, z),
        prev.voxel_at(x, y, z).solid,
    ensures
        y + 1 == prev.depth ==> mask_has(c.voxel_at(x, y, z).mask, 0),
        y == 0 ==> mask_has(c.voxel_at(x, y, z).mask, 1),
        x == 0 ==> mask_has(c.voxel_at(x, y, z).mask, 2),
        x + 1 == prev.width ==> mask_has(c.voxel_at(x, y, z).mask, 3),
        z + 1 == prev.height ==> mask_has(c.voxel_at(x, y, z).mask, 4),
        z == 0 ==> mask_has(c.voxel_at(x, y, z).mask, 5),
{
    assert(c.voxel_at(x, y, z).mask == prev.resolved_mask(x, y, z));
    lemma_boundary_faces_visible(prev, x, y, z);
}

/// In a chunk whose voxels are all solid, a voxel shows exactly the faces
/// that look out of the chunk.
pub proof fn lemma_solid_chunk_faces(c: Chunk, x: int, y: int, z: int)
    requires
        c.wf(),
        c.in_bounds(x, y, z),
        forall|i: int| 0 <= i < c.voxels.len() ==> (#[trigger] c.voxels@[i]).solid,
    ensures
        mask_has(c.visible_mask(x, y, z), 0) == (y + 1 == c.depth),
        mask_has(c.visible_mask(x, y, z), 1) == (y == 0),
        mask_has(c.visible_mask(x, y, z), 2) == (x == 0),
        mask_has(c.visible_mask(x, y, z), 3) == (x + 1 == c.width),
        mask_has(c.visible_mask(x, y, z), 4) == (z + 1 == c.height),
        mask_has(c.visible_mask(x, y, z), 5) == (z == 0),
{
    assert forall|a: int, b: int, c2: int| c.in_bounds(a, b, c2) implies !#[trigger] c.face_open(a, b, c2) by {
        lemma_grid_index_bound(c.width as int, c.depth as int, c.height as int, a, b, c2);
    }
    lemma_mask_from_flags(
        c.face_open(x, y + 1, z),
        c.face_open(x, y - 1, z),
        c.face_open(x - 1, y, z),
        c.face_open(x + 1, y, z),
        c.face_open(x, y, z + 1),
        c.face_open(x, y, z - 1),
    );
}

} // verus!
