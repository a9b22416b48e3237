use vstd::prelude::*;

use crate::mesh::{mesh_of, synthesize, Mesh, Vertex};
use crate::voxel::FACE_MASK_COUNT;

verus! {

/// Identifies a mesh held by a [`MeshCache`].
#[derive(Clone, Copy, Debug, PartialEq, Eq, Structural)]
pub struct MeshHandle(pub usize);

/// Memoised meshes, one per face mask that has been asked for.
pub struct MeshCache {
    slots: Vec<Option<MeshHandle>>,
    meshes: Vec<Mesh>,
    masks: Vec<u8>,
}

impl MeshCache {
    /// The handle stored for mask `m`, if its mesh was built.
    pub closed spec fn entry(&self, m: u8) -> Option<MeshHandle> {
        if m < FACE_MASK_COUNT && (m as int) < self.slots.len() {
            self.slots@[m as int]
        } else {
            None
        }
    }

    /// How many meshes were built: each was one call of the synthesiser.
    pub closed spec fn count(&self) -> nat {
        self.meshes@.len()
    }

    /// The mask that mesh `h` was built for.
    pub closed spec fn mask_of(&self, h: MeshHandle) -> u8 {
        self.masks@[h.0 as int]
    }

    /// The geometry of mesh `h`.
    pub closed spec fn mesh_view(&self, h: MeshHandle) -> (Seq<Vertex>, Seq<u32>) {
        self.meshes@[h.0 as int]@
    }

    /// Well-formed: each built mesh belongs to exactly one mask, is stored
    /// under it, and is that mask's synthesised mesh.
    pub closed spec fn wf(&self) -> bool {
        &&& self.slots.len() == FACE_MASK_COUNT
        &&& self.masks.len() == self.meshes.len()
        &&& forall|m: int|
            0 <= m < FACE_MASK_COUNT && #[trigger] self.slots@[m] is Some ==> {
                let h = self.slots@[m]->0;
                h.0 < self.meshes.len() && self.masks@[h.0 as int] == m
            }
        &&& forall|i: int|
            0 <= i < self.masks.len() ==> #[trigger] self.masks@[i] < FACE_MASK_COUNT
                && self.slots@[self.masks@[i] as int] == Some(MeshHandle(i as usize))
        &&& forall|i: int| 0 <= i < self.meshes.len() ==> #[trigger] self.meshes@[i]@ == mesh_of(self.masks@[i])
    }

    /// Whether `h` names a mesh of this cache.
    pub open spec fn holds(&self, h: MeshHandle) -> bool {
        h.0 < self.count()
    }

    /// `self` keeps every entry and mesh of `prev`.
    pub open spec fn extends(&self, prev: MeshCache) -> bool {
        &&& forall|k: u8| (#[trigger] prev.entry(k)) is Some ==> self.entry(k) == prev.entry(k)
        &&& prev.count() <= self.count()
        &&& forall|h: MeshHandle|
            #![trigger self.mesh_view(h)]
            #![trigger self.mask_of(h)]
            prev.holds(h) ==> self.mesh_view(h) == prev.mesh_view(h) && self.mask_of(h) == prev.mask_of(h)
    }

    /// What `get_or_create(m)` returning `r` does to `prev` giving `next`.
    pub open spec fn get_or_create_post(prev: MeshCache, m: u8, r: MeshHandle, next: MeshCache) -> bool {
        &&& next.wf()
        &&& next.entry(m) == Some(r)
        &&& next.holds(r)
        &&& next.mask_of(r) == m
        &&& next.mesh_view(r) == mesh_of(m)
        &&& prev.entry(m) is Some ==> r == prev.entry(m)->0 && next == prev
        &&& prev.entry(m) is None ==> r.0 == prev.count() && next.count() == prev.count() + 1
        &&& forall|k: u8| k != m ==> #[trigger] next.entry(k) == prev.entry(k)
        &&& forall|h: MeshHandle|
            prev.holds(h) ==> next.holds(h) && #[trigger] next.mesh_view(h) == prev.mesh_view(h)
                && next.mask_of(h) == prev.mask_of(h)
    }

    /// An empty cache.
    pub fn new() -> (r: MeshCache)
        ensures
            r.wf(),
            r.count() == 0,
            forall|m: u8| #[trigger] r.entry(m) is None,
    {
        let mut slots: Vec<Option<MeshHandle>> = Vec::new();
        let mut i: u8 = 0;
        while i < FACE_MASK_COUNT
            invariant
                i <= FACE_MASK_COUNT,
                slots.len() == i,
                forall|j: int| 0 <= j < i ==> #[trigger] slots@[j] is None,
            decreases FACE_MASK_COUNT - i,
        {
            slots.push(None);
            i += 1;
        }
        MeshCache { slots, meshes: Vec::new(), masks: Vec::new() }
    }

    /// Number of meshes built so far.
    pub fn len(&self) -> (r: usize)
        ensures
            r == self.count(),
    {
        self.meshes.len()
    }

    /// The handle stored for mask `m`, if any.
    pub fn get(&self, m: u8) -> (r: Option<MeshHandle>)
        requires
            self.wf(),
        ensures
            r == self.entry(m),
    {
        if m < FACE_MASK_COUNT {
            self.slots[m as usize]
        } else {
            None
        }
    }

    /// The mesh named by `h`.
    pub fn mesh(&self, h: MeshHandle) -> (r: &Mesh)
        requires
            self.wf(),
            self.holds(h),
        ensures
            r@ == self.mesh_view(h),
            r@ == mesh_of(self.mask_of(h)),
    {
        &self.meshes[h.0]
    }

    /// The mesh of mask `m`: the stored one, or on a miss a freshly
    /// synthesised one that is stored first. Stored meshes never change.
    pub fn get_or_create(&mut self, m: u8) -> (r: MeshHandle)
        requires
            old(self).wf(),
            m < FACE_MASK_COUNT,
        ensures
            MeshCache::get_or_create_post(*old(self), m, r, *final(self)),
            final(self).extends(*old(self)),
    {
        match self.slots[m as usize] {
            Some(h) => h,
            None => {
                let h = MeshHandle(self.meshes.len());
                let mesh = synthesize(m);
                self.meshes.push(mesh);
                self.masks.push(m);
                self.slots.set(m as usize, Some(h));
                proof {
                    assert forall|i: int| 0 <= i < self.masks.len() implies #[trigger] self.masks@[i]
                        < FACE_MASK_COUNT && self.slots@[self.masks@[i] as int] == Some(
                        MeshHandle(i as usize),
                    ) by {
                        if i < old(self).masks.len() {
                            assert(old(self).masks@[i] < FACE_MASK_COUNT);
                            assert(old(self).slots@[old(self).masks@[i] as int] == Some(
                                MeshHandle(i as usize),
                            ));
                        }
                    }
                    assert forall|i: int| 0 <= i < self.meshes.len() implies #[trigger] self.meshes@[i]@
                        == mesh_of(self.masks@[i]) by {
                        if i < old(self).meshes.len() {
                            assert(old(self).meshes@[i]@ == mesh_of(old(self).masks@[i]));
                        }
                    }
                }
                h
            },
        }
    }
}

/// Asking the cache twice for one mask gives the same handle both times, and
/// the second request leaves the cache as it was: the mask's mesh is
/// synthesised at most once.
pub proof fn lemma_get_or_create_memoizes(
    c0: MeshCache,
    m: u8,
    h1: MeshHandle,
    c1: MeshCache,
    h2: MeshHandle,
    c2: MeshCache,
)
    requires
        c0.wf(),
        MeshCache::get_or_create_post(c0, m, h1, c1),
        MeshCache::get_or_create_post(c1, m, h2, c2),
    ensures
        h1 == h2,
        c2 == c1,
        c2.count() <= c0.count() + 1,
        c2.mesh_view(h2) == mesh_of(m),
{
}

/// A cache that extends one that extends a third extends the third.
pub proof fn lemma_extends_trans(a: MeshCache, b: MeshCache, c: MeshCache)
    requires
        b.extends(a),
        c.extends(b),
    ensures
        c.extends(a),
{
    assert forall|k: u8| (#[trigger] a.entry(k)) is Some implies c.entry(k) == a.entry(k) by {
        assert(b.entry(k) == a.entry(k));
    }
    assert forall|h: MeshHandle| #![trigger c.mesh_view(h)] #![trigger c.mask_of(h)] a.holds(h) implies c.mesh_view(h)
        == a.mesh_view(h) && c.mask_of(h) == a.mask_of(h) by {
        assert(a.holds(h));
        assert(b.mesh_view(h) == a.mesh_view(h));
        assert(b.holds(h));
        assert(c.mesh_view(h) == b.mesh_view(h));
        assert(c.mask_of(h) == b.mask_of(h));
        assert(b.mask_of(h) == a.mask_of(h));
    }
}

/// In a well-formed cache no two meshes were built for one mask.
pub proof fn lemma_one_mesh_per_mask(c: MeshCache, h1: MeshHandle, h2: MeshHandle)
    requires
        c.wf(),
        c.holds(h1),
        c.holds(h2),
        c.mask_of(h1) == c.mask_of(h2),
    ensures
        h1 == h2,
{
    assert(c.slots@[c.masks@[h1.0 as int] as int] == Some(MeshHandle(h1.0)));
    assert(c.slots@[c.masks@[h2.0 as int] as int] == Some(MeshHandle(h2.0)));
}

} // verus!
