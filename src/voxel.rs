use vstd::prelude::*;

verus! {

/// No visible face.
pub const FACE_MASK_DEFAULT: u8 = 0b000000;

/// The face that looks along +y.
pub const FACE_MASK_TOP: u8 = 0b100000;

/// The face that looks along -y.
pub const FACE_MASK_BOTTOM: u8 = 0b010000;

/// The face that looks along -x.
pub const FACE_MASK_LEFT: u8 = 0b001000;

/// The face that looks along +x.
pub const FACE_MASK_RIGHT: u8 = 0b000100;

/// The face that looks along +z.
pub const FACE_MASK_FRONT: u8 = 0b000010;

/// The face that looks along -z.
pub const FACE_MASK_BACK: u8 = 0b000001;

/// Number of distinct face masks.
pub const FACE_MASK_COUNT: u8 = 64;

/// The bit of face `f`, faces numbered top, bottom, left, right, front, back.
pub open spec fn face_bit(f: int) -> u8 {
    if f == 0 {
        FACE_MASK_TOP
    } else if f == 1 {
        FACE_MASK_BOTTOM
    } else if f == 2 {
        FACE_MASK_LEFT
    } else if f == 3 {
        FACE_MASK_RIGHT
    } else if f == 4 {
        FACE_MASK_FRONT
    } else {
        FACE_MASK_BACK
    }
}

/// Whether mask `m` marks face `f` visible.
pub open spec fn mask_has(m: u8, f: int) -> bool {
    m & face_bit(f) == face_bit(f)
}

/// How many of the first `k` faces mask `m` marks visible.
pub open spec fn face_count(m: u8, k: nat) -> nat
    decreases k,
{
    if k == 0 {
        0
    } else {
        face_count(m, (k - 1) as nat) + if mask_has(m, k - 1) {
            1nat
        } else {
            0nat
        }
    }
}

/// The number of visible faces in `m`.
pub open spec fn popcount(m: u8) -> nat {
    face_count(m, 6)
}

pub proof fn lemma_face_count_bound(m: u8, k: nat)
    ensures
        face_count(m, k) <= k,
    decreases k,
{
    if k > 0 {
        lemma_face_count_bound(m, (k - 1) as nat);
    }
}

/// The bit of face `f`.
pub fn face_bit_of(f: usize) -> (r: u8)
    requires
        f < 6,
    ensures
        r == face_bit(f as int),
{
    if f == 0 {
        FACE_MASK_TOP
    } else if f == 1 {
        FACE_MASK_BOTTOM
    } else if f == 2 {
        FACE_MASK_LEFT
    } else if f == 3 {
        FACE_MASK_RIGHT
    } else if f == 4 {
        FACE_MASK_FRONT
    } else {
        FACE_MASK_BACK
    }
}

/// One cell of a chunk. `mask` is meaningful only while `solid` holds.
#[derive(Clone, Copy, Debug, PartialEq, Eq, Structural)]
pub struct Voxel {
    pub solid: bool,
    pub mask: u8,
}

impl Default for Voxel {
    fn default() -> (r: Self)
        ensures
            !r.solid,
            r.mask == FACE_MASK_DEFAULT,
    {
        Voxel { solid: false, mask: FACE_MASK_DEFAULT }
    }
}

impl Voxel {
    /// Whether this voxel's mask marks face `f` visible.
    pub open spec fn has_face(&self, f: int) -> bool {
        mask_has(self.mask, f)
    }

    /// The mask as six flags: top, bottom, left, right, front, back.
    pub fn to_face_set(&self) -> (r: (bool, bool, bool, bool, bool, bool))
        ensures
            r == (
                self.has_face(0),
                self.has_face(1),
                self.has_face(2),
                self.has_face(3),
                self.has_face(4),
                self.has_face(5),
            ),
    {
        (
            self.mask & FACE_MASK_TOP == FACE_MASK_TOP,
            self.mask & FACE_MASK_BOTTOM == FACE_MASK_BOTTOM,
            self.mask & FACE_MASK_LEFT == FACE_MASK_LEFT,
            self.mask & FACE_MASK_RIGHT == FACE_MASK_RIGHT,
            self.mask & FACE_MASK_FRONT == FACE_MASK_FRONT,
            self.mask & FACE_MASK_BACK == FACE_MASK_BACK,
        )
    }
}

} // verus!
