use vstd::prelude::*;

use crate::voxel::{face_bit, face_bit_of, face_count, lemma_face_count_bound, mask_has, popcount, Voxel};

verus! {

/// One corner of a face quad on the cube centred at the origin.
///
/// Position components are -1 or 1 in half-extents of the cube; the normal
/// points out of the face; the texture coordinate components are 0 or 1.
#[derive(Clone, Copy, Debug, PartialEq, Eq)]
pub struct Vertex {
    pub position: (i8, i8, i8),
    pub normal: (i8, i8, i8),
    pub uv: (u8, u8),
}

/// Triangle-list geometry: four vertices and two triangles per visible face.
#[derive(Debug)]
pub struct Mesh {
    pub vertices: Vec<Vertex>,
    pub indices: Vec<u32>,
}

pub open spec fn vertex(p: (int, int, int), n: (int, int, int), uv: (int, int)) -> Vertex {
    Vertex {
        position: (p.0 as i8, p.1 as i8, p.2 as i8),
        normal: (n.0 as i8, n.1 as i8, n.2 as i8),
        uv: (uv.0 as u8, uv.1 as u8),
    }
}

/// The four corners of face `f` (top, bottom, left, right, front, back),
/// counter-clockwise seen from outside the cube.
pub open spec fn face_vertices(f: int) -> Seq<Vertex> {
    if f == 0 {
        let n = (0, 1, 0);
        seq![
            vertex((1, 1, -1), n, (1, 0)),
            vertex((-1, 1, -1), n, (0, 0)),
            vertex((-1, 1, 1), n, (0, 1)),
            vertex((1, 1, 1), n, (1, 1)),
        ]
    } else if f == 1 {
        let n = (0, -1, 0);
        seq![
            vertex((1, -1, 1), n, (0, 0)),
            vertex((-1, -1, 1), n, (1, 0)),
            vertex((-1, -1, -1), n, (1, 1)),
            vertex((1, -1, -1), n, (0, 1)),
        ]
    } else if f == 2 {
        let n = (-1, 0, 0);
        seq![
            vertex((-1, -1, 1), n, (1, 0)),
            vertex((-1, 1, 1), n, (0, 0)),
            vertex((-1, 1, -1), n, (0, 1)),
            vertex((-1, -1, -1), n, (1, 1)),
        ]
    } else if f == 3 {
        let n = (1, 0, 0);
        seq![
            vertex((1, -1, -1), n, (0, 0)),
            vertex((1, 1, -1), n, (1, 0)),
            vertex((1, 1, 1), n, (1, 1)),
            vertex((1, -1, 1), n, (0, 1)),
        ]
    } else if f == 4 {
        let n = (0, 0, 1);
        seq![
            vertex((-1, -1, 1), n, (0, 0)),
            vertex((1, -1, 1), n, (1, 0)),
            vertex((1, 1, 1), n, (1, 1)),
            vertex((-1, 1, 1), n, (0, 1)),
        ]
    } else {
        let n = (0, 0, -1);
        seq![
            vertex((-1, 1, -1), n, (1, 0)),
            vertex((1, 1, -1), n, (0, 0)),
            vertex((1, -1, -1), n, (0, 1)),
            vertex((-1, -1, -1), n, (1, 1)),
        ]
    }
}

/// The two triangles of a quad whose first vertex is number `base`.
pub open spec fn quad_indices(base: int) -> Seq<u32> {
    seq![
        base as u32,
        (base + 1) as u32,
        (base + 2) as u32,
        (base + 2) as u32,
        (base + 3) as u32,
        base as u32,
    ]
}

/// Vertices and indices of the visible faces among the first `k`, in face order.
pub open spec fn mesh_upto(m: u8, k: nat) -> (Seq<Vertex>, Seq<u32>)
    decreases k,
{
    if k == 0 {
        (Seq::empty(), Seq::empty())
    } else {
        let p = mesh_upto(m, (k - 1) as nat);
        if mask_has(m, k - 1) {
            (p.0 + face_vertices(k - 1), p.1 + quad_indices(p.0.len() as int))
        } else {
            p
        }
    }
}

/// The mesh of face mask `m`: its vertices and its indices.
pub open spec fn mesh_of(m: u8) -> (Seq<Vertex>, Seq<u32>) {
    mesh_upto(m, 6)
}

impl Mesh {
    /// The vertices and indices of this mesh.
    pub open spec fn view(&self) -> (Seq<Vertex>, Seq<u32>) {
        (self.vertices@, self.indices@)
    }
}

pub proof fn lemma_mesh_upto_len(m: u8, k: nat)
    ensures
        mesh_upto(m, k).0.len() == 4 * face_count(m, k),
        mesh_upto(m, k).1.len() == 6 * face_count(m, k),
    decreases k,
{
    if k > 0 {
        lemma_mesh_upto_len(m, (k - 1) as nat);
    }
}

/// A mesh of mask `m` has four vertices and six indices for each visible face.
pub proof fn lemma_mesh_size(m: u8)
    ensures
        mesh_of(m).0.len() == 4 * popcount(m),
        mesh_of(m).1.len() == 6 * popcount(m),
        popcount(m) <= 6,
{
    lemma_mesh_upto_len(m, 6);
    lemma_face_count_bound(m, 6);
}

/// The cross product of `u` and `v`, projected on `n`.
pub open spec fn cross_dot(u: (int, int, int), v: (int, int, int), n: (int, int, int)) -> int {
    (u.1 * v.2 - u.2 * v.1) * n.0 + (u.2 * v.0 - u.0 * v.2) * n.1 + (u.0 * v.1 - u.1 * v.0) * n.2
}

/// How far the first triangle of a quad turns about its outward normal: the
/// cross product of its first two edges, projected on the normal of its
/// first vertex. Positive means counter-clockwise seen from outside.
pub open spec fn winding(q: Seq<Vertex>) -> int {
    let a = q[0].position;
    let b = q[1].position;
    let c = q[2].position;
    let n = q[0].normal;
    cross_dot(
        (b.0 - a.0, b.1 - a.1, b.2 - a.2),
        (c.0 - a.0, c.1 - a.1, c.2 - a.2),
        (n.0 as int, n.1 as int, n.2 as int),
    )
}

/// Every face quad winds counter-clockwise seen from outside the cube, and
/// its four corners lie on the face its normal points out of.
pub proof fn lemma_faces_wind_outward(f: int)
    requires
        0 <= f < 6,
    ensures
        winding(face_vertices(f)) > 0,
        forall|k: int|
            0 <= k < 4 ==> {
                let v = #[trigger] face_vertices(f)[k];
                v.position.0 * v.normal.0 + v.position.1 * v.normal.1 + v.position.2 * v.normal.2 == 1
                    && v.normal == face_vertices(f)[0].normal
            },
{
    assert forall|k: int| 0 <= k < 4 implies {
        let v = #[trigger] face_vertices(f)[k];
        v.position.0 * v.normal.0 + v.position.1 * v.normal.1 + v.position.2 * v.normal.2 == 1
            && v.normal == face_vertices(f)[0].normal
    } by {
        lemma_face_corner(f, k);
    }
    let q = face_vertices(f);
    if f == 0 {
        assert(winding(q) == cross_dot((-2, 0, 0), (-2, 0, 2), (0, 1, 0)));
        assert(cross_dot((-2, 0, 0), (-2, 0, 2), (0, 1, 0)) == 4) by (nonlinear_arith);
    } else if f == 1 {
        assert(winding(q) == cross_dot((-2, 0, 0), (-2, 0, -2), (0, -1, 0)));
        assert(cross_dot((-2, 0, 0), (-2, 0, -2), (0, -1, 0)) == 4) by (nonlinear_arith);
    } else if f == 2 {
        assert(winding(q) == cross_dot((0, 2, 0), (0, 2, -2), (-1, 0, 0)));
        assert(cross_dot((0, 2, 0), (0, 2, -2), (-1, 0, 0)) == 4) by (nonlinear_arith);
    } else if f == 3 {
        assert(winding(q) == cross_dot((0, 2, 0), (0, 2, 2), (1, 0, 0)));
        assert(cross_dot((0, 2, 0), (0, 2, 2), (1, 0, 0)) == 4) by (nonlinear_arith);
    } else if f == 4 {
        assert(winding(q) == cross_dot((2, 0, 0), (2, 2, 0), (0, 0, 1)));
        assert(cross_dot((2, 0, 0), (2, 2, 0), (0, 0, 1)) == 4) by (nonlinear_arith);
    } else {
        assert(winding(q) == cross_dot((2, 0, 0), (2, -2, 0), (0, 0, -1)));
        assert(cross_dot((2, 0, 0), (2, -2, 0), (0, 0, -1)) == 4) by (nonlinear_arith);
    }
}

proof fn lemma_face_corner(f: int, k: int)
    requires
        0 <= f < 6,
        0 <= k < 4,
    ensures
        ({
            let v = face_vertices(f)[k];
            &&& -1 <= v.position.0 <= 1 && -1 <= v.position.1 <= 1 && -1 <= v.position.2 <= 1
            &&& v.position.0 * v.normal.0 + v.position.1 * v.normal.1 + v.position.2 * v.normal.2 == 1
            &&& v.normal == face_vertices(f)[0].normal
        }),
{
    let q = face_vertices(f);
    assert(q.len() == 4);
    if f == 0 {
        if k == 0 {
        } else if k == 1 {
        } else if k == 2 {
        } else {
        }
    } else if f == 1 {
        if k == 0 {
        } else if k == 1 {
        } else if k == 2 {
        } else {
        }
    } else if f == 2 {
        if k == 0 {
        } else if k == 1 {
        } else if k == 2 {
        } else {
        }
    } else if f == 3 {
        if k == 0 {
        } else if k == 1 {
        } else if k == 2 {
        } else {
        }
    } else if f == 4 {
        if k == 0 {
        } else if k == 1 {
        } else if k == 2 {
        } else {
        }
    } else {
        if k == 0 {
        } else if k == 1 {
        } else if k == 2 {
        } else {
        }
    }
}

/// Two meshes synthesised from one mask are identical.
pub proof fn lemma_synthesize_deterministic(m: u8, a: Mesh, b: Mesh)
    requires
        a@ == mesh_of(m),
        b@ == mesh_of(m),
    ensures
        a.vertices@ == b.vertices@,
        a.indices@ == b.indices@,
{
}

/// Appends the quad of face `f`, numbered after the vertices already there.
fn push_face(vertices: &mut Vec<Vertex>, indices: &mut Vec<u32>, f: usize)
    requires
        f < 6,
        old(vertices).len() + 4 <= u32::MAX,
    ensures
        final(vertices)@ == old(vertices)@ + face_vertices(f as int),
        final(indices)@ == old(indices)@ + quad_indices(old(vertices).len() as int),
{
    let base = vertices.len() as u32;
    indices.push(base);
    indices.push(base + 1);
    indices.push(base + 2);
    indices.push(base + 2);
    indices.push(base + 3);
    indices.push(base);
    let (n, corners) = if f == 0 {
        ((0i8, 1i8, 0i8), [((1i8, 1i8, -1i8), (1u8, 0u8)), ((-1, 1, -1), (0, 0)), ((-1, 1, 1), (0, 1)), ((1, 1, 1), (1, 1))])
    } else if f == 1 {
        ((0, -1, 0), [((1, -1, 1), (0, 0)), ((-1, -1, 1), (1, 0)), ((-1, -1, -1), (1, 1)), ((1, -1, -1), (0, 1))])
    } else if f == 2 {
        ((-1, 0, 0), [((-1, -1, 1), (1, 0)), ((-1, 1, 1), (0, 0)), ((-1, 1, -1), (0, 1)), ((-1, -1, -1), (1, 1))])
    } else if f == 3 {
        ((1, 0, 0), [((1, -1, -1), (0, 0)), ((1, 1, -1), (1, 0)), ((1, 1, 1), (1, 1)), ((1, -1, 1), (0, 1))])
    } else if f == 4 {
        ((0, 0, 1), [((-1, -1, 1), (0, 0)), ((1, -1, 1), (1, 0)), ((1, 1, 1), (1, 1)), ((-1, 1, 1), (0, 1))])
    } else {
        ((0, 0, -1), [((-1, 1, -1), (1, 0)), ((1, 1, -1), (0, 0)), ((1, -1, -1), (0, 1)), ((-1, -1, -1), (1, 1))])
    };
    vertices.push(Vertex { position: corners[0].0, normal: n, uv: corners[0].1 });
    vertices.push(Vertex { position: corners[1].0, normal: n, uv: corners[1].1 });
    vertices.push(Vertex { position: corners[2].0, normal: n, uv: corners[2].1 });
    vertices.push(Vertex { position: corners[3].0, normal: n, uv: corners[3].1 });
    assert(vertices@ =~= old(vertices)@ + face_vertices(f as int));
    assert(indices@ =~= old(indices)@ + quad_indices(old(vertices).len() as int));
}

/// Builds the mesh of face mask `m`: for each visible face in the order top,
/// bottom, left, right, front, back, four vertices and two triangles whose
/// indices continue from the vertices already present. Mask 0 gives an empty
/// mesh.
pub fn synthesize(m: u8) -> (r: Mesh)
    ensures
        r@ == mesh_of(m),
        r.vertices.len() == 4 * popcount(m),
        r.indices.len() == 6 * popcount(m),
{
    let mut vertices: Vec<Vertex> = Vec::new();
    let mut indices: Vec<u32> = Vec::new();
    let mut f: usize = 0;
    while f < 6
        invariant
            f <= 6,
            vertices@ == mesh_upto(m, f as nat).0,
            indices@ == mesh_upto(m, f as nat).1,
        decreases 6 - f,
    {
        proof {
            lemma_mesh_upto_len(m, f as nat);
            lemma_face_count_bound(m, f as nat);
        }
        let bit = face_bit_of(f);
        if m & bit == bit {
            push_face(&mut vertices, &mut indices, f);
        }
        f += 1;
    }
    proof {
        lemma_mesh_size(m);
    }
    Mesh { vertices, indices }
}

impl Mesh {
    /// The mesh of the voxel's face mask.
    pub fn from_voxel(v: &Voxel) -> (r: Mesh)
        ensures
            r@ == mesh_of(v.mask),
    {
        synthesize(v.mask)
    }
}

} // verus!
