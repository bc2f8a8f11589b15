//! Mesh topology: vertices, triangles, and the drawable 3D edges they yield.

use vstd::prelude::*;
use crate::geom::{Vec3, vec3_in_m, in_m};
use crate::num::MLIM;

verus! {

/// A triangle as three indices into the vertex array.
#[derive(Clone, Copy, PartialEq, Eq, Structural, Debug)]
pub struct Tri {
    pub a: usize,
    pub b: usize,
    pub c: usize,
}

/// A drawable 3D edge in mesh space, with its originating vertex indices and
/// the indices of up to two adjacent triangles.
#[derive(Clone, Copy, PartialEq, Eq, Structural, Debug)]
pub struct Edge3D {
    pub a: Vec3,
    pub b: Vec3,
    pub ia: usize,
    pub ib: usize,
    pub tri0: Option<usize>,
    pub tri1: Option<usize>,
}

/// Why an input buffer was rejected.
#[derive(Clone, Copy, PartialEq, Eq, Structural, Debug)]
pub enum InputError {
    /// The index list's length is not a multiple of the element arity.
    IndicesNotWhole,
    /// The vertex or normal list's length is not a multiple of three.
    CoordsNotTriples,
    /// The normal list's length differs from the vertex list's.
    NormalsMismatch,
    /// An index refers past the end of the vertex array.
    IndexOutOfBounds,
    /// A coordinate or matrix entry is outside the supported range.
    ValueOutOfRange,
    /// A matrix buffer does not hold exactly sixteen entries.
    MatrixNotSixteen,
    /// The canvas width or height is not in `1..=8192`.
    BadCanvas,
    /// The camera position derived from the view matrix leaves the
    /// supported coordinate range.
    CameraOutOfRange,
}

/// A triangle mesh with per-vertex normals.
pub struct Mesh {
    pub vertices: Vec<Vec3>,
    pub normals: Vec<Vec3>,
    pub triangles: Vec<Tri>,
}

/// An author-supplied set of explicit 3D edges, drawn as given.
pub struct Wireframe {
    pub vertices: Vec<Vec3>,
    pub segments: Vec<(usize, usize)>,
}

/// Every flat coordinate is within the supported range.
pub open spec fn coords_in_range(cs: Seq<i64>) -> bool {
    forall|i: int| 0 <= i < cs.len() ==> in_m(cs[i] as int)
}

/// Every index refers to one of `n` vertices.
pub open spec fn indices_in_range(idx: Seq<usize>, n: int) -> bool {
    forall|i: int| 0 <= i < idx.len() ==> idx[i] < n
}

/// The vertex triple at position `i` of a flat coordinate list.
pub open spec fn spec_vec3_at(cs: Seq<i64>, i: int) -> Vec3 {
    Vec3 { x: cs[3 * i], y: cs[3 * i + 1], z: cs[3 * i + 2] }
}

/// A flat coordinate list as a sequence of points.
pub open spec fn spec_points(cs: Seq<i64>) -> Seq<Vec3> {
    Seq::new((cs.len() / 3) as nat, |i: int| spec_vec3_at(cs, i))
}

/// A flat index list as a sequence of triangles.
pub open spec fn spec_tris(idx: Seq<usize>) -> Seq<Tri> {
    Seq::new((idx.len() / 3) as nat, |i: int| Tri { a: idx[3 * i], b: idx[3 * i + 1], c: idx[3 * i + 2] })
}

/// A flat index list as a sequence of endpoint pairs.
pub open spec fn spec_pairs(idx: Seq<usize>) -> Seq<(usize, usize)> {
    Seq::new((idx.len() / 2) as nat, |i: int| (idx[2 * i], idx[2 * i + 1]))
}

impl Mesh {
    /// Indices reference existing vertices, normals pair with vertices, and
    /// all coordinates are in range.
    pub open spec fn wf(self) -> bool {
        &&& 3 * self.triangles@.len() <= usize::MAX
        &&& self.normals@.len() == self.vertices@.len()
        &&& forall|i: int|
            0 <= i < self.triangles@.len() ==> (#[trigger] self.triangles@[i]).a
                < self.vertices@.len() && self.triangles@[i].b < self.vertices@.len()
                && self.triangles@[i].c < self.vertices@.len()
        &&& forall|i: int| 0 <= i < self.vertices@.len() ==> vec3_in_m(#[trigger] self.vertices@[i])
    }

    /// The error `Mesh::new` returns, decided by the first failing check.
    pub open spec fn spec_new_err(
        indices: Seq<usize>,
        vertices: Seq<i64>,
        normals: Seq<i64>,
    ) -> InputError
        recommends
            !mesh_input_ok(indices, vertices, normals),
    {
        if indices.len() % 3 != 0 {
            InputError::IndicesNotWhole
        } else if vertices.len() % 3 != 0 {
            InputError::CoordsNotTriples
        } else if normals.len() != vertices.len() {
            InputError::NormalsMismatch
        } else if !indices_in_range(indices, vertices.len() as int / 3) {
            InputError::IndexOutOfBounds
        } else {
            InputError::ValueOutOfRange
        }
    }

    /// Structures the caller's flat buffers into a mesh. Succeeds exactly on
    /// well-formed input; on failure, reports the first failing check.
    pub fn new(indices: Vec<usize>, vertices: Vec<i64>, normals: Vec<i64>) -> (r: Result<
        Mesh,
        InputError,
    >)
        ensures
            mesh_input_ok(indices@, vertices@, normals@) <==> r is Ok,
            r matches Ok(m) ==> m.wf() && m.vertices@ == spec_points(vertices@) && m.normals@
                == spec_points(normals@) && m.triangles@ == spec_tris(indices@),
            r matches Err(e) ==> e == Self::spec_new_err(indices@, vertices@, normals@),
    {
        if indices.len() % 3 != 0 {
            return Err(InputError::IndicesNotWhole);
        }
        if vertices.len() % 3 != 0 {
            return Err(InputError::CoordsNotTriples);
        }
        if normals.len() != vertices.len() {
            return Err(InputError::NormalsMismatch);
        }
        if !check_indices(&indices, vertices.len() / 3) {
            return Err(InputError::IndexOutOfBounds);
        }
        if !check_coords(&vertices) || !check_coords(&normals) {
            return Err(InputError::ValueOutOfRange);
        }
        let vs = build_points(&vertices);
        let ns = build_points(&normals);
        let ts = build_tris(&indices);
        let m = Mesh { vertices: vs, normals: ns, triangles: ts };
        proof {
            assert forall|i: int| 0 <= i < m.triangles@.len() implies (
            #[trigger] m.triangles@[i]).a < m.vertices@.len() && m.triangles@[i].b
                < m.vertices@.len() && m.triangles@[i].c < m.vertices@.len() by {
                assert(indices@[3 * i] < vertices@.len() as int / 3);
                assert(indices@[3 * i + 1] < vertices@.len() as int / 3);
                assert(indices@[3 * i + 2] < vertices@.len() as int / 3);
            }
            assert forall|i: int| 0 <= i < m.vertices@.len() implies vec3_in_m(
                #[trigger] m.vertices@[i],
            ) by {
                assert(in_m(vertices@[3 * i] as int));
                assert(in_m(vertices@[3 * i + 1] as int));
                assert(in_m(vertices@[3 * i + 2] as int));
            }
        }
        Ok(m)
    }
}

/// Whether every flat coordinate is in range, decided by a scan.
pub(crate) fn check_coords(cs: &Vec<i64>) -> (b: bool)
    ensures
        b == coords_in_range(cs@),
{
    let mut i: usize = 0;
    while i < cs.len()
        invariant
            i <= cs@.len(),
            forall|k: int| 0 <= k < i ==> in_m(cs@[k] as int),
        decreases cs@.len() - i,
    {
        if cs[i] < -MLIM || cs[i] > MLIM {
            return false;
        }
        i += 1;
    }
    true
}

/// Whether every index is below `n`, decided by a scan.
fn check_indices(idx: &Vec<usize>, n: usize) -> (b: bool)
    ensures
        b == indices_in_range(idx@, n as int),
{
    let mut i: usize = 0;
    while i < idx.len()
        invariant
            i <= idx@.len(),
            forall|k: int| 0 <= k < i ==> idx@[k] < n,
        decreases idx@.len() - i,
    {
        if idx[i] >= n {
            return false;
        }
        i += 1;
    }
    true
}

/// Gathers a flat coordinate list into points.
fn build_points(cs: &Vec<i64>) -> (r: Vec<Vec3>)
    requires
        cs@.len() % 3 == 0,
    ensures
        r@ == spec_points(cs@),
{
    let n = cs.len() / 3;
    let mut r: Vec<Vec3> = Vec::new();
    let mut i: usize = 0;
    while i < n
        invariant
            i <= n,
            n == cs@.len() / 3,
            cs@.len() % 3 == 0,
            cs@.len() == 3 * n,
            3 * n <= usize::MAX,
            r@.len() == i,
            forall|k: int| 0 <= k < i ==> r@[k] == spec_vec3_at(cs@, k),
        decreases n - i,
    {
        r.push(Vec3 { x: cs[3 * i], y: cs[3 * i + 1], z: cs[3 * i + 2] });
        i += 1;
    }
    proof {
        assert(r@ =~= spec_points(cs@));
    }
    r
}

/// Gathers a flat index list into triangles.
fn build_tris(idx: &Vec<usize>) -> (r: Vec<Tri>)
    requires
        idx@.len() % 3 == 0,
    ensures
        r@ == spec_tris(idx@),
{
    let n = idx.len() / 3;
    let mut r: Vec<Tri> = Vec::new();
    let mut i: usize = 0;
    while i < n
        invariant
            i <= n,
            n == idx@.len() / 3,
            idx@.len() % 3 == 0,
            idx@.len() == 3 * n,
            3 * n <= usize::MAX,
            r@.len() == i,
            forall|k: int|
                0 <= k < i ==> r@[k] == (Tri {
                    a: idx@[3 * k],
                    b: idx@[3 * k + 1],
                    c: idx@[3 * k + 2],
                }),
        decreases n - i,
    {
        r.push(Tri { a: idx[3 * i], b: idx[3 * i + 1], c: idx[3 * i + 2] });
        i += 1;
    }
    proof {
        assert(r@ =~= spec_tris(idx@));
    }
    r
}

/// All checks of `Mesh::new` pass on these buffers.
pub open spec fn mesh_input_ok(indices: Seq<usize>, vertices: Seq<i64>, normals: Seq<i64>) -> bool {
    &&& indices.len() % 3 == 0
    &&& vertices.len() % 3 == 0
    &&& normals.len() == vertices.len()
    &&& indices_in_range(indices, vertices.len() as int / 3)
    &&& coords_in_range(vertices)
    &&& coords_in_range(normals)
}

/// All checks of `Wireframe::new` pass on these buffers.
pub open spec fn wire_input_ok(indices: Seq<usize>, vertices: Seq<i64>) -> bool {
    &&& indices.len() % 2 == 0
    &&& vertices.len() % 3 == 0
    &&& indices_in_range(indices, vertices.len() as int / 3)
    &&& coords_in_range(vertices)
}

/// The explicit edges of a wireframe, one per endpoint pair, with no
/// adjacent triangles.
pub open spec fn spec_wire_edges(w: Wireframe) -> Seq<Edge3D> {
    Seq::new(
        w.segments@.len(),
        |i: int|
            Edge3D {
                a: w.vertices@[w.segments@[i].0 as int],
                b: w.vertices@[w.segments@[i].1 as int],
                ia: w.segments@[i].0,
                ib: w.segments@[i].1,
                tri0: None,
                tri1: None,
            },
    )
}

impl Wireframe {
    /// Endpoint indices reference existing vertices and coordinates are in
    /// range.
    pub open spec fn wf(self) -> bool {
        &&& forall|i: int|
            0 <= i < self.segments@.len() ==> (#[trigger] self.segments@[i]).0
                < self.vertices@.len() && self.segments@[i].1 < self.vertices@.len()
        &&& forall|i: int| 0 <= i < self.vertices@.len() ==> vec3_in_m(#[trigger] self.vertices@[i])
    }

    /// The error `Wireframe::new` returns, decided by the first failing
    /// check.
    pub open spec fn spec_new_err(indices: Seq<usize>, vertices: Seq<i64>) -> InputError
        recommends
            !wire_input_ok(indices, vertices),
    {
        if indices.len() % 2 != 0 {
            InputError::IndicesNotWhole
        } else if vertices.len() % 3 != 0 {
            InputError::CoordsNotTriples
        } else if !indices_in_range(indices, vertices.len() as int / 3) {
            InputError::IndexOutOfBounds
        } else {
            InputError::ValueOutOfRange
        }
    }

    /// Structures the caller's flat buffers into a wireframe. Succeeds
    /// exactly on well-formed input.
    pub fn new(indices: Vec<usize>, vertices: Vec<i64>) -> (r: Result<Wireframe, InputError>)
        ensures
            wire_input_ok(indices@, vertices@) <==> r is Ok,
            r matches Ok(w) ==> w.wf() && w.vertices@ == spec_points(vertices@) && w.segments@
                == spec_pairs(indices@),
            r matches Err(e) ==> e == Self::spec_new_err(indices@, vertices@),
    {
        if indices.len() % 2 != 0 {
            return Err(InputError::IndicesNotWhole);
        }
        if vertices.len() % 3 != 0 {
            return Err(InputError::CoordsNotTriples);
        }
        if !check_indices(&indices, vertices.len() / 3) {
            return Err(InputError::IndexOutOfBounds);
        }
        if !check_coords(&vertices) {
            return Err(InputError::ValueOutOfRange);
        }
        let vs = build_points(&vertices);
        let ps = build_pairs(&indices);
        let w = Wireframe { vertices: vs, segments: ps };
        proof {
            assert forall|i: int| 0 <= i < w.segments@.len() implies (
            #[trigger] w.segments@[i]).0 < w.vertices@.len() && w.segments@[i].1
                < w.vertices@.len() by {
                assert(indices@[2 * i] < vertices@.len() as int / 3);
                assert(indices@[2 * i + 1] < vertices@.len() as int / 3);
            }
            assert forall|i: int| 0 <= i < w.vertices@.len() implies vec3_in_m(
                #[trigger] w.vertices@[i],
            ) by {
                assert(in_m(vertices@[3 * i] as int));
                assert(in_m(vertices@[3 * i + 1] as int));
                assert(in_m(vertices@[3 * i + 2] as int));
            }
        }
        Ok(w)
    }

    /// The wireframe's edges, unmodified, for the shared pipeline.
    pub fn edges(&self) -> (r: Vec<Edge3D>)
        requires
            self.wf(),
        ensures
            r@ == spec_wire_edges(*self),
    {
        let mut r: Vec<Edge3D> = Vec::new();
        let mut i: usize = 0;
        while i < self.segments.len()
            invariant
                self.wf(),
                i <= self.segments@.len(),
                r@.len() == i,
                forall|k: int| 0 <= k < i ==> r@[k] == spec_wire_edges(*self)[k],
            decreases self.segments@.len() - i,
        {
            let (ia, ib) = self.segments[i];
            r.push(
                Edge3D {
                    a: self.vertices[ia],
                    b: self.vertices[ib],
                    ia,
                    ib,
                    tri0: None,
                    tri1: None,
                },
            );
            i += 1;
        }
        proof {
            assert(r@ =~= spec_wire_edges(*self));
        }
        r
    }
}

/// Gathers a flat index list into endpoint pairs.
fn build_pairs(idx: &Vec<usize>) -> (r: Vec<(usize, usize)>)
    requires
        idx@.len() % 2 == 0,
    ensures
        r@ == spec_pairs(idx@),
{
    let n = idx.len() / 2;
    let mut r: Vec<(usize, usize)> = Vec::new();
    let mut i: usize = 0;
    while i < n
        invariant
            i <= n,
            n == idx@.len() / 2,
            idx@.len() % 2 == 0,
            idx@.len() == 2 * n,
            2 * n <= usize::MAX,
            r@.len() == i,
            forall|k: int| 0 <= k < i ==> r@[k] == (idx@[2 * k], idx@[2 * k + 1]),
        decreases n - i,
    {
        r.push((idx[2 * i], idx[2 * i + 1]));
        i += 1;
    }
    proof {
        assert(r@ =~= spec_pairs(idx@));
    }
    r
}

} // verus!
