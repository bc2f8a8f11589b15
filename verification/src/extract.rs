//! Feature-edge extraction: which mesh edges are drawable.
//!
//! An edge is identified by its unordered pair of vertex indices; its
//! adjacency is the number of (triangle, side) incidences carrying that
//! pair. Boundary edges (one incidence) are always drawn; interior edges
//! (two incidences) are drawn only when their two triangles disagree on
//! camera-facing; edges with three or more incidences (non-manifold) are
//! suppressed, never an error.

use vstd::prelude::*;
use crate::geom::{sdot, scross, dot3, cross3};
use crate::mesh::{Mesh, Tri, Edge3D};
use crate::num::{lemma_mul_bound, VLIM};
use crate::scene::Scene;

verus! {

/// The unordered pair of two vertex indices.
pub open spec fn norm_pair(a: usize, b: usize) -> (usize, usize) {
    if a <= b {
        (a, b)
    } else {
        (b, a)
    }
}

/// The `k`-th side of a triangle as an unordered index pair.
pub open spec fn tri_edge(t: Tri, k: int) -> (usize, usize)
    recommends
        0 <= k < 3,
{
    if k == 0 {
        norm_pair(t.a, t.b)
    } else if k == 1 {
        norm_pair(t.b, t.c)
    } else {
        norm_pair(t.c, t.a)
    }
}

/// The edge carried by incidence `j`, counting three sides per triangle.
pub open spec fn occ(tris: Seq<Tri>, j: int) -> (usize, usize)
    recommends
        0 <= j < 3 * (tris.len() as int),
{
    tri_edge(tris[j / 3], j % 3)
}

/// How many incidences before `upto` carry edge `e`.
pub open spec fn count_occ(tris: Seq<Tri>, e: (usize, usize), upto: int) -> nat
    decreases upto,
{
    if upto <= 0 {
        0
    } else {
        count_occ(tris, e, upto - 1) + if occ(tris, upto - 1) == e {
            1nat
        } else {
            0nat
        }
    }
}

/// No earlier incidence carries the same edge.
pub open spec fn is_first_occ(tris: Seq<Tri>, j: int) -> bool {
    forall|j2: int| 0 <= j2 < j ==> occ(tris, j2) != occ(tris, j)
}

/// The next incidence at or after `from` that carries `e`, or `3 * len`
/// when there is none.
pub open spec fn find_next(tris: Seq<Tri>, e: (usize, usize), from: int) -> int
    recommends
        0 <= from <= 3 * (tris.len() as int),
    decreases 3 * (tris.len() as int) - from,
{
    if from < 0 || from >= 3 * (tris.len() as int) {
        3 * (tris.len() as int)
    } else if occ(tris, from) == e {
        from
    } else {
        find_next(tris, e, from + 1)
    }
}

/// Whether triangle `t` faces the camera: the sign of the dot product of
/// its world-space geometric normal with the direction from its first
/// vertex to the camera. A triangle whose vertices leave the supported
/// range counts as back-facing.
pub open spec fn spec_tri_front(m: Mesh, s: Scene, t: int) -> bool
    recommends
        m.wf(),
        0 <= t < m.triangles@.len(),
{
    let tr = m.triangles@[t];
    match (s.spec_world_pt(m.vertices@[tr.a as int]), s.spec_world_pt(m.vertices@[tr.b as int]),
    s.spec_world_pt(m.vertices@[tr.c as int])) {
        (Some(w0), Some(w1), Some(w2)) => {
            let n = scross(
                w1.x - w0.x,
                w1.y - w0.y,
                w1.z - w0.z,
                w2.x - w0.x,
                w2.y - w0.y,
                w2.z - w0.z,
            );
            sdot(
                n.0,
                n.1,
                n.2,
                s.camera_pos.x - w0.x,
                s.camera_pos.y - w0.y,
                s.camera_pos.z - w0.z,
            ) > 0
        },
        _ => false,
    }
}

/// The drawable edge built at first incidence `j`.
pub open spec fn spec_edge_at(m: Mesh, j: int) -> Edge3D
    recommends
        m.wf(),
        0 <= j < 3 * (m.triangles@.len() as int),
{
    let e = occ(m.triangles@, j);
    let c = count_occ(m.triangles@, e, 3 * (m.triangles@.len() as int));
    Edge3D {
        a: m.vertices@[e.0 as int],
        b: m.vertices@[e.1 as int],
        ia: e.0,
        ib: e.1,
        tri0: Some((j / 3) as usize),
        tri1: if c >= 2 {
            Some((find_next(m.triangles@, e, j + 1) / 3) as usize)
        } else {
            None
        },
    }
}

/// Whether the edge first seen at incidence `j` is drawn: always for a
/// boundary edge, for an interior edge only when its two triangles disagree
/// on camera-facing, never for a non-manifold edge.
pub open spec fn spec_should_emit(m: Mesh, s: Scene, j: int) -> bool
    recommends
        m.wf(),
        0 <= j < 3 * (m.triangles@.len() as int),
{
    let e = occ(m.triangles@, j);
    let c = count_occ(m.triangles@, e, 3 * (m.triangles@.len() as int));
    ||| c == 1
    ||| (c == 2 && spec_tri_front(m, s, j / 3) != spec_tri_front(
        m,
        s,
        find_next(m.triangles@, e, j + 1) / 3,
    ))
}

/// The drawable edges found among the first `upto` incidences, in first-seen
/// order.
pub open spec fn spec_feature_edges(m: Mesh, s: Scene, upto: int) -> Seq<Edge3D>
    recommends
        m.wf(),
        0 <= upto <= 3 * (m.triangles@.len() as int),
    decreases upto,
{
    if upto <= 0 {
        Seq::empty()
    } else {
        let prev = spec_feature_edges(m, s, upto - 1);
        if is_first_occ(m.triangles@, upto - 1) && spec_should_emit(m, s, upto - 1) {
            prev.push(spec_edge_at(m, upto - 1))
        } else {
            prev
        }
    }
}

impl Mesh {
    /// The edge carried by incidence `j`, as [`occ`] states it.
    fn edge_of(&self, j: usize) -> (e: (usize, usize))
        requires
            self.wf(),
            j < 3 * (self.triangles@.len() as int),
        ensures
            e == occ(self.triangles@, j as int),
            e.0 < self.vertices@.len(),
            e.1 < self.vertices@.len(),
    {
        let t = self.triangles[j / 3];
        let k = j % 3;
        let (a, b) = if k == 0 {
            (t.a, t.b)
        } else if k == 1 {
            (t.b, t.c)
        } else {
            (t.c, t.a)
        };
        if a <= b {
            (a, b)
        } else {
            (b, a)
        }
    }

    /// Whether triangle `t` faces the camera, as [`spec_tri_front`] states
    /// it.
    fn tri_front(&self, s: &Scene, t: usize) -> (r: bool)
        requires
            self.wf(),
            s.wf(),
            t < self.triangles@.len(),
        ensures
            r == spec_tri_front(*self, *s, t as int),
    {
        let tr = self.triangles[t];
        let w0_opt = s.world_pt(self.vertices[tr.a]);
        let w1_opt = s.world_pt(self.vertices[tr.b]);
        let w2_opt = s.world_pt(self.vertices[tr.c]);
        match (w0_opt, w1_opt, w2_opt) {
            (Some(w0), Some(w1), Some(w2)) => {
                let n = cross3(
                    (w1.x - w0.x) as i128,
                    (w1.y - w0.y) as i128,
                    (w1.z - w0.z) as i128,
                    (w2.x - w0.x) as i128,
                    (w2.y - w0.y) as i128,
                    (w2.z - w0.z) as i128,
                );
                proof {
                    lemma_mul_bound(w1.y - w0.y, w2.z - w0.z, 2 * VLIM, 2 * VLIM);
                    lemma_mul_bound(w1.z - w0.z, w2.y - w0.y, 2 * VLIM, 2 * VLIM);
                    lemma_mul_bound(w1.z - w0.z, w2.x - w0.x, 2 * VLIM, 2 * VLIM);
                    lemma_mul_bound(w1.x - w0.x, w2.z - w0.z, 2 * VLIM, 2 * VLIM);
                    lemma_mul_bound(w1.x - w0.x, w2.y - w0.y, 2 * VLIM, 2 * VLIM);
                    lemma_mul_bound(w1.y - w0.y, w2.x - w0.x, 2 * VLIM, 2 * VLIM);
                }
                let d = dot3(
                    n.0,
                    n.1,
                    n.2,
                    (s.camera_pos.x - w0.x) as i128,
                    (s.camera_pos.y - w0.y) as i128,
                    (s.camera_pos.z - w0.z) as i128,
                );
                d > 0
            },
            _ => false,
        }
    }

    /// How many incidences carry edge `e`, as [`count_occ`] states it.
    fn count_occ_exec(&self, e: (usize, usize)) -> (c: usize)
        requires
            self.wf(),
        ensures
            c as nat == count_occ(self.triangles@, e, 3 * (self.triangles@.len() as int)),
    {
        let total: usize = 3 * self.triangles.len();
        let mut c: usize = 0;
        let mut j: usize = 0;
        while j < total
            invariant
                self.wf(),
                total == 3 * (self.triangles@.len() as int),
                j <= total,
                c <= j,
                c as nat == count_occ(self.triangles@, e, j as int),
            decreases total - j,
        {
            let ej = self.edge_of(j);
            if ej.0 == e.0 && ej.1 == e.1 {
                c += 1;
            }
            j += 1;
        }
        c
    }

    /// Whether no earlier incidence carries the same edge as incidence `j`.
    fn is_first_exec(&self, j: usize) -> (r: bool)
        requires
            self.wf(),
            j < 3 * (self.triangles@.len() as int),
        ensures
            r == is_first_occ(self.triangles@, j as int),
    {
        let ej = self.edge_of(j);
        let mut j2: usize = 0;
        while j2 < j
            invariant
                self.wf(),
                j < 3 * (self.triangles@.len() as int),
                j2 <= j,
                ej == occ(self.triangles@, j as int),
                forall|k: int| 0 <= k < j2 ==> occ(self.triangles@, k) != occ(self.triangles@, j as int),
            decreases j - j2,
        {
            let e2 = self.edge_of(j2);
            if e2.0 == ej.0 && e2.1 == ej.1 {
                return false;
            }
            j2 += 1;
        }
        true
    }

    /// The next incidence at or after `from` carrying `e`, as [`find_next`]
    /// states it.
    fn find_next_exec(&self, e: (usize, usize), from: usize) -> (r: usize)
        requires
            self.wf(),
            from <= 3 * (self.triangles@.len() as int),
        ensures
            r as int == find_next(self.triangles@, e, from as int),
    {
        let total: usize = 3 * self.triangles.len();
        let mut j: usize = from;
        while j < total
            invariant
                self.wf(),
                total == 3 * (self.triangles@.len() as int),
                from <= j <= total,
                find_next(self.triangles@, e, from as int) == find_next(
                    self.triangles@,
                    e,
                    j as int,
                ),
            decreases total - j,
        {
            let ej = self.edge_of(j);
            if ej.0 == e.0 && ej.1 == e.1 {
                return j;
            }
            j += 1;
        }
        total
    }

    /// The drawable edges of this mesh for the given scene, in first-seen
    /// order, exactly as [`spec_feature_edges`] states them.
    pub fn find_edge_lines(&self, s: &Scene) -> (r: Vec<Edge3D>)
        requires
            self.wf(),
            s.wf(),
        ensures
            r@ == spec_feature_edges(*self, *s, 3 * (self.triangles@.len() as int)),
    {
        let total: usize = 3 * self.triangles.len();
        let mut r: Vec<Edge3D> = Vec::new();
        let mut j: usize = 0;
        while j < total
            invariant
                self.wf(),
                s.wf(),
                total == 3 * (self.triangles@.len() as int),
                j <= total,
                r@ == spec_feature_edges(*self, *s, j as int),
            decreases total - j,
        {
            if self.is_first_exec(j) {
                let e = self.edge_of(j);
                let c = self.count_occ_exec(e);
                if c == 1 {
                    r.push(
                        Edge3D {
                            a: self.vertices[e.0],
                            b: self.vertices[e.1],
                            ia: e.0,
                            ib: e.1,
                            tri0: Some(j / 3),
                            tri1: None,
                        },
                    );
                } else if c == 2 {
                    let j2 = self.find_next_exec(e, j + 1);
                    proof {
                        lemma_find_next(self.triangles@, e, j as int + 1);
                        if find_next(self.triangles@, e, j as int + 1) == 3
                            * self.triangles@.len() {
                            lemma_count_unique(self.triangles@, e, j as int, 3 * (
                            self.triangles@.len() as int));
                        }
                    }
                    let f1 = self.tri_front(s, j / 3);
                    let f2 = self.tri_front(s, j2 / 3);
                    if f1 != f2 {
                        r.push(
                            Edge3D {
                                a: self.vertices[e.0],
                                b: self.vertices[e.1],
                                ia: e.0,
                                ib: e.1,
                                tri0: Some(j / 3),
                                tri1: Some(j2 / 3),
                            },
                        );
                    }
                }
            }
            j += 1;
        }
        r
    }
}

/// `find_next` lands on an incidence of `e`, or at the end; nothing in
/// between carries `e`.
pub proof fn lemma_find_next(tris: Seq<Tri>, e: (usize, usize), from: int)
    requires
        0 <= from <= 3 * (tris.len() as int),
    ensures
        from <= find_next(tris, e, from) <= 3 * (tris.len() as int),
        find_next(tris, e, from) < 3 * (tris.len() as int) ==> occ(tris, find_next(tris, e, from)) == e,
        forall|j: int| from <= j < find_next(tris, e, from) ==> occ(tris, j) != e,
    decreases 3 * (tris.len() as int) - from,
{
    if from < 3 * (tris.len() as int) && occ(tris, from) != e {
        lemma_find_next(tris, e, from + 1);
    }
}

/// An edge with no incidence before `upto` has count zero there.
pub proof fn lemma_count_zero(tris: Seq<Tri>, e: (usize, usize), upto: int)
    requires
        forall|j: int| 0 <= j < upto ==> occ(tris, j) != e,
    ensures
        count_occ(tris, e, upto) == 0,
    decreases upto,
{
    if upto > 0 {
        lemma_count_zero(tris, e, upto - 1);
    }
}

/// An edge whose only incidence before `upto` is `j` has count one there.
pub proof fn lemma_count_unique(tris: Seq<Tri>, e: (usize, usize), j: int, upto: int)
    requires
        0 <= j < upto,
        occ(tris, j) == e,
        forall|j2: int| 0 <= j2 < upto && j2 != j ==> occ(tris, j2) != e,
    ensures
        count_occ(tris, e, upto) == 1,
    decreases upto,
{
    if upto - 1 == j {
        lemma_count_zero(tris, e, j);
    } else {
        lemma_count_unique(tris, e, j, upto - 1);
    }
}

/// Two distinct incidences of an edge give it count at least two.
pub proof fn lemma_count_two(tris: Seq<Tri>, e: (usize, usize), j1: int, j2: int, upto: int)
    requires
        0 <= j1 < j2 < upto,
        occ(tris, j1) == e,
        occ(tris, j2) == e,
    ensures
        count_occ(tris, e, upto) >= 2,
    decreases upto,
{
    if upto - 1 == j2 {
        lemma_count_one(tris, e, j1, upto - 1);
    } else {
        lemma_count_two(tris, e, j1, j2, upto - 1);
    }
}

/// One incidence of an edge gives it count at least one.
pub proof fn lemma_count_one(tris: Seq<Tri>, e: (usize, usize), j: int, upto: int)
    requires
        0 <= j < upto,
        occ(tris, j) == e,
    ensures
        count_occ(tris, e, upto) >= 1,
    decreases upto,
{
    if upto - 1 != j {
        lemma_count_one(tris, e, j, upto - 1);
    }
}

/// Three distinct incidences of an edge give it count at least three.
pub proof fn lemma_count_three(tris: Seq<Tri>, e: (usize, usize), j1: int, j2: int, j3: int, upto: int)
    requires
        0 <= j1 < j2 < j3 < upto,
        occ(tris, j1) == e,
        occ(tris, j2) == e,
        occ(tris, j3) == e,
    ensures
        count_occ(tris, e, upto) >= 3,
    decreases upto,
{
    if upto - 1 == j3 {
        lemma_count_two(tris, e, j1, j2, upto - 1);
    } else {
        lemma_count_three(tris, e, j1, j2, j3, upto - 1);
    }
}

/// An edge first seen at `j` and due for drawing is in the output from then
/// on.
pub proof fn lemma_emit_mem(m: Mesh, s: Scene, j: int, upto: int)
    requires
        m.wf(),
        0 <= j < upto <= 3 * (m.triangles@.len() as int),
        is_first_occ(m.triangles@, j),
        spec_should_emit(m, s, j),
    ensures
        spec_feature_edges(m, s, upto).contains(spec_edge_at(m, j)),
    decreases upto,
{
    if upto - 1 == j {
        let prev = spec_feature_edges(m, s, j);
        assert(spec_feature_edges(m, s, upto) == prev.push(spec_edge_at(m, j)));
        assert(spec_feature_edges(m, s, upto)[prev.len() as int] == spec_edge_at(m, j));
    } else {
        lemma_emit_mem(m, s, j, upto - 1);
        let prev = spec_feature_edges(m, s, upto - 1);
        let i = choose|i: int| 0 <= i < prev.len() && prev[i] == spec_edge_at(m, j);
        assert(spec_feature_edges(m, s, upto)[i] == spec_edge_at(m, j));
    }
}

/// Every output edge stems from a first incidence that was due for drawing.
pub proof fn lemma_mem_inv(m: Mesh, s: Scene, upto: int)
    requires
        m.wf(),
        0 <= upto <= 3 * (m.triangles@.len() as int),
    ensures
        forall|i: int|
            0 <= i < spec_feature_edges(m, s, upto).len() ==> exists|j: int|
                0 <= j < upto && is_first_occ(m.triangles@, j) && spec_should_emit(m, s, j) && (
                #[trigger] spec_feature_edges(m, s, upto)[i]) == spec_edge_at(m, j),
    decreases upto,
{
    if upto > 0 {
        lemma_mem_inv(m, s, upto - 1);
        let prev = spec_feature_edges(m, s, upto - 1);
        let cur = spec_feature_edges(m, s, upto);
        assert forall|i: int| 0 <= i < cur.len() implies exists|j: int|
            0 <= j < upto && is_first_occ(m.triangles@, j) && spec_should_emit(m, s, j) && (
            #[trigger] cur[i]) == spec_edge_at(m, j) by {
            if i < prev.len() {
                assert(cur[i] == prev[i]);
                let j = choose|j: int|
                    0 <= j < upto - 1 && is_first_occ(m.triangles@, j) && spec_should_emit(m, s, j)
                        && prev[i] == spec_edge_at(m, j);
                assert(0 <= j < upto && is_first_occ(m.triangles@, j) && spec_should_emit(m, s, j)
                    && cur[i] == spec_edge_at(m, j));
            } else {
                assert(is_first_occ(m.triangles@, upto - 1) && spec_should_emit(m, s, upto - 1));
                assert(cur[i] == spec_edge_at(m, upto - 1));
            }
        }
    }
}

/// Boundary-edge guarantee: an edge with exactly one incidence is always in
/// the output, whatever the camera.
pub proof fn lemma_boundary_edge_emitted(m: Mesh, s: Scene, j: int)
    requires
        m.wf(),
        0 <= j < 3 * (m.triangles@.len() as int),
        count_occ(m.triangles@, occ(m.triangles@, j), 3 * (m.triangles@.len() as int)) == 1,
    ensures
        spec_feature_edges(m, s, 3 * (m.triangles@.len() as int)).contains(spec_edge_at(m, j)),
        spec_edge_at(m, j).tri1 is None,
{
    let tris = m.triangles@;
    let e = occ(tris, j);
    assert forall|j2: int| 0 <= j2 < j implies occ(tris, j2) != e by {
        if occ(tris, j2) == e {
            lemma_count_two(tris, e, j2, j, 3 * (tris.len() as int));
        }
    }
    lemma_emit_mem(m, s, j, 3 * (tris.len() as int));
}

/// Coplanar-edge suppression: an interior edge whose two triangles agree on
/// camera-facing is never in the output.
pub proof fn lemma_agreeing_edge_suppressed(m: Mesh, s: Scene, j1: int, j2: int)
    requires
        m.wf(),
        0 <= j1 < j2 < 3 * (m.triangles@.len() as int),
        occ(m.triangles@, j1) == occ(m.triangles@, j2),
        count_occ(m.triangles@, occ(m.triangles@, j1), 3 * (m.triangles@.len() as int)) == 2,
        spec_tri_front(m, s, j1 / 3) == spec_tri_front(m, s, j2 / 3),
    ensures
        forall|i: int|
            0 <= i < spec_feature_edges(m, s, 3 * (m.triangles@.len() as int)).len() ==> ((
            #[trigger] spec_feature_edges(m, s, 3 * (m.triangles@.len() as int))[i]).ia,
            spec_feature_edges(m, s, 3 * (m.triangles@.len() as int))[i].ib) != occ(m.triangles@, j1),
{
    let tris = m.triangles@;
    let n3 = 3 * (tris.len() as int);
    let e = occ(tris, j1);
    // the only incidences of e are j1 and j2
    assert forall|j3: int| 0 <= j3 < n3 && occ(tris, j3) == e implies j3 == j1 || j3 == j2 by {
        if j3 != j1 && j3 != j2 {
            if j3 < j1 {
                lemma_count_three(tris, e, j3, j1, j2, n3);
            } else if j3 < j2 {
                lemma_count_three(tris, e, j1, j3, j2, n3);
            } else {
                lemma_count_three(tris, e, j1, j2, j3, n3);
            }
        }
    }
    lemma_mem_inv(m, s, n3);
    let out = spec_feature_edges(m, s, n3);
    assert forall|i: int| 0 <= i < out.len() implies ((#[trigger] out[i]).ia, out[i].ib) != e by {
        if (out[i].ia, out[i].ib) == e {
            let j = choose|j: int|
                0 <= j < n3 && is_first_occ(tris, j) && spec_should_emit(m, s, j) && out[i]
                    == spec_edge_at(m, j);
            assert(occ(tris, j) == e);
            assert(j == j1);
            lemma_find_next(tris, e, j1 + 1);
            let nx = find_next(tris, e, j1 + 1);
            assert(occ(tris, j2) == e && j1 + 1 <= j2);
            assert(nx <= j2);
            assert(nx == j2);
            assert(!spec_should_emit(m, s, j1));
        }
    }
}

} // verus!
