//! Visibility classification by ray casting.
//!
//! For each sub-segment, a representative 3D sample point is rebuilt at the
//! sub-segment's parametric midpoint on its parent edge, and a ray is cast
//! from the camera position toward it against every world-space mesh
//! triangle except the (up to two) triangles adjacent to the edge itself.
//! A hit strictly nearer than the sample, beyond a tolerance, makes the
//! sub-segment obscured; otherwise it is visible.

use vstd::prelude::*;
use crate::geom::{Vec3, sdot, scross, dot3, cross3, spec_lerp, lerp_fx, vec3_in_v};
use crate::mesh::{Mesh, Edge3D};
use crate::num::{div_tz, div64, lemma_mul_bound, lemma_div_tz_ratio, lemma_div_tz_bound, ONE,
    TONE, RAY_EPS, VLIM};
use crate::scene::{Scene, Segment2, seg_wf, edge_in_m};
use crate::geom::lemma_lerp_between;

verus! {

/// The binary visibility classification of a sub-segment.
#[derive(Clone, Copy, PartialEq, Eq, Structural, Debug)]
pub enum LineVisibility {
    Visible,
    Obscured,
}

/// A 2D sub-segment together with its classification.
#[derive(Clone, Copy, PartialEq, Eq, Structural, Debug)]
pub struct LineSegmentCulled {
    pub visibility: LineVisibility,
    pub line_segment: Segment2,
}

/// The ray caster: the mesh's triangles in world space (each with its
/// original triangle index) and the camera position.
pub struct Ray {
    pub triangles: Vec<(Vec3, Vec3, Vec3, usize)>,
    pub camera_pos: Vec3,
}

/// Whether the ray from `orig` with direction `(dx, dy, dz)` hits the
/// triangle `w0 w1 w2` strictly between the origin and the point at
/// parameter one, beyond the occlusion tolerance. Signs are normalized by
/// the determinant; a degenerate (parallel or zero-area) configuration is
/// no hit.
pub open spec fn spec_hit(orig: Vec3, dx: int, dy: int, dz: int, w0: Vec3, w1: Vec3, w2: Vec3) -> bool {
    let e1x = w1.x - w0.x;
    let e1y = w1.y - w0.y;
    let e1z = w1.z - w0.z;
    let e2x = w2.x - w0.x;
    let e2y = w2.y - w0.y;
    let e2z = w2.z - w0.z;
    let p = scross(dx, dy, dz, e2x, e2y, e2z);
    let det = sdot(e1x, e1y, e1z, p.0, p.1, p.2);
    if det == 0 {
        false
    } else {
        let sx = orig.x - w0.x;
        let sy = orig.y - w0.y;
        let sz = orig.z - w0.z;
        let un0 = sdot(sx, sy, sz, p.0, p.1, p.2);
        let q = scross(sx, sy, sz, e1x, e1y, e1z);
        let vn0 = sdot(dx, dy, dz, q.0, q.1, q.2);
        let tn0 = sdot(e2x, e2y, e2z, q.0, q.1, q.2);
        let dd = if det > 0 {
            det
        } else {
            -det
        };
        let un = if det > 0 {
            un0
        } else {
            -un0
        };
        let vn = if det > 0 {
            vn0
        } else {
            -vn0
        };
        let tn = if det > 0 {
            tn0
        } else {
            -tn0
        };
        0 <= un && un <= dd && 0 <= vn && un + vn <= dd && 0 < tn && tn * ONE < dd * (ONE - RAY_EPS)
    }
}

/// Whether triangle index `ti` is one of the edge's own adjacent triangles.
pub open spec fn spec_adjacent(e: Edge3D, ti: usize) -> bool {
    e.tri0 == Some(ti) || e.tri1 == Some(ti)
}

/// The world-space triangles of the mesh, each with its original index;
/// triangles whose vertices leave the supported range are dropped.
pub open spec fn spec_ray_tris(m: Mesh, s: Scene, upto: int) -> Seq<(Vec3, Vec3, Vec3, usize)>
    recommends
        m.wf(),
        0 <= upto <= m.triangles@.len(),
    decreases upto,
{
    if upto <= 0 {
        Seq::empty()
    } else {
        let prev = spec_ray_tris(m, s, upto - 1);
        let tr = m.triangles@[upto - 1];
        match (s.spec_world_pt(m.vertices@[tr.a as int]), s.spec_world_pt(
            m.vertices@[tr.b as int],
        ), s.spec_world_pt(m.vertices@[tr.c as int])) {
            (Some(w0), Some(w1), Some(w2)) => prev.push((w0, w1, w2, (upto - 1) as usize)),
            _ => prev,
        }
    }
}

/// The classification of one sub-segment: obscured exactly when some
/// non-adjacent world triangle occludes the sample point rebuilt at the
/// sub-segment's parametric midpoint. A sample that cannot be rebuilt
/// (its edge leaves the supported range) counts as visible.
pub open spec fn spec_classify(
    tris: Seq<(Vec3, Vec3, Vec3, usize)>,
    campos: Vec3,
    s: Scene,
    e: Edge3D,
    sub: Segment2,
) -> LineVisibility {
    let tm = div_tz(sub.t0 + sub.t1, 2);
    match (s.spec_world_pt(e.a), s.spec_world_pt(e.b)) {
        (Some(wa), Some(wb)) => {
            let px = spec_lerp(wa.x as int, wb.x as int, tm);
            let py = spec_lerp(wa.y as int, wb.y as int, tm);
            let pz = spec_lerp(wa.z as int, wb.z as int, tm);
            if exists|i: int|
                0 <= i < tris.len() && !spec_adjacent(e, (#[trigger] tris[i]).3) && spec_hit(
                    campos,
                    px - campos.x,
                    py - campos.y,
                    pz - campos.z,
                    tris[i].0,
                    tris[i].1,
                    tris[i].2,
                ) {
                LineVisibility::Obscured
            } else {
                LineVisibility::Visible
            }
        },
        _ => LineVisibility::Visible,
    }
}

impl Ray {
    /// Triangle vertices and the camera position are within the transformed
    /// range.
    pub open spec fn wf(self) -> bool {
        &&& vec3_in_v(self.camera_pos)
        &&& forall|i: int|
            0 <= i < self.triangles@.len() ==> vec3_in_v((#[trigger] self.triangles@[i]).0)
                && vec3_in_v(self.triangles@[i].1) && vec3_in_v(self.triangles@[i].2)
    }

    /// Builds the ray caster for one (mesh, scene) pair, exactly as
    /// [`spec_ray_tris`] states its triangle list.
    pub fn new(mesh: &Mesh, scene: &Scene) -> (r: Ray)
        requires
            mesh.wf(),
            scene.wf(),
        ensures
            r.triangles@ == spec_ray_tris(*mesh, *scene, mesh.triangles@.len() as int),
            r.camera_pos == scene.camera_pos,
            r.wf(),
    {
        let mut tris: Vec<(Vec3, Vec3, Vec3, usize)> = Vec::new();
        let mut t: usize = 0;
        while t < mesh.triangles.len()
            invariant
                mesh.wf(),
                scene.wf(),
                t <= mesh.triangles@.len(),
                tris@ == spec_ray_tris(*mesh, *scene, t as int),
                forall|i: int|
                    0 <= i < tris@.len() ==> vec3_in_v((#[trigger] tris@[i]).0) && vec3_in_v(
                        tris@[i].1,
                    ) && vec3_in_v(tris@[i].2),
            decreases mesh.triangles@.len() - t,
        {
            let tr = mesh.triangles[t];
            let w0 = scene.world_pt(mesh.vertices[tr.a]);
            let w1 = scene.world_pt(mesh.vertices[tr.b]);
            let w2 = scene.world_pt(mesh.vertices[tr.c]);
            match (w0, w1, w2) {
                (Some(w0), Some(w1), Some(w2)) => {
                    tris.push((w0, w1, w2, t));
                },
                _ => {},
            }
            t += 1;
        }
        Ray { triangles: tris, camera_pos: scene.camera_pos }
    }
}

/// Whether the ray from `orig` toward the sample hits one world triangle,
/// exactly as [`spec_hit`] states it.
fn hit_test(orig: Vec3, dx: i64, dy: i64, dz: i64, w0: Vec3, w1: Vec3, w2: Vec3) -> (r: bool)
    requires
        vec3_in_v(orig),
        vec3_in_v(w0),
        vec3_in_v(w1),
        vec3_in_v(w2),
        -0x2000_0000 <= dx <= 0x2000_0000,
        -0x2000_0000 <= dy <= 0x2000_0000,
        -0x2000_0000 <= dz <= 0x2000_0000,
    ensures
        r == spec_hit(orig, dx as int, dy as int, dz as int, w0, w1, w2),
{
    let e1x: i128 = (w1.x - w0.x) as i128;
    let e1y: i128 = (w1.y - w0.y) as i128;
    let e1z: i128 = (w1.z - w0.z) as i128;
    let e2x: i128 = (w2.x - w0.x) as i128;
    let e2y: i128 = (w2.y - w0.y) as i128;
    let e2z: i128 = (w2.z - w0.z) as i128;
    let dxc: i128 = dx as i128;
    let dyc: i128 = dy as i128;
    let dzc: i128 = dz as i128;
    let p = cross3(dxc, dyc, dzc, e2x, e2y, e2z);
    proof {
        lemma_mul_bound(dy as int, e2z as int, 0x2000_0000, 0x2000_0000);
        lemma_mul_bound(dz as int, e2y as int, 0x2000_0000, 0x2000_0000);
        lemma_mul_bound(dz as int, e2x as int, 0x2000_0000, 0x2000_0000);
        lemma_mul_bound(dx as int, e2z as int, 0x2000_0000, 0x2000_0000);
        lemma_mul_bound(dx as int, e2y as int, 0x2000_0000, 0x2000_0000);
        lemma_mul_bound(dy as int, e2x as int, 0x2000_0000, 0x2000_0000);
    }
    let det = dot3(e1x, e1y, e1z, p.0, p.1, p.2);
    if det == 0 {
        return false;
    }
    let sx: i128 = (orig.x - w0.x) as i128;
    let sy: i128 = (orig.y - w0.y) as i128;
    let sz: i128 = (orig.z - w0.z) as i128;
    let un0 = dot3(sx, sy, sz, p.0, p.1, p.2);
    let q = cross3(sx, sy, sz, e1x, e1y, e1z);
    proof {
        lemma_mul_bound(sy as int, e1z as int, 0x2000_0000, 0x2000_0000);
        lemma_mul_bound(sz as int, e1y as int, 0x2000_0000, 0x2000_0000);
        lemma_mul_bound(sz as int, e1x as int, 0x2000_0000, 0x2000_0000);
        lemma_mul_bound(sx as int, e1z as int, 0x2000_0000, 0x2000_0000);
        lemma_mul_bound(sx as int, e1y as int, 0x2000_0000, 0x2000_0000);
        lemma_mul_bound(sy as int, e1x as int, 0x2000_0000, 0x2000_0000);
    }
    let vn0 = dot3(dxc, dyc, dzc, q.0, q.1, q.2);
    let tn0 = dot3(e2x, e2y, e2z, q.0, q.1, q.2);
    proof {
        crate::geom::lemma_sdot_bound(e1x as int, e1y as int, e1z as int, p.0 as int, p.1 as int,
            p.2 as int, 0x2000_0000, 0x8000_0000_0000_0000);
        crate::geom::lemma_sdot_bound(sx as int, sy as int, sz as int, p.0 as int, p.1 as int,
            p.2 as int, 0x2000_0000, 0x8000_0000_0000_0000);
        crate::geom::lemma_sdot_bound(dx as int, dy as int, dz as int, q.0 as int, q.1 as int,
            q.2 as int, 0x2000_0000, 0x8000_0000_0000_0000);
        crate::geom::lemma_sdot_bound(e2x as int, e2y as int, e2z as int, q.0 as int, q.1 as int,
            q.2 as int, 0x2000_0000, 0x8000_0000_0000_0000);
    }
    let dd: i128 = if det > 0 {
        det
    } else {
        -det
    };
    let un: i128 = if det > 0 {
        un0
    } else {
        -un0
    };
    let vn: i128 = if det > 0 {
        vn0
    } else {
        -vn0
    };
    let tn: i128 = if det > 0 {
        tn0
    } else {
        -tn0
    };
    proof {
        assert(ONE == 65536 && RAY_EPS == 256);
        lemma_mul_bound(tn as int, ONE as int, 3 * (0x2000_0000int * 0x8000_0000_0000_0000), 65536);
        lemma_mul_bound(dd as int, (ONE - RAY_EPS) as int, 3 * (0x2000_0000int
            * 0x8000_0000_0000_0000), 65536);
    }
    0 <= un && un <= dd && 0 <= vn && un + vn <= dd && 0 < tn && tn * (ONE as i128) < dd * ((ONE
        - RAY_EPS) as i128)
}

/// Classifies one sub-segment against the mesh, exactly as
/// [`spec_classify`] states it.
pub fn get_visibility(sub: &Segment2, edge: &Edge3D, scene: &Scene, ray: &Ray) -> (r:
    LineVisibility)
    requires
        seg_wf(*sub),
        edge_in_m(*edge),
        scene.wf(),
        ray.wf(),
    ensures
        r == spec_classify(ray.triangles@, ray.camera_pos, *scene, *edge, *sub),
{
    let tm: i64 = div64(sub.t0 + sub.t1, 2);
    proof {
        lemma_div_tz_ratio((sub.t0 + sub.t1) as int, 2, TONE as int);
        lemma_div_tz_bound((sub.t0 + sub.t1) as int, 2, 2 * (TONE as int));
    }
    let wa_opt = scene.world_pt(edge.a);
    let wb_opt = scene.world_pt(edge.b);
    let (wa, wb) = match (wa_opt, wb_opt) {
        (Some(wa), Some(wb)) => (wa, wb),
        _ => {
            return LineVisibility::Visible;
        },
    };
    let px = lerp_fx(wa.x, wb.x, tm);
    let py = lerp_fx(wa.y, wb.y, tm);
    let pz = lerp_fx(wa.z, wb.z, tm);
    proof {
        lemma_lerp_between(wa.x as int, wb.x as int, tm as int);
        lemma_lerp_between(wa.y as int, wb.y as int, tm as int);
        lemma_lerp_between(wa.z as int, wb.z as int, tm as int);
    }
    let dx = px - ray.camera_pos.x;
    let dy = py - ray.camera_pos.y;
    let dz = pz - ray.camera_pos.z;
    let mut i: usize = 0;
    while i < ray.triangles.len()
        invariant
            seg_wf(*sub),
            scene.wf(),
            ray.wf(),
            i <= ray.triangles@.len(),
            -0x2000_0000 <= dx <= 0x2000_0000,
            -0x2000_0000 <= dy <= 0x2000_0000,
            -0x2000_0000 <= dz <= 0x2000_0000,
            dx as int == spec_lerp(wa.x as int, wb.x as int, tm as int) - ray.camera_pos.x,
            dy as int == spec_lerp(wa.y as int, wb.y as int, tm as int) - ray.camera_pos.y,
            dz as int == spec_lerp(wa.z as int, wb.z as int, tm as int) - ray.camera_pos.z,
            tm as int == div_tz(sub.t0 + sub.t1, 2),
            scene.spec_world_pt(edge.a) == Some(wa),
            scene.spec_world_pt(edge.b) == Some(wb),
            forall|k: int|
                0 <= k < i ==> !(!spec_adjacent(*edge, (#[trigger] ray.triangles@[k]).3)
                    && spec_hit(
                    ray.camera_pos,
                    dx as int,
                    dy as int,
                    dz as int,
                    ray.triangles@[k].0,
                    ray.triangles@[k].1,
                    ray.triangles@[k].2,
                )),
        decreases ray.triangles@.len() - i,
    {
        let (w0, w1, w2, ti) = ray.triangles[i];
        let adjacent = match (edge.tri0, edge.tri1) {
            (Some(t0), Some(t1)) => ti == t0 || ti == t1,
            (Some(t0), None) => ti == t0,
            (None, Some(t1)) => ti == t1,
            (None, None) => false,
        };
        if !adjacent {
            if hit_test(ray.camera_pos, dx, dy, dz, w0, w1, w2) {
                return LineVisibility::Obscured;
            }
        }
        i += 1;
    }
    LineVisibility::Visible
}

} // verus!