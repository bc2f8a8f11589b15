//! Camera and projection: mapping 3D edges to 2D screen segments.

use vstd::prelude::*;
use crate::geom::{Mat4, Vec3, Vec4, spec_apply, spec_lerp, in_m, in_v, vec3_in_m, vec3_in_v,
    vec4_in_v, lerp_fx};
use crate::mesh::{Edge3D, InputError};
use crate::num::{div_tz, div64, div128, lemma_mul_bound, lemma_div_tz_bound, lemma_div_tz_ratio,
    ONE, TONE, MLIM, VLIM, NDC_LIM, SLIM, W_NEAR, W_HALF};

verus! {

/// Camera, projection, and canvas state, immutable for one pipeline run.
pub struct Scene {
    pub width: i64,
    pub height: i64,
    pub view: Mat4,
    pub projection: Mat4,
    pub world: Mat4,
    pub camera_forward: Vec3,
    pub camera_pos: Vec3,
}

/// A projected 2D screen segment, still carrying the parametric range
/// `[t0, t1]` (scaled by [`TONE`]) into its originating 3D edge.
#[derive(Clone, Copy, PartialEq, Eq, Structural, Debug)]
pub struct Segment2 {
    pub x0: i64,
    pub y0: i64,
    pub x1: i64,
    pub y1: i64,
    pub t0: i64,
    pub t1: i64,
}

/// A 3D edge together with the screen segments it projects to (none when it
/// lies behind the camera or degenerates).
pub struct ProjectedLine {
    pub edge: Edge3D,
    pub segments: Vec<Segment2>,
}

/// Screen coordinates in range and a nondecreasing parameter range.
pub open spec fn seg_wf(s: Segment2) -> bool {
    &&& -SLIM <= s.x0 <= SLIM
    &&& -SLIM <= s.y0 <= SLIM
    &&& -SLIM <= s.x1 <= SLIM
    &&& -SLIM <= s.y1 <= SLIM
    &&& 0 <= s.t0 <= s.t1 <= TONE
}

/// Both endpoints of an edge are within the caller-supplied range.
pub open spec fn edge_in_m(e: Edge3D) -> bool {
    vec3_in_m(e.a) && vec3_in_m(e.b)
}

/// A mesh-space point as a homogeneous column with unit weight.
pub open spec fn vec4_of(v: Vec3) -> Vec4 {
    Vec4 { x: v.x, y: v.y, z: v.z, w: ONE }
}

/// The camera position recovered from the view matrix, assuming a rigid
/// view transform: minus the transpose of the rotation block applied to the
/// translation column.
pub open spec fn spec_camera_pos(view: Mat4) -> (int, int, int) {
    (
        -div_tz(view.m[0] * view.m[3] + view.m[4] * view.m[7] + view.m[8] * view.m[11], ONE as int),
        -div_tz(view.m[1] * view.m[3] + view.m[5] * view.m[7] + view.m[9] * view.m[11], ONE as int),
        -div_tz(
            view.m[2] * view.m[3] + view.m[6] * view.m[7] + view.m[10] * view.m[11],
            ONE as int,
        ),
    )
}

impl Scene {
    /// Canvas within range, matrices and camera data within bounds, and the
    /// stored camera position derived from the view matrix.
    pub open spec fn wf(self) -> bool {
        &&& 0 < self.width <= 8192
        &&& 0 < self.height <= 8192
        &&& self.view.wf()
        &&& self.projection.wf()
        &&& self.world.wf()
        &&& vec3_in_m(self.camera_forward)
        &&& vec3_in_v(self.camera_pos)
        &&& (self.camera_pos.x as int, self.camera_pos.y as int, self.camera_pos.z as int)
            == spec_camera_pos(self.view)
    }

    /// The world-space position of a mesh-space point; `None` when the
    /// transform leaves the supported range.
    pub open spec fn spec_world_pt(self, v: Vec3) -> Option<Vec3> {
        match spec_apply(self.world, vec4_of(v)) {
            Some(q) => Some(Vec3 { x: q.x, y: q.y, z: q.z }),
            None => None,
        }
    }

    /// The clip-space position of a mesh-space point: mesh-to-world, then
    /// view, then projection.
    pub open spec fn spec_clip_pt(self, v: Vec3) -> Option<Vec4> {
        match spec_apply(self.world, vec4_of(v)) {
            Some(p1) => match spec_apply(self.view, p1) {
                Some(p2) => spec_apply(self.projection, p2),
                None => None,
            },
            None => None,
        }
    }
}

/// Componentwise interpolation of two homogeneous points.
pub open spec fn spec_lerp4(a: Vec4, b: Vec4, t: int) -> (int, int, int, int) {
    (
        spec_lerp(a.x as int, b.x as int, t),
        spec_lerp(a.y as int, b.y as int, t),
        spec_lerp(a.z as int, b.z as int, t),
        spec_lerp(a.w as int, b.w as int, t),
    )
}

/// The screen segments of one projected edge: transform both endpoints,
/// drop the edge when both lie behind the near plane, clip it when one
/// does, perform the perspective divide, and map to pixel coordinates with
/// the vertical axis flipped. Degenerate results are suppressed.
pub open spec fn spec_project_edge(s: Scene, e: Edge3D) -> Seq<Segment2> {
    match (s.spec_clip_pt(e.a), s.spec_clip_pt(e.b)) {
        (Some(ca), Some(cb)) => {
            if ca.w < W_NEAR && cb.w < W_NEAR {
                Seq::empty()
            } else {
                let ta = if ca.w >= W_NEAR {
                    0int
                } else {
                    div_tz((W_NEAR - ca.w) * TONE, cb.w - ca.w)
                };
                let tb = if cb.w >= W_NEAR {
                    TONE as int
                } else {
                    div_tz((ca.w - W_NEAR) * TONE, ca.w - cb.w)
                };
                let (ax, ay, az, aw) = spec_lerp4(ca, cb, ta);
                let (bx, by, bz, bw) = spec_lerp4(ca, cb, tb);
                if aw < W_HALF || bw < W_HALF {
                    Seq::empty()
                } else {
                    let nax = div_tz(ax * ONE, aw);
                    let nay = div_tz(ay * ONE, aw);
                    let nbx = div_tz(bx * ONE, bw);
                    let nby = div_tz(by * ONE, bw);
                    if -NDC_LIM <= nax <= NDC_LIM && -NDC_LIM <= nay <= NDC_LIM && -NDC_LIM <= nbx
                        <= NDC_LIM && -NDC_LIM <= nby <= NDC_LIM {
                        let sx0 = div_tz((nax + ONE) * s.width, 2);
                        let sy0 = div_tz((ONE - nay) * s.height, 2);
                        let sx1 = div_tz((nbx + ONE) * s.width, 2);
                        let sy1 = div_tz((ONE - nby) * s.height, 2);
                        if sx0 == sx1 && sy0 == sy1 {
                            Seq::empty()
                        } else {
                            seq![
                                Segment2 {
                                    x0: sx0 as i64,
                                    y0: sy0 as i64,
                                    x1: sx1 as i64,
                                    y1: sy1 as i64,
                                    t0: ta as i64,
                                    t1: tb as i64,
                                },
                            ]
                        }
                    } else {
                        Seq::empty()
                    }
                }
            }
        },
        _ => Seq::empty(),
    }
}

/// All checks of `Scene::new` pass on these buffers.
pub open spec fn scene_input_ok(
    width: i64,
    height: i64,
    view: Seq<i64>,
    projection: Seq<i64>,
    world: Seq<i64>,
    forward: Seq<i64>,
) -> bool {
    &&& 0 < width <= 8192
    &&& 0 < height <= 8192
    &&& view.len() == 16 && projection.len() == 16 && world.len() == 16
    &&& forward.len() == 3
    &&& crate::mesh::coords_in_range(view)
    &&& crate::mesh::coords_in_range(projection)
    &&& crate::mesh::coords_in_range(world)
    &&& crate::mesh::coords_in_range(forward)
    &&& {
        let (cx, cy, cz) = spec_camera_pos(mat_of(view));
        in_v(cx) && in_v(cy) && in_v(cz)
    }
}

/// A sixteen-entry buffer as a matrix.
pub open spec fn mat_of(v: Seq<i64>) -> Mat4
    recommends
        v.len() == 16,
{
    Mat4 {
        m: [
            v[0],
            v[1],
            v[2],
            v[3],
            v[4],
            v[5],
            v[6],
            v[7],
            v[8],
            v[9],
            v[10],
            v[11],
            v[12],
            v[13],
            v[14],
            v[15],
        ],
    }
}

/// The error `Scene::new` returns, decided by the first failing check.
pub open spec fn spec_scene_err(
    width: i64,
    height: i64,
    view: Seq<i64>,
    projection: Seq<i64>,
    world: Seq<i64>,
    forward: Seq<i64>,
) -> InputError
    recommends
        !scene_input_ok(width, height, view, projection, world, forward),
{
    if !(0 < width <= 8192 && 0 < height <= 8192) {
        InputError::BadCanvas
    } else if view.len() != 16 || projection.len() != 16 || world.len() != 16 {
        InputError::MatrixNotSixteen
    } else if forward.len() != 3 {
        InputError::CoordsNotTriples
    } else if !(crate::mesh::coords_in_range(view) && crate::mesh::coords_in_range(projection)
        && crate::mesh::coords_in_range(world) && crate::mesh::coords_in_range(forward)) {
        InputError::ValueOutOfRange
    } else {
        InputError::CameraOutOfRange
    }
}

/// One component of the camera position recovered from the view matrix.
fn camera_row(view: &Mat4, i: usize) -> (r: i64)
    requires
        view.wf(),
        i < 3,
    ensures
        i == 0 ==> r as int == spec_camera_pos(*view).0,
        i == 1 ==> r as int == spec_camera_pos(*view).1,
        i == 2 ==> r as int == spec_camera_pos(*view).2,
{
    proof {
        lemma_mul_bound(view.m[i as int] as int, view.m[3] as int, MLIM as int, MLIM as int);
        lemma_mul_bound(view.m[4 + i as int] as int, view.m[7] as int, MLIM as int, MLIM as int);
        lemma_mul_bound(view.m[8 + i as int] as int, view.m[11] as int, MLIM as int, MLIM as int);
    }
    let s: i128 = (view.m[i] as i128) * (view.m[3] as i128) + (view.m[4 + i] as i128) * (view.m[7]
        as i128) + (view.m[8 + i] as i128) * (view.m[11] as i128);
    let q: i128 = div128(s, ONE as i128);
    proof {
        lemma_div_tz_bound(s as int, ONE as int, 3 * (MLIM as int) * (MLIM as int));
        lemma_div_tz_ratio(s as int, ONE as int, 0x1000_0000_0000_0000);
    }
    -(q as i64)
}

/// Copies a sixteen-entry buffer into a matrix.
fn mat_from(v: &Vec<i64>) -> (r: Mat4)
    requires
        v@.len() == 16,
    ensures
        r == mat_of(v@),
{
    let m = Mat4 {
        m: [
            v[0],
            v[1],
            v[2],
            v[3],
            v[4],
            v[5],
            v[6],
            v[7],
            v[8],
            v[9],
            v[10],
            v[11],
            v[12],
            v[13],
            v[14],
            v[15],
        ],
    };
    proof {
        assert(m.m@ =~= mat_of(v@).m@);
        assert(m.m =~= mat_of(v@).m);
    }
    m
}

impl Scene {
    /// Structures the caller's canvas size, matrix buffers, and camera
    /// forward vector into a scene. Succeeds exactly on well-formed input;
    /// the camera position is recovered from the view matrix (which is
    /// assumed to be a rigid transform).
    pub fn new(
        width: i64,
        height: i64,
        view: Vec<i64>,
        projection: Vec<i64>,
        world: Vec<i64>,
        camera_forward: Vec<i64>,
    ) -> (r: Result<Scene, InputError>)
        ensures
            scene_input_ok(width, height, view@, projection@, world@, camera_forward@) <==> r is Ok,
            r matches Ok(s) ==> s.wf() && s.width == width && s.height == height && s.view == mat_of(
                view@,
            ) && s.projection == mat_of(projection@) && s.world == mat_of(world@)
                && s.camera_forward == (Vec3 {
                x: camera_forward@[0],
                y: camera_forward@[1],
                z: camera_forward@[2],
            }),
            r matches Err(e) ==> e == spec_scene_err(
                width,
                height,
                view@,
                projection@,
                world@,
                camera_forward@,
            ),
    {
        if !(0 < width && width <= 8192 && 0 < height && height <= 8192) {
            return Err(InputError::BadCanvas);
        }
        if view.len() != 16 || projection.len() != 16 || world.len() != 16 {
            return Err(InputError::MatrixNotSixteen);
        }
        if camera_forward.len() != 3 {
            return Err(InputError::CoordsNotTriples);
        }
        if !(crate::mesh::check_coords(&view) && crate::mesh::check_coords(&projection)
            && crate::mesh::check_coords(&world) && crate::mesh::check_coords(&camera_forward)) {
            return Err(InputError::ValueOutOfRange);
        }
        let vm = mat_from(&view);
        let pm = mat_from(&projection);
        let wm = mat_from(&world);
        proof {
            assert(vm.wf()) by {
                assert(forall|i: int| 0 <= i < 16 ==> in_m(#[trigger] vm.m[i] as int));
            }
            assert(pm.wf()) by {
                assert(forall|i: int| 0 <= i < 16 ==> in_m(#[trigger] pm.m[i] as int));
            }
            assert(wm.wf()) by {
                assert(forall|i: int| 0 <= i < 16 ==> in_m(#[trigger] wm.m[i] as int));
            }
        }
        let cx = camera_row(&vm, 0);
        let cy = camera_row(&vm, 1);
        let cz = camera_row(&vm, 2);
        if !(-VLIM <= cx && cx <= VLIM && -VLIM <= cy && cy <= VLIM && -VLIM <= cz && cz <= VLIM) {
            return Err(InputError::CameraOutOfRange);
        }
        Ok(
            Scene {
                width,
                height,
                view: vm,
                projection: pm,
                world: wm,
                camera_forward: Vec3 {
                    x: camera_forward[0],
                    y: camera_forward[1],
                    z: camera_forward[2],
                },
                camera_pos: Vec3 { x: cx, y: cy, z: cz },
            },
        )
    }

    /// The world-space position of a mesh-space point, exactly as
    /// [`Scene::spec_world_pt`] states it.
    pub fn world_pt(&self, v: Vec3) -> (r: Option<Vec3>)
        requires
            self.wf(),
            vec3_in_m(v),
        ensures
            r == self.spec_world_pt(v),
            r matches Some(p) ==> vec3_in_v(p),
    {
        match self.world.apply(Vec4 { x: v.x, y: v.y, z: v.z, w: ONE }) {
            Some(q) => Some(Vec3 { x: q.x, y: q.y, z: q.z }),
            None => None,
        }
    }

    /// The clip-space position of a mesh-space point, exactly as
    /// [`Scene::spec_clip_pt`] states it.
    fn clip_pt(&self, v: Vec3) -> (r: Option<Vec4>)
        requires
            self.wf(),
            vec3_in_m(v),
        ensures
            r == self.spec_clip_pt(v),
            r matches Some(p) ==> vec4_in_v(p),
    {
        match self.world.apply(Vec4 { x: v.x, y: v.y, z: v.z, w: ONE }) {
            Some(p1) => match self.view.apply(p1) {
                Some(p2) => self.projection.apply(p2),
                None => None,
            },
            None => None,
        }
    }

    /// Projects one edge, exactly as [`spec_project_edge`] states it; every
    /// emitted segment is well formed.
    pub fn project_line(&self, e: Edge3D) -> (r: ProjectedLine)
        requires
            self.wf(),
            edge_in_m(e),
        ensures
            r.edge == e,
            r.segments@ == spec_project_edge(*self, e),
            forall|i: int| 0 <= i < r.segments@.len() ==> seg_wf(#[trigger] r.segments@[i]),
    {
        let segments = self.project_segments(e);
        ProjectedLine { edge: e, segments }
    }

    /// The segment list of one projected edge.
    fn project_segments(&self, e: Edge3D) -> (r: Vec<Segment2>)
        requires
            self.wf(),
            edge_in_m(e),
        ensures
            r@ == spec_project_edge(*self, e),
            forall|i: int| 0 <= i < r@.len() ==> seg_wf(#[trigger] r@[i]),
    {
        let empty: Vec<Segment2> = Vec::new();
        let ca_opt = self.clip_pt(e.a);
        let cb_opt = self.clip_pt(e.b);
        let (ca, cb) = match (ca_opt, cb_opt) {
            (Some(ca), Some(cb)) => (ca, cb),
            _ => {
                return empty;
            },
        };
        if ca.w < W_NEAR && cb.w < W_NEAR {
            return empty;
        }
        let ta: i64 = if ca.w >= W_NEAR {
            0
        } else {
            proof {
                lemma_mul_bound(W_NEAR - ca.w, TONE as int, 2 * VLIM, TONE as int);
                lemma_div_tz_ratio((W_NEAR - ca.w) * TONE, (cb.w - ca.w) as int, TONE as int);
            }
            div64((W_NEAR - ca.w) * TONE, cb.w - ca.w)
        };
        let tb: i64 = if cb.w >= W_NEAR {
            TONE
        } else {
            proof {
                lemma_mul_bound(ca.w - W_NEAR, TONE as int, 2 * VLIM, TONE as int);
                lemma_div_tz_ratio((ca.w - W_NEAR) * TONE, (ca.w - cb.w) as int, TONE as int);
            }
            div64((ca.w - W_NEAR) * TONE, ca.w - cb.w)
        };
        let ax = lerp_fx(ca.x, cb.x, ta);
        let ay = lerp_fx(ca.y, cb.y, ta);
        let az = lerp_fx(ca.z, cb.z, ta);
        let aw = lerp_fx(ca.w, cb.w, ta);
        let bx = lerp_fx(ca.x, cb.x, tb);
        let by = lerp_fx(ca.y, cb.y, tb);
        let bz = lerp_fx(ca.z, cb.z, tb);
        let bw = lerp_fx(ca.w, cb.w, tb);
        if aw < W_HALF || bw < W_HALF {
            return empty;
        }
        proof {
            crate::geom::lemma_lerp_bound(ca.x as int, cb.x as int, ta as int, VLIM as int);
            crate::geom::lemma_lerp_bound(ca.y as int, cb.y as int, ta as int, VLIM as int);
            crate::geom::lemma_lerp_bound(ca.x as int, cb.x as int, tb as int, VLIM as int);
            crate::geom::lemma_lerp_bound(ca.y as int, cb.y as int, tb as int, VLIM as int);
            lemma_mul_bound(ax as int, ONE as int, 3 * VLIM, ONE as int);
            lemma_mul_bound(ay as int, ONE as int, 3 * VLIM, ONE as int);
            lemma_mul_bound(bx as int, ONE as int, 3 * VLIM, ONE as int);
            lemma_mul_bound(by as int, ONE as int, 3 * VLIM, ONE as int);
        }
        let nax = div64(ax * ONE, aw);
        let nay = div64(ay * ONE, aw);
        let nbx = div64(bx * ONE, bw);
        let nby = div64(by * ONE, bw);
        if -NDC_LIM <= nax && nax <= NDC_LIM && -NDC_LIM <= nay && nay <= NDC_LIM && -NDC_LIM <= nbx
            && nbx <= NDC_LIM && -NDC_LIM <= nby && nby <= NDC_LIM {
            proof {
                lemma_mul_bound(nax + ONE, self.width as int, NDC_LIM + ONE, 8192);
                lemma_mul_bound(ONE - nay, self.height as int, NDC_LIM + ONE, 8192);
                lemma_mul_bound(nbx + ONE, self.width as int, NDC_LIM + ONE, 8192);
                lemma_mul_bound(ONE - nby, self.height as int, NDC_LIM + ONE, 8192);
                lemma_div_tz_bound((nax + ONE) * self.width, 2, (NDC_LIM + ONE) * 8192);
                lemma_div_tz_bound((ONE - nay) * self.height, 2, (NDC_LIM + ONE) * 8192);
                lemma_div_tz_bound((nbx + ONE) * self.width, 2, (NDC_LIM + ONE) * 8192);
                lemma_div_tz_bound((ONE - nby) * self.height, 2, (NDC_LIM + ONE) * 8192);
            }
            let sx0 = div64((nax + ONE) * self.width, 2);
            let sy0 = div64((ONE - nay) * self.height, 2);
            let sx1 = div64((nbx + ONE) * self.width, 2);
            let sy1 = div64((ONE - nby) * self.height, 2);
            if sx0 == sx1 && sy0 == sy1 {
                return empty;
            }
            let seg = Segment2 { x0: sx0, y0: sy0, x1: sx1, y1: sy1, t0: ta, t1: tb };
            let mut r: Vec<Segment2> = Vec::new();
            r.push(seg);
            proof {
                assert(r@ =~= spec_project_edge(*self, e));
            }
            r
        } else {
            empty
        }
    }

    /// Projects every edge, in order, exactly as [`spec_project_edge`]
    /// states it for each.
    pub fn project_lines(&self, edges: &Vec<Edge3D>) -> (r: Vec<ProjectedLine>)
        requires
            self.wf(),
            forall|i: int| 0 <= i < edges@.len() ==> edge_in_m(#[trigger] edges@[i]),
        ensures
            r@.len() == edges@.len(),
            forall|i: int|
                0 <= i < edges@.len() ==> (#[trigger] r@[i]).edge == edges@[i] && r@[i].segments@
                    == spec_project_edge(*self, edges@[i]),
            forall|i: int, j: int|
                0 <= i < r@.len() && 0 <= j < (#[trigger] r@[i]).segments@.len() ==> seg_wf(
                    #[trigger] r@[i].segments@[j],
                ),
    {
        let mut r: Vec<ProjectedLine> = Vec::new();
        let mut i: usize = 0;
        while i < edges.len()
            invariant
                self.wf(),
                i <= edges@.len(),
                r@.len() == i,
                forall|k: int| 0 <= k < edges@.len() ==> edge_in_m(#[trigger] edges@[k]),
                forall|k: int|
                    0 <= k < i ==> (#[trigger] r@[k]).edge == edges@[k] && r@[k].segments@
                        == spec_project_edge(*self, edges@[k]),
                forall|k: int, j: int|
                    0 <= k < i && 0 <= j < (#[trigger] r@[k]).segments@.len() ==> seg_wf(
                        #[trigger] r@[k].segments@[j],
                    ),
            decreases edges@.len() - i,
        {
            r.push(self.project_line(edges[i]));
            i += 1;
        }
        r
    }
}

} // verus!
