//! Hidden-line removal for triangle meshes.
//!
//! The pipeline turns a triangle mesh (optionally together with an
//! author-supplied wireframe) into a vector line drawing: feature edges are
//! extracted from the mesh, projected to screen space, split at mutual
//! intersections, classified as visible or obscured by ray casting against
//! the mesh, and finally fitted and emitted as an SVG document.
//!
//! All geometry is carried in fixed-point integers (see [`num::ONE`]), so
//! every stage is a pure, deterministic function of its inputs.

use vstd::prelude::*;
use vstd::string::StringExecFns;

pub mod arrange;
pub mod extract;
pub mod geom;
pub mod mesh;
pub mod num;
pub mod ray;
pub mod render;
pub mod scene;
pub mod svg;

use crate::arrange::{SubSegment, spec_split, lines_view, split_lines_by_intersection};
use crate::extract::{spec_feature_edges, spec_edge_at, occ, spec_should_emit, is_first_occ};
use crate::mesh::{Mesh, Wireframe, Edge3D, InputError, mesh_input_ok, wire_input_ok, spec_points,
    spec_tris, spec_pairs, spec_wire_edges};
use crate::ray::{Ray, LineSegmentCulled, spec_classify, spec_ray_tris, get_visibility};
use crate::render::{StyleView, spec_svg_doc, render_svg, cfg_view};
use crate::scene::{Scene, spec_project_edge, scene_input_ok, spec_scene_err, mat_of, edge_in_m,
    seg_wf};
use crate::svg::{SvgConfig, SvgLineConfig, spec_svg_lines, compose_lines};
use crate::geom::Vec3;

verus! {

/// The mesh value built from these buffers.
pub open spec fn mesh_matches(
    m: Mesh,
    indices: Seq<usize>,
    vertices: Seq<i64>,
    normals: Seq<i64>,
) -> bool {
    &&& m.wf()
    &&& m.vertices@ == spec_points(vertices)
    &&& m.normals@ == spec_points(normals)
    &&& m.triangles@ == spec_tris(indices)
}

/// The wireframe value built from these buffers.
pub open spec fn wire_matches(w: Wireframe, indices: Seq<usize>, vertices: Seq<i64>) -> bool {
    &&& w.wf()
    &&& w.vertices@ == spec_points(vertices)
    &&& w.segments@ == spec_pairs(indices)
}

/// The scene value built from these buffers.
pub open spec fn scene_matches(
    s: Scene,
    width: i64,
    height: i64,
    view: Seq<i64>,
    projection: Seq<i64>,
    world: Seq<i64>,
    forward: Seq<i64>,
) -> bool {
    &&& s.wf()
    &&& s.width == width
    &&& s.height == height
    &&& s.view == mat_of(view)
    &&& s.projection == mat_of(projection)
    &&& s.world == mat_of(world)
    &&& s.camera_forward.x == forward[0] && s.camera_forward.y == forward[1]
        && s.camera_forward.z == forward[2]
}

/// The fixed document style of the single entry point: margin 100, visible
/// strokes black and four wide, obscured strokes grey and two wide,
/// fit-to-canvas on.
pub open spec fn spec_default_style(width: int, height: int) -> StyleView {
    StyleView {
        width: width,
        height: height,
        vis_sw: 4,
        vis_stroke: "black"@,
        has_obscured: true,
        obs_sw: 2,
        obs_stroke: "grey"@,
    }
}

/// The classified sub-segments of the arrangement, each linked back to its
/// originating edge. A zero-length sub-segment is skipped rather than
/// classified.
pub open spec fn spec_culled(
    tris: Seq<(Vec3, Vec3, Vec3, usize)>,
    campos: Vec3,
    s: Scene,
    edges: Seq<Edge3D>,
    subs: Seq<SubSegment>,
    upto: int,
) -> Seq<LineSegmentCulled>
    decreases upto,
{
    if upto <= 0 {
        Seq::empty()
    } else {
        let prev = spec_culled(tris, campos, s, edges, subs, upto - 1);
        let sub = subs[upto - 1];
        if sub.seg.x0 == sub.seg.x1 && sub.seg.y0 == sub.seg.y1 {
            prev
        } else {
            prev.push(
                LineSegmentCulled {
                    visibility: spec_classify(tris, campos, s, edges[sub.line as int], sub.seg),
                    line_segment: sub.seg,
                },
            )
        }
    }
}

/// The whole pipeline, as one function of the structured inputs: feature
/// and wireframe edges, projection, arrangement, classification, and the
/// composed, fitted document text under the default style.
pub open spec fn spec_pipeline(m: Mesh, w: Wireframe, s: Scene) -> Seq<char> {
    let edges = spec_feature_edges(m, s, 3 * (m.triangles@.len() as int)) + spec_wire_edges(w);
    let segss = Seq::new(edges.len(), |i: int| spec_project_edge(s, edges[i]));
    let subs = spec_split(segss);
    let tris = spec_ray_tris(m, s, m.triangles@.len() as int);
    let culled = spec_culled(tris, s.camera_pos, s, edges, subs, subs.len() as int);
    let lines = spec_svg_lines(culled, true, true, s.width as int, s.height as int, 100);
    spec_svg_doc(lines, spec_default_style(s.width as int, s.height as int))
}

/// Feature edges depend only on the mesh's mathematical content.
pub proof fn lemma_feature_edges_cong(m1: Mesh, m2: Mesh, s: Scene, upto: int)
    requires
        m1.vertices@ == m2.vertices@,
        m1.triangles@ == m2.triangles@,
    ensures
        spec_feature_edges(m1, s, upto) == spec_feature_edges(m2, s, upto),
    decreases upto,
{
    if upto > 0 {
        lemma_feature_edges_cong(m1, m2, s, upto - 1);
    }
}

/// The ray caster's triangle list depends only on the mesh's mathematical
/// content.
pub proof fn lemma_ray_tris_cong(m1: Mesh, m2: Mesh, s: Scene, upto: int)
    requires
        m1.vertices@ == m2.vertices@,
        m1.triangles@ == m2.triangles@,
    ensures
        spec_ray_tris(m1, s, upto) == spec_ray_tris(m2, s, upto),
    decreases upto,
{
    if upto > 0 {
        lemma_ray_tris_cong(m1, m2, s, upto - 1);
    }
}

/// Determinism: the output text is a function of the mathematical content
/// of the inputs alone. Two runs on mesh, wireframe, and scene values with
/// the same content produce byte-identical documents.
pub proof fn lemma_pipeline_deterministic(
    m1: Mesh,
    w1: Wireframe,
    s1: Scene,
    m2: Mesh,
    w2: Wireframe,
    s2: Scene,
)
    requires
        m1.vertices@ == m2.vertices@,
        m1.normals@ == m2.normals@,
        m1.triangles@ == m2.triangles@,
        w1.vertices@ == w2.vertices@,
        w1.segments@ == w2.segments@,
        s1 == s2,
    ensures
        spec_pipeline(m1, w1, s1) == spec_pipeline(m2, w2, s2),
{
    lemma_feature_edges_cong(m1, m2, s1, 3 * (m1.triangles@.len() as int));
    lemma_ray_tris_cong(m1, m2, s1, m1.triangles@.len() as int);
    assert(spec_wire_edges(w1) =~= spec_wire_edges(w2));
    let edges1 = spec_feature_edges(m1, s1, 3 * (m1.triangles@.len() as int)) + spec_wire_edges(w1);
    let edges2 = spec_feature_edges(m2, s2, 3 * (m2.triangles@.len() as int)) + spec_wire_edges(w2);
    assert(edges1 == edges2);
    assert(Seq::new(edges1.len(), |i: int| spec_project_edge(s1, edges1[i])) =~= Seq::new(
        edges2.len(),
        |i: int| spec_project_edge(s2, edges2[i]),
    ));
}

/// Every feature edge's endpoints are mesh vertices, so they are within the
/// caller-supplied range.
pub proof fn lemma_feature_edges_in_m(m: Mesh, s: Scene, upto: int)
    requires
        m.wf(),
        0 <= upto <= 3 * (m.triangles@.len() as int),
    ensures
        forall|i: int|
            0 <= i < spec_feature_edges(m, s, upto).len() ==> edge_in_m(
                #[trigger] spec_feature_edges(m, s, upto)[i],
            ),
    decreases upto,
{
    if upto > 0 {
        lemma_feature_edges_in_m(m, s, upto - 1);
        let prev = spec_feature_edges(m, s, upto - 1);
        let cur = spec_feature_edges(m, s, upto);
        if is_first_occ(m.triangles@, upto - 1) && spec_should_emit(m, s, upto - 1) {
            let e = occ(m.triangles@, upto - 1);
            assert(e.0 < m.vertices@.len() && e.1 < m.vertices@.len());
            assert(edge_in_m(spec_edge_at(m, upto - 1)));
            assert(cur == prev.push(spec_edge_at(m, upto - 1)));
            assert forall|i: int| 0 <= i < cur.len() implies edge_in_m(#[trigger] cur[i]) by {
                if i < prev.len() {
                    assert(cur[i] == prev[i]);
                } else {
                    assert(cur[i] == spec_edge_at(m, upto - 1));
                }
            }
        } else {
            assert(cur == prev);
        }
    }
}

/// The classification of every sub-segment of the arrangement, exactly as
/// [`spec_culled`] states it.
fn classify_subs(subs: &Vec<SubSegment>, edges: &Vec<Edge3D>, scene: &Scene, ray: &Ray) -> (r: Vec<
    LineSegmentCulled,
>)
    requires
        scene.wf(),
        ray.wf(),
        forall|i: int|
            0 <= i < subs@.len() ==> seg_wf((#[trigger] subs@[i]).seg) && subs@[i].line
                < edges@.len(),
        forall|i: int| 0 <= i < edges@.len() ==> edge_in_m(#[trigger] edges@[i]),
    ensures
        r@ == spec_culled(
            ray.triangles@,
            ray.camera_pos,
            *scene,
            edges@,
            subs@,
            subs@.len() as int,
        ),
        forall|i: int| 0 <= i < r@.len() ==> seg_wf((#[trigger] r@[i]).line_segment),
{
    let mut r: Vec<LineSegmentCulled> = Vec::new();
    let mut i: usize = 0;
    while i < subs.len()
        invariant
            scene.wf(),
            ray.wf(),
            i <= subs@.len(),
            forall|k: int|
                0 <= k < subs@.len() ==> seg_wf((#[trigger] subs@[k]).seg) && subs@[k].line
                    < edges@.len(),
            forall|k: int| 0 <= k < edges@.len() ==> edge_in_m(#[trigger] edges@[k]),
            r@ == spec_culled(ray.triangles@, ray.camera_pos, *scene, edges@, subs@, i as int),
            forall|k: int| 0 <= k < r@.len() ==> seg_wf((#[trigger] r@[k]).line_segment),
        decreases subs@.len() - i,
    {
        let sub = subs[i];
        if !(sub.seg.x0 == sub.seg.x1 && sub.seg.y0 == sub.seg.y1) {
            let vis = get_visibility(&sub.seg, &edges[sub.line], scene, ray);
            r.push(LineSegmentCulled { visibility: vis, line_segment: sub.seg });
        }
        i += 1;
    }
    r
}

/// Composes and renders classified segments into the final document text.
pub fn screen_space_lines_to_fitted_svg(segments: &Vec<LineSegmentCulled>, config: &SvgConfig) -> (
    r: String)
    requires
        config.wf(),
        forall|i: int|
            0 <= i < segments@.len() ==> seg_wf((#[trigger] segments@[i]).line_segment),
    ensures
        r@ == spec_svg_doc(
            spec_svg_lines(
                segments@,
                config.fit_lines,
                config.obscured is Some,
                config.width as int,
                config.height as int,
                config.margin as int,
            ),
            cfg_view(*config),
        ),
{
    let lines = compose_lines(segments, config);
    render_svg(&lines, config)
}

/// The error of the whole run, decided by the first failing input check:
/// the mesh's, then the wireframe's, then the scene's.
pub open spec fn spec_top_err(
    canvas_width: i64,
    canvas_height: i64,
    mesh_indices: Seq<usize>,
    mesh_vertices: Seq<i64>,
    mesh_normals: Seq<i64>,
    wireframe_indices: Seq<usize>,
    wireframe_vertices: Seq<i64>,
    view_matrix: Seq<i64>,
    projection_matrix: Seq<i64>,
    mesh_world_matrix: Seq<i64>,
    camera_forward_vector: Seq<i64>,
) -> InputError {
    if !mesh_input_ok(mesh_indices, mesh_vertices, mesh_normals) {
        Mesh::spec_new_err(mesh_indices, mesh_vertices, mesh_normals)
    } else if !wire_input_ok(wireframe_indices, wireframe_vertices) {
        Wireframe::spec_new_err(wireframe_indices, wireframe_vertices)
    } else {
        spec_scene_err(
            canvas_width,
            canvas_height,
            view_matrix,
            projection_matrix,
            mesh_world_matrix,
            camera_forward_vector,
        )
    }
}

/// The single entry point: turns the caller's flat buffers into the
/// hidden-line-removed SVG document under the default style. Succeeds
/// exactly when all three input groups are well formed; the text is then
/// the pipeline's value on the structured inputs, so repeated calls on
/// identical buffers return byte-identical documents (see
/// [`lemma_pipeline_deterministic`]).
pub fn mesh_to_svg_lines(
    canvas_width: i64,
    canvas_height: i64,
    mesh_indices: Vec<usize>,
    mesh_vertices: Vec<i64>,
    mesh_normals: Vec<i64>,
    wireframe_indices: Vec<usize>,
    wireframe_vertices: Vec<i64>,
    view_matrix: Vec<i64>,
    projection_matrix: Vec<i64>,
    mesh_world_matrix: Vec<i64>,
    camera_forward_vector: Vec<i64>,
) -> (r: Result<String, InputError>)
    ensures
        r is Ok <==> mesh_input_ok(mesh_indices@, mesh_vertices@, mesh_normals@) && wire_input_ok(
            wireframe_indices@,
            wireframe_vertices@,
        ) && scene_input_ok(
            canvas_width,
            canvas_height,
            view_matrix@,
            projection_matrix@,
            mesh_world_matrix@,
            camera_forward_vector@,
        ),
        r matches Err(e) ==> e == spec_top_err(
            canvas_width,
            canvas_height,
            mesh_indices@,
            mesh_vertices@,
            mesh_normals@,
            wireframe_indices@,
            wireframe_vertices@,
            view_matrix@,
            projection_matrix@,
            mesh_world_matrix@,
            camera_forward_vector@,
        ),
        r matches Ok(doc) ==> exists|m: Mesh, w: Wireframe, s: Scene|
            mesh_matches(m, mesh_indices@, mesh_vertices@, mesh_normals@) && wire_matches(
                w,
                wireframe_indices@,
                wireframe_vertices@,
            ) && scene_matches(
                s,
                canvas_width,
                canvas_height,
                view_matrix@,
                projection_matrix@,
                mesh_world_matrix@,
                camera_forward_vector@,
            ) && doc@ == spec_pipeline(m, w, s),
{
    let mesh = match Mesh::new(mesh_indices, mesh_vertices, mesh_normals) {
        Ok(m) => m,
        Err(e) => {
            return Err(e);
        },
    };
    let wireframe = match Wireframe::new(wireframe_indices, wireframe_vertices) {
        Ok(w) => w,
        Err(e) => {
            return Err(e);
        },
    };
    let scene = match Scene::new(
        canvas_width,
        canvas_height,
        view_matrix,
        projection_matrix,
        mesh_world_matrix,
        camera_forward_vector,
    ) {
        Ok(s) => s,
        Err(e) => {
            return Err(e);
        },
    };
    let mut edges = mesh.find_edge_lines(&scene);
    let mut wire_edges = wireframe.edges();
    edges.append(&mut wire_edges);
    proof {
        lemma_feature_edges_in_m(mesh, scene, 3 * (mesh.triangles@.len() as int));
        assert(edges@ =~= spec_feature_edges(mesh, scene, 3 * (mesh.triangles@.len() as int))
            + spec_wire_edges(wireframe));
        assert forall|i: int| 0 <= i < edges@.len() implies edge_in_m(#[trigger] edges@[i]) by {
            let flen = spec_feature_edges(mesh, scene, 3 * (mesh.triangles@.len() as int)).len();
            if i >= flen {
                let j = i - flen;
                assert(edges@[i] == spec_wire_edges(wireframe)[j]);
                assert(wireframe.segments@[j].0 < wireframe.vertices@.len());
            }
        }
    }
    let lines = scene.project_lines(&edges);
    let subs = split_lines_by_intersection(&lines);
    let ray = Ray::new(&mesh, &scene);
    proof {
        assert(lines_view(lines@) =~= Seq::new(
            edges@.len(),
            |i: int| spec_project_edge(scene, edges@[i]),
        ));
    }
    let culled = classify_subs(&subs, &edges, &scene, &ray);
    let config = SvgConfig {
        width: canvas_width,
        height: canvas_height,
        margin: 100,
        visible: SvgLineConfig { stroke_width: 4, stroke: String::from_str("black") },
        obscured: Some(SvgLineConfig { stroke_width: 2, stroke: String::from_str("grey") }),
        fit_lines: true,
    };
    let doc = screen_space_lines_to_fitted_svg(&culled, &config);
    proof {
        assert(cfg_view(config) == spec_default_style(canvas_width as int, canvas_height as int));
        assert(doc@ == spec_pipeline(mesh, wireframe, scene));
    }
    Ok(doc)
}

} // verus!
