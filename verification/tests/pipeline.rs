use hidden_line::arrange::{split_lines_by_intersection, SubSegment};
use hidden_line::mesh::{InputError, Mesh, Wireframe};
use hidden_line::num::{MLIM, ONE, TONE};
use hidden_line::ray::{get_visibility, LineSegmentCulled, LineVisibility, Ray};
use hidden_line::scene::{Scene, Segment2};
use hidden_line::svg::{compose_lines, SvgConfig, SvgLine, SvgLineConfig};
use hidden_line::{mesh_to_svg_lines, screen_space_lines_to_fitted_svg};

fn identity16() -> Vec<i64> {
    vec![ONE, 0, 0, 0, 0, ONE, 0, 0, 0, 0, ONE, 0, 0, 0, 0, ONE]
}

/// A unit square made of two triangles at depth `z`, spanning
/// `[-ONE, ONE]` in x and y.
fn square_mesh(z: i64) -> (Vec<usize>, Vec<i64>, Vec<i64>) {
    let indices = vec![0, 1, 2, 0, 2, 3];
    let vertices = vec![
        -ONE, -ONE, z, //
        ONE, -ONE, z, //
        ONE, ONE, z, //
        -ONE, ONE, z,
    ];
    let normals = vec![0; 12];
    (indices, vertices, normals)
}

fn scene_800x600() -> Scene {
    Scene::new(800, 600, identity16(), identity16(), identity16(), vec![0, 0, ONE]).unwrap()
}

#[test]
fn boundary_edges_always_emitted() {
    let (indices, vertices, normals) = square_mesh(2 * ONE);
    let mesh = Mesh::new(indices, vertices, normals).unwrap();
    let scene = scene_800x600();
    let edges = mesh.find_edge_lines(&scene);
    let mut keys: Vec<(usize, usize)> = edges.iter().map(|e| (e.ia, e.ib)).collect();
    keys.sort();
    assert_eq!(keys, vec![(0, 1), (0, 3), (1, 2), (2, 3)]);
}

#[test]
fn coplanar_diagonal_suppressed() {
    let (indices, vertices, normals) = square_mesh(2 * ONE);
    let mesh = Mesh::new(indices, vertices, normals).unwrap();
    let scene = scene_800x600();
    let edges = mesh.find_edge_lines(&scene);
    assert!(edges.iter().all(|e| !(e.ia == 0 && e.ib == 2)));
}

#[test]
fn occlusion_behind_square_then_visible_without_it() {
    let (indices, vertices, normals) = square_mesh(2 * ONE);
    let mesh = Mesh::new(indices, vertices, normals).unwrap();
    let scene = scene_800x600();
    // a wireframe edge fully behind the square, seen from the origin
    let wire = Wireframe::new(
        vec![0, 1],
        vec![-ONE / 2, 0, 4 * ONE, ONE / 2, 0, 4 * ONE],
    )
    .unwrap();
    let wire_edges = wire.edges();
    assert_eq!(wire_edges.len(), 1);
    let lines = scene.project_lines(&wire_edges);
    assert_eq!(lines[0].segments.len(), 1);
    let seg = lines[0].segments[0];
    let ray = Ray::new(&mesh, &scene);
    let vis = get_visibility(&seg, &wire_edges[0], &scene, &ray);
    assert_eq!(vis, LineVisibility::Obscured);

    // the same edge with the occluding mesh removed
    let empty = Mesh::new(vec![], vec![], vec![]).unwrap();
    let ray2 = Ray::new(&empty, &scene);
    let vis2 = get_visibility(&seg, &wire_edges[0], &scene, &ray2);
    assert_eq!(vis2, LineVisibility::Visible);
}

#[test]
fn determinism_byte_identical_output() {
    let run = || {
        let (indices, vertices, normals) = square_mesh(2 * ONE);
        mesh_to_svg_lines(
            800,
            600,
            indices,
            vertices,
            normals,
            vec![0, 1],
            vec![-ONE / 2, 0, 4 * ONE, ONE / 2, 0, 4 * ONE],
            identity16(),
            identity16(),
            identity16(),
            vec![0, 0, ONE],
        )
        .unwrap()
    };
    let a = run();
    let b = run();
    assert_eq!(a, b);
}

#[test]
fn full_pipeline_document_shape() {
    let (indices, vertices, normals) = square_mesh(2 * ONE);
    let doc = mesh_to_svg_lines(
        800,
        600,
        indices,
        vertices,
        normals,
        vec![0, 1],
        vec![-ONE / 2, 0, 4 * ONE, ONE / 2, 0, 4 * ONE],
        identity16(),
        identity16(),
        identity16(),
        vec![0, 0, ONE],
    )
    .unwrap();
    assert!(doc.starts_with(
        "<svg xmlns=\"http://www.w3.org/2000/svg\" width=\"800\" height=\"600\" viewBox=\"0 0 800 600\">"
    ));
    assert!(doc.ends_with("</svg>"));
    // the obscured wireframe edge is drawn grey, underneath black strokes
    assert!(doc.contains("stroke=\"grey\""));
    assert!(doc.contains("stroke=\"black\""));
    let grey = doc.find("stroke=\"grey\"").unwrap();
    let black = doc.find("stroke=\"black\"").unwrap();
    assert!(grey < black);
}

fn vis_seg(x0: i64, y0: i64, x1: i64, y1: i64) -> LineSegmentCulled {
    LineSegmentCulled {
        visibility: LineVisibility::Visible,
        line_segment: Segment2 { x0, y0, x1, y1, t0: 0, t1: TONE },
    }
}

fn obs_seg(x0: i64, y0: i64, x1: i64, y1: i64) -> LineSegmentCulled {
    LineSegmentCulled {
        visibility: LineVisibility::Obscured,
        line_segment: Segment2 { x0, y0, x1, y1, t0: 0, t1: TONE },
    }
}

fn cfg(fit: bool, obscured: bool) -> SvgConfig {
    SvgConfig {
        width: 800,
        height: 600,
        margin: 100,
        visible: SvgLineConfig { stroke_width: 4, stroke: "black".to_string() },
        obscured: if obscured {
            Some(SvgLineConfig { stroke_width: 2, stroke: "grey".to_string() })
        } else {
            None
        },
        fit_lines: fit,
    }
}

#[test]
fn fitting_inscribes_touches_and_keeps_aspect() {
    // source bounding box 400 x 300 pixels, aspect 4:3
    let segs = vec![vis_seg(0, 0, 400 * ONE, 300 * ONE)];
    let out: Vec<SvgLine> = compose_lines(&segs, &cfg(true, true));
    assert_eq!(out.len(), 1);
    let minx = out[0].x0.min(out[0].x1);
    let maxx = out[0].x0.max(out[0].x1);
    let miny = out[0].y0.min(out[0].y1);
    let maxy = out[0].y0.max(out[0].y1);
    // inside [100, 700] x [100, 500]
    assert!(minx >= 100 * ONE && maxx <= 700 * ONE);
    assert!(miny >= 100 * ONE && maxy <= 500 * ONE);
    // touches the vertical bounds (the tighter axis), within a hundredth
    // of a pixel
    assert!((miny - 100 * ONE).abs() <= ONE / 100);
    assert!((maxy - 500 * ONE).abs() <= ONE / 100);
    // aspect ratio 4:3 preserved
    let w = maxx - minx;
    let h = maxy - miny;
    assert!((w * 3 - h * 4).abs() <= 4 * ONE);
}

#[test]
fn style_omission_drops_obscured() {
    let segs = vec![
        obs_seg(0, 0, 100 * ONE, 100 * ONE),
        vis_seg(0, 0, 200 * ONE, 50 * ONE),
    ];
    let out = compose_lines(&segs, &cfg(false, false));
    assert_eq!(out.len(), 1);
    assert_eq!(out[0].visibility, LineVisibility::Visible);
    let doc = screen_space_lines_to_fitted_svg(&segs, &cfg(false, false));
    assert!(!doc.contains("grey"));
    assert_eq!(doc.matches("<line").count(), 1);
}

#[test]
fn obscured_drawn_first_when_styled() {
    let segs = vec![
        vis_seg(0, 0, 200 * ONE, 50 * ONE),
        obs_seg(0, 0, 100 * ONE, 100 * ONE),
    ];
    let out = compose_lines(&segs, &cfg(false, true));
    assert_eq!(out.len(), 2);
    assert_eq!(out[0].visibility, LineVisibility::Obscured);
    assert_eq!(out[1].visibility, LineVisibility::Visible);
}

#[test]
fn exact_svg_text_without_fitting() {
    let segs = vec![vis_seg(100 * ONE, 200 * ONE, 300 * ONE, -ONE / 2)];
    let mut c = cfg(false, true);
    c.margin = 0;
    let doc = screen_space_lines_to_fitted_svg(&segs, &c);
    assert_eq!(
        doc,
        "<svg xmlns=\"http://www.w3.org/2000/svg\" width=\"800\" height=\"600\" viewBox=\"0 0 800 600\">\
         <line x1=\"100.00\" y1=\"200.00\" x2=\"300.00\" y2=\"-0.50\" stroke=\"black\" stroke-width=\"4\" />\
         </svg>"
    );
}

#[test]
fn unsplit_segment_survives_splitting_unchanged() {
    let wire = Wireframe::new(vec![0, 1], vec![-ONE, 0, 4 * ONE, ONE, 0, 4 * ONE]).unwrap();
    let scene = scene_800x600();
    let lines = scene.project_lines(&wire.edges());
    let seg = lines[0].segments[0];
    let subs: Vec<SubSegment> = split_lines_by_intersection(&lines);
    assert_eq!(subs.len(), 1);
    assert_eq!(subs[0].seg, seg);
    assert_eq!(subs[0].line, 0);
}

/// Exact i128 check that two screen segments do not cross properly.
fn properly_cross(p: &Segment2, q: &Segment2) -> bool {
    let orient = |ax: i64, ay: i64, bx: i64, by: i64, cx: i64, cy: i64| -> i128 {
        (bx as i128 - ax as i128) * (cy as i128 - ay as i128)
            - (by as i128 - ay as i128) * (cx as i128 - ax as i128)
    };
    let d1 = orient(q.x0, q.y0, q.x1, q.y1, p.x0, p.y0);
    let d2 = orient(q.x0, q.y0, q.x1, q.y1, p.x1, p.y1);
    let d3 = orient(p.x0, p.y0, p.x1, p.y1, q.x0, q.y0);
    let d4 = orient(p.x0, p.y0, p.x1, p.y1, q.x1, q.y1);
    ((d1 > 0 && d2 < 0) || (d1 < 0 && d2 > 0)) && ((d3 > 0 && d4 < 0) || (d3 < 0 && d4 > 0))
}

#[test]
fn arrangement_splits_crossing_segments() {
    // two wireframe edges whose projections cross near the canvas center
    let wire = Wireframe::new(
        vec![0, 1, 2, 3],
        vec![
            -ONE, -ONE / 2, 4 * ONE, //
            ONE, ONE / 2, 4 * ONE, //
            -ONE, ONE / 2, 4 * ONE, //
            ONE, -ONE / 2, 4 * ONE,
        ],
    )
    .unwrap();
    let scene = scene_800x600();
    let lines = scene.project_lines(&wire.edges());
    assert_eq!(lines.len(), 2);
    let subs = split_lines_by_intersection(&lines);
    // each segment is split at the shared crossing
    assert_eq!(subs.len(), 4);
    // no two sub-segments cross properly
    for i in 0..subs.len() {
        for j in (i + 1)..subs.len() {
            assert!(!properly_cross(&subs[i].seg, &subs[j].seg));
        }
    }
    // the chain of each parent is connected
    assert_eq!(subs[0].seg.x1, subs[1].seg.x0);
    assert_eq!(subs[0].seg.y1, subs[1].seg.y0);
    assert_eq!(subs[2].seg.x1, subs[3].seg.x0);
    assert_eq!(subs[2].seg.y1, subs[3].seg.y0);
}

#[test]
fn error_indices_not_whole() {
    assert_eq!(
        Mesh::new(vec![0, 1], vec![0, 0, 0], vec![0, 0, 0]).err(),
        Some(InputError::IndicesNotWhole)
    );
}

#[test]
fn error_coords_not_triples() {
    assert_eq!(
        Mesh::new(vec![], vec![0, 0], vec![0, 0]).err(),
        Some(InputError::CoordsNotTriples)
    );
}

#[test]
fn error_normals_mismatch() {
    assert_eq!(
        Mesh::new(vec![], vec![0, 0, 0], vec![]).err(),
        Some(InputError::NormalsMismatch)
    );
}

#[test]
fn error_index_out_of_bounds() {
    assert_eq!(
        Mesh::new(vec![0, 1, 2], vec![0, 0, 0], vec![0, 0, 0]).err(),
        Some(InputError::IndexOutOfBounds)
    );
}

#[test]
fn error_value_out_of_range() {
    assert_eq!(
        Mesh::new(vec![0, 0, 0], vec![0, 0, MLIM + 1], vec![0, 0, 0]).err(),
        Some(InputError::ValueOutOfRange)
    );
}

#[test]
fn error_bad_canvas() {
    let r = Scene::new(0, 600, identity16(), identity16(), identity16(), vec![0, 0, ONE]);
    assert_eq!(r.err(), Some(InputError::BadCanvas));
}

#[test]
fn error_matrix_not_sixteen() {
    let r = Scene::new(800, 600, vec![ONE; 15], identity16(), identity16(), vec![0, 0, ONE]);
    assert_eq!(r.err(), Some(InputError::MatrixNotSixteen));
}

#[test]
fn error_camera_out_of_range() {
    let mut view = vec![0; 16];
    view[0] = MLIM;
    view[3] = MLIM;
    view[5] = ONE;
    view[10] = ONE;
    view[15] = ONE;
    let r = Scene::new(800, 600, view, identity16(), identity16(), vec![0, 0, ONE]);
    assert_eq!(r.err(), Some(InputError::CameraOutOfRange));
}

#[test]
fn error_wireframe_pairs() {
    assert_eq!(
        Wireframe::new(vec![0], vec![0, 0, 0]).err(),
        Some(InputError::IndicesNotWhole)
    );
}

#[test]
fn edge_behind_camera_is_dropped() {
    // clip w comes from the projection's last row; with a perspective-like
    // last row the edge behind the camera has nonpositive w
    let mut proj = identity16();
    proj[12] = 0;
    proj[13] = 0;
    proj[14] = ONE;
    proj[15] = 0;
    let scene = Scene::new(800, 600, identity16(), proj, identity16(), vec![0, 0, ONE]).unwrap();
    let wire = Wireframe::new(vec![0, 1], vec![-ONE, 0, -4 * ONE, ONE, 0, -4 * ONE]).unwrap();
    let lines = scene.project_lines(&wire.edges());
    assert_eq!(lines[0].segments.len(), 0);
}

#[test]
fn silhouette_edge_emitted_when_facing_disagrees() {
    // a "tent": two triangles share the edge (0, 1); seen from the origin
    // one faces the camera and one faces away
    let indices = vec![0, 1, 2, 0, 1, 3];
    let vertices = vec![
        0, -ONE, 2 * ONE, //
        0, ONE, 2 * ONE, //
        -ONE, 0, 3 * ONE, //
        ONE, 0, 3 * ONE,
    ];
    let normals = vec![0; 12];
    let mesh = Mesh::new(indices, vertices, normals).unwrap();
    let scene = scene_800x600();
    let edges = mesh.find_edge_lines(&scene);
    assert!(edges.iter().any(|e| e.ia == 0 && e.ib == 1));
}

#[test]
fn non_manifold_edge_suppressed_without_error() {
    // the edge (0, 1) is shared by three triangles: a non-manifold fan
    let indices = vec![0, 1, 2, 0, 1, 3, 0, 1, 4];
    let vertices = vec![
        0, -ONE, 2 * ONE, //
        0, ONE, 2 * ONE, //
        -ONE, 0, 3 * ONE, //
        ONE, 0, 3 * ONE, //
        ONE, ONE, 3 * ONE,
    ];
    let normals = vec![0; 15];
    let mesh = Mesh::new(indices, vertices, normals).unwrap();
    let scene = scene_800x600();
    let edges = mesh.find_edge_lines(&scene);
    assert!(edges.iter().all(|e| !(e.ia == 0 && e.ib == 1)));
}

#[test]
fn accepts_boundary_sized_input() {
    // the largest supported canvas and a coordinate at the supported bound
    let mesh = Mesh::new(vec![0, 1, 2], vec![MLIM, 0, 0, 0, MLIM, 0, 0, 0, MLIM], vec![0; 9]);
    assert!(mesh.is_ok());
    let scene = Scene::new(
        8192,
        8192,
        identity16(),
        identity16(),
        identity16(),
        vec![0, 0, ONE],
    );
    assert!(scene.is_ok());
    let too_big = Scene::new(8193, 600, identity16(), identity16(), identity16(), vec![0, 0, ONE]);
    assert_eq!(too_big.err(), Some(InputError::BadCanvas));
}
