//! The drawing composer: grouping, fitting, and SVG emission.
//!
//! Classified segments are grouped by visibility: obscured strokes are
//! dropped entirely when no obscured style is configured, and otherwise
//! drawn first, underneath the visible ones. When fit-to-canvas is
//! requested, a single uniform scale and translation inscribes the bounding
//! box of the remaining segments into the margin-inset canvas interior,
//! centered, preserving the aspect ratio.

use vstd::prelude::*;
use crate::num::{div_tz, div64, div128, lemma_mul_bound, lemma_div_tz_bound, lemma_div_tz_ratio,
    ONE, SLIM, FIT_SCALE_MAX};
use crate::ray::{LineVisibility, LineSegmentCulled};
use crate::scene::seg_wf;

verus! {

/// The style of one stroke class.
pub struct SvgLineConfig {
    pub stroke_width: i64,
    pub stroke: String,
}

/// The document configuration: canvas, margin, styles, and fitting.
pub struct SvgConfig {
    pub width: i64,
    pub height: i64,
    pub margin: i64,
    pub visible: SvgLineConfig,
    pub obscured: Option<SvgLineConfig>,
    pub fit_lines: bool,
}

/// One styled line primitive of the final document, in fixed-point pixel
/// coordinates.
#[derive(Clone, Copy, PartialEq, Eq, Structural, Debug)]
pub struct SvgLine {
    pub visibility: LineVisibility,
    pub x0: i64,
    pub y0: i64,
    pub x1: i64,
    pub y1: i64,
}

impl SvgConfig {
    /// Canvas, margin, and stroke widths within the supported range.
    pub open spec fn wf(self) -> bool {
        &&& 0 < self.width <= 8192
        &&& 0 < self.height <= 8192
        &&& 0 <= self.margin <= 8192
        &&& 0 <= self.visible.stroke_width <= 8192
        &&& (self.obscured matches Some(o) ==> 0 <= o.stroke_width <= 8192)
    }
}

/// The sub-segments of one visibility class, in input order.
pub open spec fn spec_class(
    segs: Seq<LineSegmentCulled>,
    v: LineVisibility,
    upto: int,
) -> Seq<LineSegmentCulled>
    decreases upto,
{
    if upto <= 0 {
        Seq::empty()
    } else {
        let prev = spec_class(segs, v, upto - 1);
        if segs[upto - 1].visibility == v {
            prev.push(segs[upto - 1])
        } else {
            prev
        }
    }
}

/// The segments that are drawn, in drawing order: the obscured class first
/// (only when an obscured style is configured), then the visible class.
pub open spec fn spec_kept(
    segs: Seq<LineSegmentCulled>,
    has_obscured: bool,
) -> Seq<LineSegmentCulled> {
    (if has_obscured {
        spec_class(segs, LineVisibility::Obscured, segs.len() as int)
    } else {
        Seq::empty()
    }) + spec_class(segs, LineVisibility::Visible, segs.len() as int)
}

/// The axis-aligned bounding box over the endpoints of the first `upto`
/// kept segments: `(minx, miny, maxx, maxy)`.
pub open spec fn spec_bbox(ks: Seq<LineSegmentCulled>, upto: int) -> (int, int, int, int)
    decreases upto,
{
    if upto <= 0 {
        (0, 0, 0, 0)
    } else {
        let s = ks[upto - 1].line_segment;
        let lo_x = if s.x0 <= s.x1 {
            s.x0 as int
        } else {
            s.x1 as int
        };
        let hi_x = if s.x0 <= s.x1 {
            s.x1 as int
        } else {
            s.x0 as int
        };
        let lo_y = if s.y0 <= s.y1 {
            s.y0 as int
        } else {
            s.y1 as int
        };
        let hi_y = if s.y0 <= s.y1 {
            s.y1 as int
        } else {
            s.y0 as int
        };
        if upto == 1 {
            (lo_x, lo_y, hi_x, hi_y)
        } else {
            let (ax, ay, bx, qy) = spec_bbox(ks, upto - 1);
            (
                if lo_x < ax {
                    lo_x
                } else {
                    ax
                },
                if lo_y < ay {
                    lo_y
                } else {
                    ay
                },
                if hi_x > bx {
                    hi_x
                } else {
                    bx
                },
                if hi_y > qy {
                    hi_y
                } else {
                    qy
                },
            )
        }
    }
}

/// The fitting transform `(minx, miny, s, offx, offy)`: a point maps to
/// `off + ((p - min) * s) / ONE`. Without fitting (or when the canvas
/// interior or the geometry is degenerate) it is the identity.
pub open spec fn spec_fit(
    cfg_fit: bool,
    width: int,
    height: int,
    margin: int,
    ks: Seq<LineSegmentCulled>,
) -> (int, int, int, int, int) {
    let availx = (width - 2 * margin) * ONE;
    let availy = (height - 2 * margin) * ONE;
    if !cfg_fit || ks.len() == 0 || availx <= 0 || availy <= 0 {
        (0, 0, ONE as int, 0, 0)
    } else {
        let (minx, miny, maxx, maxy) = spec_bbox(ks, ks.len() as int);
        let ex = maxx - minx;
        let ey = maxy - miny;
        if ex == 0 && ey == 0 {
            (minx, miny, ONE as int, width * ONE / 2, height * ONE / 2)
        } else {
            let sx = div_tz(availx * ONE, ex);
            let sy = div_tz(availy * ONE, ey);
            let s0 = if ex > 0 && ey > 0 {
                if sx <= sy {
                    sx
                } else {
                    sy
                }
            } else if ex > 0 {
                sx
            } else {
                sy
            };
            let s = if s0 > FIT_SCALE_MAX {
                FIT_SCALE_MAX as int
            } else {
                s0
            };
            let offx = margin * ONE + div_tz(availx - div_tz(ex * s, ONE as int), 2);
            let offy = margin * ONE + div_tz(availy - div_tz(ey * s, ONE as int), 2);
            (minx, miny, s, offx, offy)
        }
    }
}

/// One coordinate under the fitting transform.
pub open spec fn spec_fit_pt(p: int, lo: int, s: int, off: int) -> int {
    off + div_tz((p - lo) * s, ONE as int)
}

/// The final line primitives: kept segments in drawing order, under the
/// fitting transform.
pub open spec fn spec_svg_lines(
    segs: Seq<LineSegmentCulled>,
    cfg_fit: bool,
    has_obscured: bool,
    width: int,
    height: int,
    margin: int,
) -> Seq<SvgLine> {
    let ks = spec_kept(segs, has_obscured);
    let (lox, loy, s, offx, offy) = spec_fit(cfg_fit, width, height, margin, ks);
    Seq::new(
        ks.len(),
        |i: int|
            SvgLine {
                visibility: ks[i].visibility,
                x0: spec_fit_pt(ks[i].line_segment.x0 as int, lox, s, offx) as i64,
                y0: spec_fit_pt(ks[i].line_segment.y0 as int, loy, s, offy) as i64,
                x1: spec_fit_pt(ks[i].line_segment.x1 as int, lox, s, offx) as i64,
                y1: spec_fit_pt(ks[i].line_segment.y1 as int, loy, s, offy) as i64,
            },
    )
}

/// Style omission: with no obscured style configured, no obscured-class
/// primitive appears in the composed document.
pub proof fn lemma_style_omission(
    segs: Seq<LineSegmentCulled>,
    cfg_fit: bool,
    width: int,
    height: int,
    margin: int,
)
    ensures
        forall|i: int|
            0 <= i < spec_svg_lines(segs, cfg_fit, false, width, height, margin).len() ==> (
            #[trigger] spec_svg_lines(segs, cfg_fit, false, width, height, margin)[i]).visibility
                == LineVisibility::Visible,
{
    lemma_class_visibility(segs, LineVisibility::Visible, segs.len() as int);
    let ks = spec_kept(segs, false);
    assert(ks == spec_class(segs, LineVisibility::Visible, segs.len() as int)) by {
        assert(Seq::<LineSegmentCulled>::empty() + spec_class(
            segs,
            LineVisibility::Visible,
            segs.len() as int,
        ) =~= spec_class(segs, LineVisibility::Visible, segs.len() as int));
    }
}

/// Every segment of one class carries that class's visibility.
pub proof fn lemma_class_visibility(segs: Seq<LineSegmentCulled>, v: LineVisibility, upto: int)
    ensures
        forall|i: int|
            0 <= i < spec_class(segs, v, upto).len() ==> (#[trigger] spec_class(
                segs,
                v,
                upto,
            )[i]).visibility == v,
    decreases upto,
{
    if upto > 0 {
        lemma_class_visibility(segs, v, upto - 1);
    }
}

/// Filters one visibility class, as [`spec_class`] states it.
fn class_filter(segs: &Vec<LineSegmentCulled>, v: LineVisibility) -> (r: Vec<LineSegmentCulled>)
    ensures
        r@ == spec_class(segs@, v, segs@.len() as int),
{
    let mut r: Vec<LineSegmentCulled> = Vec::new();
    let mut i: usize = 0;
    while i < segs.len()
        invariant
            i <= segs@.len(),
            r@ == spec_class(segs@, v, i as int),
        decreases segs@.len() - i,
    {
        let keep = match (segs[i].visibility, v) {
            (LineVisibility::Visible, LineVisibility::Visible) => true,
            (LineVisibility::Obscured, LineVisibility::Obscured) => true,
            _ => false,
        };
        if keep {
            r.push(segs[i]);
        }
        i += 1;
    }
    r
}

/// Composes the kept, ordered, fitted line primitives, exactly as
/// [`spec_svg_lines`] states them.
#[verifier::rlimit(100)]
pub fn compose_lines(segs: &Vec<LineSegmentCulled>, cfg: &SvgConfig) -> (r: Vec<SvgLine>)
    requires
        cfg.wf(),
        forall|i: int| 0 <= i < segs@.len() ==> seg_wf((#[trigger] segs@[i]).line_segment),
    ensures
        r@ == spec_svg_lines(
            segs@,
            cfg.fit_lines,
            cfg.obscured is Some,
            cfg.width as int,
            cfg.height as int,
            cfg.margin as int,
        ),
        forall|i: int|
            0 <= i < r@.len() ==> -0x20_0000_0000_0000 <= (#[trigger] r@[i]).x0
                <= 0x20_0000_0000_0000 && -0x20_0000_0000_0000 <= r@[i].y0
                <= 0x20_0000_0000_0000 && -0x20_0000_0000_0000 <= r@[i].x1
                <= 0x20_0000_0000_0000 && -0x20_0000_0000_0000 <= r@[i].y1
                <= 0x20_0000_0000_0000,
{
    let mut ks: Vec<LineSegmentCulled> = if cfg.obscured.is_some() {
        class_filter(segs, LineVisibility::Obscured)
    } else {
        Vec::new()
    };
    let mut vis = class_filter(segs, LineVisibility::Visible);
    ks.append(&mut vis);
    proof {
        assert(ks@ =~= spec_kept(segs@, cfg.obscured is Some));
        lemma_kept_wf(segs@, cfg.obscured is Some);
    }
    // bounding box over the kept segments
    let mut lox: i64 = 0;
    let mut loy: i64 = 0;
    let mut hix: i64 = 0;
    let mut hiy: i64 = 0;
    let mut i: usize = 0;
    while i < ks.len()
        invariant
            i <= ks@.len(),
            forall|k: int| 0 <= k < ks@.len() ==> seg_wf((#[trigger] ks@[k]).line_segment),
            (lox as int, loy as int, hix as int, hiy as int) == if i == 0 {
                (0int, 0int, 0int, 0int)
            } else {
                spec_bbox(ks@, i as int)
            },
            -SLIM <= lox <= SLIM && -SLIM <= loy <= SLIM && -SLIM <= hix <= SLIM && -SLIM <= hiy
                <= SLIM,
        decreases ks@.len() - i,
    {
        let sgm = ks[i].line_segment;
        let lo_x = if sgm.x0 <= sgm.x1 {
            sgm.x0
        } else {
            sgm.x1
        };
        let hi_x = if sgm.x0 <= sgm.x1 {
            sgm.x1
        } else {
            sgm.x0
        };
        let lo_y = if sgm.y0 <= sgm.y1 {
            sgm.y0
        } else {
            sgm.y1
        };
        let hi_y = if sgm.y0 <= sgm.y1 {
            sgm.y1
        } else {
            sgm.y0
        };
        if i == 0 {
            lox = lo_x;
            loy = lo_y;
            hix = hi_x;
            hiy = hi_y;
        } else {
            if lo_x < lox {
                lox = lo_x;
            }
            if lo_y < loy {
                loy = lo_y;
            }
            if hi_x > hix {
                hix = hi_x;
            }
            if hi_y > hiy {
                hiy = hi_y;
            }
        }
        i += 1;
    }
    // the fitting transform
    let availx: i64 = (cfg.width - 2 * cfg.margin) * ONE;
    let availy: i64 = (cfg.height - 2 * cfg.margin) * ONE;
    let mut tlox: i64 = 0;
    let mut tloy: i64 = 0;
    let mut s128: i128 = ONE as i128;
    let mut offx: i64 = 0;
    let mut offy: i64 = 0;
    if cfg.fit_lines && ks.len() > 0 && availx > 0 && availy > 0 {
        let ex: i64 = hix - lox;
        let ey: i64 = hiy - loy;
        if ex == 0 && ey == 0 {
            tlox = lox;
            tloy = loy;
            offx = div64(cfg.width * ONE, 2);
            offy = div64(cfg.height * ONE, 2);
        } else {
            proof {
                assert(ONE == 65536 && SLIM == 0x40_0000_0000 && FIT_SCALE_MAX == 0x400_0000);
                lemma_mul_bound(availx as int, ONE as int, 0x2000_0000, 65536);
                lemma_mul_bound(availy as int, ONE as int, 0x2000_0000, 65536);
                if ex > 0 {
                    lemma_div_tz_bound((availx as int) * (ONE as int), ex as int, 0x2000_0000int
                        * 65536);
                }
                if ey > 0 {
                    lemma_div_tz_bound((availy as int) * (ONE as int), ey as int, 0x2000_0000int
                        * 65536);
                }
            }
            let s0: i128 = if ex > 0 && ey > 0 {
                let sx = div128((availx as i128) * (ONE as i128), ex as i128);
                let sy = div128((availy as i128) * (ONE as i128), ey as i128);
                if sx <= sy {
                    sx
                } else {
                    sy
                }
            } else if ex > 0 {
                div128((availx as i128) * (ONE as i128), ex as i128)
            } else {
                div128((availy as i128) * (ONE as i128), ey as i128)
            };
            let s: i128 = if s0 > FIT_SCALE_MAX as i128 {
                FIT_SCALE_MAX as i128
            } else {
                s0
            };
            proof {
                lemma_mul_bound(ex as int, s as int, 0x80_0000_0000, 0x400_0000);
                lemma_mul_bound(ey as int, s as int, 0x80_0000_0000, 0x400_0000);
                lemma_div_tz_ratio((ex as int) * (s as int), ONE as int, 0x80_0000_0000int
                    * 0x400_0000 / 65536);
                lemma_div_tz_ratio((ey as int) * (s as int), ONE as int, 0x80_0000_0000int
                    * 0x400_0000 / 65536);
            }
            let dx: i128 = div128((ex as i128) * s, ONE as i128);
            let dy: i128 = div128((ey as i128) * s, ONE as i128);
            proof {
                lemma_div_tz_bound((availx as i128 - dx) as int, 2, 0x4_0000_0000_0000);
                lemma_div_tz_bound((availy as i128 - dy) as int, 2, 0x4_0000_0000_0000);
            }
            let ox: i128 = (cfg.margin as i128) * (ONE as i128) + div128(availx as i128 - dx, 2);
            let oy: i128 = (cfg.margin as i128) * (ONE as i128) + div128(availy as i128 - dy, 2);
            tlox = lox;
            tloy = loy;
            s128 = s;
            offx = ox as i64;
            offy = oy as i64;
        }
    }
    let ghost fit = spec_fit(
        cfg.fit_lines,
        cfg.width as int,
        cfg.height as int,
        cfg.margin as int,
        ks@,
    );
    proof {
        assert((tlox as int, tloy as int, s128 as int, offx as int, offy as int) == fit);
    }
    // apply the transform
    let mut out: Vec<SvgLine> = Vec::new();
    let mut m: usize = 0;
    while m < ks.len()
        invariant
            m <= ks@.len(),
            forall|k: int| 0 <= k < ks@.len() ==> seg_wf((#[trigger] ks@[k]).line_segment),
            (tlox as int, tloy as int, s128 as int, offx as int, offy as int) == spec_fit(
                cfg.fit_lines,
                cfg.width as int,
                cfg.height as int,
                cfg.margin as int,
                ks@,
            ),
            -SLIM <= tlox <= SLIM && -SLIM <= tloy <= SLIM,
            0 <= s128 <= FIT_SCALE_MAX as i128,
            -0x10_0000_0000_0000 <= offx <= 0x10_0000_0000_0000,
            -0x10_0000_0000_0000 <= offy <= 0x10_0000_0000_0000,
            out@.len() == m,
            forall|k: int|
                0 <= k < m ==> #[trigger] out@[k] == spec_svg_lines(
                    segs@,
                    cfg.fit_lines,
                    cfg.obscured is Some,
                    cfg.width as int,
                    cfg.height as int,
                    cfg.margin as int,
                )[k],
            forall|k: int|
                0 <= k < m ==> -0x20_0000_0000_0000 <= (#[trigger] out@[k]).x0
                    <= 0x20_0000_0000_0000 && -0x20_0000_0000_0000 <= out@[k].y0
                    <= 0x20_0000_0000_0000 && -0x20_0000_0000_0000 <= out@[k].x1
                    <= 0x20_0000_0000_0000 && -0x20_0000_0000_0000 <= out@[k].y1
                    <= 0x20_0000_0000_0000,
            ks@ == spec_kept(segs@, cfg.obscured is Some),
        decreases ks@.len() - m,
    {
        let sgm = ks[m].line_segment;
        let fx0 = fit_pt(sgm.x0, tlox, s128, offx);
        let fy0 = fit_pt(sgm.y0, tloy, s128, offy);
        let fx1 = fit_pt(sgm.x1, tlox, s128, offx);
        let fy1 = fit_pt(sgm.y1, tloy, s128, offy);
        out.push(
            SvgLine { visibility: ks[m].visibility, x0: fx0, y0: fy0, x1: fx1, y1: fy1 },
        );
        m += 1;
    }
    proof {
        assert(out@ =~= spec_svg_lines(
            segs@,
            cfg.fit_lines,
            cfg.obscured is Some,
            cfg.width as int,
            cfg.height as int,
            cfg.margin as int,
        ));
    }
    out
}

/// Applies the fitting transform to one coordinate, exactly as
/// [`spec_fit_pt`] states it.
fn fit_pt(p: i64, lo: i64, s: i128, off: i64) -> (r: i64)
    requires
        -SLIM <= p <= SLIM,
        -SLIM <= lo <= SLIM,
        0 <= s <= FIT_SCALE_MAX as i128,
        -0x10_0000_0000_0000 <= off <= 0x10_0000_0000_0000,
    ensures
        r as int == spec_fit_pt(p as int, lo as int, s as int, off as int),
        -0x20_0000_0000_0000 <= r <= 0x20_0000_0000_0000,
{
    proof {
        assert(SLIM == 0x40_0000_0000 && ONE == 65536 && FIT_SCALE_MAX == 0x400_0000);
        lemma_mul_bound((p - lo) as int, s as int, 0x80_0000_0000, 0x400_0000);
        lemma_div_tz_ratio((p - lo) as int * (s as int), ONE as int, 0x80_0000_0000int
            * 0x400_0000 / 65536);
    }
    let d: i128 = ((p - lo) as i128) * s;
    let q: i128 = div128(d, ONE as i128);
    let r: i128 = (off as i128) + q;
    r as i64
}

/// Kept segments keep their well-formedness.
pub proof fn lemma_kept_wf(segs: Seq<LineSegmentCulled>, has_obscured: bool)
    requires
        forall|i: int| 0 <= i < segs.len() ==> seg_wf((#[trigger] segs[i]).line_segment),
    ensures
        forall|i: int|
            0 <= i < spec_kept(segs, has_obscured).len() ==> seg_wf(
                (#[trigger] spec_kept(segs, has_obscured)[i]).line_segment,
            ),
{
    lemma_class_wf(segs, LineVisibility::Obscured, segs.len() as int);
    lemma_class_wf(segs, LineVisibility::Visible, segs.len() as int);
}

/// Filtered segments keep their well-formedness.
pub proof fn lemma_class_wf(segs: Seq<LineSegmentCulled>, v: LineVisibility, upto: int)
    requires
        upto <= segs.len(),
        forall|i: int| 0 <= i < segs.len() ==> seg_wf((#[trigger] segs[i]).line_segment),
    ensures
        forall|i: int|
            0 <= i < spec_class(segs, v, upto).len() ==> seg_wf(
                (#[trigger] spec_class(segs, v, upto)[i]).line_segment,
            ),
    decreases upto,
{
    if upto > 0 {
        lemma_class_wf(segs, v, upto - 1);
    }
}

/// Every kept endpoint lies within the bounding box.
pub proof fn lemma_bbox_contains(ks: Seq<LineSegmentCulled>, upto: int)
    requires
        0 < upto <= ks.len(),
    ensures
        ({
            let (ax, ay, bx, qy) = spec_bbox(ks, upto);
            &&& ax <= bx && ay <= qy
            &&& forall|k: int|
                0 <= k < upto ==> ax <= (#[trigger] ks[k]).line_segment.x0 <= bx && ax
                    <= ks[k].line_segment.x1 <= bx && ay <= ks[k].line_segment.y0 <= qy && ay
                    <= ks[k].line_segment.y1 <= qy
        }),
    decreases upto,
{
    if upto > 1 {
        lemma_bbox_contains(ks, upto - 1);
    }
}

/// A coordinate within the extent, scaled and centered, lands inside the
/// available span.
proof fn lemma_fit_pt_in(p: int, lo: int, ex: int, s: int, avail: int, margin: int)
    requires
        0 <= p - lo <= ex,
        0 <= s,
        ex * s <= avail * (ONE as int),
        avail > 0,
        margin >= 0,
    ensures
        margin * (ONE as int) <= spec_fit_pt(
            p,
            lo,
            s,
            margin * (ONE as int) + div_tz(avail - div_tz(ex * s, ONE as int), 2),
        ) <= margin * (ONE as int) + avail,
{
    let one = ONE as int;
    assert(ex * s >= 0) by (nonlinear_arith)
        requires
            ex >= 0,
            s >= 0,
    ;
    let dd = div_tz(ex * s, one);
    assert((avail * (ONE as int)) / (ONE as int) == avail) by (nonlinear_arith)
        requires
            avail >= 0,
    ;
    crate::num::lemma_div_tz_mono(ex * s, avail * one, one);
    crate::num::lemma_div_tz_mul_le(avail - dd, 2);
    crate::num::lemma_mul_le_mono(p - lo, ex, s);
    assert((p - lo) * s >= 0) by (nonlinear_arith)
        requires
            p - lo >= 0,
            s >= 0,
    ;
    assert((p - lo) * s <= ex * s) by (nonlinear_arith)
        requires
            0 <= p - lo <= ex,
            0 <= s,
    ;
    crate::num::lemma_div_tz_mono((p - lo) * s, ex * s, one);
}

/// The coordinates of one primitive lie within the margin-inset canvas
/// interior, in fixed-point pixels.
pub open spec fn line_in_box(l: SvgLine, width: int, height: int, margin: int) -> bool {
    &&& margin * ONE <= l.x0 <= (width - margin) * ONE
    &&& margin * ONE <= l.x1 <= (width - margin) * ONE
    &&& margin * ONE <= l.y0 <= (height - margin) * ONE
    &&& margin * ONE <= l.y1 <= (height - margin) * ONE
}

/// Fitting containment: with fit-to-canvas on, a positive margin-inset
/// canvas interior, and at least one drawn segment, every coordinate of
/// the composed document lies within the inset interior
/// `[margin, width - margin] x [margin, height - margin]`.
#[verifier::rlimit(100)]
pub proof fn lemma_fit_containment(
    segs: Seq<LineSegmentCulled>,
    has_obscured: bool,
    width: int,
    height: int,
    margin: int,
)
    requires
        margin >= 0,
        width - 2 * margin > 0,
        height - 2 * margin > 0,
        width <= 8192,
        height <= 8192,
        spec_kept(segs, has_obscured).len() > 0,
        forall|i: int| 0 <= i < segs.len() ==> seg_wf((#[trigger] segs[i]).line_segment),
    ensures
        forall|i: int|
            0 <= i < spec_svg_lines(segs, true, has_obscured, width, height, margin).len()
                ==> line_in_box(
                #[trigger] spec_svg_lines(segs, true, has_obscured, width, height, margin)[i],
                width,
                height,
                margin,
            ),
{
    let one = ONE as int;
    let ks = spec_kept(segs, has_obscured);
    lemma_kept_wf(segs, has_obscured);
    lemma_bbox_contains(ks, ks.len() as int);
    let availx = (width - 2 * margin) * one;
    let availy = (height - 2 * margin) * one;
    assert((width - 2 * margin) * (ONE as int) >= ONE) by (nonlinear_arith)
        requires
            width - 2 * margin >= 1,
    ;
    assert((height - 2 * margin) * (ONE as int) >= ONE) by (nonlinear_arith)
        requires
            height - 2 * margin >= 1,
    ;
    assert(margin * (ONE as int) + (width - 2 * margin) * (ONE as int) == (width - margin) * (
    ONE as int)) by (nonlinear_arith);
    assert(margin * (ONE as int) + (height - 2 * margin) * (ONE as int) == (height - margin) * (
    ONE as int)) by (nonlinear_arith);
    assert(0 <= margin * (ONE as int) && (width - margin) * (ONE as int) <= 8192 * (ONE as int))
        by (nonlinear_arith)
        requires
            0 <= margin,
            width - margin <= 8192,
    ;
    assert((height - margin) * (ONE as int) <= 8192 * (ONE as int)) by (nonlinear_arith)
        requires
            height - margin <= 8192,
    ;
    let (minx, miny, maxx, maxy) = spec_bbox(ks, ks.len() as int);
    let ex = maxx - minx;
    let ey = maxy - miny;
    let out = spec_svg_lines(segs, true, has_obscured, width, height, margin);
    if ex == 0 && ey == 0 {
        let offx = width * one / 2;
        let offy = height * one / 2;
        assert(margin * (ONE as int) <= width * (ONE as int) / 2 <= (width - margin) * (
        ONE as int)) by (nonlinear_arith)
            requires
                width - 2 * margin >= 1,
                margin >= 0,
        ;
        assert(margin * (ONE as int) <= height * (ONE as int) / 2 <= (height - margin) * (
        ONE as int)) by (nonlinear_arith)
            requires
                height - 2 * margin >= 1,
                margin >= 0,
        ;
        assert forall|i: int| 0 <= i < out.len() implies line_in_box(
            #[trigger] out[i],
            width,
            height,
            margin,
        ) by {
            let sgm = ks[i].line_segment;
            assert(sgm.x0 == minx && sgm.x1 == minx && sgm.y0 == miny && sgm.y1 == miny);
            assert(spec_fit_pt(minx, minx, one, offx) == offx);
            assert(spec_fit_pt(miny, miny, one, offy) == offy);
        }
    } else {
        let sx = div_tz(availx * one, ex);
        let sy = div_tz(availy * one, ey);
        let s0 = if ex > 0 && ey > 0 {
            if sx <= sy {
                sx
            } else {
                sy
            }
        } else if ex > 0 {
            sx
        } else {
            sy
        };
        let s = if s0 > FIT_SCALE_MAX {
            FIT_SCALE_MAX as int
        } else {
            s0
        };
        assert(((width - 2 * margin) * (ONE as int)) * (ONE as int) >= 0 && ((height - 2
            * margin) * (ONE as int)) * (ONE as int) >= 0) by (nonlinear_arith)
            requires
                width - 2 * margin >= 1,
                height - 2 * margin >= 1,
        ;
        assert(availx * one >= 0 && availy * one >= 0);
        if ex > 0 {
            crate::num::lemma_div_tz_mul_le(availx * one, ex);
            crate::num::lemma_div_tz_bound(availx * one, ex, availx * one);
        }
        if ey > 0 {
            crate::num::lemma_div_tz_mul_le(availy * one, ey);
            crate::num::lemma_div_tz_bound(availy * one, ey, availy * one);
        }
        assert(s >= 0);
        assert(ex * s <= availx * one) by {
            if ex > 0 {
                assert(s <= sx);
                crate::num::lemma_mul_le_mono(s, sx, ex);
                assert(s * ex <= sx * ex);
                assert(sx * ex <= availx * one);
                assert(ex * s == s * ex) by (nonlinear_arith);
            } else {
                assert(ex == 0);
                assert(ex * s == 0) by (nonlinear_arith)
                    requires
                        ex == 0,
                ;
            }
        }
        assert(ey * s <= availy * one) by {
            if ey > 0 {
                assert(s <= sy);
                crate::num::lemma_mul_le_mono(s, sy, ey);
                assert(s * ey <= sy * ey);
                assert(sy * ey <= availy * one);
                assert(ey * s == s * ey) by (nonlinear_arith);
            } else {
                assert(ey == 0);
                assert(ey * s == 0) by (nonlinear_arith)
                    requires
                        ey == 0,
                ;
            }
        }
        assert forall|i: int| 0 <= i < out.len() implies line_in_box(
            #[trigger] out[i],
            width,
            height,
            margin,
        ) by {
            let sgm = ks[i].line_segment;
            lemma_fit_pt_in(sgm.x0 as int, minx, ex, s, availx, margin);
            lemma_fit_pt_in(sgm.x1 as int, minx, ex, s, availx, margin);
            lemma_fit_pt_in(sgm.y0 as int, miny, ey, s, availy, margin);
            lemma_fit_pt_in(sgm.y1 as int, miny, ey, s, availy, margin);
        }
    }
}

} // verus!