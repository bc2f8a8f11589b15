//! The planar arrangement: splitting projected segments at their mutual
//! proper crossings.
//!
//! All segments are considered together. For each segment, the crossing
//! parameters with every other segment are collected in sorted order, with
//! near-endpoint and near-duplicate parameters suppressed as degenerate,
//! and the segment is re-emitted as the chain of sub-segments between
//! consecutive split points. Each sub-segment keeps its parent line index
//! and its parametric range into the originating 3D edge.

use vstd::prelude::*;
use crate::num::{div_tz, div128, lemma_mul_bound, lemma_div_tz_bound, lemma_div_tz_ratio, TONE,
    EPS_T, SLIM};
use crate::geom::{spec_lerp, lerp_fx, lemma_lerp_between, lemma_lerp_mono, lemma_lerp_ends};
use crate::scene::{Segment2, ProjectedLine, seg_wf};

verus! {

/// A sub-segment of the arrangement, linked to the projected line it came
/// from.
#[derive(Clone, Copy, PartialEq, Eq, Structural, Debug)]
pub struct SubSegment {
    pub seg: Segment2,
    pub line: usize,
}

/// Twice the signed area of the triangle `a`, `b`, `c`: positive when `c`
/// lies left of the directed line from `a` to `b`.
pub open spec fn sorient(ax: int, ay: int, bx: int, by: int, cx: int, cy: int) -> int {
    (bx - ax) * (cy - ay) - (by - ay) * (cx - ax)
}

/// Whether two segments cross properly: each strictly separates the other's
/// endpoints. Shared endpoints and collinear overlaps do not count.
pub open spec fn spec_proper(p: Segment2, q: Segment2) -> bool {
    let d1 = sorient(q.x0 as int, q.y0 as int, q.x1 as int, q.y1 as int, p.x0 as int, p.y0 as int);
    let d2 = sorient(q.x0 as int, q.y0 as int, q.x1 as int, q.y1 as int, p.x1 as int, p.y1 as int);
    let d3 = sorient(p.x0 as int, p.y0 as int, p.x1 as int, p.y1 as int, q.x0 as int, q.y0 as int);
    let d4 = sorient(p.x0 as int, p.y0 as int, p.x1 as int, p.y1 as int, q.x1 as int, q.y1 as int);
    ((d1 > 0 && d2 < 0) || (d1 < 0 && d2 > 0)) && ((d3 > 0 && d4 < 0) || (d3 < 0 && d4 > 0))
}

/// The parameter along `p` (scaled by [`TONE`]) at which `q` crosses it.
pub open spec fn spec_inter_t(p: Segment2, q: Segment2) -> int
    recommends
        spec_proper(p, q),
{
    let d3 = sorient(p.x0 as int, p.y0 as int, p.x1 as int, p.y1 as int, q.x0 as int, q.y0 as int);
    let d4 = sorient(p.x0 as int, p.y0 as int, p.x1 as int, p.y1 as int, q.x1 as int, q.y1 as int);
    if d3 > 0 {
        div_tz(d3 * TONE, d3 - d4)
    } else {
        div_tz((-d3) * TONE, d4 - d3)
    }
}

/// Whether some collected parameter lies within the tolerance of `t`.
pub open spec fn has_close(ps: Seq<i64>, t: i64) -> bool {
    exists|k: int| 0 <= k < ps.len() && -EPS_T < #[trigger] ps[k] - t < EPS_T
}

/// Sorted insertion of a parameter.
pub open spec fn spec_insert(ps: Seq<i64>, t: i64) -> Seq<i64>
    decreases ps.len(),
{
    if ps.len() == 0 {
        seq![t]
    } else if t < ps[0] {
        seq![t] + ps
    } else {
        seq![ps[0]] + spec_insert(ps.skip(1), t)
    }
}

/// The split parameters of segment `k`, collected from the first `upto`
/// segments in order.
pub open spec fn spec_params_for(fs: Seq<(Segment2, usize)>, k: int, upto: int) -> Seq<i64>
    decreases upto,
{
    if upto <= 0 {
        Seq::empty()
    } else {
        let prev = spec_params_for(fs, k, upto - 1);
        let j = upto - 1;
        if j == k {
            prev
        } else {
            let p = fs[k].0;
            let q = fs[j].0;
            if spec_proper(p, q) {
                let t = spec_inter_t(p, q);
                if EPS_T <= t <= TONE - EPS_T && !has_close(prev, t as i64) {
                    spec_insert(prev, t as i64)
                } else {
                    prev
                }
            } else {
                prev
            }
        }
    }
}

/// The sub-segment of `p` between local parameters `cu` and `cv`.
pub open spec fn make_sub(p: Segment2, line: usize, cu: i64, cv: i64) -> SubSegment {
    SubSegment {
        seg: Segment2 {
            x0: spec_lerp(p.x0 as int, p.x1 as int, cu as int) as i64,
            y0: spec_lerp(p.y0 as int, p.y1 as int, cu as int) as i64,
            x1: spec_lerp(p.x0 as int, p.x1 as int, cv as int) as i64,
            y1: spec_lerp(p.y0 as int, p.y1 as int, cv as int) as i64,
            t0: spec_lerp(p.t0 as int, p.t1 as int, cu as int) as i64,
            t1: spec_lerp(p.t0 as int, p.t1 as int, cv as int) as i64,
        },
        line: line,
    }
}

/// The split points of `p`: its own endpoints around the sorted parameters.
pub open spec fn spec_cuts(ps: Seq<i64>) -> Seq<i64> {
    seq![0i64] + ps + seq![TONE]
}

/// The chain of sub-segments of `p` between consecutive split points.
pub open spec fn spec_subsegs(p: Segment2, line: usize, ps: Seq<i64>) -> Seq<SubSegment> {
    Seq::new(ps.len() + 1, |i: int| make_sub(p, line, spec_cuts(ps)[i], spec_cuts(ps)[i + 1]))
}

/// One entry per segment of one projected line.
pub open spec fn spec_line_flat(segs: Seq<Segment2>, i: usize) -> Seq<(Segment2, usize)> {
    Seq::new(segs.len(), |j: int| (segs[j], i))
}

/// The segment lists of a set of projected lines, in order.
pub open spec fn lines_view(ls: Seq<ProjectedLine>) -> Seq<Seq<Segment2>> {
    Seq::new(ls.len(), |i: int| ls[i].segments@)
}

/// All segments of the first `upto` lines, flattened in order.
pub open spec fn spec_flatten(segss: Seq<Seq<Segment2>>, upto: int) -> Seq<(Segment2, usize)>
    decreases upto,
{
    if upto <= 0 {
        Seq::empty()
    } else {
        spec_flatten(segss, upto - 1) + spec_line_flat(segss[upto - 1], (upto - 1) as usize)
    }
}

/// The whole arrangement of the first `upto` flat segments.
pub open spec fn spec_split_flat(fs: Seq<(Segment2, usize)>, upto: int) -> Seq<SubSegment>
    decreases upto,
{
    if upto <= 0 {
        Seq::empty()
    } else {
        spec_split_flat(fs, upto - 1) + spec_subsegs(
            fs[upto - 1].0,
            fs[upto - 1].1,
            spec_params_for(fs, upto - 1, fs.len() as int),
        )
    }
}

/// The arrangement of a set of projected lines' segments.
pub open spec fn spec_split(segss: Seq<Seq<Segment2>>) -> Seq<SubSegment> {
    let fs = spec_flatten(segss, segss.len() as int);
    spec_split_flat(fs, fs.len() as int)
}

/// Parameters sorted strictly.
pub open spec fn sorted_strict(ps: Seq<i64>) -> bool {
    forall|a: int, b: int| 0 <= a < b < ps.len() ==> ps[a] < ps[b]
}

/// Every parameter is clear of both segment ends.
pub open spec fn params_in_range(ps: Seq<i64>) -> bool {
    forall|i: int| 0 <= i < ps.len() ==> EPS_T <= #[trigger] ps[i] <= TONE - EPS_T
}

/// Sorted insertion keeps parameters sorted and adds exactly the new one.
pub proof fn lemma_insert_props(ps: Seq<i64>, t: i64)
    requires
        sorted_strict(ps),
        !has_close(ps, t),
    ensures
        sorted_strict(spec_insert(ps, t)),
        spec_insert(ps, t).len() == ps.len() + 1,
        forall|i: int|
            0 <= i < spec_insert(ps, t).len() ==> spec_insert(ps, t)[i] == t || ps.contains(
                #[trigger] spec_insert(ps, t)[i],
            ),
    decreases ps.len(),
{
    if ps.len() == 0 {
    } else if t < ps[0] {
    } else {
        let tail = ps.skip(1);
        assert(forall|k: int|
            0 <= k < tail.len() ==> #[trigger] tail[k] == ps[k + 1]);
        assert(!has_close(tail, t)) by {
            if has_close(tail, t) {
                let k = choose|k: int|
                    0 <= k < tail.len() && -EPS_T < #[trigger] tail[k] - t < EPS_T;
                assert(-EPS_T < ps[k + 1] - t < EPS_T);
            }
        }
        lemma_insert_props(tail, t);
        let r = spec_insert(ps, t);
        assert(r == seq![ps[0]] + spec_insert(tail, t));
        assert(t > ps[0]) by {
            assert(!(-EPS_T < ps[0] - t < EPS_T));
        }
        assert forall|a: int, b: int| 0 <= a < b < r.len() implies r[a] < r[b] by {
            if a == 0 {
                assert(r[0] == ps[0]);
                assert(r[b] == spec_insert(tail, t)[b - 1]);
                if spec_insert(tail, t)[b - 1] == t {
                } else {
                    assert(tail.contains(spec_insert(tail, t)[b - 1]));
                    let k = choose|k: int|
                        0 <= k < tail.len() && tail[k] == spec_insert(tail, t)[b - 1];
                    assert(ps[0] < ps[k + 1]);
                }
            } else {
                assert(r[a] == spec_insert(tail, t)[a - 1]);
                assert(r[b] == spec_insert(tail, t)[b - 1]);
            }
        }
        assert forall|i: int|
            0 <= i < r.len() implies r[i] == t || ps.contains(#[trigger] r[i]) by {
            if i == 0 {
                assert(ps[0] == r[0]);
            } else {
                let v = spec_insert(tail, t)[i - 1];
                assert(r[i] == v);
                if v != t {
                    assert(tail.contains(v));
                    let k = choose|k: int| 0 <= k < tail.len() && tail[k] == v;
                    assert(ps[k + 1] == v);
                }
            }
        }
    }
}

/// Collected parameters are sorted and clear of both ends.
pub proof fn lemma_params_props(fs: Seq<(Segment2, usize)>, k: int, upto: int)
    ensures
        sorted_strict(spec_params_for(fs, k, upto)),
        params_in_range(spec_params_for(fs, k, upto)),
    decreases upto,
{
    if upto > 0 {
        lemma_params_props(fs, k, upto - 1);
        let prev = spec_params_for(fs, k, upto - 1);
        let j = upto - 1;
        if j != k {
            let p = fs[k].0;
            let q = fs[j].0;
            if spec_proper(p, q) {
                let t = spec_inter_t(p, q);
                if EPS_T <= t <= TONE - EPS_T && !has_close(prev, t as i64) {
                    lemma_insert_props(prev, t as i64);
                    let r = spec_insert(prev, t as i64);
                    assert forall|i: int| 0 <= i < r.len() implies EPS_T <= #[trigger] r[i] <= TONE
                        - EPS_T by {
                        if r[i] != t as i64 {
                            assert(prev.contains(r[i]));
                            let m = choose|m: int| 0 <= m < prev.len() && prev[m] == r[i];
                        }
                    }
                }
            }
        }
    }
}

/// Exact orientation of three bounded screen points.
fn orient2(ax: i64, ay: i64, bx: i64, by: i64, cx: i64, cy: i64) -> (r: i128)
    requires
        -SLIM <= ax <= SLIM,
        -SLIM <= ay <= SLIM,
        -SLIM <= bx <= SLIM,
        -SLIM <= by <= SLIM,
        -SLIM <= cx <= SLIM,
        -SLIM <= cy <= SLIM,
    ensures
        r == sorient(ax as int, ay as int, bx as int, by as int, cx as int, cy as int),
        -0x10000_0000_0000_0000_0000 <= r <= 0x10000_0000_0000_0000_0000,
{
    proof {
        assert(SLIM == 0x40_0000_0000);
        lemma_mul_bound(bx - ax, cy - ay, 0x80_0000_0000, 0x80_0000_0000);
        lemma_mul_bound(by - ay, cx - ax, 0x80_0000_0000, 0x80_0000_0000);
        assert(-0x10000_0000_0000_0000_0000 <= (bx - ax) * (cy - ay) <= 0x10000_0000_0000_0000_0000);
        assert(-0x10000_0000_0000_0000_0000 <= (by - ay) * (cx - ax) <= 0x10000_0000_0000_0000_0000);
    }
    let u: i128 = ((bx - ax) as i128) * ((cy - ay) as i128);
    let v: i128 = ((by - ay) as i128) * ((cx - ax) as i128);
    u - v
}

/// Whether a parameter within tolerance of `t` was already collected.
fn has_close_exec(ps: &Vec<i64>, t: i64) -> (r: bool)
    requires
        forall|i: int| 0 <= i < ps@.len() ==> 0 <= #[trigger] ps@[i] <= TONE,
        0 <= t <= TONE,
    ensures
        r == has_close(ps@, t),
{
    let mut i: usize = 0;
    while i < ps.len()
        invariant
            i <= ps@.len(),
            forall|m: int| 0 <= m < ps@.len() ==> 0 <= #[trigger] ps@[m] <= TONE,
            0 <= t <= TONE,
            forall|m: int| 0 <= m < i ==> !(-EPS_T < #[trigger] ps@[m] - t < EPS_T),
        decreases ps@.len() - i,
    {
        let d = ps[i] - t;
        if -EPS_T < d && d < EPS_T {
            return true;
        }
        i += 1;
    }
    false
}

/// `spec_insert` is insertion at the first position whose value exceeds the
/// new one.
proof fn lemma_insert_at(ps: Seq<i64>, t: i64, idx: int)
    requires
        0 <= idx <= ps.len(),
        forall|m: int| 0 <= m < idx ==> ps[m] <= t,
        idx < ps.len() ==> t < ps[idx],
    ensures
        spec_insert(ps, t) == ps.insert(idx, t),
    decreases ps.len(),
{
    if ps.len() == 0 {
        assert(spec_insert(ps, t) =~= ps.insert(0, t));
    } else if t < ps[0] {
        assert(idx == 0);
        assert(spec_insert(ps, t) =~= ps.insert(0, t));
    } else {
        assert(idx >= 1);
        let tail = ps.skip(1);
        assert(forall|m: int| 0 <= m < tail.len() ==> #[trigger] tail[m] == ps[m + 1]);
        lemma_insert_at(tail, t, idx - 1);
        assert(spec_insert(ps, t) =~= ps.insert(idx, t)) by {
            assert(spec_insert(ps, t) == seq![ps[0]] + spec_insert(tail, t));
            assert(spec_insert(tail, t) == tail.insert(idx - 1, t));
        }
    }
}

/// Inserts a parameter in sorted position, as [`spec_insert`] states it.
fn insert_param(ps: &mut Vec<i64>, t: i64)
    requires
        sorted_strict(old(ps)@),
    ensures
        final(ps)@ == spec_insert(old(ps)@, t),
{
    let mut idx: usize = 0;
    while idx < ps.len() && ps[idx] <= t
        invariant
            idx <= ps@.len(),
            forall|m: int| 0 <= m < idx ==> #[trigger] ps@[m] <= t,
            ps@ == old(ps)@,
        decreases ps@.len() - idx,
    {
        idx += 1;
    }
    proof {
        lemma_insert_at(ps@, t, idx as int);
    }
    ps.insert(idx, t);
}

/// The split parameters of flat segment `k`, as [`spec_params_for`] states
/// them.
fn params_for(fs: &Vec<(Segment2, usize)>, k: usize) -> (ps: Vec<i64>)
    requires
        forall|i: int| 0 <= i < fs@.len() ==> seg_wf((#[trigger] fs@[i]).0),
        k < fs@.len(),
    ensures
        ps@ == spec_params_for(fs@, k as int, fs@.len() as int),
{
    let mut ps: Vec<i64> = Vec::new();
    let mut j: usize = 0;
    while j < fs.len()
        invariant
            j <= fs@.len(),
            k < fs@.len(),
            forall|i: int| 0 <= i < fs@.len() ==> seg_wf((#[trigger] fs@[i]).0),
            ps@ == spec_params_for(fs@, k as int, j as int),
        decreases fs@.len() - j,
    {
        proof {
            lemma_params_props(fs@, k as int, j as int);
        }
        if j != k {
            let p = fs[k].0;
            let q = fs[j].0;
            let d1 = orient2(q.x0, q.y0, q.x1, q.y1, p.x0, p.y0);
            let d2 = orient2(q.x0, q.y0, q.x1, q.y1, p.x1, p.y1);
            let d3 = orient2(p.x0, p.y0, p.x1, p.y1, q.x0, q.y0);
            let d4 = orient2(p.x0, p.y0, p.x1, p.y1, q.x1, q.y1);
            let proper = ((d1 > 0 && d2 < 0) || (d1 < 0 && d2 > 0)) && ((d3 > 0 && d4 < 0) || (d3
                < 0 && d4 > 0));
            if proper {
                let t128: i128 = if d3 > 0 {
                    proof {
                        lemma_mul_bound(d3 as int, TONE as int, 0x10000_0000_0000_0000_0000,
                            TONE as int);
                        lemma_div_tz_ratio(d3 * (TONE as i128) as int, (d3 - d4) as int,
                            TONE as int);
                        lemma_div_tz_bound(d3 * (TONE as i128) as int, (d3 - d4) as int,
                            0x10000_0000_0000_0000_0000 * (TONE as int));
                    }
                    div128(d3 * (TONE as i128), d3 - d4)
                } else {
                    proof {
                        lemma_mul_bound((-d3) as int, TONE as int, 0x10000_0000_0000_0000_0000,
                            TONE as int);
                        lemma_div_tz_ratio((-d3) * (TONE as i128) as int, (d4 - d3) as int,
                            TONE as int);
                        lemma_div_tz_bound((-d3) * (TONE as i128) as int, (d4 - d3) as int,
                            0x10000_0000_0000_0000_0000 * (TONE as int));
                    }
                    div128((-d3) * (TONE as i128), d4 - d3)
                };
                let t: i64 = t128 as i64;
                if EPS_T <= t && t <= TONE - EPS_T {
                    if !has_close_exec(&ps, t) {
                        insert_param(&mut ps, t);
                    }
                }
            }
        }
        j += 1;
    }
    ps
}

/// The sub-segments of one parent segment form a chain: consecutive pieces
/// meet exactly at the shared split point, parameter ranges are
/// nondecreasing and nested in the parent's, and the chain starts and ends
/// at the parent's own endpoints. Two sub-segments of one parent therefore
/// never overlap in parameter; where they touch, it is exactly at a shared
/// endpoint.
pub proof fn lemma_subseg_chain(p: Segment2, line: usize, ps: Seq<i64>)
    requires
        seg_wf(p),
        sorted_strict(ps),
        params_in_range(ps),
    ensures
        spec_subsegs(p, line, ps).len() == ps.len() + 1,
        forall|i: int|
            0 <= i < ps.len() ==> (#[trigger] spec_subsegs(p, line, ps)[i]).seg.x1 == spec_subsegs(
                p,
                line,
                ps,
            )[i + 1].seg.x0 && spec_subsegs(p, line, ps)[i].seg.y1 == spec_subsegs(
                p,
                line,
                ps,
            )[i + 1].seg.y0 && spec_subsegs(p, line, ps)[i].seg.t1 == spec_subsegs(
                p,
                line,
                ps,
            )[i + 1].seg.t0,
        forall|i: int|
            0 <= i <= ps.len() ==> p.t0 <= (#[trigger] spec_subsegs(p, line, ps)[i]).seg.t0
                && spec_subsegs(p, line, ps)[i].seg.t0 <= spec_subsegs(p, line, ps)[i].seg.t1
                && spec_subsegs(p, line, ps)[i].seg.t1 <= p.t1,
        spec_subsegs(p, line, ps)[0].seg.x0 == p.x0,
        spec_subsegs(p, line, ps)[0].seg.y0 == p.y0,
        spec_subsegs(p, line, ps)[0].seg.t0 == p.t0,
        spec_subsegs(p, line, ps)[ps.len() as int].seg.x1 == p.x1,
        spec_subsegs(p, line, ps)[ps.len() as int].seg.y1 == p.y1,
        spec_subsegs(p, line, ps)[ps.len() as int].seg.t1 == p.t1,
{
    let cuts = spec_cuts(ps);
    assert(forall|i: int| 0 <= i < cuts.len() ==> 0 <= #[trigger] cuts[i] <= TONE);
    assert forall|i: int| 0 <= i <= ps.len() implies p.t0 <= (
    #[trigger] spec_subsegs(p, line, ps)[i]).seg.t0 && spec_subsegs(p, line, ps)[i].seg.t0
        <= spec_subsegs(p, line, ps)[i].seg.t1 && spec_subsegs(p, line, ps)[i].seg.t1 <= p.t1 by {
        let cu = cuts[i];
        let cv = cuts[i + 1];
        assert(cu <= cv);
        lemma_lerp_between(p.t0 as int, p.t1 as int, cu as int);
        lemma_lerp_between(p.t0 as int, p.t1 as int, cv as int);
        lemma_lerp_mono(p.t0 as int, p.t1 as int, cu as int, cv as int);
    }
    lemma_lerp_ends(p.x0 as int, p.x1 as int);
    lemma_lerp_ends(p.y0 as int, p.y1 as int);
    lemma_lerp_ends(p.t0 as int, p.t1 as int);
}

/// Arrangement soundness, within one parent: the sub-segments that the
/// arrangement emits for flat segment `k` are the chain of
/// [`lemma_subseg_chain`] over its collected split parameters, so no two of
/// them overlap in parameter and consecutive ones meet exactly at the
/// shared split point.
pub proof fn lemma_arrangement_chain(fs: Seq<(Segment2, usize)>, k: int)
    requires
        0 <= k < fs.len(),
        seg_wf(fs[k].0),
    ensures
        sorted_strict(spec_params_for(fs, k, fs.len() as int)),
        params_in_range(spec_params_for(fs, k, fs.len() as int)),
        spec_subsegs(fs[k].0, fs[k].1, spec_params_for(fs, k, fs.len() as int)).len()
            == spec_params_for(fs, k, fs.len() as int).len() + 1,
        forall|i: int|
            0 <= i < spec_params_for(fs, k, fs.len() as int).len() ==> (#[trigger] spec_subsegs(
                fs[k].0,
                fs[k].1,
                spec_params_for(fs, k, fs.len() as int),
            )[i]).seg.t1 == spec_subsegs(
                fs[k].0,
                fs[k].1,
                spec_params_for(fs, k, fs.len() as int),
            )[i + 1].seg.t0,
        forall|i: int|
            0 <= i <= spec_params_for(fs, k, fs.len() as int).len() ==> fs[k].0.t0 <= (
            #[trigger] spec_subsegs(
                fs[k].0,
                fs[k].1,
                spec_params_for(fs, k, fs.len() as int),
            )[i]).seg.t0 && spec_subsegs(
                fs[k].0,
                fs[k].1,
                spec_params_for(fs, k, fs.len() as int),
            )[i].seg.t0 <= spec_subsegs(
                fs[k].0,
                fs[k].1,
                spec_params_for(fs, k, fs.len() as int),
            )[i].seg.t1 && spec_subsegs(
                fs[k].0,
                fs[k].1,
                spec_params_for(fs, k, fs.len() as int),
            )[i].seg.t1 <= fs[k].0.t1,
{
    lemma_params_props(fs, k, fs.len() as int);
    lemma_subseg_chain(fs[k].0, fs[k].1, spec_params_for(fs, k, fs.len() as int));
}

/// A segment that nothing crosses is re-emitted unchanged: its one
/// sub-segment is the segment itself, with the same parameter range, so
/// classifying it is classifying the unsplit segment.
pub proof fn lemma_unsplit_identity(p: Segment2, line: usize)
    ensures
        spec_subsegs(p, line, Seq::empty()) =~= seq![SubSegment { seg: p, line }],
{
    lemma_lerp_ends(p.x0 as int, p.x1 as int);
    lemma_lerp_ends(p.y0 as int, p.y1 as int);
    lemma_lerp_ends(p.t0 as int, p.t1 as int);
}

/// Flattens the segments of every line, keeping each line's index.
fn flatten(lines: &Vec<ProjectedLine>) -> (fs: Vec<(Segment2, usize)>)
    requires
        forall|i: int, j: int|
            0 <= i < lines@.len() && 0 <= j < (#[trigger] lines@[i]).segments@.len() ==> seg_wf(
                #[trigger] lines@[i].segments@[j],
            ),
    ensures
        fs@ == spec_flatten(lines_view(lines@), lines@.len() as int),
        forall|i: int|
            0 <= i < fs@.len() ==> seg_wf((#[trigger] fs@[i]).0) && fs@[i].1 < lines@.len(),
{
    let mut fs: Vec<(Segment2, usize)> = Vec::new();
    let mut i: usize = 0;
    while i < lines.len()
        invariant
            i <= lines@.len(),
            forall|a: int, j: int|
                0 <= a < lines@.len() && 0 <= j < (#[trigger] lines@[a]).segments@.len() ==> seg_wf(
                    #[trigger] lines@[a].segments@[j],
                ),
            fs@ == spec_flatten(lines_view(lines@), i as int),
            forall|a: int|
                0 <= a < fs@.len() ==> seg_wf((#[trigger] fs@[a]).0) && fs@[a].1 < lines@.len(),
        decreases lines@.len() - i,
    {
        let mut j: usize = 0;
        while j < lines[i].segments.len()
            invariant
                i < lines@.len(),
                j <= lines@[i as int].segments@.len(),
                forall|a: int, jj: int|
                    0 <= a < lines@.len() && 0 <= jj < (#[trigger] lines@[a]).segments@.len()
                        ==> seg_wf(#[trigger] lines@[a].segments@[jj]),
                fs@ == spec_flatten(lines_view(lines@), i as int) + spec_line_flat(
                    lines@[i as int].segments@,
                    i,
                ).subrange(0, j as int),
                forall|a: int|
                    0 <= a < fs@.len() ==> seg_wf((#[trigger] fs@[a]).0) && fs@[a].1
                        < lines@.len(),
            decreases lines@[i as int].segments@.len() - j,
        {
            fs.push((lines[i].segments[j], i));
            proof {
                assert(fs@ =~= spec_flatten(lines_view(lines@), i as int) + spec_line_flat(
                    lines@[i as int].segments@,
                    i,
                ).subrange(0, j as int + 1));
            }
            j += 1;
        }
        proof {
            assert(spec_line_flat(lines@[i as int].segments@, i).subrange(
                0,
                lines@[i as int].segments@.len() as int,
            ) =~= spec_line_flat(lines@[i as int].segments@, i));
            assert(fs@ =~= spec_flatten(lines_view(lines@), i as int + 1));
        }
        i += 1;
    }
    fs
}

/// Splits every projected segment at its proper crossings with every other
/// segment, exactly as [`spec_split`] states it. Every emitted sub-segment
/// is well formed and keeps its parent line's index.
pub fn split_lines_by_intersection(lines: &Vec<ProjectedLine>) -> (r: Vec<SubSegment>)
    requires
        forall|i: int, j: int|
            0 <= i < lines@.len() && 0 <= j < (#[trigger] lines@[i]).segments@.len() ==> seg_wf(
                #[trigger] lines@[i].segments@[j],
            ),
    ensures
        r@ == spec_split(lines_view(lines@)),
        forall|i: int|
            0 <= i < r@.len() ==> seg_wf((#[trigger] r@[i]).seg) && r@[i].line < lines@.len(),
{
    let fs = flatten(lines);
    let mut r: Vec<SubSegment> = Vec::new();
    let mut k: usize = 0;
    while k < fs.len()
        invariant
            k <= fs@.len(),
            fs@ == spec_flatten(lines_view(lines@), lines@.len() as int),
            forall|i: int|
                0 <= i < fs@.len() ==> seg_wf((#[trigger] fs@[i]).0) && fs@[i].1 < lines@.len(),
            r@ == spec_split_flat(fs@, k as int),
            forall|i: int|
                0 <= i < r@.len() ==> seg_wf((#[trigger] r@[i]).seg) && r@[i].line < lines@.len(),
        decreases fs@.len() - k,
    {
        let ps = params_for(&fs, k);
        proof {
            lemma_params_props(fs@, k as int, fs@.len() as int);
        }
        let p = fs[k].0;
        let line = fs[k].1;
        let mut cuts: Vec<i64> = Vec::new();
        cuts.push(0);
        let mut m: usize = 0;
        while m < ps.len()
            invariant
                m <= ps@.len(),
                cuts@ == seq![0i64] + ps@.subrange(0, m as int),
            decreases ps@.len() - m,
        {
            cuts.push(ps[m]);
            proof {
                assert(cuts@ =~= seq![0i64] + ps@.subrange(0, m as int + 1));
            }
            m += 1;
        }
        cuts.push(TONE);
        proof {
            assert(ps@.subrange(0, ps@.len() as int) =~= ps@);
            assert(cuts@ =~= spec_cuts(ps@));
        }
        let mut sub_i: usize = 0;
        while sub_i < cuts.len() - 1
            invariant
                cuts@ == spec_cuts(ps@),
                cuts@.len() == ps@.len() + 2,
                sub_i <= ps@.len() + 1,
                sorted_strict(ps@),
                params_in_range(ps@),
                seg_wf(p),
                p == fs@[k as int].0,
                line == fs@[k as int].1,
                k < fs@.len(),
                fs@ == spec_flatten(lines_view(lines@), lines@.len() as int),
                line < lines@.len(),
                forall|i: int|
                    0 <= i < fs@.len() ==> seg_wf((#[trigger] fs@[i]).0) && fs@[i].1
                        < lines@.len(),
                r@ == spec_split_flat(fs@, k as int) + spec_subsegs(p, line, ps@).subrange(
                    0,
                    sub_i as int,
                ),
                forall|i: int|
                    0 <= i < r@.len() ==> seg_wf((#[trigger] r@[i]).seg) && r@[i].line
                        < lines@.len(),
            decreases cuts@.len() - sub_i,
        {
            let cu = cuts[sub_i];
            let cv = cuts[sub_i + 1];
            proof {
                assert(0 <= cu <= TONE && 0 <= cv <= TONE) by {
                    if 1 <= sub_i < cuts@.len() - 1 {
                        assert(cuts@[sub_i as int] == ps@[sub_i as int - 1]);
                    }
                    if 1 <= sub_i + 1 < cuts@.len() - 1 {
                        assert(cuts@[sub_i as int + 1] == ps@[sub_i as int]);
                    }
                }
                lemma_lerp_between(p.x0 as int, p.x1 as int, cu as int);
                lemma_lerp_between(p.y0 as int, p.y1 as int, cu as int);
                lemma_lerp_between(p.t0 as int, p.t1 as int, cu as int);
                lemma_lerp_between(p.x0 as int, p.x1 as int, cv as int);
                lemma_lerp_between(p.y0 as int, p.y1 as int, cv as int);
                lemma_lerp_between(p.t0 as int, p.t1 as int, cv as int);
                assert(cu <= cv) by {
                    if sub_i == 0 {
                        if cuts@.len() > 2 {
                            assert(cuts@[1] == ps@[0]);
                        }
                    } else if sub_i + 1 < cuts@.len() - 1 {
                        assert(cuts@[sub_i as int] == ps@[sub_i as int - 1]);
                        assert(cuts@[sub_i as int + 1] == ps@[sub_i as int]);
                    } else {
                        assert(cuts@[sub_i as int] == ps@[sub_i as int - 1]);
                    }
                }
                lemma_lerp_mono(p.t0 as int, p.t1 as int, cu as int, cv as int);
            }
            let sub = SubSegment {
                seg: Segment2 {
                    x0: lerp_fx(p.x0, p.x1, cu),
                    y0: lerp_fx(p.y0, p.y1, cu),
                    x1: lerp_fx(p.x0, p.x1, cv),
                    y1: lerp_fx(p.y0, p.y1, cv),
                    t0: lerp_fx(p.t0, p.t1, cu),
                    t1: lerp_fx(p.t0, p.t1, cv),
                },
                line,
            };
            r.push(sub);
            proof {
                assert(sub == make_sub(p, line, cu, cv));
                assert(spec_subsegs(p, line, ps@)[sub_i as int] == make_sub(p, line, cu, cv));
                assert(r@ =~= spec_split_flat(fs@, k as int) + spec_subsegs(p, line, ps@).subrange(
                    0,
                    sub_i as int + 1,
                ));
            }
            sub_i += 1;
        }
        proof {
            assert(spec_subsegs(p, line, ps@).subrange(0, ps@.len() as int + 1) =~= spec_subsegs(
                p,
                line,
                ps@,
            ));
            assert(r@ =~= spec_split_flat(fs@, k as int + 1));
        }
        k += 1;
    }
    proof {
        assert(lines_view(lines@).len() == lines@.len());
        assert(r@ == spec_split(lines_view(lines@)));
    }
    r
}

} // verus!
