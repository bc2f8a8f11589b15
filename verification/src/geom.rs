//! Vectors, matrices, and the fixed-point linear algebra of the pipeline.

use vstd::prelude::*;
use crate::num::{div_tz, div128, div64, lemma_mul_bound, lemma_div_tz_bound, lemma_div_tz_ratio,
    ONE, TONE, MLIM, VLIM};

verus! {

/// A 3D point or vector in fixed-point coordinates.
#[derive(Clone, Copy, PartialEq, Eq, Structural, Debug)]
pub struct Vec3 {
    pub x: i64,
    pub y: i64,
    pub z: i64,
}

/// A homogeneous 4D point in fixed-point coordinates.
#[derive(Clone, Copy, PartialEq, Eq, Structural, Debug)]
pub struct Vec4 {
    pub x: i64,
    pub y: i64,
    pub z: i64,
    pub w: i64,
}

/// A 4x4 matrix, row-major, applied to column vectors: `r = M p`.
#[derive(Clone, Copy)]
pub struct Mat4 {
    pub m: [i64; 16],
}

/// The coordinate is within the bound for caller-supplied values.
pub open spec fn in_m(v: int) -> bool {
    -MLIM <= v <= MLIM
}

/// The coordinate is within the bound for transformed values.
pub open spec fn in_v(v: int) -> bool {
    -VLIM <= v <= VLIM
}

pub open spec fn vec3_in_m(v: Vec3) -> bool {
    in_m(v.x as int) && in_m(v.y as int) && in_m(v.z as int)
}

pub open spec fn vec3_in_v(v: Vec3) -> bool {
    in_v(v.x as int) && in_v(v.y as int) && in_v(v.z as int)
}

pub open spec fn vec4_in_v(v: Vec4) -> bool {
    in_v(v.x as int) && in_v(v.y as int) && in_v(v.z as int) && in_v(v.w as int)
}

impl Mat4 {
    /// Every entry is within the caller-supplied bound.
    pub open spec fn wf(self) -> bool {
        forall|i: int| 0 <= i < 16 ==> in_m(self.m[i] as int)
    }
}

/// Mathematical dot product of two integer 3-vectors.
pub open spec fn sdot(ax: int, ay: int, az: int, bx: int, by: int, bz: int) -> int {
    ax * bx + ay * by + az * bz
}

/// Mathematical cross product of two integer 3-vectors.
pub open spec fn scross(ax: int, ay: int, az: int, bx: int, by: int, bz: int) -> (int, int, int) {
    (ay * bz - az * by, az * bx - ax * bz, ax * by - ay * bx)
}

/// The dot product of bounded vectors is bounded.
pub proof fn lemma_sdot_bound(ax: int, ay: int, az: int, bx: int, by: int, bz: int, ma: int, mb: int)
    requires
        -ma <= ax <= ma,
        -ma <= ay <= ma,
        -ma <= az <= ma,
        -mb <= bx <= mb,
        -mb <= by <= mb,
        -mb <= bz <= mb,
        0 <= ma,
        0 <= mb,
    ensures
        -(ma * mb + ma * mb + ma * mb) <= sdot(ax, ay, az, bx, by, bz) <= ma * mb + ma * mb + ma
            * mb,
{
    lemma_mul_bound(ax, bx, ma, mb);
    lemma_mul_bound(ay, by, ma, mb);
    lemma_mul_bound(az, bz, ma, mb);
}

/// Exact dot product on `i128` values.
pub fn dot3(ax: i128, ay: i128, az: i128, bx: i128, by: i128, bz: i128) -> (r: i128)
    requires
        -0x4000_0000_0000_0000 <= ax <= 0x4000_0000_0000_0000,
        -0x4000_0000_0000_0000 <= ay <= 0x4000_0000_0000_0000,
        -0x4000_0000_0000_0000 <= az <= 0x4000_0000_0000_0000,
        -0x4000_0000_0000_0000 <= bx <= 0x4000_0000_0000_0000,
        -0x4000_0000_0000_0000 <= by <= 0x4000_0000_0000_0000,
        -0x4000_0000_0000_0000 <= bz <= 0x4000_0000_0000_0000,
    ensures
        r == sdot(ax as int, ay as int, az as int, bx as int, by as int, bz as int),
{
    proof {
        lemma_mul_bound(ax as int, bx as int, 0x4000_0000_0000_0000, 0x4000_0000_0000_0000);
        lemma_mul_bound(ay as int, by as int, 0x4000_0000_0000_0000, 0x4000_0000_0000_0000);
        lemma_mul_bound(az as int, bz as int, 0x4000_0000_0000_0000, 0x4000_0000_0000_0000);
    }
    ax * bx + ay * by + az * bz
}

/// Exact cross product on `i128` values.
pub fn cross3(ax: i128, ay: i128, az: i128, bx: i128, by: i128, bz: i128) -> (r: (i128, i128, i128))
    requires
        -0x4000_0000_0000_0000 <= ax <= 0x4000_0000_0000_0000,
        -0x4000_0000_0000_0000 <= ay <= 0x4000_0000_0000_0000,
        -0x4000_0000_0000_0000 <= az <= 0x4000_0000_0000_0000,
        -0x4000_0000_0000_0000 <= bx <= 0x4000_0000_0000_0000,
        -0x4000_0000_0000_0000 <= by <= 0x4000_0000_0000_0000,
        -0x4000_0000_0000_0000 <= bz <= 0x4000_0000_0000_0000,
    ensures
        (r.0 as int, r.1 as int, r.2 as int) == scross(
            ax as int,
            ay as int,
            az as int,
            bx as int,
            by as int,
            bz as int,
        ),
{
    proof {
        lemma_mul_bound(ay as int, bz as int, 0x4000_0000_0000_0000, 0x4000_0000_0000_0000);
        lemma_mul_bound(az as int, by as int, 0x4000_0000_0000_0000, 0x4000_0000_0000_0000);
        lemma_mul_bound(az as int, bx as int, 0x4000_0000_0000_0000, 0x4000_0000_0000_0000);
        lemma_mul_bound(ax as int, bz as int, 0x4000_0000_0000_0000, 0x4000_0000_0000_0000);
        lemma_mul_bound(ax as int, by as int, 0x4000_0000_0000_0000, 0x4000_0000_0000_0000);
        lemma_mul_bound(ay as int, bx as int, 0x4000_0000_0000_0000, 0x4000_0000_0000_0000);
    }
    (ay * bz - az * by, az * bx - ax * bz, ax * by - ay * bx)
}

/// Fixed-point linear interpolation: the value at parameter `t` (scaled by
/// [`TONE`]) on the way from `a` to `b`.
pub open spec fn spec_lerp(a: int, b: int, t: int) -> int {
    a + div_tz((b - a) * t, TONE as int)
}

/// The interpolant stays within the bound that covers both endpoints.
pub proof fn lemma_lerp_bound(a: int, b: int, t: int, m: int)
    requires
        -m <= a <= m,
        -m <= b <= m,
        0 <= t <= TONE,
        0 <= m,
    ensures
        -3 * m <= spec_lerp(a, b, t) <= 3 * m,
{
    lemma_mul_bound(b - a, t, 2 * m, TONE as int);
    lemma_div_tz_ratio((b - a) * t, TONE as int, 2 * m);
}

/// Exact fixed-point interpolation on `i64` values.
pub fn lerp_fx(a: i64, b: i64, t: i64) -> (r: i64)
    requires
        -0x100_0000_0000 <= a <= 0x100_0000_0000,
        -0x100_0000_0000 <= b <= 0x100_0000_0000,
        0 <= t <= TONE,
    ensures
        r == spec_lerp(a as int, b as int, t as int),
        -0x300_0000_0000 <= r <= 0x300_0000_0000,
{
    proof {
        lemma_mul_bound(b - a, t as int, 0x200_0000_0000, TONE as int);
        lemma_div_tz_ratio((b - a) * (t as int), TONE as int, 0x200_0000_0000);
        lemma_lerp_bound(a as int, b as int, t as int, 0x100_0000_0000);
    }
    let d: i64 = b - a;
    let q: i64 = div64(d * t, TONE);
    a + q
}

/// One row of a matrix application: the dot product of row `r` with the
/// homogeneous point, rescaled back to fixed point.
pub open spec fn spec_row(m: Mat4, r: int, p: Vec4) -> int
    recommends
        0 <= r < 4,
{
    div_tz(
        m.m[4 * r] * p.x + m.m[4 * r + 1] * p.y + m.m[4 * r + 2] * p.z + m.m[4 * r + 3] * p.w,
        ONE as int,
    )
}

/// Applying a matrix to a homogeneous point. `None` when a component of the
/// result leaves the supported coordinate range: such a point is treated as
/// degenerate and its edge is dropped.
pub open spec fn spec_apply(m: Mat4, p: Vec4) -> Option<Vec4> {
    let r0 = spec_row(m, 0, p);
    let r1 = spec_row(m, 1, p);
    let r2 = spec_row(m, 2, p);
    let r3 = spec_row(m, 3, p);
    if in_v(r0) && in_v(r1) && in_v(r2) && in_v(r3) {
        Some(Vec4 { x: r0 as i64, y: r1 as i64, z: r2 as i64, w: r3 as i64 })
    } else {
        None
    }
}

impl Mat4 {
    /// One row of `self * p`, exactly as [`spec_row`] states it.
    fn apply_row(&self, r: usize, p: Vec4) -> (res: i64)
        requires
            self.wf(),
            vec4_in_v(p),
            r < 4,
        ensures
            res == spec_row(*self, r as int, p),
            -0x100_0000_0000 <= res <= 0x100_0000_0000,
    {
        proof {
            lemma_mul_bound(self.m[4 * r as int] as int, p.x as int, MLIM as int, VLIM as int);
            lemma_mul_bound(self.m[4 * r as int + 1] as int, p.y as int, MLIM as int, VLIM as int);
            lemma_mul_bound(self.m[4 * r as int + 2] as int, p.z as int, MLIM as int, VLIM as int);
            lemma_mul_bound(self.m[4 * r as int + 3] as int, p.w as int, MLIM as int, VLIM as int);
        }
        let s: i128 = (self.m[4 * r] as i128) * (p.x as i128) + (self.m[4 * r + 1] as i128) * (
        p.y as i128) + (self.m[4 * r + 2] as i128) * (p.z as i128) + (self.m[4 * r + 3] as i128) * (
        p.w as i128);
        let q: i128 = div128(s, ONE as i128);
        proof {
            lemma_div_tz_bound(s as int, ONE as int, 4 * (MLIM as int) * (VLIM as int));
            lemma_div_tz_ratio(s as int, ONE as int, 0x100_0000_0000);
        }
        q as i64
    }

    /// `self * p`, exactly as [`spec_apply`] states it.
    pub fn apply(&self, p: Vec4) -> (res: Option<Vec4>)
        requires
            self.wf(),
            vec4_in_v(p),
        ensures
            res == spec_apply(*self, p),
    {
        let r0 = self.apply_row(0, p);
        let r1 = self.apply_row(1, p);
        let r2 = self.apply_row(2, p);
        let r3 = self.apply_row(3, p);
        if -VLIM <= r0 && r0 <= VLIM && -VLIM <= r1 && r1 <= VLIM && -VLIM <= r2 && r2 <= VLIM
            && -VLIM <= r3 && r3 <= VLIM {
            Some(Vec4 { x: r0, y: r1, z: r2, w: r3 })
        } else {
            None
        }
    }
}

/// The interpolant lies between the endpoints.
pub proof fn lemma_lerp_between(a: int, b: int, t: int)
    requires
        0 <= t <= TONE,
    ensures
        a <= b ==> a <= spec_lerp(a, b, t) <= b,
        b <= a ==> b <= spec_lerp(a, b, t) <= a,
{
    let d = b - a;
    if d >= 0 {
        lemma_mul_bound(d, t, d, TONE as int);
        lemma_div_tz_ratio(d * t, TONE as int, d);
        assert(d * t >= 0) by (nonlinear_arith)
            requires
                d >= 0,
                t >= 0,
        ;
        lemma_div_tz_bound(d * t, TONE as int, d * (TONE as int));
    } else {
        lemma_mul_bound(d, t, -d, TONE as int);
        lemma_div_tz_ratio(d * t, TONE as int, -d);
        assert(d * t <= 0) by (nonlinear_arith)
            requires
                d <= 0,
                t >= 0,
        ;
        lemma_div_tz_bound(d * t, TONE as int, (-d) * (TONE as int));
    }
}

/// For nondecreasing endpoints the interpolant is monotone in the
/// parameter.
pub proof fn lemma_lerp_mono(a: int, b: int, t1: int, t2: int)
    requires
        a <= b,
        0 <= t1 <= t2 <= TONE,
    ensures
        spec_lerp(a, b, t1) <= spec_lerp(a, b, t2),
{
    let d = b - a;
    assert(0 <= d * t1 <= d * t2) by (nonlinear_arith)
        requires
            d >= 0,
            0 <= t1 <= t2,
    ;
    assert((d * t1) / (TONE as int) <= (d * t2) / (TONE as int)) by (nonlinear_arith)
        requires
            0 <= d * t1 <= d * t2,
    ;
}

/// Interpolation at the parameter ends returns the endpoints exactly.
pub proof fn lemma_lerp_ends(a: int, b: int)
    ensures
        spec_lerp(a, b, 0) == a,
        spec_lerp(a, b, TONE as int) == b,
{
    let d = b - a;
    assert(d * 0 == 0) by (nonlinear_arith);
    assert(div_tz(0, TONE as int) == 0);
    if d >= 0 {
        assert((d * (TONE as int)) / (TONE as int) == d) by (nonlinear_arith)
            requires
                d >= 0,
        ;
        assert(d * (TONE as int) >= 0) by (nonlinear_arith)
            requires
                d >= 0,
        ;
    } else {
        assert(((-d) * (TONE as int)) / (TONE as int) == -d) by (nonlinear_arith)
            requires
                -d >= 0,
        ;
        assert(d * (TONE as int) < 0) by (nonlinear_arith)
            requires
                d < 0,
        ;
        assert(-(d * (TONE as int)) == (-d) * (TONE as int)) by (nonlinear_arith);
    }
}

} // verus!
