//! Fixed-point arithmetic for the geometry pipeline.
//!
//! Real-valued quantities are stored as `i64` values scaled by [`ONE`];
//! intermediate products are computed in `i128`. Division truncates toward
//! zero, which [`div_tz`] states exactly.

use vstd::prelude::*;

verus! {

/// Fixed-point scale: a stored value `v` stands for the real number `v / ONE`.
pub const ONE: i64 = 65536;

/// Scale for parameters along a segment or an edge: `0` is the start point,
/// `TONE` the end point.
pub const TONE: i64 = 65536;

/// Bound on caller-supplied coordinates and matrix entries.
pub const MLIM: i64 = 0x400_0000;

/// Bound on transformed coordinates; a point that leaves this range during
/// transformation is treated as degenerate and its edge is dropped.
pub const VLIM: i64 = 0x800_0000;

/// Bound on normalized device coordinates after the perspective divide.
pub const NDC_LIM: i64 = 0x100_0000;

/// Bound on screen-space fixed-point coordinates.
pub const SLIM: i64 = 0x40_0000_0000;

/// Near-plane threshold on the clip-space `w` coordinate: points with
/// `w < W_NEAR` count as behind the camera.
pub const W_NEAR: i64 = 256;

/// Defensive floor on `w` after clipping; truncation may leave a clipped
/// endpoint slightly below [`W_NEAR`], never below this.
pub const W_HALF: i64 = 128;

/// Cap on the fit-to-canvas scale factor (1024, in [`ONE`] units):
/// geometry is never enlarged beyond this, so near-point geometry is not
/// blown up without bound.
pub const FIT_SCALE_MAX: i64 = 0x400_0000;

/// Tolerance on split parameters: intersections closer than this to a
/// segment end, or to another split, are suppressed as degenerate.
pub const EPS_T: i64 = 16;

/// Occlusion tolerance: a hit must be closer than `1 - RAY_EPS/ONE` of the
/// distance to the sample point to count as occluding it.
pub const RAY_EPS: i64 = 256;

/// Division truncated toward zero, the semantics of every fixed-point
/// division in this crate.
pub open spec fn div_tz(a: int, b: int) -> int
    recommends
        b > 0,
{
    if a >= 0 {
        a / b
    } else {
        -((-a) / b)
    }
}

/// The product of values bounded in magnitude is bounded by the product of
/// the bounds.
pub proof fn lemma_mul_bound(a: int, b: int, ma: int, mb: int)
    requires
        -ma <= a <= ma,
        -mb <= b <= mb,
        0 <= ma,
        0 <= mb,
    ensures
        -(ma * mb) <= a * b <= ma * mb,
{
    assert(-(ma * mb) <= a * b <= ma * mb) by (nonlinear_arith)
        requires
            -ma <= a <= ma,
            -mb <= b <= mb,
            0 <= ma,
            0 <= mb,
    ;
}

/// Truncating division never grows the magnitude of the dividend.
pub proof fn lemma_div_tz_bound(a: int, b: int, m: int)
    requires
        -m <= a <= m,
        b >= 1,
        0 <= m,
    ensures
        -m <= div_tz(a, b) <= m,
        a >= 0 ==> 0 <= div_tz(a, b),
        a <= 0 ==> div_tz(a, b) <= 0,
{
    if a >= 0 {
        assert(0 <= a / b <= a) by (nonlinear_arith)
            requires
                a >= 0,
                b >= 1,
        ;
    } else {
        assert(0 <= (-a) / b <= -a) by (nonlinear_arith)
            requires
                -a >= 0,
                b >= 1,
        ;
    }
}

/// Truncating division by `b` of a value within `m * b` stays within `m`.
pub proof fn lemma_div_tz_ratio(a: int, b: int, m: int)
    requires
        -(m * b) <= a <= m * b,
        b >= 1,
        m >= 0,
    ensures
        -m <= div_tz(a, b) <= m,
{
    if a >= 0 {
        assert(0 <= a / b <= m) by (nonlinear_arith)
            requires
                0 <= a <= m * b,
                b >= 1,
        ;
    } else {
        assert(0 <= (-a) / b <= m) by (nonlinear_arith)
            requires
                0 <= -a <= m * b,
                b >= 1,
        ;
    }
}

/// Multiplying the smaller of two nonnegative values by a nonnegative
/// factor keeps it the smaller.
pub proof fn lemma_mul_le_mono(a: int, b: int, c: int)
    requires
        a <= b,
        0 <= c,
    ensures
        a * c <= b * c,
{
    assert(a * c <= b * c) by (nonlinear_arith)
        requires
            a <= b,
            0 <= c,
    ;
}

/// Truncating division is monotone in a nonnegative dividend.
pub proof fn lemma_div_tz_mono(a: int, b: int, d: int)
    requires
        0 <= a <= b,
        d >= 1,
    ensures
        0 <= div_tz(a, d) <= div_tz(b, d),
{
    assert(0 <= a / d <= b / d) by (nonlinear_arith)
        requires
            0 <= a <= b,
            d >= 1,
    ;
}

/// The truncated quotient scaled back never exceeds the dividend.
pub proof fn lemma_div_tz_mul_le(a: int, b: int)
    requires
        a >= 0,
        b >= 1,
    ensures
        div_tz(a, b) * b <= a,
        0 <= div_tz(a, b),
{
    assert((a / b) * b <= a && 0 <= a / b) by (nonlinear_arith)
        requires
            a >= 0,
            b >= 1,
    ;
}

/// Truncating division on `i64`, computed on unsigned magnitudes.
pub fn div64(a: i64, b: i64) -> (r: i64)
    requires
        0 < b,
        -0x4000_0000_0000_0000 < a < 0x4000_0000_0000_0000,
    ensures
        r == div_tz(a as int, b as int),
{
    if a >= 0 {
        let ua: u64 = a as u64;
        let ub: u64 = b as u64;
        let q: u64 = ua / ub;
        proof {
            assert(ua as int / ub as int <= ua as int) by (nonlinear_arith)
                requires
                    ub >= 1,
                    ua >= 0,
            ;
        }
        q as i64
    } else {
        let ua: u64 = (-a) as u64;
        let ub: u64 = b as u64;
        let q: u64 = ua / ub;
        proof {
            assert(ua as int / ub as int <= ua as int) by (nonlinear_arith)
                requires
                    ub >= 1,
                    ua >= 0,
            ;
        }
        -(q as i64)
    }
}

/// Truncating division on `i128`, computed on unsigned magnitudes.
pub fn div128(a: i128, b: i128) -> (r: i128)
    requires
        0 < b,
        -0x4000_0000_0000_0000_0000_0000_0000_0000 < a < 0x4000_0000_0000_0000_0000_0000_0000_0000,
    ensures
        r == div_tz(a as int, b as int),
{
    if a >= 0 {
        let ua: u128 = a as u128;
        let ub: u128 = b as u128;
        let q: u128 = ua / ub;
        proof {
            assert(ua as int / ub as int <= ua as int) by (nonlinear_arith)
                requires
                    ub >= 1,
                    ua >= 0,
            ;
        }
        q as i128
    } else {
        let ua: u128 = (-a) as u128;
        let ub: u128 = b as u128;
        let q: u128 = ua / ub;
        proof {
            assert(ua as int / ub as int <= ua as int) by (nonlinear_arith)
                requires
                    ub >= 1,
                    ua >= 0,
            ;
        }
        -(q as i128)
    }
}

} // verus!
