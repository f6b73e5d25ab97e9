//! Fixed-point arithmetic on the complex plane.
//!
//! A plane coordinate is an `i64` holding the real value scaled by
//! [`SCALE`]. The representable range is `[-COORD_MAX, COORD_MAX]`;
//! results outside it saturate, and [`clip_coord`] is the
//! specification of that saturation. Quotients truncate toward zero
//! ([`tdiv`]); the rasterizer's intensity curve rounds to nearest
//! ([`rdiv`]). [`sqrt_floor`] specifies the integer square root used
//! for magnitudes.

use vstd::prelude::*;
use vstd::arithmetic::div_mod::lemma_div_is_ordered_by_denominator;
use vstd::arithmetic::div_mod::lemma_div_basics;
use vstd::arithmetic::div_mod::lemma_div_is_ordered;
use vstd::arithmetic::div_mod::lemma_div_pos_is_pos;
use vstd::arithmetic::div_mod::lemma_fundamental_div_mod_converse_div;
use vstd::arithmetic::mul::lemma_mul_upper_bound;

verus! {

/// Number of fixed-point units per plane unit.
pub const SCALE: i64 = 1_000_000;

/// Largest representable coordinate, in fixed-point units.
pub const COORD_MAX: i64 = 0x4000_0000_0000_0000;

/// Whether an integer lies in the representable coordinate range.
pub open spec fn in_range(v: int) -> bool {
    -(COORD_MAX as int) <= v <= COORD_MAX as int
}

/// Saturation of an unbounded integer into the coordinate range.
pub open spec fn clip_coord(v: int) -> int {
    if v > COORD_MAX as int {
        COORD_MAX as int
    } else if v < -(COORD_MAX as int) {
        -(COORD_MAX as int)
    } else {
        v
    }
}

/// Absolute value.
pub open spec fn iabs(a: int) -> int {
    if a >= 0 {
        a
    } else {
        -a
    }
}

/// Truncating (round-toward-zero) division, the semantics of every
/// fixed-point quotient in this crate. Meaningful for `d != 0`.
pub open spec fn tdiv(a: int, d: int) -> int {
    if (a >= 0) == (d >= 0) {
        iabs(a) / iabs(d)
    } else {
        -(iabs(a) / iabs(d))
    }
}

/// Round-half-up division, for non-negative `a` and positive `d`.
pub open spec fn rdiv(a: int, d: int) -> int {
    (2 * a + d) / (2 * d)
}

/// Floor of the square root of a non-negative integer.
pub open spec fn sqrt_floor(n: int) -> int
    decreases n,
{
    if n < 1 {
        0
    } else {
        let r = sqrt_floor(n - 1);
        if (r + 1) * (r + 1) <= n {
            r + 1
        } else {
            r
        }
    }
}

/// `sqrt_floor(n)` is the unique non-negative root with
/// `r * r <= n < (r + 1) * (r + 1)`.
pub proof fn lemma_sqrt_floor_bounds(n: int)
    requires
        n >= 0,
    ensures
        sqrt_floor(n) >= 0,
        sqrt_floor(n) * sqrt_floor(n) <= n,
        n < (sqrt_floor(n) + 1) * (sqrt_floor(n) + 1),
    decreases n,
{
    if n == 0 {
    } else {
        lemma_sqrt_floor_bounds(n - 1);
        let r0 = sqrt_floor(n - 1);
        if (r0 + 1) * (r0 + 1) <= n {
            assert((r0 + 1 + 1) * (r0 + 1 + 1) > n) by (nonlinear_arith)
                requires
                    r0 >= 0,
                    n - 1 < (r0 + 1) * (r0 + 1),
            ;
        }
    }
}

/// Any root meeting the floor-square-root bounds is `sqrt_floor(n)`.
pub proof fn lemma_sqrt_floor_unique(n: int, r: int)
    requires
        n >= 0,
        r >= 0,
        r * r <= n,
        n < (r + 1) * (r + 1),
    ensures
        sqrt_floor(n) == r,
{
    lemma_sqrt_floor_bounds(n);
    let s = sqrt_floor(n);
    if s < r {
        assert((s + 1) * (s + 1) <= r * r) by (nonlinear_arith)
            requires
                0 <= s,
                s < r,
        ;
        assert(false);
    }
    if s > r {
        assert((r + 1) * (r + 1) <= s * s) by (nonlinear_arith)
            requires
                0 <= r,
                r < s,
        ;
        assert(false);
    }
}

/// The magnitude of a product is the product of the magnitudes.
pub proof fn lemma_abs_mul(x: int, y: int)
    ensures
        iabs(x * y) == iabs(x) * iabs(y),
{
    assert(iabs(x * y) == iabs(x) * iabs(y)) by (nonlinear_arith);
}

/// Saturating addition of two coordinates.
pub fn sat_add(a: i64, b: i64) -> (r: i64)
    ensures
        r as int == clip_coord(a as int + b as int),
{
    let wide: i128 = a as i128 + b as i128;
    clip_to_coord(wide)
}

/// Saturating subtraction of two coordinates.
pub fn sat_sub(a: i64, b: i64) -> (r: i64)
    ensures
        r as int == clip_coord(a as int - b as int),
{
    let wide: i128 = a as i128 - b as i128;
    clip_to_coord(wide)
}

/// Saturation of a wide intermediate into the coordinate range.
pub fn clip_to_coord(w: i128) -> (r: i64)
    ensures
        r as int == clip_coord(w as int),
{
    if w > COORD_MAX as i128 {
        COORD_MAX
    } else if w < -(COORD_MAX as i128) {
        -COORD_MAX
    } else {
        w as i64
    }
}

/// Truncating division on wide intermediates.
pub fn div_trunc(a: i128, d: i128) -> (r: i128)
    requires
        d != 0,
        a != i128::MIN,
        d != i128::MIN,
    ensures
        r as int == tdiv(a as int, d as int),
{
    let ua: u128 = if a >= 0 {
        a as u128
    } else {
        (-a) as u128
    };
    let ud: u128 = if d >= 0 {
        d as u128
    } else {
        (-d) as u128
    };
    let q: u128 = ua / ud;
    proof {
        assert(ua as int == iabs(a as int));
        assert(ud as int == iabs(d as int));
        lemma_div_basics(ua as int);
        lemma_div_is_ordered_by_denominator(ua as int, 1, ud as int);
        assert(q <= ua);
    }
    if (a >= 0) == (d >= 0) {
        q as i128
    } else {
        -(q as i128)
    }
}

/// Fixed-point product of two coordinates: `(a * b) / SCALE`,
/// truncated, then saturated.
pub fn fix_mul(a: i64, b: i64) -> (r: i64)
    requires
        in_range(a as int),
        in_range(b as int),
    ensures
        r as int == clip_coord(tdiv(a as int * b as int, SCALE as int)),
{
    proof {
        lemma_abs_mul(a as int, b as int);
        lemma_mul_upper_bound(
            iabs(a as int),
            COORD_MAX as int,
            iabs(b as int),
            COORD_MAX as int,
        );
    }
    let wide: i128 = (a as i128) * (b as i128);
    let q = div_trunc(wide, SCALE as i128);
    clip_to_coord(q)
}

/// Fixed-point quotient of a coordinate by a fixed-point scalar:
/// `(a * SCALE) / k`, truncated, then saturated. The divisor must be
/// nonzero.
pub fn fix_div(a: i64, k: i64) -> (r: i64)
    requires
        in_range(a as int),
        k != 0,
    ensures
        r as int == clip_coord(tdiv(a as int * SCALE as int, k as int)),
{
    proof {
        lemma_abs_mul(a as int, SCALE as int);
        lemma_mul_upper_bound(iabs(a as int), COORD_MAX as int, SCALE as int, SCALE as int);
    }
    let wide: i128 = (a as i128) * (SCALE as i128);
    let q = div_trunc(wide, k as i128);
    clip_to_coord(q)
}

/// Truncating division of a coordinate by a positive plain integer.
/// The result needs no saturation: its magnitude never exceeds the
/// dividend's.
pub fn div_int(a: i64, m: i64) -> (r: i64)
    requires
        m > 0,
    ensures
        r as int == tdiv(a as int, m as int),
        iabs(r as int) <= iabs(a as int),
{
    let q = div_trunc(a as i128, m as i128);
    proof {
        lemma_div_basics(iabs(a as int));
        lemma_div_is_ordered_by_denominator(iabs(a as int), 1, m as int);
    }
    q as i64
}

/// Round-half-up division on wide words.
pub fn rdiv_u128(a: u128, d: u128) -> (r: u128)
    requires
        0 < d <= u128::MAX / 4,
        a <= u128::MAX / 4,
    ensures
        r as int == rdiv(a as int, d as int),
{
    (2 * a + d) / (2 * d)
}

/// A magnitude clamped to a positive bound, normalized to the 0..=255
/// intensity range and rounded, never leaves that range.
pub proof fn lemma_intensity_bounded(c: int, b: int)
    requires
        0 <= c <= b,
        b > 0,
    ensures
        0 <= rdiv(255 * c, b) <= 255,
{
    lemma_div_pos_is_pos(2 * (255 * c) + b, 2 * b);
    lemma_div_is_ordered(2 * (255 * c) + b, 2 * (255 * b) + b, 2 * b);
    lemma_fundamental_div_mod_converse_div(255 * (2 * b) + b, 2 * b, 255, b);
    assert(2 * (255 * b) + b == 255 * (2 * b) + b);
}

/// Floor of the square root, by binary search on wide words.
pub fn isqrt(n: u128) -> (r: u64)
    ensures
        r as int == sqrt_floor(n as int),
{
    let mut lo: u128 = 0;
    let mut hi: u128 = 0x1_0000_0000_0000_0000;
    proof {
        assert((0x1_0000_0000_0000_0000 as int) * (0x1_0000_0000_0000_0000 as int) > u128::MAX as int)
            by (nonlinear_arith);
    }
    while lo + 1 < hi
        invariant
            lo < hi <= 0x1_0000_0000_0000_0000u128,
            (lo as int) * (lo as int) <= n as int,
            (n as int) < (hi as int) * (hi as int),
        decreases hi - lo,
    {
        let mid: u128 = lo + (hi - lo) / 2;
        proof {
            assert(lo < mid < hi);
            lemma_mul_upper_bound(
                mid as int,
                0xffff_ffff_ffff_ffff,
                mid as int,
                0xffff_ffff_ffff_ffff,
            );
            assert((0xffff_ffff_ffff_ffff as int) * (0xffff_ffff_ffff_ffff as int)
                <= u128::MAX as int) by (nonlinear_arith);
        }
        let sq: u128 = mid * mid;
        if sq <= n {
            lo = mid;
        } else {
            hi = mid;
        }
    }
    proof {
        lemma_sqrt_floor_unique(n as int, lo as int);
    }
    lo as u64
}

} // verus!
