//! Plane vectors.
//!
//! A [`Vec2`] is a point of the complex plane in fixed-point
//! coordinates, used both as a Cartesian point and, through
//! [`Vec2::cross`], as a complex number. Every operation is pure and
//! total over the representable range; each has a specification
//! function stating its exact result.

use vstd::prelude::*;
use crate::fixed::clip_coord;
use crate::fixed::clip_to_coord;
use crate::fixed::div_trunc;
use crate::fixed::fix_div;
use crate::fixed::fix_mul;
use crate::fixed::iabs;
use crate::fixed::in_range;
use crate::fixed::isqrt;
use crate::fixed::lemma_abs_mul;
use crate::fixed::sat_add;
use crate::fixed::sat_sub;
use crate::fixed::sqrt_floor;
use crate::fixed::tdiv;
use crate::fixed::COORD_MAX;
use crate::fixed::SCALE;
use vstd::arithmetic::div_mod::lemma_div_by_multiple;
use vstd::arithmetic::mul::lemma_mul_is_commutative;
use vstd::arithmetic::mul::lemma_mul_nonnegative;
use vstd::arithmetic::mul::lemma_mul_upper_bound;

verus! {

/// A point of the complex plane, fixed-point, copied by value.
#[derive(Clone, Copy, Debug, PartialEq, Eq, Structural)]
pub struct Vec2 {
    pub x: i64,
    pub y: i64,
}

/// Whether both coordinates lie in the representable range.
pub open spec fn vec_in_range(v: Vec2) -> bool {
    in_range(v.x as int) && in_range(v.y as int)
}

/// Componentwise sum, saturated.
pub open spec fn add_spec(a: Vec2, b: Vec2) -> Vec2 {
    Vec2 { x: clip_coord(a.x + b.x) as i64, y: clip_coord(a.y + b.y) as i64 }
}

/// Componentwise difference, saturated.
pub open spec fn sub_spec(a: Vec2, b: Vec2) -> Vec2 {
    Vec2 { x: clip_coord(a.x - b.x) as i64, y: clip_coord(a.y - b.y) as i64 }
}

/// Componentwise fixed-point product, saturated.
pub open spec fn hadamard_spec(a: Vec2, b: Vec2) -> Vec2 {
    Vec2 {
        x: clip_coord(tdiv(a.x * b.x, SCALE as int)) as i64,
        y: clip_coord(tdiv(a.y * b.y, SCALE as int)) as i64,
    }
}

/// Complex product, saturated: treats each vector as `x + y*i`.
pub open spec fn cross_spec(a: Vec2, b: Vec2) -> Vec2 {
    Vec2 {
        x: clip_coord(tdiv(a.x * b.x - a.y * b.y, SCALE as int)) as i64,
        y: clip_coord(tdiv(a.x * b.y + a.y * b.x, SCALE as int)) as i64,
    }
}

/// Componentwise scaling by a fixed-point scalar, saturated.
pub open spec fn scale_spec(a: Vec2, k: i64) -> Vec2 {
    Vec2 {
        x: clip_coord(tdiv(a.x * k, SCALE as int)) as i64,
        y: clip_coord(tdiv(a.y * k, SCALE as int)) as i64,
    }
}

/// Componentwise division by a nonzero fixed-point scalar, saturated.
pub open spec fn divide_spec(a: Vec2, k: i64) -> Vec2 {
    Vec2 {
        x: clip_coord(tdiv(a.x * SCALE, k as int)) as i64,
        y: clip_coord(tdiv(a.y * SCALE, k as int)) as i64,
    }
}

/// Euclidean magnitude: floor square root of `x*x + y*y`, saturated.
pub open spec fn mag_spec(a: Vec2) -> int {
    clip_coord(sqrt_floor(a.x * a.x + a.y * a.y))
}

impl Vec2 {
    /// Builds a vector, saturating each coordinate into range.
    pub fn new(x: i64, y: i64) -> (r: Self)
        ensures
            r.x as int == clip_coord(x as int),
            r.y as int == clip_coord(y as int),
            vec_in_range(r),
    {
        Vec2 { x: clip_to_coord(x as i128), y: clip_to_coord(y as i128) }
    }

    /// Componentwise sum.
    pub fn add(self, other: Vec2) -> (r: Vec2)
        ensures
            r == add_spec(self, other),
            vec_in_range(r),
    {
        Vec2 { x: sat_add(self.x, other.x), y: sat_add(self.y, other.y) }
    }

    /// Componentwise difference.
    pub fn sub(self, other: Vec2) -> (r: Vec2)
        ensures
            r == sub_spec(self, other),
            vec_in_range(r),
    {
        Vec2 { x: sat_sub(self.x, other.x), y: sat_sub(self.y, other.y) }
    }

    /// Componentwise product.
    pub fn hadamard(self, other: Vec2) -> (r: Vec2)
        requires
            vec_in_range(self),
            vec_in_range(other),
        ensures
            r == hadamard_spec(self, other),
            vec_in_range(r),
    {
        Vec2 { x: fix_mul(self.x, other.x), y: fix_mul(self.y, other.y) }
    }

    /// Complex product.
    pub fn cross(self, other: Vec2) -> (r: Vec2)
        requires
            vec_in_range(self),
            vec_in_range(other),
        ensures
            r == cross_spec(self, other),
            vec_in_range(r),
    {
        proof {
            lemma_abs_mul(self.x as int, other.x as int);
            lemma_abs_mul(self.y as int, other.y as int);
            lemma_abs_mul(self.x as int, other.y as int);
            lemma_abs_mul(self.y as int, other.x as int);
            lemma_mul_upper_bound(
                iabs(self.x as int),
                COORD_MAX as int,
                iabs(other.x as int),
                COORD_MAX as int,
            );
            lemma_mul_upper_bound(
                iabs(self.y as int),
                COORD_MAX as int,
                iabs(other.y as int),
                COORD_MAX as int,
            );
            lemma_mul_upper_bound(
                iabs(self.x as int),
                COORD_MAX as int,
                iabs(other.y as int),
                COORD_MAX as int,
            );
            lemma_mul_upper_bound(
                iabs(self.y as int),
                COORD_MAX as int,
                iabs(other.x as int),
                COORD_MAX as int,
            );
        }
        let re: i128 = (self.x as i128) * (other.x as i128) - (self.y as i128) * (other.y as i128);
        let im: i128 = (self.x as i128) * (other.y as i128) + (self.y as i128) * (other.x as i128);
        Vec2 {
            x: clip_to_coord(div_trunc(re, SCALE as i128)),
            y: clip_to_coord(div_trunc(im, SCALE as i128)),
        }
    }

    /// Scales by a fixed-point scalar.
    pub fn scale(self, k: i64) -> (r: Vec2)
        requires
            vec_in_range(self),
            in_range(k as int),
        ensures
            r == scale_spec(self, k),
            vec_in_range(r),
    {
        Vec2 { x: fix_mul(self.x, k), y: fix_mul(self.y, k) }
    }

    /// Divides by a nonzero fixed-point scalar.
    pub fn divide(self, k: i64) -> (r: Vec2)
        requires
            vec_in_range(self),
            k != 0,
        ensures
            r == divide_spec(self, k),
            vec_in_range(r),
    {
        Vec2 { x: fix_div(self.x, k), y: fix_div(self.y, k) }
    }

    /// Euclidean magnitude.
    pub fn len(self) -> (r: i64)
        requires
            vec_in_range(self),
        ensures
            r as int == mag_spec(self),
            0 <= r <= COORD_MAX,
    {
        proof {
            lemma_abs_mul(self.x as int, self.x as int);
            lemma_abs_mul(self.y as int, self.y as int);
            lemma_mul_nonnegative(iabs(self.x as int), iabs(self.x as int));
            lemma_mul_nonnegative(iabs(self.y as int), iabs(self.y as int));
            lemma_mul_upper_bound(
                iabs(self.x as int),
                COORD_MAX as int,
                iabs(self.x as int),
                COORD_MAX as int,
            );
            lemma_mul_upper_bound(
                iabs(self.y as int),
                COORD_MAX as int,
                iabs(self.y as int),
                COORD_MAX as int,
            );
            assert((self.x as int) * (self.x as int) >= 0) by (nonlinear_arith);
            assert((self.y as int) * (self.y as int) >= 0) by (nonlinear_arith);
        }
        let xx: i128 = (self.x as i128) * (self.x as i128);
        let yy: i128 = (self.y as i128) * (self.y as i128);
        let s: u128 = (xx + yy) as u128;
        let root: u64 = isqrt(s);
        if root > COORD_MAX as u64 {
            COORD_MAX
        } else {
            root as i64
        }
    }
}

/// Addition of plane vectors is commutative.
pub proof fn lemma_add_commutative(a: Vec2, b: Vec2)
    ensures
        add_spec(a, b) == add_spec(b, a),
{
}

/// Subtracting an addend recovers the other summand, wherever the sum
/// itself is representable.
pub proof fn lemma_sub_add_cancels(a: Vec2, b: Vec2)
    requires
        vec_in_range(a),
        vec_in_range(b),
        in_range(a.x + b.x),
        in_range(a.y + b.y),
    ensures
        sub_spec(add_spec(a, b), b) == a,
{
}

/// The complex product is commutative.
pub proof fn lemma_cross_commutative(a: Vec2, b: Vec2)
    ensures
        cross_spec(a, b) == cross_spec(b, a),
{
    lemma_mul_is_commutative(a.x as int, b.x as int);
    lemma_mul_is_commutative(a.y as int, b.y as int);
    lemma_mul_is_commutative(a.x as int, b.y as int);
    lemma_mul_is_commutative(a.y as int, b.x as int);
}

/// The complex unit `1 + 0*i` is a multiplicative identity for the
/// complex product.
pub proof fn lemma_cross_identity(v: Vec2)
    requires
        vec_in_range(v),
    ensures
        cross_spec((Vec2 { x: SCALE, y: 0 }), v) == v,
{
    lemma_cross_identity_coord(v.x as int);
    lemma_cross_identity_coord(v.y as int);
}

/// One coordinate of the identity product: scaling by the unit and
/// renormalizing is the identity.
proof fn lemma_cross_identity_coord(c: int)
    ensures
        tdiv(SCALE as int * c, SCALE as int) == c,
{
    lemma_abs_mul(SCALE as int, c);
    lemma_div_by_multiple(iabs(c), SCALE as int);
    assert(iabs(SCALE as int * c) / iabs(SCALE as int) == iabs(c));
    if c >= 0 {
        lemma_mul_nonnegative(SCALE as int, c);
    } else {
        assert(SCALE as int * c < 0) by (nonlinear_arith)
            requires
                c < 0,
        ;
    }
}

} // verus!
