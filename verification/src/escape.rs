//! Escape-time evaluation.
//!
//! Starting from `z = c`, the orbit of a point `c` under
//! `z <- z*z + c` is followed for exactly the given number of steps —
//! no early exit on divergence, so every pixel costs the same — and
//! the magnitude of the final orbit point is returned.

use vstd::prelude::*;
use crate::vec2::add_spec;
use crate::vec2::cross_spec;
use crate::vec2::mag_spec;
use crate::vec2::vec_in_range;
use crate::vec2::Vec2;
use crate::fixed::lemma_sqrt_floor_unique;
use vstd::arithmetic::div_mod::lemma_fundamental_div_mod_converse_div;

verus! {

/// The orbit point after `n` applications of `z <- z*z + c`,
/// starting from `z = c`.
pub open spec fn escape_z(n: nat, c: Vec2) -> Vec2
    decreases n,
{
    if n == 0 {
        c
    } else {
        let z = escape_z((n - 1) as nat, c);
        add_spec(cross_spec(z, z), c)
    }
}

/// Escape-time evaluator: applies `z <- z*z + c` exactly `n` times
/// and returns the magnitude of the final orbit point.
pub fn mandelbrot(n: u32, c: Vec2) -> (r: i64)
    requires
        vec_in_range(c),
    ensures
        r as int == mag_spec(escape_z(n as nat, c)),
        r >= 0,
{
    let mut z = c;
    let mut i: u32 = 0;
    while i < n
        invariant
            i <= n,
            vec_in_range(c),
            vec_in_range(z),
            z == escape_z(i as nat, c),
        decreases n - i,
    {
        z = z.cross(z).add(c);
        i = i + 1;
    }
    z.len()
}

/// With a zero iteration budget, the escape magnitude is the
/// magnitude of the starting point itself.
pub proof fn lemma_escape_zero(c: Vec2)
    ensures
        mag_spec(escape_z(0, c)) == mag_spec(c),
{
}

/// The origin never escapes: its orbit stays at the origin under
/// every iteration budget, so its escape magnitude is zero.
pub proof fn lemma_origin_never_escapes(n: nat)
    ensures
        escape_z(n, (Vec2 { x: 0, y: 0 })) == (Vec2 { x: 0, y: 0 }),
        mag_spec(escape_z(n, (Vec2 { x: 0, y: 0 }))) == 0,
    decreases n,
{
    let o = Vec2 { x: 0, y: 0 };
    if n > 0 {
        lemma_origin_never_escapes((n - 1) as nat);
        assert(cross_spec(o, o) == o);
        assert(add_spec(o, o) == o);
    }
    assert(mag_spec(o) == 0);
}

/// At the point `c = 2 + 0i`, a single iteration already grows the
/// magnitude strictly beyond the starting magnitude of two.
pub proof fn lemma_point_two_escapes()
    ensures
        mag_spec(escape_z(1, (Vec2 { x: 2_000_000, y: 0 }))) >= mag_spec(
            (Vec2 { x: 2_000_000, y: 0 }),
        ),
        mag_spec((Vec2 { x: 2_000_000, y: 0 })) == 2_000_000,
{
    let c = Vec2 { x: 2_000_000, y: 0 };
    lemma_sqrt_floor_unique(4_000_000_000_000, 2_000_000);
    assert(mag_spec(c) == 2_000_000);
    lemma_fundamental_div_mod_converse_div(4_000_000_000_000, 1_000_000, 4_000_000, 0);
    assert(cross_spec(c, c) == (Vec2 { x: 4_000_000, y: 0 }));
    assert(escape_z(0, c) == c);
    assert(escape_z(1, c) == add_spec(cross_spec(c, c), c));
    assert(add_spec((Vec2 { x: 4_000_000, y: 0 }), c) == (Vec2 { x: 6_000_000, y: 0 }));
    lemma_sqrt_floor_unique(36_000_000_000_000, 6_000_000);
    assert(mag_spec(escape_z(1, c)) == 6_000_000);
}

} // verus!
