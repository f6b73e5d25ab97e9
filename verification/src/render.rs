//! Region rasterization.
//!
//! A rectangular plane region is mapped onto a pixel grid whose
//! height follows the region's aspect ratio. Each pixel is an
//! independent pure computation: the escape magnitude of its sample
//! point, clamped to a depth-scaled bound and turned into a
//! monochrome green intensity. Deeper zooms get proportionally more
//! iterations and a wider normalization range.

use vstd::prelude::*;
use crate::escape::escape_z;
use crate::escape::mandelbrot;
use crate::fixed::clip_coord;
use crate::fixed::clip_to_coord;
use crate::fixed::div_int;
use crate::fixed::iabs;
use crate::fixed::in_range;
use crate::fixed::lemma_abs_mul;
use crate::fixed::lemma_intensity_bounded;
use crate::fixed::rdiv;
use crate::fixed::rdiv_u128;
use crate::fixed::tdiv;
use crate::fixed::COORD_MAX;
use crate::fixed::SCALE;
use crate::vec2::mag_spec;
use crate::vec2::vec_in_range;
use crate::vec2::Vec2;
use vstd::arithmetic::div_mod::lemma_div_is_ordered;
use vstd::arithmetic::div_mod::lemma_div_pos_is_pos;
use vstd::arithmetic::div_mod::lemma_fundamental_div_mod;
use vstd::arithmetic::div_mod::lemma_fundamental_div_mod_converse_div;
use vstd::arithmetic::div_mod::lemma_fundamental_div_mod_converse_mod;
use vstd::arithmetic::div_mod::lemma_mod_division_less_than_divisor;
use vstd::arithmetic::mul::lemma_mul_basics;
use vstd::arithmetic::mul::lemma_mul_is_commutative;
use vstd::arithmetic::mul::lemma_mul_is_distributive_add_other_way;
use vstd::arithmetic::mul::lemma_mul_is_distributive_sub_other_way;
use vstd::arithmetic::mul::lemma_mul_upper_bound;

verus! {

/// Escape iterations granted per unit of zoom depth.
pub const ACCURACY: u32 = 30;

/// Color-normalization bound granted per unit of zoom depth, in
/// plane units.
pub const BIAS: i64 = 500;

/// One RGB pixel.
#[derive(Clone, Copy, Debug, PartialEq, Eq, Structural)]
pub struct Pixel {
    pub r: u8,
    pub g: u8,
    pub b: u8,
}

/// A `width` by `height` grid of pixels, row-major: the pixel of
/// column `ix` and row `iy` sits at index `iy * width + ix`.
#[derive(Debug, PartialEq)]
pub struct PixelBuffer {
    pub width: u32,
    pub height: u32,
    pub pixels: Vec<Pixel>,
}

/// Buffer height derived from the width and the region's aspect
/// ratio, rounded to nearest.
pub open spec fn height_for(size: Vec2, width: u32) -> int {
    rdiv(width as int * size.y as int, size.x as int)
}

/// Iteration budget at a depth.
pub open spec fn budget_for(depth: u32) -> int {
    depth as int * ACCURACY as int
}

/// Fixed-point color-scale bound at a depth.
pub open spec fn bound_for(depth: u32) -> int {
    BIAS as int * depth as int * SCALE as int
}

/// The plane point sampled for the pixel of column `ix` and row
/// `iy`, under per-axis steps `xs` and `ys`.
pub open spec fn sample_at(pos: Vec2, xs: int, ys: int, ix: int, iy: int) -> Vec2 {
    Vec2 {
        x: clip_coord(pos.x as int + ix * xs) as i64,
        y: clip_coord(pos.y as int + iy * ys) as i64,
    }
}

/// Green intensity for a raw escape magnitude under a positive
/// bound: clamped to the bound, normalized to 0..=255, rounded.
pub open spec fn intensity(raw: int, bound: int) -> int {
    rdiv(255 * (if raw <= bound { raw } else { bound }), bound)
}

/// The green channel of the pixel of column `ix` and row `iy` of a
/// render.
pub open spec fn green_at(pos: Vec2, size: Vec2, width: u32, depth: u32, ix: int, iy: int) -> int {
    let xs = tdiv(size.x as int, width as int);
    let ys = tdiv(size.y as int, height_for(size, width));
    let p = sample_at(pos, xs, ys, ix, iy);
    intensity(mag_spec(escape_z(budget_for(depth) as nat, p)), bound_for(depth))
}

/// What the rasterizer promises of one stored pixel.
pub open spec fn pixel_ok(
    p: Pixel,
    pos: Vec2,
    size: Vec2,
    width: u32,
    depth: u32,
    ix: int,
    iy: int,
) -> bool {
    &&& p.r == 0
    &&& p.b == 0
    &&& p.g as int == green_at(pos, size, width, depth, ix, iy)
}

/// Everything the rasterizer promises of a produced buffer: the
/// width asked for, the height the aspect ratio dictates, and every
/// pixel green-on-black with its depth-normalized escape intensity.
pub open spec fn render_post(r: PixelBuffer, pos: Vec2, size: Vec2, width: u32, depth: u32) -> bool {
    &&& r.width == width
    &&& r.height as int == height_for(size, width)
    &&& r.pixels@.len() == height_for(size, width) * width as int
    &&& forall|ix: int, iy: int|
        0 <= ix < width as int && 0 <= iy < height_for(size, width) ==> pixel_ok(
            #[trigger] r.pixels@[iy * width as int + ix],
            pos,
            size,
            width,
            depth,
            ix,
            iy,
        )
}

/// Row-major index arithmetic: the flat index of column `ix` and row
/// `iy` decomposes back into exactly that column and row.
proof fn lemma_row_major(ix: int, iy: int, w: int, h: int)
    requires
        0 <= ix < w,
        0 <= iy < h,
    ensures
        0 <= iy * w + ix < h * w,
        (iy * w + ix) % w == ix,
        (iy * w + ix) / w == iy,
{
    assert(0 <= iy * w + ix < h * w) by (nonlinear_arith)
        requires
            0 <= ix < w,
            0 <= iy < h,
    ;
    lemma_fundamental_div_mod_converse_div(iy * w + ix, w, iy, ix);
    lemma_fundamental_div_mod_converse_mod(iy * w + ix, w, iy, ix);
}

/// Renders a plane region onto a `width`-pixel-wide grid at a zoom
/// depth. Every pixel is green-on-black; its green channel is the
/// depth-normalized escape magnitude of its sample point.
pub fn render_mandelbrot(pos: Vec2, size: Vec2, width: u32, depth: u32) -> (r: PixelBuffer)
    requires
        vec_in_range(pos),
        vec_in_range(size),
        size.x > 0,
        size.y > 0,
        width >= 1,
        depth >= 1,
        budget_for(depth) <= u32::MAX as int,
        1 <= height_for(size, width) <= u32::MAX as int,
    ensures
        render_post(r, pos, size, width, depth),
{
    proof {
        lemma_mul_upper_bound(width as int, u32::MAX as int, size.y as int, COORD_MAX as int);
    }
    let num: u128 = (width as u128) * (size.y as u128);
    let den: u128 = size.x as u128;
    let h128: u128 = rdiv_u128(num, den);
    let height: u32 = h128 as u32;
    let xs: i64 = div_int(size.x, width as i64);
    let ys: i64 = div_int(size.y, height as i64);
    let n_iter: u32 = depth * ACCURACY;
    let bound: i64 = BIAS * (depth as i64) * SCALE;
    let mut pixels: Vec<Pixel> = Vec::new();
    let mut iy: u32 = 0;
    while iy < height
        invariant
            vec_in_range(pos),
            vec_in_range(size),
            size.x > 0,
            size.y > 0,
            width >= 1,
            depth >= 1,
            budget_for(depth) <= u32::MAX as int,
            height as int == height_for(size, width),
            height >= 1,
            xs as int == tdiv(size.x as int, width as int),
            ys as int == tdiv(size.y as int, height_for(size, width)),
            in_range(xs as int),
            in_range(ys as int),
            n_iter as int == budget_for(depth),
            bound as int == bound_for(depth),
            bound > 0,
            iy <= height,
            pixels@.len() == iy as int * width as int,
            forall|k: int|
                0 <= k < pixels@.len() ==> pixel_ok(
                    #[trigger] pixels@[k],
                    pos,
                    size,
                    width,
                    depth,
                    k % (width as int),
                    k / (width as int),
                ),
        decreases height as int - iy as int,
    {
        let mut ix: u32 = 0;
        while ix < width
            invariant
                vec_in_range(pos),
                vec_in_range(size),
                size.x > 0,
                size.y > 0,
                width >= 1,
                depth >= 1,
                budget_for(depth) <= u32::MAX as int,
                height as int == height_for(size, width),
                height >= 1,
                xs as int == tdiv(size.x as int, width as int),
                ys as int == tdiv(size.y as int, height_for(size, width)),
                in_range(xs as int),
                in_range(ys as int),
                n_iter as int == budget_for(depth),
                bound as int == bound_for(depth),
                bound > 0,
                iy < height,
                ix <= width,
                pixels@.len() == iy as int * width as int + ix as int,
                forall|k: int|
                    0 <= k < pixels@.len() ==> pixel_ok(
                        #[trigger] pixels@[k],
                        pos,
                        size,
                        width,
                        depth,
                        k % (width as int),
                        k / (width as int),
                    ),
            decreases width as int - ix as int,
        {
            proof {
                lemma_abs_mul(ix as int, xs as int);
                lemma_mul_upper_bound(
                    iabs(ix as int),
                    u32::MAX as int,
                    iabs(xs as int),
                    COORD_MAX as int,
                );
                lemma_abs_mul(iy as int, ys as int);
                lemma_mul_upper_bound(
                    iabs(iy as int),
                    u32::MAX as int,
                    iabs(ys as int),
                    COORD_MAX as int,
                );
            }
            let px: i64 = clip_to_coord(pos.x as i128 + (ix as i128) * (xs as i128));
            let py: i64 = clip_to_coord(pos.y as i128 + (iy as i128) * (ys as i128));
            let p = Vec2 { x: px, y: py };
            let raw: i64 = mandelbrot(n_iter, p);
            let clamped: i64 = if raw > bound {
                bound
            } else {
                raw
            };
            let g128: u128 = rdiv_u128(255 * (clamped as u128), bound as u128);
            proof {
                lemma_intensity_bounded(clamped as int, bound as int);
            }
            let g: u8 = g128 as u8;
            let new_pix = Pixel { r: 0, g: g, b: 0 };
            proof {
                lemma_row_major(ix as int, iy as int, width as int, height as int);
                assert(pixel_ok(new_pix, pos, size, width, depth, ix as int, iy as int));
            }
            pixels.push(new_pix);
            ix = ix + 1;
        }
        proof {
            lemma_mul_is_distributive_add_other_way(width as int, iy as int, 1);
            lemma_mul_basics(width as int);
        }
        iy = iy + 1;
    }
    proof {
        assert forall|ix: int, jy: int|
            0 <= ix < width as int && 0 <= jy < height_for(size, width) implies pixel_ok(
            #[trigger] pixels@[jy * width as int + ix],
            pos,
            size,
            width,
            depth,
            ix,
            jy,
        ) by {
            lemma_row_major(ix, jy, width as int, height as int);
        };
    }
    PixelBuffer { width, height, pixels }
}

/// A flat row-major index decomposes into a column and a row inside
/// the grid.
proof fn lemma_flat_index(k: int, w: int, h: int)
    requires
        w >= 1,
        h >= 0,
        0 <= k < h * w,
    ensures
        0 <= k % w < w,
        0 <= k / w < h,
        k == (k / w) * w + k % w,
{
    lemma_fundamental_div_mod(k, w);
    lemma_mul_is_commutative(w, k / w);
    lemma_mod_division_less_than_divisor(k, w);
    lemma_div_pos_is_pos(k, w);
    lemma_div_is_ordered(k, h * w - 1, w);
    lemma_mul_is_distributive_sub_other_way(w, h, 1);
    lemma_mul_basics(w);
    lemma_fundamental_div_mod_converse_div(h * w - 1, w, h - 1, w - 1);
}

/// Rendering is a pure function of the viewport, the width and the
/// depth: any two buffers the rasterizer can return for the same
/// inputs are identical, pixel for pixel.
pub proof fn lemma_render_deterministic(
    b1: PixelBuffer,
    b2: PixelBuffer,
    pos: Vec2,
    size: Vec2,
    width: u32,
    depth: u32,
)
    requires
        width >= 1,
        render_post(b1, pos, size, width, depth),
        render_post(b2, pos, size, width, depth),
    ensures
        b1.width == b2.width,
        b1.height == b2.height,
        b1.pixels@ == b2.pixels@,
{
    let w = width as int;
    let h = height_for(size, width);
    assert forall|k: int| 0 <= k < b1.pixels@.len() implies b1.pixels@[k] == b2.pixels@[k] by {
        lemma_flat_index(k, w, h);
        let ix = k % w;
        let iy = k / w;
        assert(pixel_ok(b1.pixels@[iy * w + ix], pos, size, width, depth, ix, iy));
        assert(pixel_ok(b2.pixels@[iy * w + ix], pos, size, width, depth, ix, iy));
    };
    assert(b1.pixels@ =~= b2.pixels@);
}

} // verus!
