//! A verified Mandelbrot-set renderer core.
//!
//! Coordinates on the complex plane are fixed-point numbers: an `i64`
//! holding the real value times [`fixed::SCALE`]. All plane arithmetic,
//! the escape-time evaluator, the rasterizer and the zoom-stack
//! navigator are verified; a thin presentation shell around this crate
//! does window and texture work.

pub mod escape;
pub mod fixed;
pub mod render;
pub mod vec2;
pub mod zoom;

use vstd::prelude::*;

verus! {

} // verus!
