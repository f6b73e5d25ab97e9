//! Zoom navigation.
//!
//! A [`ZoomStack`] is a never-empty history of viewports; the last
//! entry is the view currently shown and the length is the zoom
//! depth. Zooming in pushes a viewport a quarter the size of the
//! current one, centered on the clicked plane point; zooming out pops
//! back to the exact viewport that was current before, and is a
//! no-op at the base viewport, the permanent floor of the history.

use vstd::prelude::*;
use crate::fixed::clip_coord;
use crate::fixed::div_int;
use crate::fixed::fix_mul;
use crate::fixed::sat_add;
use crate::fixed::sat_sub;
use crate::fixed::tdiv;
use crate::fixed::SCALE;
use crate::vec2::vec_in_range;
use crate::vec2::Vec2;
use vstd::arithmetic::div_mod::lemma_div_by_multiple;
use vstd::arithmetic::div_mod::lemma_div_is_ordered;
use vstd::arithmetic::div_mod::lemma_fundamental_div_mod;
use vstd::arithmetic::mul::lemma_mul_inequality;
use vstd::arithmetic::mul::lemma_mul_nonnegative;

verus! {

/// A rectangular sub-region of the plane: `pos` is the top-left
/// corner, `size` the extent spanned on each axis.
#[derive(Clone, Copy, Debug, PartialEq, Eq, Structural)]
pub struct Viewport {
    pub pos: Vec2,
    pub size: Vec2,
}

impl Viewport {
    /// A viewport is valid when its extent is positive on both axes
    /// and its coordinates are representable.
    pub open spec fn valid(self) -> bool {
        vec_in_range(self.pos) && vec_in_range(self.size) && self.size.x > 0 && self.size.y > 0
    }
}

/// The plane point a normalized click lands on. A click coordinate
/// ranges over `[-1, 1]` relative to the display surface and is
/// mapped affinely onto the viewport's span.
pub open spec fn clicked_point_spec(v: Viewport, click: Vec2) -> Vec2 {
    Vec2 {
        x: clip_coord(
            v.pos.x + tdiv(tdiv(click.x + SCALE, 2) * v.size.x, SCALE as int),
        ) as i64,
        y: clip_coord(
            v.pos.y + tdiv(tdiv(click.y + SCALE, 2) * v.size.y, SCALE as int),
        ) as i64,
    }
}

/// The viewport a zoom-in click produces: a quarter of the current
/// extent on each axis, centered on the clicked plane point.
pub open spec fn zoom_in_spec(v: Viewport, click: Vec2) -> Viewport {
    let nsx = tdiv(v.size.x as int, 4);
    let nsy = tdiv(v.size.y as int, 4);
    let c = clicked_point_spec(v, click);
    Viewport {
        pos: Vec2 {
            x: clip_coord(c.x - tdiv(nsx, 2)) as i64,
            y: clip_coord(c.y - tdiv(nsy, 2)) as i64,
        },
        size: Vec2 { x: nsx as i64, y: nsy as i64 },
    }
}

/// An affine interpolation step stays within the span: for a
/// fraction `h` of at most one, the scaled offset lies between zero
/// and the span itself.
proof fn lemma_affine_in_span(h: int, s: int)
    requires
        0 <= h <= SCALE as int,
        0 <= s,
    ensures
        0 <= tdiv(h * s, SCALE as int) <= s,
{
    lemma_mul_nonnegative(h, s);
    lemma_mul_inequality(h, SCALE as int, s);
    lemma_div_is_ordered(h * s, SCALE as int * s, SCALE as int);
    lemma_div_by_multiple(s, SCALE as int);
    assert(SCALE as int * s == s * SCALE as int);
    lemma_div_is_ordered(0, h * s, SCALE as int);
}

/// Maps a normalized click onto the viewport's plane region.
fn clicked_point(v: Viewport, click: Vec2) -> (r: Vec2)
    requires
        v.valid(),
        -(SCALE as int) <= click.x <= SCALE as int,
        -(SCALE as int) <= click.y <= SCALE as int,
    ensures
        r == clicked_point_spec(v, click),
        vec_in_range(r),
{
    let tx = sat_add(click.x, SCALE);
    let ty = sat_add(click.y, SCALE);
    let hx = div_int(tx, 2);
    let hy = div_int(ty, 2);
    proof {
        lemma_div_is_ordered(0, tx as int, 2);
        lemma_div_is_ordered(tx as int, 2 * SCALE as int, 2);
        lemma_div_is_ordered(0, ty as int, 2);
        lemma_div_is_ordered(ty as int, 2 * SCALE as int, 2);
        assert(2 * SCALE as int / 2 == SCALE as int);
        lemma_affine_in_span(hx as int, v.size.x as int);
        lemma_affine_in_span(hy as int, v.size.y as int);
    }
    let mx = fix_mul(hx, v.size.x);
    let my = fix_mul(hy, v.size.y);
    Vec2 { x: sat_add(v.pos.x, mx), y: sat_add(v.pos.y, my) }
}

/// Computes the viewport a zoom-in click produces.
fn zoom_in_view(v: Viewport, click: Vec2) -> (r: Viewport)
    requires
        v.valid(),
        v.size.x >= 4,
        v.size.y >= 4,
        -(SCALE as int) <= click.x <= SCALE as int,
        -(SCALE as int) <= click.y <= SCALE as int,
    ensures
        r == zoom_in_spec(v, click),
        r.valid(),
{
    let c = clicked_point(v, click);
    let nsx = div_int(v.size.x, 4);
    let nsy = div_int(v.size.y, 4);
    proof {
        lemma_div_is_ordered(4, v.size.x as int, 4);
        lemma_div_is_ordered(4, v.size.y as int, 4);
    }
    let hx = div_int(nsx, 2);
    let hy = div_int(nsy, 2);
    Viewport {
        pos: Vec2 { x: sat_sub(c.x, hx), y: sat_sub(c.y, hy) },
        size: Vec2 { x: nsx, y: nsy },
    }
}

/// Navigable zoom history: a never-empty stack of viewports whose
/// last entry is the current view and whose length is the depth.
pub struct ZoomStack {
    stack: Vec<Viewport>,
}

impl View for ZoomStack {
    type V = Seq<Viewport>;

    closed spec fn view(&self) -> Seq<Viewport> {
        self.stack@
    }
}

impl ZoomStack {
    /// Well-formed: never empty, and every recorded viewport valid.
    pub open spec fn wf(&self) -> bool {
        self@.len() >= 1 && forall|i: int|
            0 <= i < self@.len() ==> (#[trigger] self@[i]).valid()
    }

    /// The viewport currently shown.
    pub open spec fn current_spec(&self) -> Viewport {
        self@.last()
    }

    /// Starts a history at a base viewport, its permanent floor.
    pub fn new(base: Viewport) -> (r: ZoomStack)
        requires
            base.valid(),
        ensures
            r.wf(),
            r@ =~= seq![base],
    {
        let mut stack: Vec<Viewport> = Vec::new();
        stack.push(base);
        ZoomStack { stack }
    }

    /// The viewport currently shown.
    pub fn current(&self) -> (v: Viewport)
        requires
            self.wf(),
        ensures
            v == self.current_spec(),
            v.valid(),
    {
        self.stack[self.stack.len() - 1]
    }

    /// The zoom depth: how many viewports the history holds.
    pub fn depth(&self) -> (d: usize)
        ensures
            d == self@.len(),
    {
        self.stack.len()
    }

    /// Zooms in on a normalized click: pushes the derived viewport
    /// and returns it. Grows the depth by exactly one. The current
    /// extent must leave room for another fourfold division.
    pub fn zoom_in(&mut self, click: Vec2) -> (v: Viewport)
        requires
            old(self).wf(),
            -(SCALE as int) <= click.x <= SCALE as int,
            -(SCALE as int) <= click.y <= SCALE as int,
            old(self).current_spec().size.x >= 4,
            old(self).current_spec().size.y >= 4,
        ensures
            final(self).wf(),
            final(self)@ == old(self)@.push(zoom_in_spec(old(self).current_spec(), click)),
            final(self)@.len() == old(self)@.len() + 1,
            v == zoom_in_spec(old(self).current_spec(), click),
            v == final(self).current_spec(),
            v.valid(),
    {
        let cur = self.current();
        let nv = zoom_in_view(cur, click);
        self.stack.push(nv);
        nv
    }

    /// Zooms out: pops the current viewport unless only the base
    /// remains, in which case the history is left unchanged. Returns
    /// the viewport now current.
    pub fn zoom_out(&mut self) -> (v: Viewport)
        requires
            old(self).wf(),
        ensures
            final(self).wf(),
            old(self)@.len() > 1 ==> final(self)@ == old(self)@.drop_last(),
            old(self)@.len() <= 1 ==> final(self)@ == old(self)@,
            v == final(self).current_spec(),
            v.valid(),
    {
        if self.stack.len() > 1 {
            let _discarded = self.stack.pop();
            proof {
                assert(self.stack@ =~= old(self)@.drop_last());
            }
        }
        self.current()
    }
}

/// Pushing a viewport and then dropping the last entry restores the
/// history exactly: a zoom-in followed by a zoom-out is the identity
/// on the stack, with no recomputation and no precision loss.
pub proof fn lemma_zoom_roundtrip(s: Seq<Viewport>, v: Viewport)
    ensures
        s.push(v).drop_last() == s,
{
    assert(s.push(v).drop_last() =~= s);
}

/// A zoom-in divides both extent components by exactly four,
/// wherever they are multiples of four.
pub proof fn lemma_zoom_in_quarters(v: Viewport, click: Vec2)
    requires
        v.valid(),
        v.size.x as int % 4 == 0,
        v.size.y as int % 4 == 0,
    ensures
        zoom_in_spec(v, click).size.x * 4 == v.size.x,
        zoom_in_spec(v, click).size.y * 4 == v.size.y,
{
    lemma_fundamental_div_mod(v.size.x as int, 4);
    lemma_fundamental_div_mod(v.size.y as int, 4);
}

} // verus!
