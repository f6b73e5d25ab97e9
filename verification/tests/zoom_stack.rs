use mandelbrot::render::render_mandelbrot;
use mandelbrot::vec2::Vec2;
use mandelbrot::zoom::Viewport;
use mandelbrot::zoom::ZoomStack;

fn base_viewport() -> Viewport {
    Viewport {
        pos: Vec2::new(-2_500_000, -1_200_000),
        size: Vec2::new(3_200_000, 2_400_000),
    }
}

#[test]
fn zoom_in_grows_depth_by_one() {
    let mut stack = ZoomStack::new(base_viewport());
    assert_eq!(stack.depth(), 1);
    stack.zoom_in(Vec2::new(0, 0));
    assert_eq!(stack.depth(), 2);
    stack.zoom_in(Vec2::new(500_000, -500_000));
    assert_eq!(stack.depth(), 3);
}

#[test]
fn zoom_in_quarters_the_extent() {
    let mut stack = ZoomStack::new(base_viewport());
    let v = stack.zoom_in(Vec2::new(250_000, 750_000));
    assert_eq!(v.size.x, 800_000);
    assert_eq!(v.size.y, 600_000);
}

#[test]
fn zoom_in_at_dead_center() {
    // From origin (-2.5, -1.2) and extent (3.2, 2.4), a centered
    // click lands on (-0.9, 0); the new viewport is
    // (-1.3, -0.3) with extent (0.8, 0.6).
    let mut stack = ZoomStack::new(base_viewport());
    let v = stack.zoom_in(Vec2::new(0, 0));
    assert_eq!(v.pos, Vec2::new(-1_300_000, -300_000));
    assert_eq!(v.size, Vec2::new(800_000, 600_000));
    assert_eq!(stack.current(), v);
}

#[test]
fn zoom_out_at_the_base_is_a_no_op() {
    let mut stack = ZoomStack::new(base_viewport());
    let v = stack.zoom_out();
    assert_eq!(stack.depth(), 1);
    assert_eq!(v, base_viewport());
}

#[test]
fn zoom_out_restores_the_previous_viewport_exactly() {
    let mut stack = ZoomStack::new(base_viewport());
    let pushed = stack.zoom_in(Vec2::new(321_000, -654_000));
    assert_eq!(stack.current(), pushed);
    let restored = stack.zoom_out();
    assert_eq!(stack.depth(), 1);
    assert_eq!(restored, base_viewport());
}

#[test]
fn zoom_out_from_depth_two_rerenders_the_startup_frame() {
    // After one zoom-in and one zoom-out the base viewport is back,
    // and a fresh render at depth 1 is identical bit for bit to the
    // startup render: rendering is a pure function of its inputs.
    let base = base_viewport();
    let startup = render_mandelbrot(base.pos, base.size, 8, 1);
    let mut stack = ZoomStack::new(base);
    stack.zoom_in(Vec2::new(0, 0));
    assert_eq!(stack.depth(), 2);
    let restored = stack.zoom_out();
    assert_eq!(restored, base);
    let again = render_mandelbrot(restored.pos, restored.size, 8, 1);
    assert_eq!(startup, again);
}
