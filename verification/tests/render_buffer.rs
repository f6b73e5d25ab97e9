use mandelbrot::render::render_mandelbrot;
use mandelbrot::vec2::Vec2;

#[test]
fn height_follows_the_aspect_ratio() {
    let pos = Vec2::new(-2_500_000, -1_200_000);
    let size = Vec2::new(3_200_000, 2_400_000);
    let buf = render_mandelbrot(pos, size, 8, 1);
    // round(8 * 2.4 / 3.2) = 6
    assert_eq!(buf.width, 8);
    assert_eq!(buf.height, 6);
    assert_eq!(buf.pixels.len(), 48);
}

#[test]
fn height_rounds_to_nearest() {
    let pos = Vec2::new(0, 0);
    let size = Vec2::new(3_000_000, 2_000_000);
    // round(4 * 2 / 3) = round(2.67) = 3
    let buf = render_mandelbrot(pos, size, 4, 1);
    assert_eq!(buf.height, 3);
}

#[test]
fn pixels_are_green_on_black() {
    let pos = Vec2::new(-2_500_000, -1_200_000);
    let size = Vec2::new(3_200_000, 2_400_000);
    let buf = render_mandelbrot(pos, size, 8, 1);
    for p in &buf.pixels {
        assert_eq!(p.r, 0);
        assert_eq!(p.b, 0);
    }
}

#[test]
fn pixel_on_an_interior_point_is_black() {
    // The origin never escapes: intensity 0.
    let buf = render_mandelbrot(Vec2::new(0, 0), Vec2::new(1_000_000, 1_000_000), 1, 1);
    assert_eq!(buf.width, 1);
    assert_eq!(buf.height, 1);
    assert_eq!(buf.pixels[0].g, 0);
}

#[test]
fn pixel_on_an_escaping_point_saturates() {
    // c = 2 diverges: the magnitude passes every bound, so the
    // intensity clamps to full green.
    let buf = render_mandelbrot(Vec2::new(2_000_000, 0), Vec2::new(1_000_000, 1_000_000), 1, 1);
    assert_eq!(buf.pixels[0].g, 255);
}

#[test]
fn pixel_on_a_cycling_point_has_exact_intensity() {
    // c = -1 cycles with magnitude 1 after 30 iterations; the bound
    // at depth 1 is 500, so the intensity is round(255 / 500) = 1.
    let buf = render_mandelbrot(Vec2::new(-1_000_000, 0), Vec2::new(1_000_000, 1_000_000), 1, 1);
    assert_eq!(buf.pixels[0].g, 1);
}

#[test]
fn rendering_is_deterministic() {
    let pos = Vec2::new(-2_500_000, -1_200_000);
    let size = Vec2::new(3_200_000, 2_400_000);
    let first = render_mandelbrot(pos, size, 8, 1);
    let second = render_mandelbrot(pos, size, 8, 1);
    assert_eq!(first, second);
}
