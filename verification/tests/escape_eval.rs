use mandelbrot::escape::mandelbrot;
use mandelbrot::vec2::Vec2;

#[test]
fn zero_iterations_return_the_starting_magnitude() {
    let c = Vec2::new(3_000_000, 4_000_000);
    assert_eq!(mandelbrot(0, c), c.len());
    let d = Vec2::new(-1_000_000, 250_000);
    assert_eq!(mandelbrot(0, d), d.len());
}

#[test]
fn origin_never_escapes() {
    let origin = Vec2::new(0, 0);
    for n in [0u32, 1, 2, 30, 100] {
        assert_eq!(mandelbrot(n, origin), 0);
    }
}

#[test]
fn point_two_escapes_after_one_iteration() {
    // z1 = 2*2 + 2 = 6, so the magnitude has grown past |c| = 2.
    let c = Vec2::new(2_000_000, 0);
    let grown = mandelbrot(1, c);
    assert_eq!(grown, 6_000_000);
    assert!(grown >= c.len());
    assert_eq!(c.len(), 2_000_000);
}

#[test]
fn point_two_after_two_iterations() {
    // z2 = 6*6 + 2 = 38
    let c = Vec2::new(2_000_000, 0);
    assert_eq!(mandelbrot(2, c), 38_000_000);
}

#[test]
fn minus_one_cycles_between_zero_and_minus_one() {
    // z0 = -1, z1 = 0, z2 = -1, ... after an even step the orbit is
    // back at -1.
    let c = Vec2::new(-1_000_000, 0);
    assert_eq!(mandelbrot(30, c), 1_000_000);
    assert_eq!(mandelbrot(29, c), 0);
}
