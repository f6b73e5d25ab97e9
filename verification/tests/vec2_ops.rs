use mandelbrot::fixed::COORD_MAX;
use mandelbrot::fixed::SCALE;
use mandelbrot::vec2::Vec2;

fn v(x: i64, y: i64) -> Vec2 {
    Vec2::new(x, y)
}

#[test]
fn new_keeps_in_range_values() {
    let a = v(3 * SCALE, -2 * SCALE);
    assert_eq!(a.x, 3_000_000);
    assert_eq!(a.y, -2_000_000);
}

#[test]
fn new_saturates_out_of_range_values() {
    let a = Vec2::new(i64::MAX, i64::MIN);
    assert_eq!(a.x, COORD_MAX);
    assert_eq!(a.y, -COORD_MAX);
}

#[test]
fn add_is_commutative() {
    let a = v(1_500_000, -2_250_000);
    let b = v(-7_000_000, 3_125_000);
    assert_eq!(a.add(b), b.add(a));
}

#[test]
fn sub_undoes_add() {
    let a = v(1_500_000, -2_250_000);
    let b = v(-7_000_000, 3_125_000);
    assert_eq!(a.add(b).sub(b), a);
}

#[test]
fn add_and_sub_componentwise() {
    let a = v(1_000_000, 2_000_000);
    let b = v(300_000, -500_000);
    assert_eq!(a.add(b), v(1_300_000, 1_500_000));
    assert_eq!(a.sub(b), v(700_000, 2_500_000));
}

#[test]
fn hadamard_multiplies_componentwise() {
    let a = v(2_000_000, -3_000_000);
    let b = v(3_000_000, 500_000);
    // (2 * 3, -3 * 0.5) = (6, -1.5)
    assert_eq!(a.hadamard(b), v(6_000_000, -1_500_000));
}

#[test]
fn cross_multiplies_as_complex_numbers() {
    // (1 + 2i)(3 + 4i) = -5 + 10i
    let a = v(1_000_000, 2_000_000);
    let b = v(3_000_000, 4_000_000);
    assert_eq!(a.cross(b), v(-5_000_000, 10_000_000));
}

#[test]
fn cross_is_commutative() {
    let a = v(1_250_000, -2_750_000);
    let b = v(-400_000, 3_100_000);
    assert_eq!(a.cross(b), b.cross(a));
}

#[test]
fn cross_with_unit_is_identity() {
    let one = v(SCALE, 0);
    let a = v(-1_234_567, 987_654);
    assert_eq!(one.cross(a), a);
    assert_eq!(a.cross(one), a);
}

#[test]
fn scale_multiplies_by_scalar() {
    let a = v(2_000_000, -500_000);
    // times 2.5
    assert_eq!(a.scale(2_500_000), v(5_000_000, -1_250_000));
}

#[test]
fn divide_by_scalar_truncates_toward_zero() {
    let a = v(1_000_000, -1_000_000);
    // 1 / 3 = 0.333333..., truncated on both signs
    assert_eq!(a.divide(3_000_000), v(333_333, -333_333));
}

#[test]
fn len_of_three_four_triangle() {
    let a = v(3_000_000, 4_000_000);
    assert_eq!(a.len(), 5_000_000);
}

#[test]
fn len_of_unit_diagonal_is_floor_of_root_two() {
    let a = v(1_000_000, 1_000_000);
    assert_eq!(a.len(), 1_414_213);
}

#[test]
fn len_of_origin_is_zero() {
    assert_eq!(v(0, 0).len(), 0);
}
