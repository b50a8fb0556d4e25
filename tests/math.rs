use evo_flock::angle::{angle_of, cos_fx, heading_of, signed_angle, sin_fx, wrap_angle};
use evo_flock::fixed::{div_floor, isqrt, mod_floor};
use evo_flock::{ONE, TURN};

#[test]
fn isqrt_rounds_down() {
    assert_eq!(isqrt(0), 0);
    assert_eq!(isqrt(15), 3);
    assert_eq!(isqrt(16), 4);
    assert_eq!(isqrt(u128::MAX), u64::MAX as u128);
}

#[test]
fn floor_division_and_modulo() {
    assert_eq!(div_floor(-7, 2), -4);
    assert_eq!(div_floor(7, 2), 3);
    assert_eq!(mod_floor(-7, 5), 3);
    assert_eq!(mod_floor(12, 5), 2);
}

#[test]
fn angles_wrap() {
    assert_eq!(wrap_angle(-1), TURN - 1);
    assert_eq!(wrap_angle(TURN), 0);
    assert_eq!(signed_angle(TURN / 2), TURN / 2);
    assert_eq!(signed_angle(TURN / 2 + 1), -TURN / 2 + 1);
}

#[test]
fn sine_and_cosine_at_the_quarters() {
    assert_eq!(sin_fx(0), 0);
    assert_eq!(sin_fx(TURN / 4), ONE);
    assert_eq!(sin_fx(TURN / 2), 0);
    assert_eq!(sin_fx(3 * TURN / 4), -ONE);
    assert_eq!(cos_fx(0), ONE);
    // Bhaskara's approximation is within a few thousandths.
    let s = sin_fx(TURN / 12) as f64 / ONE as f64;
    assert!((s - 0.5).abs() < 0.003);
}

#[test]
fn directions_of_vectors() {
    assert_eq!(angle_of(1, 0), 0);
    assert_eq!(angle_of(0, 1), TURN / 4);
    assert_eq!(angle_of(-1, 0), TURN / 2);
    assert_eq!(angle_of(0, -1), 3 * TURN / 4);
    assert_eq!(angle_of(1, 1), TURN / 8);
    assert_eq!(heading_of(0, 1), 0);
    assert_eq!(heading_of(-1, 0), TURN / 4);
    let a = angle_of(1000, 577) as f64 / TURN as f64 * 360.0;
    assert!((a - 30.0).abs() < 0.5);
}
