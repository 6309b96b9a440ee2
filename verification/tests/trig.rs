//! Tests of the fixed-point trigonometry against the cardinal directions
//! and against floating-point references.

use fabrik2d::fx::{HALF_TURN, QUARTER_TURN, TRIG_ONE, TURN, UNIT};
use fabrik2d::trig::{atan2_fx, cos_fx, polar, sin_fx};

const TAU: f64 = std::f64::consts::TAU;

fn to_radians(a: i64) -> f64 {
    a as f64 / TURN as f64 * TAU
}

fn radians(r: f64) -> i64 {
    (r / TAU * TURN as f64).round() as i64
}

#[test]
fn sine_and_cosine_hit_the_cardinal_points() {
    assert_eq!(sin_fx(0), 0);
    assert_eq!(sin_fx(QUARTER_TURN), TRIG_ONE);
    assert_eq!(sin_fx(HALF_TURN), 0);
    assert_eq!(sin_fx(-QUARTER_TURN), -TRIG_ONE);
    assert_eq!(sin_fx(TURN), 0);
    assert_eq!(cos_fx(0), TRIG_ONE);
    assert_eq!(cos_fx(QUARTER_TURN), 0);
    assert_eq!(cos_fx(-HALF_TURN), -TRIG_ONE);
}

#[test]
fn sine_tracks_the_reference_closely() {
    for k in -1000..1000 {
        let a = k * (TURN / 500);
        let got = sin_fx(a) as f64 / TRIG_ONE as f64;
        let want = to_radians(a).sin();
        assert!((got - want).abs() < 5.0e-4, "sin at {a}: {got} vs {want}");
    }
}

#[test]
fn atan2_hits_the_cardinal_directions() {
    assert_eq!(atan2_fx(0, 0), 0);
    assert_eq!(atan2_fx(0, 1000), 0);
    assert_eq!(atan2_fx(1000, 0), QUARTER_TURN);
    assert_eq!(atan2_fx(-1000, 0), -QUARTER_TURN);
    assert_eq!(atan2_fx(0, -1000), HALF_TURN);
}

#[test]
fn atan2_tracks_the_reference_closely() {
    let samples: [(i64, i64); 8] = [
        (3, 4),
        (-3, 4),
        (3, -4),
        (-3, -4),
        (1, 1000),
        (1000, 1),
        (123456789, -987654),
        (-5, -5),
    ];
    for (y, x) in samples {
        let got = to_radians(atan2_fx(y * UNIT, x * UNIT));
        let want = (y as f64).atan2(x as f64);
        let mut d = (got - want).abs();
        if d > TAU / 2.0 {
            d = TAU - d;
        }
        assert!(d < 5.0e-4, "atan2({y}, {x}): {got} vs {want}");
    }
}

#[test]
fn polar_offset_matches_the_reference() {
    let radius = 50 * UNIT;
    for deg in [0.0, 30.0, 45.0, 90.0, 135.0, 180.0, -60.0, -150.0] {
        let rot = radians((deg as f64).to_radians());
        let v = polar(rot, radius);
        let want_x = 50.0 * (deg as f64).to_radians().cos();
        let want_y = 50.0 * (deg as f64).to_radians().sin();
        assert!((v.x as f64 / UNIT as f64 - want_x).abs() < 0.05);
        assert!((v.y as f64 / UNIT as f64 - want_y).abs() < 0.05);
    }
}
