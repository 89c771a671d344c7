use fancontroller::hardware::curve::{check_curve, interpolate_curve, CurveError};
use fancontroller::hardware::CurvePoint;

fn pt(temp_c: u8, speed_pct: u8) -> CurvePoint {
    CurvePoint { temp_c, speed_pct }
}

#[test]
fn curve_with_one_point_is_refused() {
    assert_eq!(check_curve(&[pt(40, 50)]), Err(CurveError::TooFewPoints));
    assert_eq!(check_curve(&[]), Err(CurveError::TooFewPoints));
}

#[test]
fn unsorted_curve_is_refused() {
    assert_eq!(check_curve(&[pt(50, 40), pt(40, 60)]), Err(CurveError::NotSorted));
    assert_eq!(check_curve(&[pt(40, 40), pt(40, 60)]), Err(CurveError::NotSorted));
    assert_eq!(check_curve(&[pt(30, 40), pt(60, 60), pt(50, 70)]), Err(CurveError::NotSorted));
}

#[test]
fn sorted_curve_is_accepted() {
    assert_eq!(check_curve(&[pt(30, 20), pt(60, 50), pt(80, 100)]), Ok(()));
}

#[test]
fn curve_error_messages() {
    assert_eq!(CurveError::TooFewPoints.message(), "Curve needs at least 2 points");
    assert_eq!(CurveError::NotSorted.message(), "Curve points must be sorted by temperature");
}

#[test]
fn interpolation_clamps_below_and_above() {
    let c = [pt(30, 20), pt(70, 100)];
    assert_eq!(interpolate_curve(&c, 0), 20);
    assert_eq!(interpolate_curve(&c, 29_999), 20);
    assert_eq!(interpolate_curve(&c, 70_000), 100);
    assert_eq!(interpolate_curve(&c, 95_500), 100);
}

#[test]
fn interpolation_is_linear_between_points() {
    let c = [pt(30, 20), pt(70, 100)];
    assert_eq!(interpolate_curve(&c, 50_000), 60);
    assert_eq!(interpolate_curve(&c, 40_000), 40);
    assert_eq!(interpolate_curve(&c, 45_250), 51);
}

#[test]
fn interpolation_rounds_halves_up() {
    let c = [pt(30, 20), pt(60, 21)];
    // 20.5 at 45 °C
    assert_eq!(interpolate_curve(&c, 45_000), 21);
    // 20.4999... just below
    assert_eq!(interpolate_curve(&c, 44_999), 20);
}

#[test]
fn interpolation_on_falling_segment() {
    let c = [pt(20, 80), pt(40, 30)];
    assert_eq!(interpolate_curve(&c, 30_000), 55);
    assert_eq!(interpolate_curve(&c, 36_000), 40);
}

#[test]
fn interpolation_hits_each_point_exactly() {
    let c = [pt(30, 25), pt(50, 40), pt(65, 70), pt(85, 100)];
    for p in c.iter() {
        assert_eq!(interpolate_curve(&c, p.temp_c as i64 * 1000), p.speed_pct);
    }
}

#[test]
fn interpolation_is_monotone_on_rising_curve() {
    let c = [pt(30, 25), pt(50, 40), pt(65, 70), pt(85, 100)];
    let mut last = 0u8;
    for t in (0..100_000i64).step_by(250) {
        let s = interpolate_curve(&c, t);
        assert!(s >= last);
        assert!(s >= 25 && s <= 100);
        last = s;
    }
}

#[test]
fn interpolation_uses_first_window_on_multi_segment_curve() {
    let c = [pt(30, 20), pt(50, 40), pt(70, 100)];
    assert_eq!(interpolate_curve(&c, 60_000), 70);
    assert_eq!(interpolate_curve(&c, 50_000), 40);
}

#[test]
fn interpolation_below_zero_degrees_gives_first_speed() {
    let c = [pt(0, 35), pt(50, 60)];
    assert_eq!(interpolate_curve(&c, -3_000), 35);
    assert_eq!(interpolate_curve(&c, i64::MIN), 35);
}
