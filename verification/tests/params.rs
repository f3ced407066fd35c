use spirograph::binary64::Binary64;
use spirograph::error::CurveError;
use spirograph::params::{CombineMode, CurveParams};

fn b(x: f64) -> Binary64 {
    Binary64 { bits: x.to_bits() }
}

fn layer(fixed: f64, rolling: f64, mode: CombineMode) -> CurveParams {
    CurveParams::new(b(fixed), b(rolling), b(0.0), b(0.0), 360, mode).unwrap()
}

fn refused(made: Result<CurveParams, CurveError>) -> bool {
    matches!(made, Err(CurveError::InvalidParameter))
}

#[test]
fn new_keeps_what_it_is_given() {
    let p = CurveParams::new(b(100.0), b(25.0), b(12.5), b(-0.75), 360, CombineMode::Sum).unwrap();
    assert_eq!(f64::from_bits(p.fixed_radius().bits), 100.0);
    assert_eq!(f64::from_bits(p.rolling_radius().bits), 25.0);
    assert_eq!(f64::from_bits(p.pen_offset().bits), 12.5);
    assert_eq!(f64::from_bits(p.phase_angle().bits), -0.75);
    assert_eq!(p.samples_per_revolution(), 360);
    assert_eq!(p.combine_mode(), CombineMode::Sum);
}

#[test]
fn zero_rolling_radius_is_refused() {
    let made = CurveParams::new(b(100.0), b(0.0), b(0.0), b(0.0), 360, CombineMode::Difference);
    assert_eq!(made.unwrap_err(), CurveError::InvalidParameter);
    let made = CurveParams::new(b(100.0), b(-0.0), b(0.0), b(0.0), 360, CombineMode::Sum);
    assert_eq!(made.unwrap_err(), CurveError::InvalidParameter);
}

#[test]
fn rolling_radius_outside_its_domain_is_refused() {
    for r in [-25.0, -5e-324, f64::NAN, f64::INFINITY, f64::NEG_INFINITY] {
        let made = CurveParams::new(b(100.0), b(r), b(0.0), b(0.0), 360, CombineMode::Sum);
        assert!(refused(made), "rolling radius {}", r);
    }
}

#[test]
fn fixed_radius_outside_its_domain_is_refused() {
    for r in [0.0, -0.0, -100.0, f64::NAN, f64::INFINITY, f64::NEG_INFINITY] {
        let made = CurveParams::new(b(r), b(25.0), b(0.0), b(0.0), 360, CombineMode::Sum);
        assert!(refused(made), "fixed radius {}", r);
    }
}

#[test]
fn pen_offset_outside_its_domain_is_refused() {
    for p in [-1.0, -5e-324, f64::NAN, f64::INFINITY] {
        let made = CurveParams::new(b(100.0), b(25.0), b(p), b(0.0), 360, CombineMode::Sum);
        assert!(refused(made), "pen offset {}", p);
    }
    for p in [0.0, -0.0, 5e-324, 40.0, 1e300] {
        let made = CurveParams::new(b(100.0), b(25.0), b(p), b(0.0), 360, CombineMode::Sum);
        assert!(made.is_ok(), "pen offset {}", p);
    }
}

#[test]
fn phase_angle_is_any_finite_number() {
    for a in [0.0, -0.0, 1.0, -1.0, 1e300, -1e300, 5e-324] {
        let made = CurveParams::new(b(100.0), b(25.0), b(0.0), b(a), 360, CombineMode::Sum);
        assert!(made.is_ok(), "phase angle {}", a);
    }
    for a in [f64::NAN, f64::INFINITY, f64::NEG_INFINITY] {
        let made = CurveParams::new(b(100.0), b(25.0), b(0.0), b(a), 360, CombineMode::Sum);
        assert!(refused(made), "phase angle {}", a);
    }
}

#[test]
fn a_revolution_without_samples_is_refused() {
    let made = CurveParams::new(b(100.0), b(25.0), b(0.0), b(0.0), 0, CombineMode::Sum);
    assert!(refused(made));
    let made = CurveParams::new(b(100.0), b(25.0), b(0.0), b(0.0), 1, CombineMode::Sum);
    assert!(made.is_ok());
    let made = CurveParams::new(b(100.0), b(25.0), b(0.0), b(0.0), u32::MAX, CombineMode::Sum);
    assert!(made.is_ok());
}

#[test]
fn rotations_of_small_ratios_fall_back() {
    assert_eq!(layer(100.0, 25.0, CombineMode::Difference).rotations(), Ok(100));
    assert_eq!(layer(100.0, 25.0, CombineMode::Sum).rotations(), Ok(100));
    assert_eq!(layer(25.0, 100.0, CombineMode::Sum).rotations(), Ok(100));
    assert_eq!(layer(100.0, 40.0, CombineMode::Difference).rotations(), Ok(100));
    assert_eq!(layer(100.0, 99.0, CombineMode::Difference).rotations(), Ok(100));
}

#[test]
fn rotations_of_large_ratios() {
    assert_eq!(layer(20002.0, 1.0, CombineMode::Sum).rotations(), Ok(20003));
    assert_eq!(layer(20002.0, 1.0, CombineMode::Difference).rotations(), Ok(20001));
    assert_eq!(layer(20002.5, 1.0, CombineMode::Sum).rotations(), Ok(20003));
    assert_eq!(layer(5000.75, 0.25, CombineMode::Difference).rotations(), Ok(20002));
}

#[test]
fn rotations_round_the_threshold() {
    assert_eq!(layer(10000.0, 1.0, CombineMode::Difference).rotations(), Ok(100));
    assert_eq!(layer(10000.0, 1.0, CombineMode::Sum).rotations(), Ok(10001));
    assert_eq!(layer(10001.0, 1.0, CombineMode::Difference).rotations(), Ok(2147483647));
    assert_eq!(layer(10001.5, 1.0, CombineMode::Difference).rotations(), Ok(2147483647));
    assert_eq!(layer(9999.0, 1.0, CombineMode::Sum).rotations(), Ok(2147483647));
    assert_eq!(layer(9998.5, 1.0, CombineMode::Sum).rotations(), Ok(100));
    assert_eq!(layer(10002.0, 1.0, CombineMode::Difference).rotations(), Ok(10001));
}

#[test]
fn rotations_of_huge_ratios_are_cut() {
    assert_eq!(layer(1e300, 1e-300, CombineMode::Sum).rotations(), Ok(2147483647));
    assert_eq!(layer(1e300, 1e-300, CombineMode::Difference).rotations(), Ok(2147483647));
    assert_eq!(layer(f64::MAX, 5e-324, CombineMode::Sum).rotations(), Ok(2147483647));
    assert_eq!(layer(2147483648.0, 1.0, CombineMode::Sum).rotations(), Ok(2147483647));
    assert_eq!(layer(2147483648.0, 1.0, CombineMode::Difference).rotations(), Ok(2147483647));
    assert_eq!(layer(2147483647.0, 1.0, CombineMode::Difference).rotations(), Ok(2147483646));
    assert_eq!(layer(2147483645.0, 1.0, CombineMode::Sum).rotations(), Ok(2147483646));
}

#[test]
fn difference_needs_the_larger_fixed_circle() {
    let equal = layer(25.0, 25.0, CombineMode::Difference);
    assert_eq!(equal.rotations(), Err(CurveError::InvalidParameter));
    assert_eq!(equal.resolved_trace_len(), Err(CurveError::InvalidParameter));
    let smaller = layer(10.0, 25.0, CombineMode::Difference);
    assert_eq!(smaller.rotations(), Err(CurveError::InvalidParameter));
    let just_smaller = layer(25.0, 25.000000000000004, CombineMode::Difference);
    assert_eq!(just_smaller.rotations(), Err(CurveError::InvalidParameter));
    let just_larger = layer(25.000000000000004, 25.0, CombineMode::Difference);
    assert_eq!(just_larger.rotations(), Ok(100));
}

#[test]
fn trace_len_is_samples_times_rotations() {
    let p = layer(100.0, 25.0, CombineMode::Difference);
    assert_eq!(p.trace_len(0), 0);
    assert_eq!(p.trace_len(1), 360);
    assert_eq!(p.trace_len(100), 36000);
    assert_eq!(p.trace_len(u32::MAX), 360 * 4294967295);
    let dense =
        CurveParams::new(b(100.0), b(25.0), b(0.0), b(0.0), u32::MAX, CombineMode::Sum).unwrap();
    assert_eq!(dense.trace_len(u32::MAX), 18446744065119617025);
}

#[test]
fn resolved_trace_len_uses_the_resolved_rotations() {
    assert_eq!(layer(100.0, 25.0, CombineMode::Difference).resolved_trace_len(), Ok(36000));
    assert_eq!(layer(20002.0, 1.0, CombineMode::Sum).resolved_trace_len(), Ok(360 * 20003));
    assert_eq!(
        layer(1e300, 1.0, CombineMode::Sum).resolved_trace_len(),
        Ok(360 * 2147483647)
    );
}

#[test]
fn one_revolution_of_the_four_to_one_hypocycloid() {
    let p = CurveParams::new(b(100.0), b(25.0), b(0.0), b(0.0), 360, CombineMode::Difference)
        .unwrap();
    // The ratio is three.
    assert_eq!(p.fixed_radius().whole_quotient(&p.rolling_radius()), 4);
    // One revolution has 360 samples.
    assert_eq!(p.trace_len(1), 360);
    // A ratio of three is below the threshold of the iteration.
    assert_eq!(p.rotations(), Ok(100));
}

#[test]
fn rotations_do_not_depend_on_pen_or_phase() {
    let plain = layer(20002.0, 1.0, CombineMode::Sum);
    let other =
        CurveParams::new(b(20002.0), b(1.0), b(7.0), b(1.25), 12, CombineMode::Sum).unwrap();
    assert_eq!(plain.rotations(), other.rotations());
}
