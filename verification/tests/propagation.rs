use apogeetrak::geometry::Position;
use apogeetrak::propagation::{
    metres_from_km_bits, sample_position, sgp4_to_cartesian, sgp4_to_velocity, Prediction,
    Propagation,
};

fn prediction(position: [f64; 3], velocity: [f64; 3]) -> Prediction {
    Prediction { position: position.map(f64::to_bits), velocity: velocity.map(f64::to_bits) }
}

fn metres(km: f64) -> Option<i64> {
    metres_from_km_bits(km.to_bits())
}

#[test]
fn kilometres_become_whole_metres() {
    assert_eq!(metres(1.0), Some(1_000));
    assert_eq!(metres(-1.5), Some(-1_500));
    assert_eq!(metres(6378.125), Some(6_378_125));
    assert_eq!(metres(123456.789), Some(123_456_789));
    assert_eq!(metres(0.001), Some(1));
    assert_eq!(metres(42_164.0), Some(42_164_000));
}

#[test]
fn the_rest_of_a_metre_is_cut_off() {
    assert_eq!(metres(0.0009), Some(0));
    assert_eq!(metres(-0.0009), Some(0));
    assert_eq!(metres(1.9999), Some(1_999));
    assert_eq!(metres(-1.9999), Some(-1_999));
    // the double nearest to 6378.137 lies a little below it
    assert_eq!(metres(6378.137), Some(6_378_136));
}

#[test]
fn zero_and_tiny_numbers_are_zero() {
    assert_eq!(metres(0.0), Some(0));
    assert_eq!(metres(-0.0), Some(0));
    assert_eq!(metres(f64::MIN_POSITIVE), Some(0));
    assert_eq!(metres_from_km_bits(1), Some(0));
    assert_eq!(metres(1e-300), Some(0));
    assert_eq!(metres(-1e-12), Some(0));
}

#[test]
fn what_is_no_number_has_no_metres() {
    assert_eq!(metres(f64::NAN), None);
    assert_eq!(metres(f64::INFINITY), None);
    assert_eq!(metres(f64::NEG_INFINITY), None);
    assert_eq!(metres_from_km_bits(u64::MAX), None);
}

#[test]
fn range_ends_at_a_million_kilometres() {
    assert_eq!(metres(1_000_000.0), Some(1_000_000_000));
    assert_eq!(metres(-1_000_000.0), Some(-1_000_000_000));
    assert_eq!(metres(1_000_000.5), None);
    assert_eq!(metres(1_000_000.001), None);
    assert_eq!(metres(-1_000_000.001), None);
    assert_eq!(metres(2_097_151.9), None);
    assert_eq!(metres(2_097_152.0), None);
    assert_eq!(metres(1e15), None);
    assert_eq!(metres(1e300), None);
    assert_eq!(metres(f64::MAX), None);
}

#[test]
fn metres_agree_with_exact_arithmetic() {
    let mut km = 0.000_123_f64;
    while km < 1.0e6 {
        // the exact value of the double times 1000, from its parts
        let bits = km.to_bits();
        let exponent = ((bits >> 52) & 0x7ff) as i32;
        let significand = ((bits & ((1 << 52) - 1)) | (1 << 52)) as u128;
        let shift = 1075 - exponent;
        let exact = if shift >= 128 { 0 } else { (significand * 1000) >> shift };
        assert_eq!(metres(km), Some(exact as i64), "{km}");
        assert_eq!(metres(-km), Some(-(exact as i64)), "-{km}");
        km *= 1.37;
    }
}

#[test]
fn prediction_changes_frame() {
    let p = prediction([1.0, 2.0, -3.5], [7.5, -0.25, 0.0004]);
    let position = sgp4_to_cartesian(&p).unwrap();
    assert_eq!((position.x(), position.y(), position.z()), (1_000, -3_500, 2_000));
    assert_eq!(position.coordinates(), (1_000, -3_500, 2_000));
    assert_eq!(sgp4_to_velocity(&p), Some((7_500, 0, -250)));
}

#[test]
fn prediction_out_of_range_has_no_position() {
    let far = prediction([0.0, 1.0e7, 0.0], [0.0, 0.0, 0.0]);
    assert!(sgp4_to_cartesian(&far).is_none());
    assert_eq!(sgp4_to_velocity(&far), Some((0, 0, 0)));
    let nan = prediction([0.0, 0.0, f64::NAN], [f64::INFINITY, 0.0, 0.0]);
    assert!(sgp4_to_cartesian(&nan).is_none());
    assert!(sgp4_to_velocity(&nan).is_none());
}

#[test]
fn samples_for_each_outcome() {
    assert_eq!(sample_position(Propagation::OutOfRange), None);
    assert_eq!(sample_position(Propagation::Diverged), Some(Position::origin()));
    let nan = prediction([f64::NAN, 0.0, 0.0], [1.0, 1.0, 1.0]);
    assert_eq!(sample_position(Propagation::At(nan)), Some(Position::origin()));
    let there = prediction([7000.0, 0.0, 10.0], [0.0, 7.5, 0.0]);
    assert_eq!(sample_position(Propagation::At(there)), Position::new(7_000_000, 10_000, 0));
}

#[test]
fn positions_have_a_range() {
    assert!(Position::new(1_000_000_000, -1_000_000_000, 0).is_some());
    assert!(Position::new(1_000_000_001, 0, 0).is_none());
    assert!(Position::new(0, -1_000_000_001, 0).is_none());
    assert!(Position::new(0, 0, i64::MAX).is_none());
    assert_eq!(Position::origin().coordinates(), (0, 0, 0));
}
