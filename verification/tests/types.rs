use jet_lag_core::shape::types::{Centimeters, Position, COORD_SCALE, MAX_LATITUDE, MAX_LONGITUDE};

#[test]
fn centimeters_to_millimeters_is_exact() {
    assert_eq!(Centimeters(12).as_millimeters(), 120);
    assert_eq!(Centimeters(-7).as_millimeters(), -70);
    assert_eq!(Centimeters(i32::MAX).as_millimeters(), 21_474_836_470);
    assert_eq!(Centimeters(i32::MIN).as_millimeters(), -21_474_836_480);
}

#[test]
fn millimeters_round_toward_zero() {
    assert_eq!(Centimeters::from_millimeters(19).0, 1);
    assert_eq!(Centimeters::from_millimeters(-19).0, -1);
    assert_eq!(Centimeters::from_millimeters(9).0, 0);
    assert_eq!(Centimeters::from_millimeters(-9).0, 0);
    assert_eq!(Centimeters::from_millimeters(120).0, 12);
}

#[test]
fn millimeters_round_trip() {
    for cm in [0, 1, -1, 1234, -98765, i32::MAX, i32::MIN] {
        let mm = Centimeters(cm).as_millimeters();
        assert_eq!(Centimeters::from_millimeters(mm).0, cm);
    }
}

#[test]
fn millimeters_beyond_32_bits_wrap() {
    // (2^32 + 5) centimeters
    let mm = (4_294_967_296i64 + 5) * 10;
    assert_eq!(Centimeters::from_millimeters(mm).0, 5);
    assert_eq!(Centimeters::from_millimeters(mm).0, (mm / 10) as i32);
    let far = i64::MIN;
    assert_eq!(Centimeters::from_millimeters(far).0, (far / 10) as i32);
    let high = i64::MAX;
    assert_eq!(Centimeters::from_millimeters(high).0, (high / 10) as i32);
}

#[test]
fn position_accessors() {
    let position = Position::new(Centimeters(3), Centimeters(-4));
    assert_eq!(position.x().0, 3);
    assert_eq!(position.y().0, -4);
    assert_eq!(position, Position { x: 3, y: -4 });
}

#[test]
fn position_validity_bounds() {
    assert_eq!(COORD_SCALE, 10_000_000);
    assert!(Position { x: MAX_LONGITUDE, y: MAX_LATITUDE }.is_valid());
    assert!(Position { x: -MAX_LONGITUDE, y: -MAX_LATITUDE }.is_valid());
    assert!(!Position { x: MAX_LONGITUDE + 1, y: 0 }.is_valid());
    assert!(!Position { x: 0, y: MAX_LATITUDE + 1 }.is_valid());
    assert!(!Position { x: 0, y: -MAX_LATITUDE - 1 }.is_valid());
    assert!(!Position { x: -MAX_LONGITUDE - 1, y: 0 }.is_valid());
}
