use spot_guidance::angle::{Angle, HALF_TURN, QUARTER_TURN};

#[test]
fn turn_constants() {
    assert_eq!(HALF_TURN, 1_800_000);
    assert_eq!(QUARTER_TURN * 2, HALF_TURN);
    assert_eq!(HALF_TURN % 12, 0);
}

#[test]
fn angles_up_to_a_half_turn_are_taken() {
    assert_eq!(Angle::new(0).unwrap().units(), 0);
    assert_eq!(Angle::new(HALF_TURN).unwrap().units(), HALF_TURN);
    assert_eq!(Angle::new(-HALF_TURN).unwrap().units(), -HALF_TURN);
    assert_eq!(Angle::new(-123_456).unwrap().units(), -123_456);
}

#[test]
fn angles_beyond_a_half_turn_are_refused() {
    assert!(Angle::new(HALF_TURN + 1).is_none());
    assert!(Angle::new(-HALF_TURN - 1).is_none());
    assert!(Angle::new(i32::MAX).is_none());
    assert!(Angle::new(i32::MIN).is_none());
}

#[test]
fn angles_of_the_same_count_are_equal() {
    assert_eq!(Angle::new(17), Angle::new(17));
    assert_ne!(Angle::new(17), Angle::new(-17));
}
