use chartistry_core::pos::{Pos, Position, Timestamp, MAX_TS_SECS, MIN_TS_SECS};
use chartistry_core::bounds::Bounds;
use chrono::TimeZone;

#[test]
fn lt_orders_finite_values() {
    assert!(Pos::Finite(1).lt(Pos::Finite(2)));
    assert!(!Pos::Finite(2).lt(Pos::Finite(1)));
    assert!(!Pos::Finite(2).lt(Pos::Finite(2)));
}

#[test]
fn lt_nan_compares_false_with_everything() {
    assert!(!Pos::Nan.lt(Pos::Nan));
    assert!(!Pos::Nan.lt(Pos::Finite(0)));
    assert!(!Pos::Finite(0).lt(Pos::Nan));
    assert!(!Pos::Nan.lt(Pos::PosInf));
    assert!(!Pos::NegInf.lt(Pos::Nan));
}

#[test]
fn lt_infinities_enclose_finite_values() {
    assert!(Pos::NegInf.lt(Pos::Finite(i64::MIN)));
    assert!(Pos::Finite(i64::MAX).lt(Pos::PosInf));
    assert!(Pos::NegInf.lt(Pos::PosInf));
    assert!(!Pos::PosInf.lt(Pos::PosInf));
    assert!(!Pos::NegInf.lt(Pos::NegInf));
}

#[test]
fn le_nan_compares_false_with_itself() {
    assert!(!Pos::Nan.le(Pos::Nan));
    assert!(Pos::Finite(3).le(Pos::Finite(3)));
    assert!(Pos::NegInf.le(Pos::PosInf));
}

#[test]
fn is_finite_only_on_finite() {
    assert!(Pos::Finite(0).is_finite());
    assert!(!Pos::Nan.is_finite());
    assert!(!Pos::NegInf.is_finite());
    assert!(!Pos::PosInf.is_finite());
}

#[test]
fn plus_adds_finite_values() {
    assert_eq!(Pos::Finite(2).plus(Pos::Finite(3)), Pos::Finite(5));
    assert_eq!(Pos::Finite(-2).plus(Pos::Finite(3)), Pos::Finite(1));
}

#[test]
fn plus_nan_absorbs() {
    assert_eq!(Pos::Nan.plus(Pos::Finite(1)), Pos::Nan);
    assert_eq!(Pos::Finite(1).plus(Pos::Nan), Pos::Nan);
    assert_eq!(Pos::PosInf.plus(Pos::Nan), Pos::Nan);
}

#[test]
fn plus_opposite_infinities_are_undefined() {
    assert_eq!(Pos::PosInf.plus(Pos::NegInf), Pos::Nan);
    assert_eq!(Pos::NegInf.plus(Pos::PosInf), Pos::Nan);
    assert_eq!(Pos::PosInf.plus(Pos::Finite(5)), Pos::PosInf);
    assert_eq!(Pos::NegInf.plus(Pos::Finite(5)), Pos::NegInf);
}

#[test]
fn plus_saturates_to_infinity() {
    assert_eq!(Pos::Finite(i64::MAX).plus(Pos::Finite(1)), Pos::PosInf);
    assert_eq!(Pos::Finite(i64::MIN).plus(Pos::Finite(-1)), Pos::NegInf);
    assert_eq!(Pos::Finite(i64::MAX).plus(Pos::Finite(0)), Pos::Finite(i64::MAX));
}

#[test]
fn pos_is_its_own_position() {
    assert_eq!(Pos::Finite(42).position(), Pos::Finite(42));
    assert_eq!(Pos::Nan.position(), Pos::Nan);
}

#[test]
fn timestamp_position_counts_nanoseconds() {
    let t = Timestamp::new(1, 500_000_000);
    assert_eq!(t.position(), Pos::Finite(1_500_000_000));
    let epoch = Timestamp::new(0, 0);
    assert_eq!(epoch.position(), Pos::Finite(0));
    let before = Timestamp::new(-2, 250_000_000);
    assert_eq!(before.position(), Pos::Finite(-1_750_000_000));
}

#[test]
fn timestamp_out_of_span_has_no_position() {
    assert_eq!(Timestamp::new(MAX_TS_SECS + 1, 0).position(), Pos::Nan);
    assert_eq!(Timestamp::new(MIN_TS_SECS - 1, 0).position(), Pos::Nan);
    assert_eq!(Timestamp::new(MAX_TS_SECS, 999_999_999).position(), Pos::Finite(MAX_TS_SECS * 1_000_000_000 + 999_999_999));
}

#[test]
fn timestamp_leap_second_has_no_position() {
    assert_eq!(Timestamp::new(0, 1_500_000_000).position(), Pos::Nan);
}

#[test]
fn timestamp_from_chrono_datetime() {
    let dt = chrono::Utc.with_ymd_and_hms(2015, 5, 15, 0, 0, 0).unwrap();
    let t = Timestamp::new(dt.timestamp(), dt.timestamp_subsec_nanos());
    assert_eq!(t, Timestamp::new(1_431_648_000, 0));
    assert_eq!(t.position(), Pos::Finite(1_431_648_000_000_000_000));
}

#[test]
fn bounds_contains_is_inclusive() {
    let b = Bounds::from_points(Pos::Finite(0), Pos::Finite(0), Pos::Finite(10), Pos::Finite(10));
    assert!(b.contains(Pos::Finite(0), Pos::Finite(10)));
    assert!(b.contains(Pos::Finite(5), Pos::Finite(5)));
    assert!(!b.contains(Pos::Finite(-1), Pos::Finite(5)));
    assert!(!b.contains(Pos::Finite(5), Pos::Finite(11)));
    assert!(!b.contains(Pos::Nan, Pos::Finite(5)));
}

#[test]
fn zero_bounds_contains_only_origin() {
    let b = Bounds::zero();
    assert!(b.contains(Pos::Finite(0), Pos::Finite(0)));
    assert!(!b.contains(Pos::Finite(1), Pos::Finite(0)));
}
