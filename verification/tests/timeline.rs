use gstqrtimestamp::pacer::deadline_for;
use gstqrtimestamp::timeline::{frame_duration, mul_div_floor, running_time, Rational};

#[test]
fn mul_div_floor_rounds_down() {
    assert_eq!(mul_div_floor(10, 3, 4), Some(7));
    assert_eq!(mul_div_floor(1_000_000_000, 1, 30), Some(33_333_333));
    assert_eq!(mul_div_floor(0, 5, 7), Some(0));
    assert_eq!(mul_div_floor(u64::MAX, u64::MAX, u64::MAX), Some(u64::MAX));
}

#[test]
fn mul_div_floor_refuses_zero_divisor_and_overflow() {
    assert_eq!(mul_div_floor(1, 1, 0), None);
    assert_eq!(mul_div_floor(u64::MAX, 2, 1), None);
    assert_eq!(mul_div_floor(u64::MAX, 2, 2), Some(u64::MAX));
}

#[test]
fn frame_duration_of_common_rates() {
    assert_eq!(frame_duration(Rational::from_integer(30)), Some(33_333_333));
    assert_eq!(frame_duration(Rational::from_integer(100)), Some(10_000_000));
    assert_eq!(frame_duration(Rational::from_integer(240)), Some(4_166_666));
    assert_eq!(frame_duration(Rational { numer: 30_000, denom: 1_001 }), Some(33_366_666));
}

#[test]
fn frame_duration_needs_positive_rate() {
    assert_eq!(frame_duration(Rational { numer: 0, denom: 1 }), None);
    assert_eq!(frame_duration(Rational { numer: 30, denom: 0 }), None);
    assert_eq!(frame_duration(Rational { numer: -30, denom: 1 }), None);
    assert_eq!(frame_duration(Rational { numer: 30, denom: -1 }), None);
}

#[test]
fn running_time_multiplies_before_dividing() {
    let rate = Rational::from_integer(30);
    assert_eq!(running_time(0, rate), Some(0));
    assert_eq!(running_time(1, rate), Some(33_333_333));
    assert_eq!(running_time(2, rate), Some(66_666_666));
    assert_eq!(running_time(3, rate), Some(100_000_000));
    assert_eq!(running_time(30_000, rate), Some(1_000_000_000_000));
}

#[test]
fn running_time_reports_overflow() {
    let slow = Rational { numer: 1, denom: i32::MAX };
    assert_eq!(running_time(u64::MAX, slow), None);
    assert_eq!(running_time(u64::MAX, Rational::from_integer(240)), None);
    assert_eq!(
        running_time(18_446_744_073, Rational::from_integer(1)),
        Some(18_446_744_073_000_000_000)
    );
    assert_eq!(running_time(18_446_744_074, Rational::from_integer(1)), None);
}

#[test]
fn deadline_adds_base_time() {
    let rate = Rational::from_integer(100);
    assert_eq!(deadline_for(0, rate, 5), Some(5));
    assert_eq!(deadline_for(7, rate, 1_000), Some(70_001_000));
    assert_eq!(deadline_for(1, rate, u64::MAX - 10_000_000), Some(u64::MAX));
    assert_eq!(deadline_for(1, rate, u64::MAX - 9_999_999), None);
    assert_eq!(deadline_for(1, Rational { numer: 0, denom: 1 }, 0), None);
}

#[test]
fn frames_are_evenly_spaced_at_rates_that_divide_the_second() {
    for fps in [10, 20, 25, 40, 50, 100, 125, 200] {
        let rate = Rational::from_integer(fps);
        let duration = frame_duration(rate).unwrap();
        assert_eq!(duration, 1_000_000_000 / fps as u64);
        for k in 0u64..150 {
            let here = running_time(k, rate).unwrap();
            let next = running_time(k + 1, rate).unwrap();
            assert_eq!(next - here, duration);
        }
    }
}

#[test]
fn frames_never_overlap_and_gap_at_most_a_nanosecond() {
    for rate in [
        Rational::from_integer(30),
        Rational::from_integer(60),
        Rational::from_integer(240),
        Rational { numer: 30_000, denom: 1_001 },
        Rational { numer: 24_000, denom: 1_001 },
    ] {
        let duration = frame_duration(rate).unwrap();
        for k in 0u64..1_000 {
            let here = running_time(k, rate).unwrap();
            let next = running_time(k + 1, rate).unwrap();
            assert!(here + duration <= next);
            assert!(next <= here + duration + 1);
        }
    }
}
