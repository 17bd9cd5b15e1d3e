use std::cell::Cell;

use divan::time::{measure_precision, Clock, FineDuration, OsClock, Timestamp};

fn text(picos: u128) -> String {
    FineDuration { picos }.format()
}

#[test]
fn format_zero_is_in_nanoseconds() {
    assert_eq!(text(0), "0ns");
}

#[test]
fn format_picks_the_largest_unit() {
    assert_eq!(text(1), "1ps");
    assert_eq!(text(999), "999ps");
    assert_eq!(text(1_000), "1ns");
    assert_eq!(text(1_500_000), "1.5\u{b5}s");
    assert_eq!(text(2_000_000_000), "2ms");
    assert_eq!(text(1_000_000_000_000), "1s");
}

#[test]
fn format_cuts_off_after_four_significant_figures() {
    assert_eq!(text(1_234_567), "1.234\u{b5}s");
    assert_eq!(text(12_345_678), "12.34\u{b5}s");
    assert_eq!(text(123_456_789), "123.4\u{b5}s");
    assert_eq!(text(999_999), "999.9ns");
    assert_eq!(text(1_999), "1.999ns");
}

#[test]
fn format_drops_trailing_zeros_but_keeps_inner_ones() {
    assert_eq!(text(1_050_000), "1.05\u{b5}s");
    assert_eq!(text(1_005_000), "1.005\u{b5}s");
    assert_eq!(text(1_000_900), "1\u{b5}s");
    assert_eq!(text(10_500), "10.5ns");
    assert_eq!(text(100_000), "100ns");
}

#[test]
fn format_of_long_durations_has_no_fraction() {
    assert_eq!(text(1_234_500_000_000_000), "1234s");
    assert_eq!(text(12_345_000_000_000_000), "12345s");
    assert_eq!(text(u128::MAX), "340282366920938463463374607s");
}

#[test]
fn arithmetic_saturates() {
    let a = FineDuration { picos: 10 };
    let b = FineDuration { picos: 3 };
    assert_eq!(a.saturating_add(b).picos, 13);
    assert_eq!(a.saturating_sub(b).picos, 7);
    assert_eq!(b.saturating_sub(a).picos, 0);
    assert_eq!(FineDuration::max().saturating_add(b), FineDuration::max());
    assert_eq!(a.div_count(4).picos, 2);
    assert!(FineDuration::default().is_zero());
    assert!(!a.is_zero());
    assert_eq!(FineDuration::default().or_if_zero(a), a);
    assert_eq!(b.or_if_zero(a), b);
    assert_eq!(FineDuration::from_nanos(5).picos, 5_000);
}

#[test]
fn timestamps_subtract_to_durations() {
    let early = Timestamp { picos: 100 };
    let late = Timestamp { picos: 250 };
    assert_eq!(late.duration_since(early).picos, 150);
    assert_eq!(early.duration_since(late).picos, 0);
    assert_eq!(early.duration_since(early).picos, 0);
}

#[test]
fn durations_are_ordered_by_length() {
    assert!(FineDuration { picos: 1 } < FineDuration { picos: 2 });
    assert!(Timestamp { picos: 5 } > Timestamp { picos: 2 });
}

#[test]
fn os_clock_reads_the_time() {
    let clock = OsClock::new();
    assert!(clock.precision().picos > 0);
    let mut last = clock.start();
    for _ in 0..100 {
        let now = clock.end();
        assert!(now >= last);
        // Readings are whole nanoseconds.
        assert_eq!(now.picos % 1_000, 0);
        last = now;
    }
}

#[test]
fn precision_is_the_smallest_step_that_was_seen() {
    /// A clock whose readings are given, and that stands still after them.
    struct Readings {
        readings: Vec<u128>,
        next: Cell<usize>,
    }

    impl Readings {
        fn read(&self) -> Timestamp {
            let at = self.next.get().min(self.readings.len() - 1);
            self.next.set(self.next.get() + 1);
            Timestamp { picos: self.readings[at] }
        }
    }

    impl Clock for Readings {
        fn start(&self) -> Timestamp {
            self.read()
        }

        fn end(&self) -> Timestamp {
            self.read()
        }

        fn precision(&self) -> FineDuration {
            FineDuration { picos: 0 }
        }
    }

    // Steps of 40, 0, 25 and 30 between the readings of a pair.
    let clock = Readings { readings: vec![0, 40, 50, 50, 75, 100, 100, 130], next: Cell::new(0) };
    assert_eq!(measure_precision(&clock, 100).picos, 25);
    assert_eq!(clock.next.get(), 200);

    let still = Readings { readings: vec![7], next: Cell::new(0) };
    assert_eq!(measure_precision(&still, 10).picos, 1_000);
    assert_eq!(measure_precision(&still, 0).picos, 1_000);
}

#[test]
fn timestamps_count_nanoseconds_in_picoseconds() {
    assert_eq!(Timestamp::from_nanos(0).picos, 0);
    assert_eq!(Timestamp::from_nanos(7).picos, 7_000);
    assert_eq!(Timestamp::from_nanos(u128::MAX / 1_000).picos, u128::MAX - u128::MAX % 1_000);
    assert_eq!(Timestamp::from_nanos(u128::MAX / 1_000 + 1).picos, u128::MAX);
    assert_eq!(Timestamp::from_nanos(u128::MAX).picos, u128::MAX);
}
