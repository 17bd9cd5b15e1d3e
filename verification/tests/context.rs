use std::cell::Cell;

use divan::context::{Context, DropStore, Sample, SmallDuration};
use divan::time::{Clock, FineDuration, Timestamp};

/// A clock that moves on by a fixed step with every reading.
struct StepClock {
    now: Cell<u128>,
    step: u128,
}

impl Clock for StepClock {
    fn start(&self) -> Timestamp {
        self.now.set(self.now.get() + self.step);
        Timestamp { picos: self.now.get() }
    }

    fn end(&self) -> Timestamp {
        self.now.set(self.now.get() + self.step);
        Timestamp { picos: self.now.get() }
    }

    fn precision(&self) -> FineDuration {
        FineDuration { picos: self.step }
    }
}

fn sample(start: u128, end: u128) -> Sample {
    Sample { start: Timestamp { picos: start }, end: Timestamp { picos: end } }
}

#[test]
fn new_context_aims_for_a_thousand_samples() {
    let context = Context::new(StepClock { now: Cell::new(0), step: 1 });
    assert_eq!(context.target_sample_count(), 1_000);
    assert_eq!(context.iter_per_sample, 1_000);
    assert!(context.samples.is_empty());
    assert!(context.compute_stats().is_none());
}

#[test]
fn samples_are_recorded_from_start_to_end() {
    let mut context = Context::new(StepClock { now: Cell::new(0), step: 5_000 });
    for _ in 0..3 {
        let start = context.start_sample();
        context.end_sample(start);
    }
    assert_eq!(
        context.samples,
        vec![sample(5_000, 10_000), sample(15_000, 20_000), sample(25_000, 30_000)]
    );

    let stats = context.compute_stats().unwrap();
    assert_eq!(stats.sample_count, 3);
    assert_eq!(stats.total_count, 3_000);
    assert_eq!(stats.total_duration.picos, 25_000);
    assert_eq!(stats.avg_duration.picos, 8);
    assert_eq!(stats.min_duration.picos, 5);
    assert_eq!(stats.max_duration.picos, 5);
    assert_eq!(stats.median_duration.picos, 5);
}

#[test]
fn stats_take_minimum_maximum_and_median_per_iteration() {
    let mut context = Context::new(StepClock { now: Cell::new(0), step: 1 });
    context.iter_per_sample = 10;
    context.samples =
        vec![sample(0, 300), sample(300, 400), sample(400, 1_000), sample(1_000, 1_200)];

    let stats = context.compute_stats().unwrap();
    assert_eq!(stats.sample_count, 4);
    assert_eq!(stats.total_count, 40);
    assert_eq!(stats.total_duration.picos, 1_200);
    assert_eq!(stats.avg_duration, SmallDuration { picos: 30 });
    assert_eq!(stats.min_duration, SmallDuration { picos: 10 });
    assert_eq!(stats.max_duration, SmallDuration { picos: 60 });
    // The mean of 20 and 30.
    assert_eq!(stats.median_duration, SmallDuration { picos: 25 });

    context.samples.pop();
    let stats = context.compute_stats().unwrap();
    assert_eq!(stats.median_duration, SmallDuration { picos: 30 });
    assert_eq!(stats.total_duration.picos, 1_000);
}

#[test]
fn small_durations_average_and_format() {
    let total = FineDuration { picos: 1_500_000 };
    assert_eq!(SmallDuration::average(total, 1).picos, 1_500_000);
    assert_eq!(SmallDuration::average(total, 1_000).picos, 1_500);
    assert_eq!(SmallDuration::average(total, 7).picos, 214_285);
    assert_eq!(SmallDuration { picos: 1_500 }.format(), "1.5ns");
    assert_eq!(SmallDuration { picos: 12 }.format(), "12ps");
    assert!(SmallDuration { picos: 1 } < SmallDuration { picos: 2 });
}

#[test]
fn drop_store_defers_drops_until_prepare() {
    struct Noisy<'a>(&'a Cell<u32>);

    impl Drop for Noisy<'_> {
        fn drop(&mut self) {
            self.0.set(self.0.get() + 1);
        }
    }

    let drops = Cell::new(0);
    let mut store = DropStore::with_capacity(4);
    assert!(!store.is_no_op);
    for _ in 0..3 {
        store.push(Noisy(&drops));
    }
    assert_eq!(store.items.len(), 3);
    assert_eq!(drops.get(), 0);

    store.prepare(4);
    assert_eq!(drops.get(), 3);
    assert!(store.items.is_empty());
}

#[test]
fn drop_store_keeps_nothing_that_needs_no_drop() {
    let mut store = DropStore::with_capacity(4);
    assert!(store.is_no_op);
    store.push(1u64);
    store.push(2u64);
    assert!(store.items.is_empty());
    store.prepare(2);
    assert!(store.items.is_empty());
}

#[test]
fn drop_store_that_drops_nothing_is_left_as_it_is() {
    let mut store = DropStore::with_capacity(4);
    assert!(store.is_no_op);
    store.items.push(7u64);
    store.prepare(2);
    assert_eq!(store.items, vec![7]);
    store.push(8);
    assert_eq!(store.items, vec![7]);
}
