use std::cell::Cell;

use divan::bench::progress::{
    check_keeps_tuning, compute_adjusted_duration, compute_next_elapsed, compute_per_iter_count,
};
use divan::bench::{BenchContext, BenchMode, BenchOptions, SampleLoop, SharedContext};
use divan::config::Action;
use divan::counter::{AnyCounter, CountTotals, KnownCounterKind};
use divan::time::{Clock, FineDuration, Timestamp};

struct StillClock(Cell<u32>);

impl Clock for StillClock {
    fn start(&self) -> Timestamp {
        self.0.set(self.0.get() + 1);
        Timestamp { picos: 0 }
    }

    fn end(&self) -> Timestamp {
        self.0.set(self.0.get() + 1);
        Timestamp { picos: 0 }
    }

    fn precision(&self) -> FineDuration {
        FineDuration { picos: 1_000 }
    }
}

fn picos(picos: u128) -> FineDuration {
    FineDuration { picos }
}

fn shared(overhead: u128) -> SharedContext<StillClock> {
    SharedContext {
        clock: StillClock(Cell::new(0)),
        bench_overhead: picos(overhead),
        action: Action::Bench,
    }
}

fn tuning(sample_size: u32, precision: u128) -> SampleLoop {
    SampleLoop {
        mode: BenchMode::Tune { sample_size },
        elapsed_picos: 0,
        rem_samples: None,
        timer_precision: picos(precision),
    }
}

#[test]
fn modes_know_what_they_are() {
    let test = BenchMode::Test;
    let tune = BenchMode::Tune { sample_size: 8 };
    let collect = BenchMode::Collect { sample_size: 3 };
    assert!(test.is_test() && !test.is_tune() && !test.is_collect());
    assert!(!tune.is_test() && tune.is_tune() && !tune.is_collect());
    assert!(!collect.is_test() && !collect.is_tune() && collect.is_collect());
    assert_eq!(test.sample_size(), 1);
    assert_eq!(tune.sample_size(), 8);
    assert_eq!(collect.sample_size(), 3);
}

#[test]
fn initial_mode_follows_action_and_options() {
    let mut shared = shared(0);
    let mut options = BenchOptions::new();
    assert_eq!(
        BenchContext::new(&shared, &options).initial_mode(),
        BenchMode::Tune { sample_size: 1 }
    );
    options.sample_size = Some(64);
    assert_eq!(
        BenchContext::new(&shared, &options).initial_mode(),
        BenchMode::Collect { sample_size: 64 }
    );
    shared.action = Action::Test;
    assert_eq!(BenchContext::new(&shared, &options).initial_mode(), BenchMode::Test);
    assert!(Action::Test.is_test() && !Action::Test.is_bench());
    assert!(Action::Bench.is_bench() && !Action::Bench.is_test());
}

#[test]
fn tuning_goes_on_up_to_a_hundred_times_the_precision() {
    assert!(check_keeps_tuning(0, 10, 1));
    assert!(check_keeps_tuning(1_000, 10, 1));
    assert!(!check_keeps_tuning(1_001, 10, 1));
    assert!(check_keeps_tuning(99, 1, 1));
    assert!(check_keeps_tuning(100, 1, 1));
    assert!(!check_keeps_tuning(101, 1, 1));
    assert!(check_keeps_tuning(0, 0, 1));
    assert!(!check_keeps_tuning(1, 0, 1));
    assert!(check_keeps_tuning(u128::MAX, u128::MAX, 1));
    assert!(check_keeps_tuning(u128::MAX, u128::MAX / 100 + 1, 1));
    assert!(!check_keeps_tuning(u128::MAX, u128::MAX / 100, 1));
}

#[test]
fn tuning_ends_where_the_sample_size_cannot_double() {
    assert!(check_keeps_tuning(0, 10, u32::MAX / 2));
    assert!(!check_keeps_tuning(0, 10, u32::MAX / 2 + 1));
    assert!(!check_keeps_tuning(0, 10, u32::MAX));

    let shared = shared(0);
    let options = BenchOptions::new();
    let mut context = BenchContext::new(&shared, &options);
    let mut run = tuning(1 << 31, 10);
    context.record_sample(&mut run, picos(5), None, &CountTotals::new());
    assert_eq!(run.mode, BenchMode::Collect { sample_size: 1 << 31 });
    assert_eq!(run.rem_samples, Some(99));
}

#[test]
fn adjusted_duration_takes_out_the_overhead() {
    let floor = picos(7);
    assert_eq!(compute_adjusted_duration(picos(1_000), picos(10), 20, floor), picos(800));
    assert_eq!(compute_adjusted_duration(picos(1_000), picos(0), 20, floor), picos(1_000));
    assert_eq!(compute_adjusted_duration(picos(1_000), picos(50), 20, floor), floor);
    assert_eq!(compute_adjusted_duration(picos(1_000), picos(51), 20, floor), floor);
    assert_eq!(compute_adjusted_duration(picos(1_001), picos(50), 20, floor), picos(1));
    assert_eq!(compute_adjusted_duration(picos(0), picos(0), 20, floor), floor);
    assert_eq!(compute_adjusted_duration(picos(u128::MAX), picos(u128::MAX), 2, floor), floor);
}

#[test]
fn elapsed_time_moves_on_by_a_nanosecond_at_least() {
    assert_eq!(compute_next_elapsed(5, picos(0), None), 1_005);
    assert_eq!(compute_next_elapsed(5, picos(1_000), None), 1_005);
    assert_eq!(compute_next_elapsed(5, picos(1_001), None), 1_006);
    assert_eq!(compute_next_elapsed(u128::MAX - 3, picos(2_000), None), u128::MAX);
    assert_eq!(compute_next_elapsed(5, picos(2_000), Some(picos(3))), 3);
    assert_eq!(compute_next_elapsed(5, picos(0), Some(picos(0))), 0);
}

#[test]
fn per_iter_count_is_the_mean_of_the_sample() {
    assert_eq!(compute_per_iter_count(70, 10), 7);
    assert_eq!(compute_per_iter_count(79, 10), 7);
    assert_eq!(compute_per_iter_count(0, 10), 0);
    assert_eq!(compute_per_iter_count(u128::MAX, 1), u64::MAX);
    assert_eq!(compute_per_iter_count(u64::MAX as u128 * 3, 3), u64::MAX);
}

#[test]
fn loop_goes_on_while_budget_and_room_are_left() {
    let mut run = SampleLoop {
        mode: BenchMode::Collect { sample_size: 1 },
        elapsed_picos: 50,
        rem_samples: Some(2),
        timer_precision: picos(0),
    };
    assert!(run.has_budget_left(0, 100));
    assert!(!run.has_budget_left(0, 50));
    assert!(!run.has_budget_left(0, 0));
    assert!(run.goes_on(0, 100, 7));
    assert!(!run.goes_on(0, 100, u32::MAX as usize));

    run.rem_samples = Some(0);
    assert!(!run.has_budget_left(0, 100));
    assert!(!run.has_budget_left(50, 100));
    assert!(run.has_budget_left(51, 100));
    // The ceiling counts for more than the floor.
    assert!(!run.has_budget_left(90, 50));

    run.rem_samples = None;
    run.mode = BenchMode::Tune { sample_size: 4 };
    assert!(run.has_budget_left(0, 100));
    assert!(run.goes_on(0, 100, u32::MAX as usize));
}

#[test]
fn record_sample_while_tuning_replaces_what_was_recorded() {
    let shared = shared(10);
    let mut options = BenchOptions::new();
    options.sample_count = Some(5);
    options.counters = vec![AnyCounter::items(3)];
    let mut context = BenchContext::new(&shared, &options);
    let bencher = divan::bench::Bencher::new(&mut context)
        .with_inputs(|| 0u8)
        .input_counter(KnownCounterKind::Bytes, |_: &u8| 1);
    let _ = bencher;
    let mut totals = CountTotals::new();
    totals.tally(KnownCounterKind::Bytes, 17);
    totals.tally(KnownCounterKind::Items, 1_000);

    // A reading of zero counts as the precision.
    let mut run = tuning(1, 1_000);
    context.record_sample(&mut run, picos(0), None, &totals);
    assert_eq!(run.mode, BenchMode::Tune { sample_size: 2 });
    assert_eq!(run.rem_samples, None);
    assert_eq!(run.elapsed_picos, 1_000);
    assert_eq!(context.samples().all.len(), 1);
    assert_eq!(context.samples().all[0].duration, picos(990));
    assert_eq!(context.samples().sample_size, 1);
    assert_eq!(context.counters().counts(KnownCounterKind::Bytes), &vec![17]);
    assert_eq!(context.counters().counts(KnownCounterKind::Items), &vec![3]);
    assert!(context.did_run());

    // Long enough: the size is settled, and the sample is the first of five.
    context.record_sample(&mut run, picos(100_001), Some(picos(7)), &totals);
    assert_eq!(run.mode, BenchMode::Collect { sample_size: 2 });
    assert_eq!(run.rem_samples, Some(4));
    assert_eq!(run.elapsed_picos, 7);
    assert_eq!(context.samples().all.len(), 1);
    assert_eq!(context.samples().all[0].duration, picos(99_981));
    assert_eq!(context.samples().sample_size, 2);
    assert_eq!(context.counters().counts(KnownCounterKind::Bytes), &vec![8]);

    // Collected samples add up.
    context.record_sample(&mut run, picos(20), None, &totals);
    assert_eq!(run.mode, BenchMode::Collect { sample_size: 2 });
    assert_eq!(run.rem_samples, Some(3));
    assert_eq!(run.elapsed_picos, 1_007);
    assert_eq!(context.samples().all.len(), 2);
    assert_eq!(context.samples().all[1].duration, picos(1_000));
    assert_eq!(context.counters().counts(KnownCounterKind::Bytes), &vec![8, 8]);
    assert_eq!(context.counters().counts(KnownCounterKind::Items), &vec![3]);

    let stats = context.compute_stats();
    assert_eq!(stats.sample_count, 2);
    assert_eq!(stats.iter_count, 4);
    assert_eq!(stats.time.fastest, picos(500));
    assert_eq!(stats.time.slowest, picos(49_990));
    assert_eq!(stats.time.median, picos(25_245));
    assert_eq!(stats.time.mean, picos(25_245));
    assert_eq!(shared.clock.0.get(), 0);
}

#[test]
fn remaining_samples_stop_at_zero() {
    let shared = shared(0);
    let options = BenchOptions::new();
    let mut context = BenchContext::new(&shared, &options);
    let mut run = SampleLoop {
        mode: BenchMode::Collect { sample_size: 1 },
        elapsed_picos: 0,
        rem_samples: Some(1),
        timer_precision: picos(0),
    };
    for expected in [0, 0, 0] {
        context.record_sample(&mut run, picos(3), None, &CountTotals::new());
        assert_eq!(run.rem_samples, Some(expected));
    }
    assert_eq!(context.samples().all.len(), 3);
    // Without tuning there is no floor under a duration.
    context.record_sample(&mut run, picos(0), None, &CountTotals::new());
    assert_eq!(context.samples().all[3].duration, picos(0));
}

#[test]
fn statistics_are_in_order() {
    let shared = shared(0);
    let options = BenchOptions::new();
    let mut context = BenchContext::new(&shared, &options);
    let mut run = SampleLoop {
        mode: BenchMode::Collect { sample_size: 10 },
        elapsed_picos: 0,
        rem_samples: Some(100),
        timer_precision: picos(0),
    };
    for raw in [500u128, 100, 900, 300, 100, 700] {
        context.record_sample(&mut run, picos(raw), None, &CountTotals::new());
        let stats = context.compute_stats();
        assert!(stats.time.fastest <= stats.time.median);
        assert!(stats.time.median <= stats.time.slowest);
    }
    let stats = context.compute_stats();
    assert_eq!(stats.time.fastest, picos(10));
    assert_eq!(stats.time.slowest, picos(90));
    // The mean of 300 and 500, by ten iterations.
    assert_eq!(stats.time.median, picos(40));
    assert_eq!(stats.time.mean, picos(43));
    assert_eq!(stats.iter_count, 60);
}
