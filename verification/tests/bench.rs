use std::cell::Cell;

use divan::bench::{BenchContext, BenchOptions, Bencher, SharedContext};
use divan::config::Action;
use divan::counter::{AnyCounter, KnownCounterKind};
use divan::time::{Clock, FineDuration, Timestamp};

const NS: u128 = 1_000;
const MS: u128 = 1_000_000_000;

/// A clock that shows the time that the test sets.
struct TestClock {
    now: Cell<u128>,
    precision: u128,
    /// The time that passes with every reading.
    tick: u128,
    starts: Cell<u32>,
    ends: Cell<u32>,
}

impl TestClock {
    fn new(precision: u128) -> Self {
        TestClock {
            now: Cell::new(0),
            precision,
            tick: 0,
            starts: Cell::new(0),
            ends: Cell::new(0),
        }
    }

    fn advance(&self, picos: u128) {
        self.now.set(self.now.get() + picos);
    }
}

impl Clock for TestClock {
    fn start(&self) -> Timestamp {
        self.starts.set(self.starts.get() + 1);
        self.advance(self.tick);
        Timestamp { picos: self.now.get() }
    }

    fn end(&self) -> Timestamp {
        self.ends.set(self.ends.get() + 1);
        self.advance(self.tick);
        Timestamp { picos: self.now.get() }
    }

    fn precision(&self) -> FineDuration {
        FineDuration { picos: self.precision }
    }
}

fn shared(clock: TestClock) -> SharedContext<TestClock> {
    SharedContext { clock, bench_overhead: FineDuration::default(), action: Action::Bench }
}

fn options(sample_count: Option<u32>, sample_size: Option<u32>) -> BenchOptions {
    let mut options = BenchOptions::new();
    options.sample_count = sample_count;
    options.sample_size = sample_size;
    options
}

fn durations(context: &BenchContext<TestClock>) -> Vec<u128> {
    context.samples().all.iter().map(|sample| sample.duration.picos).collect()
}

#[test]
fn fixed_sample_size_collects_the_requested_samples() {
    let shared = shared(TestClock::new(NS));
    let mut options = options(Some(5), Some(10));
    options.min_time = Some(FineDuration { picos: 0 });
    options.max_time = Some(FineDuration { picos: 1_000_000_000_000_000_000 });
    let mut context = BenchContext::new(&shared, &options);

    let clock = &shared.clock;
    Bencher::new(&mut context).bench(|| clock.advance(NS));

    assert!(context.did_run());
    assert_eq!(context.samples().sample_size, 10);
    assert_eq!(durations(&context), vec![10 * NS; 5]);
    for sample in &context.samples().all {
        assert!(sample.duration.picos >= NS);
    }

    let stats = context.compute_stats();
    assert_eq!(stats.sample_count, 5);
    assert_eq!(stats.iter_count, 50);
    assert_eq!(stats.time.fastest.picos, NS);
    assert_eq!(stats.time.median.picos, NS);
    assert_eq!(stats.time.slowest.picos, NS);
    assert_eq!(stats.time.mean.picos, NS);
    assert_eq!(stats.counts, [None, None, None]);
}

#[test]
fn tuning_doubles_the_sample_size_until_samples_are_long_enough() {
    let shared = shared(TestClock::new(NS));
    let options = options(None, None);
    let mut context = BenchContext::new(&shared, &options);

    let clock = &shared.clock;
    let calls = Cell::new(0u64);
    Bencher::new(&mut context).bench(|| {
        calls.set(calls.get() + 1);
        clock.advance(5 * NS)
    });

    // 1, 2, 4, 8 and 16 iterations take 80 ns at most; 32 take 160 ns.
    assert_eq!(context.samples().sample_size, 32);
    assert!(context.samples().sample_size <= 32);
    assert_eq!(context.samples().all.len(), 100);
    assert_eq!(durations(&context), vec![160 * NS; 100]);
    assert_eq!(calls.get(), 1 + 2 + 4 + 8 + 16 + 100 * 32);

    let stats = context.compute_stats();
    assert_eq!(stats.sample_count, 100);
    assert_eq!(stats.iter_count, 3_200);
    assert_eq!(stats.time.mean.picos, 5 * NS);
}

#[test]
fn tuning_goes_on_at_exactly_a_hundred_times_the_precision() {
    let shared = shared(TestClock::new(NS));
    let options = options(Some(3), None);
    let mut context = BenchContext::new(&shared, &options);

    let clock = &shared.clock;
    // 1 iteration: 100 ns, not more than 100 times the precision.
    // 2 iterations: 200 ns, which settles the size.
    Bencher::new(&mut context).bench(|| clock.advance(100 * NS));

    assert_eq!(context.samples().sample_size, 2);
    assert_eq!(durations(&context), vec![200 * NS; 3]);
}

#[test]
fn per_input_counter_fills_a_column_entry_per_sample() {
    let shared = shared(TestClock::new(NS));
    let options = options(Some(10), Some(4));
    let mut context = BenchContext::new(&shared, &options);

    let clock = &shared.clock;
    Bencher::new(&mut context)
        .with_inputs(|| vec![0u8; 7])
        .input_counter(KnownCounterKind::Bytes, |buffer: &Vec<u8>| buffer.len() as u64)
        .bench_values(|buffer| {
            clock.advance(NS);
            buffer.len()
        });

    assert_eq!(context.samples().all.len(), 10);
    assert_eq!(context.counters().counts(KnownCounterKind::Bytes), &vec![7; 10]);
    assert!(context.counters().counts(KnownCounterKind::Items).is_empty());

    let stats = context.compute_stats();
    assert_eq!(stats.iter_count, 40);
    let bytes = stats.counts[KnownCounterKind::Bytes.index()].as_ref().unwrap();
    assert_eq!(bytes.mean, 7);
    assert_eq!(bytes.median, 7);
    assert_eq!(bytes.fastest, 7);
    assert_eq!(bytes.slowest, 7);
    assert!(stats.counts[KnownCounterKind::Chars.index()].is_none());
    assert!(stats.counts[KnownCounterKind::Items.index()].is_none());
}

#[test]
fn per_input_counts_are_averaged_over_the_sample() {
    let shared = shared(TestClock::new(NS));
    let options = options(Some(2), Some(3));
    let mut context = BenchContext::new(&shared, &options);

    let clock = &shared.clock;
    let next = Cell::new(0u64);
    Bencher::new(&mut context)
        .with_inputs(|| {
            next.set(next.get() + 1);
            next.get()
        })
        .counter(AnyCounter::chars(9))
        .input_counter(KnownCounterKind::Items, |input: &u64| *input)
        .bench_refs(|input| {
            // Later samples are faster.
            clock.advance((10 - *input as u128) * NS);
        });

    // Inputs 1, 2, 3 and then 4, 5, 6: means 2 and 5.
    assert_eq!(context.counters().counts(KnownCounterKind::Items), &vec![2, 5]);
    assert_eq!(context.counters().counts(KnownCounterKind::Chars), &vec![9]);
    assert_eq!(durations(&context), vec![24 * NS, 15 * NS]);

    let stats = context.compute_stats();
    let items = stats.counts[KnownCounterKind::Items.index()].as_ref().unwrap();
    assert_eq!(items.fastest, 5);
    assert_eq!(items.slowest, 2);
    assert_eq!(items.median, 3);
    assert_eq!(items.mean, 3);
    let chars = stats.counts[KnownCounterKind::Chars.index()].as_ref().unwrap();
    assert_eq!((chars.fastest, chars.slowest, chars.median, chars.mean), (9, 9, 9, 9));
    assert_eq!(stats.time.fastest.picos, 5 * NS);
    assert_eq!(stats.time.slowest.picos, 8 * NS);
    assert_eq!(stats.time.median.picos, 6_500);
}

#[test]
fn time_ceiling_ends_the_loop() {
    let shared = shared(TestClock::new(NS));
    let mut options = options(Some(100), Some(1));
    options.max_time = Some(FineDuration { picos: 10 * MS });
    let mut context = BenchContext::new(&shared, &options);

    let clock = &shared.clock;
    // Stands in for a function that sleeps for 3 ms.
    Bencher::new(&mut context).bench(|| clock.advance(3 * MS));

    let samples = context.samples().all.len();
    assert!(samples == 3 || samples == 4);
    assert_eq!(samples, 4);
    let elapsed = shared.clock.now.get();
    assert!(elapsed >= 9 * MS);
    assert!(elapsed < 15 * MS);
}

#[test]
fn time_floor_keeps_the_loop_going() {
    let shared = shared(TestClock::new(NS));
    let mut options = options(Some(2), Some(1));
    options.min_time = Some(FineDuration { picos: 10 * MS });
    let mut context = BenchContext::new(&shared, &options);

    let clock = &shared.clock;
    Bencher::new(&mut context).bench(|| clock.advance(3 * MS));

    // 3, 6 and 9 ms are below the floor; 12 ms are not.
    assert_eq!(context.samples().all.len(), 4);
}

#[test]
fn skipped_ext_time_counts_sample_durations_only() {
    let shared = shared(TestClock::new(NS));
    let mut options = options(Some(100), Some(1));
    options.max_time = Some(FineDuration { picos: 10 * MS });
    options.skip_ext_time = Some(true);
    let mut context = BenchContext::new(&shared, &options);

    let clock = &shared.clock;
    Bencher::new(&mut context)
        .with_inputs(|| {
            // Generating an input takes a long time.
            clock.advance(50 * MS);
        })
        .bench_values(|_| clock.advance(3 * MS));

    // 3, 6, 9 and 12 ms of samples, whatever the inputs cost.
    assert_eq!(context.samples().all.len(), 4);
    assert_eq!(shared.clock.starts.get(), 4);
}

#[test]
fn ext_time_counts_toward_the_ceiling_unless_skipped() {
    let shared = shared(TestClock::new(NS));
    let mut options = options(Some(100), Some(1));
    options.max_time = Some(FineDuration { picos: 10 * MS });
    let mut context = BenchContext::new(&shared, &options);

    let clock = &shared.clock;
    Bencher::new(&mut context)
        .with_inputs(|| clock.advance(50 * MS))
        .bench_values(|_| clock.advance(3 * MS));

    assert_eq!(context.samples().all.len(), 1);
    // One reading for the start of the loop, one for the sample.
    assert_eq!(shared.clock.starts.get(), 2);
}

#[test]
fn fast_samples_make_progress_when_ext_time_is_skipped() {
    let shared = shared(TestClock::new(NS));
    let mut options = options(Some(1), Some(1));
    options.min_time = Some(FineDuration { picos: 10 * NS });
    options.skip_ext_time = Some(true);
    let mut context = BenchContext::new(&shared, &options);

    // The clock never moves: every sample counts as 1 ns.
    Bencher::new(&mut context).bench(|| ());

    assert_eq!(context.samples().all.len(), 10);
    assert_eq!(durations(&context), vec![0; 10]);
}

#[test]
fn zero_max_time_or_zero_samples_runs_nothing() {
    let shared = shared(TestClock::new(NS));

    let mut no_time = options(None, None);
    no_time.max_time = Some(FineDuration { picos: 0 });
    let no_samples = options(Some(0), Some(10));

    for options in [&no_time, &no_samples] {
        let mut context = BenchContext::new(&shared, options);
        let calls = Cell::new(0u32);
        Bencher::new(&mut context)
            .with_inputs(|| calls.set(calls.get() + 1))
            .bench_values(|_| calls.set(calls.get() + 1));

        assert_eq!(calls.get(), 0);
        assert!(context.samples().all.is_empty());
        assert!(!context.did_run());
        assert!(context.is_idle());
        assert_eq!(context.compute_stats().sample_count, 0);
    }
    assert_eq!(shared.clock.starts.get(), 0);
    assert_eq!(shared.clock.ends.get(), 0);
    assert!(!no_samples.has_samples());
    assert!(no_time.has_samples());
}

#[test]
fn did_run_stays_false_without_a_bench_call() {
    let shared = shared(TestClock::new(NS));
    let options = options(None, None);
    let mut context = BenchContext::new(&shared, &options);
    assert!(!context.did_run());

    let bencher = Bencher::new(&mut context)
        .counter(AnyCounter::bytes(1))
        .with_inputs(|| 1u8)
        .input_counter(KnownCounterKind::Items, |_: &u8| 1);
    let _ = bencher;

    assert!(!context.did_run());
    assert!(context.samples().all.is_empty());
    let stats = context.compute_stats();
    assert_eq!(stats.sample_count, 0);
    assert_eq!(stats.iter_count, 0);
    assert_eq!(stats.time.fastest.picos, 0);
    assert_eq!(stats.time.median.picos, 0);
    assert_eq!(stats.time.slowest.picos, 0);
    assert_eq!(stats.time.mean.picos, 0);
    assert_eq!(stats.counts, [None, None, None]);
}

#[test]
fn test_action_runs_once_and_records_nothing() {
    let mut shared = shared(TestClock::new(NS));
    shared.action = Action::Test;
    let options = options(Some(5), Some(10));
    let mut context = BenchContext::new(&shared, &options);

    let calls = Cell::new(0u32);
    Bencher::new(&mut context).bench(|| calls.set(calls.get() + 1));

    assert_eq!(calls.get(), 1);
    assert!(context.did_run());
    assert!(context.samples().all.is_empty());
}

#[test]
fn zero_durations_are_raised_to_the_precision_while_tuning() {
    let mut clock = TestClock::new(NS);
    clock.tick = 0;
    let shared = shared(clock);
    let mut options = options(Some(3), None);
    options.max_time = Some(FineDuration { picos: 5 * NS });
    options.skip_ext_time = Some(true);
    let mut context = BenchContext::new(&shared, &options);

    // The clock never moves, so tuning goes on until the time is up.
    let calls = Cell::new(0u32);
    Bencher::new(&mut context).bench(|| calls.set(calls.get() + 1));

    // Five samples were counted as 1 ns each; only the last one is kept.
    assert_eq!(durations(&context), vec![NS]);
    assert_eq!(context.samples().sample_size, 16);
    assert_eq!(calls.get(), 1 + 2 + 4 + 8 + 16);
}

#[test]
fn overhead_is_taken_out_of_every_sample() {
    let mut shared = shared(TestClock::new(NS));
    shared.bench_overhead = FineDuration { picos: 200 };
    let options = options(Some(2), Some(10));
    let mut context = BenchContext::new(&shared, &options);

    let clock = &shared.clock;
    Bencher::new(&mut context).bench(|| clock.advance(NS));

    assert_eq!(durations(&context), vec![8 * NS; 2]);
}

#[test]
fn inputs_are_made_before_and_dropped_after_the_timed_section() {
    struct Input<'a> {
        log: &'a Cell<Vec<&'static str>>,
    }

    impl Drop for Input<'_> {
        fn drop(&mut self) {
            push(self.log, "drop input");
        }
    }

    fn push(log: &Cell<Vec<&'static str>>, event: &'static str) {
        let mut events = log.take();
        events.push(event);
        log.set(events);
    }

    struct LogClock<'a> {
        log: &'a Cell<Vec<&'static str>>,
    }

    impl Clock for LogClock<'_> {
        fn start(&self) -> Timestamp {
            push(self.log, "start");
            Timestamp { picos: 0 }
        }

        fn end(&self) -> Timestamp {
            push(self.log, "end");
            Timestamp { picos: 5 }
        }

        fn precision(&self) -> FineDuration {
            FineDuration { picos: 1 }
        }
    }

    let log = Cell::new(Vec::new());
    let shared = SharedContext {
        clock: LogClock { log: &log },
        bench_overhead: FineDuration::default(),
        action: Action::Bench,
    };
    let mut options = options(Some(1), Some(2));
    options.skip_ext_time = Some(true);
    let mut context = BenchContext::new(&shared, &options);

    Bencher::new(&mut context)
        .with_inputs(|| {
            push(&log, "gen");
            Input { log: &log }
        })
        .bench_refs(|_input| push(&log, "benched"));

    assert_eq!(
        log.take(),
        vec![
            "gen", "gen", "start", "benched", "benched", "end", "drop input", "drop input",
        ]
    );
}

#[test]
fn each_input_is_used_exactly_once() {
    let shared = shared(TestClock::new(NS));
    let options = options(Some(4), Some(8));
    let mut context = BenchContext::new(&shared, &options);

    let generated = Cell::new(0u64);
    let mut seen = Vec::new();
    Bencher::new(&mut context)
        .with_inputs(|| {
            generated.set(generated.get() + 1);
            generated.get()
        })
        .bench_values(|input| seen.push(input));

    assert_eq!(generated.get(), 32);
    assert_eq!(seen, (1..=32).collect::<Vec<u64>>());
}

#[test]
fn outputs_are_dropped_after_the_timed_section() {
    struct Output<'a> {
        drops: &'a Cell<u32>,
    }

    impl Drop for Output<'_> {
        fn drop(&mut self) {
            self.drops.set(self.drops.get() + 1);
        }
    }

    /// Notes how many outputs were dropped at each end of a sample.
    struct DropClock<'a> {
        drops: &'a Cell<u32>,
        at_end: Cell<Vec<u32>>,
    }

    impl Clock for DropClock<'_> {
        fn start(&self) -> Timestamp {
            Timestamp { picos: 0 }
        }

        fn end(&self) -> Timestamp {
            let mut seen = self.at_end.take();
            seen.push(self.drops.get());
            self.at_end.set(seen);
            Timestamp { picos: 1 }
        }

        fn precision(&self) -> FineDuration {
            FineDuration { picos: 1 }
        }
    }

    let drops = Cell::new(0);
    let shared = SharedContext {
        clock: DropClock { drops: &drops, at_end: Cell::new(Vec::new()) },
        bench_overhead: FineDuration::default(),
        action: Action::Bench,
    };
    let options = options(Some(4), Some(8));
    let mut context = BenchContext::new(&shared, &options);

    Bencher::new(&mut context).bench(|| Output { drops: &drops });

    assert_eq!(drops.get(), 32);
    // At the end of each sample only the outputs of earlier samples are gone.
    assert_eq!(shared.clock.at_end.take(), vec![0, 8, 16, 24]);
}

#[test]
fn new_context_takes_any_options() {
    let shared = shared(TestClock::new(NS));
    let options = options(None, Some(0));
    let context = BenchContext::new(&shared, &options);
    assert!(!context.did_run());
    assert!(context.samples().all.is_empty());
    assert!(!context.is_idle());
    // Samples of no iterations cannot be recorded.
    assert!(!context.can_run());
    assert_eq!(context.compute_stats().sample_count, 0);

    let sized = self::options(None, Some(1));
    assert!(BenchContext::new(&shared, &sized).can_run());
    let tuned = self::options(None, None);
    assert!(BenchContext::new(&shared, &tuned).can_run());
    let none_asked = self::options(Some(0), Some(0));
    assert!(BenchContext::new(&shared, &none_asked).is_idle());
    assert!(BenchContext::new(&shared, &none_asked).can_run());
}

#[test]
fn test_action_runs_once_whatever_the_sample_size() {
    let mut shared = shared(TestClock::new(NS));
    shared.action = Action::Test;
    let options = options(None, Some(0));
    let mut context = BenchContext::new(&shared, &options);
    assert!(context.can_run());

    let generated = Cell::new(0u32);
    let mut taken = Vec::new();
    Bencher::new(&mut context)
        .with_inputs(|| {
            generated.set(generated.get() + 1);
            generated.get()
        })
        .bench_values(|input| taken.push(input));

    assert_eq!(generated.get(), 1);
    assert_eq!(taken, vec![1]);
    assert!(context.did_run());
    assert!(context.samples().all.is_empty());
    assert!(context.counters().counts(KnownCounterKind::Bytes).is_empty());
}

#[test]
fn tuned_run_brings_columns_and_samples_in_step() {
    let shared = shared(TestClock::new(NS));
    let options = options(Some(4), None);
    let mut context = BenchContext::new(&shared, &options);

    let clock = &shared.clock;
    Bencher::new(&mut context).bench(|| clock.advance(200 * NS));
    assert_eq!(context.samples().all.len(), 4);
    assert_eq!(context.samples().sample_size, 1);

    // The column starts out empty beside four samples; a tuned run erases
    // what was recorded before it, so that they agree in the end.
    Bencher::new(&mut context)
        .with_inputs(|| 3u64)
        .input_counter(KnownCounterKind::Items, |input: &u64| *input)
        .bench_values(|input| {
            clock.advance(60 * NS);
            input
        });
    assert_eq!(context.samples().sample_size, 2);
    assert_eq!(durations(&context), vec![120 * NS; 4]);
    assert_eq!(context.counters().counts(KnownCounterKind::Items), &vec![3; 4]);
    assert_eq!(context.samples().iter_count(), 8);
}

#[test]
fn ceiling_bounds_the_number_of_samples_from_both_sides() {
    let shared = shared(TestClock::new(NS));
    let mut options = options(Some(100), Some(1));
    options.max_time = Some(FineDuration { picos: 10 * MS });
    let mut context = BenchContext::new(&shared, &options);

    // Every sample ends 3 ms after the one before it: the fourth is the last
    // one that starts below the ceiling of 10 ms.
    let clock = &shared.clock;
    Bencher::new(&mut context).bench(|| clock.advance(3 * MS));
    assert_eq!(context.samples().all.len(), 4);
    assert_eq!(durations(&context), vec![3 * MS; 4]);
    assert_eq!(clock.now.get(), 12 * MS);
}
