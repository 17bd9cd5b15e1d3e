use std::cell::Cell;

use divan::bench::{
    BenchContext, BenchOptions, ByRef, ByValue, DeferSlot, DeferStore, InputCounter,
    NoInputCounter, SharedContext, Strategy,
};
use divan::config::Action;
use divan::counter::{AnyCounter, CountTotals, KnownCounterKind};
use divan::time::{Clock, FineDuration, Timestamp};

/// A clock that notes in a log when it is read.
struct LogClock<'a> {
    log: &'a Cell<Vec<String>>,
    now: Cell<u128>,
}

fn push(log: &Cell<Vec<String>>, event: &str) {
    let mut events = log.take();
    events.push(event.to_string());
    log.set(events);
}

impl Clock for LogClock<'_> {
    fn start(&self) -> Timestamp {
        push(self.log, "start");
        self.now.set(self.now.get() + 10);
        Timestamp { picos: self.now.get() }
    }

    fn end(&self) -> Timestamp {
        push(self.log, "end");
        self.now.set(self.now.get() + 10);
        Timestamp { picos: self.now.get() }
    }

    fn precision(&self) -> FineDuration {
        FineDuration { picos: 10 }
    }
}

fn shared<'a>(log: &'a Cell<Vec<String>>) -> SharedContext<LogClock<'a>> {
    SharedContext {
        clock: LogClock { log, now: Cell::new(0) },
        bench_overhead: FineDuration::default(),
        action: Action::Bench,
    }
}

#[test]
fn strategy_follows_the_properties_of_inputs_and_outputs() {
    assert_eq!(Strategy::select(false, false), Strategy::CountedLoop);
    assert_eq!(Strategy::select(false, true), Strategy::CountedLoopDeferredDrop);
    assert_eq!(Strategy::select(true, true), Strategy::SlotPairs);
    assert_eq!(Strategy::select(true, false), Strategy::InputsOnly);

    assert!(!Strategy::CountedLoop.keeps_outputs());
    assert!(Strategy::CountedLoopDeferredDrop.keeps_outputs());
    assert!(Strategy::SlotPairs.keeps_outputs());
    assert!(!Strategy::InputsOnly.keeps_outputs());
}

#[test]
fn recorder_picks_the_strategy_from_the_types() {
    let log = Cell::new(Vec::new());
    let shared = shared(&log);
    let options = BenchOptions::new();
    let context = BenchContext::new(&shared, &options);

    let counted =
        context.sample_recorder(|| (), NoInputCounter, ByValue { benched: |_: ()| 1u8 });
    assert_eq!(counted.strategy(), Strategy::CountedLoop);

    let counted = context.sample_recorder(
        || (),
        NoInputCounter,
        ByValue { benched: |_: ()| String::new() },
    );
    assert_eq!(counted.strategy(), Strategy::CountedLoopDeferredDrop);

    let pairs = context.sample_recorder(
        || 1u64,
        NoInputCounter,
        ByValue { benched: |input: u64| input.to_string() },
    );
    assert_eq!(pairs.strategy(), Strategy::SlotPairs);
    assert!(pairs.strategy().keeps_outputs());

    let inputs_only =
        context.sample_recorder(|| 1u64, NoInputCounter, ByValue { benched: |input: u64| input });
    assert_eq!(inputs_only.strategy(), Strategy::InputsOnly);
    assert!(!inputs_only.strategy().keeps_outputs());
}

#[test]
fn counted_loop_drops_inputs_and_outputs_after_the_timed_section() {
    struct Token<'a>(&'a Cell<Vec<String>>);

    struct Marker;

    impl Drop for Marker {
        fn drop(&mut self) {}
    }

    // Zero-sized inputs, and outputs that note their drop.
    impl Drop for Token<'_> {
        fn drop(&mut self) {
            push(self.0, "drop output");
        }
    }

    let log = Cell::new(Vec::new());
    let shared = shared(&log);
    let options = BenchOptions::new();
    let context = BenchContext::new(&shared, &options);

    let mut recorder = context.sample_recorder(
        || {
            push(&log, "gen");
            Marker
        },
        NoInputCounter,
        ByRef {
            benched: |_: &mut Marker| {
                push(&log, "benched");
                Token(&log)
            },
        },
    );
    assert_eq!(recorder.strategy(), Strategy::CountedLoopDeferredDrop);

    let mut totals = CountTotals::new();
    let [start, end] = recorder.record(context.counters(), 2, &mut totals);
    assert_eq!((start.picos, end.picos), (10, 20));
    assert_eq!(
        log.take(),
        vec!["gen", "gen", "start", "benched", "benched", "end", "drop output", "drop output"]
    );

    let _ = recorder.record(context.counters(), 1, &mut totals);
    assert_eq!(log.take(), vec!["gen", "start", "benched", "end", "drop output"]);
}

#[test]
fn slots_keep_outputs_until_the_sample_is_over() {
    struct Output<'a>(&'a Cell<Vec<String>>, u64);

    impl Drop for Output<'_> {
        fn drop(&mut self) {
            push(self.0, &format!("drop output {}", self.1));
        }
    }

    let log = Cell::new(Vec::new());
    let shared = shared(&log);
    let options = BenchOptions::new();
    let context = BenchContext::new(&shared, &options);

    let next = Cell::new(0u64);
    let mut recorder = context.sample_recorder(
        || {
            next.set(next.get() + 1);
            push(&log, &format!("gen {}", next.get()));
            next.get()
        },
        NoInputCounter,
        ByValue {
            benched: |input: u64| {
                push(&log, &format!("benched {input}"));
                Output(&log, input)
            },
        },
    );
    assert_eq!(recorder.strategy(), Strategy::SlotPairs);

    let mut totals = CountTotals::new();
    let _ = recorder.record(context.counters(), 3, &mut totals);
    assert_eq!(
        log.take(),
        vec![
            "gen 1",
            "gen 2",
            "gen 3",
            "start",
            "benched 1",
            "benched 2",
            "benched 3",
            "end",
            "drop output 1",
            "drop output 2",
            "drop output 3",
        ]
    );
}

#[test]
fn recorder_tallies_only_kinds_that_count_inputs() {
    let log = Cell::new(Vec::new());
    let shared = shared(&log);
    let mut options = BenchOptions::new();
    options.counters = vec![AnyCounter::chars(100)];
    let mut context = BenchContext::new(&shared, &options);

    // Bytes are counted from the inputs, characters are fixed, and nothing
    // holds a count of items though there is a function for them.
    let bencher = divan::bench::Bencher::new(&mut context)
        .with_inputs(|| 5u64)
        .input_counter(KnownCounterKind::Bytes, |input: &u64| *input);
    let _ = bencher;

    let counters = InputCounter {
        kind: KnownCounterKind::Items,
        make_counter: |_: &u64| 1u64,
        rest: InputCounter {
            kind: KnownCounterKind::Bytes,
            make_counter: |input: &u64| *input * 2,
            rest: NoInputCounter,
        },
    };
    let mut recorder =
        context.sample_recorder(|| 5u64, counters, ByValue { benched: |input: u64| input });
    let mut totals = CountTotals::new();
    let _ = recorder.record(context.counters(), 4, &mut totals);

    assert_eq!(totals.get(KnownCounterKind::Bytes), 40);
    assert_eq!(totals.get(KnownCounterKind::Chars), 0);
    assert_eq!(totals.get(KnownCounterKind::Items), 0);
}

#[test]
fn defer_store_prepares_empty_slots() {
    let mut store: DeferStore<String, String> = DeferStore::new(true);
    assert!(store.slots.is_empty());
    assert!(store.keeps_outputs);

    store.prepare(3);
    assert_eq!(store.slots.len(), 3);
    assert!(store.inputs.is_empty());
    store.slots[1] = DeferSlot { input: Some("in".to_string()), output: Some("out".to_string()) };

    store.prepare(2);
    let slots = store.slots().ok().unwrap();
    assert_eq!(slots.len(), 2);
    for slot in slots {
        assert!(slot.input.is_none());
        assert!(slot.output.is_none());
    }
    assert!(store.keeps_outputs);
}

#[test]
fn defer_store_without_outputs_has_slots_for_inputs_only() {
    let mut store: DeferStore<String, u8> = DeferStore::new(false);
    store.prepare(2);
    assert!(store.slots.is_empty());
    store.inputs[0] = Some("in".to_string());

    store.prepare(3);
    let inputs = store.slots().err().unwrap();
    assert_eq!(inputs, &vec![None, None, None]);
    assert!(!store.keeps_outputs);
}

#[test]
fn inputs_only_slots_drop_inputs_after_the_timed_section() {
    struct Input<'a>(&'a Cell<Vec<String>>, u64);

    impl Drop for Input<'_> {
        fn drop(&mut self) {
            push(self.0, &format!("drop input {}", self.1));
        }
    }

    let log = Cell::new(Vec::new());
    let shared = shared(&log);
    let options = BenchOptions::new();
    let context = BenchContext::new(&shared, &options);

    let next = Cell::new(0u64);
    let mut recorder = context.sample_recorder(
        || {
            next.set(next.get() + 1);
            Input(&log, next.get())
        },
        NoInputCounter,
        ByRef {
            benched: |input: &mut Input| {
                push(&log, &format!("benched {}", input.1));
                input.1
            },
        },
    );
    assert_eq!(recorder.strategy(), Strategy::InputsOnly);

    let mut totals = CountTotals::new();
    let _ = recorder.record(context.counters(), 2, &mut totals);
    assert_eq!(
        log.take(),
        vec!["start", "benched 1", "benched 2", "end", "drop input 1", "drop input 2"]
    );
}

#[test]
fn actions_act_on_the_iteration_they_name() {
    struct Input<'a>(&'a Cell<Vec<String>>, u64);

    impl Drop for Input<'_> {
        fn drop(&mut self) {
            push(self.0, &format!("drop input {}", self.1));
        }
    }

    struct Output<'a>(&'a Cell<Vec<String>>, u64);

    impl Drop for Output<'_> {
        fn drop(&mut self) {
            push(self.0, &format!("drop output {}", self.1));
        }
    }

    let log = Cell::new(Vec::new());
    let shared = shared(&log);
    let options = BenchOptions::new();
    let mut context = BenchContext::new(&shared, &options);

    // Items are counted from the inputs.
    let bencher = divan::bench::Bencher::new(&mut context)
        .with_inputs(|| 0u64)
        .input_counter(KnownCounterKind::Items, |_: &u64| 0);
    let _ = bencher;

    let next = Cell::new(0u64);
    let mut recorder = context.sample_recorder(
        || {
            next.set(next.get() + 1);
            push(&log, &format!("gen {}", next.get()));
            Input(&log, next.get())
        },
        InputCounter {
            kind: KnownCounterKind::Items,
            make_counter: |input: &Input| {
                push(&log, &format!("count {}", input.1));
                input.1
            },
            rest: NoInputCounter,
        },
        ByRef {
            benched: |input: &mut Input| {
                push(&log, &format!("benched {}", input.1));
                Output(&log, input.1)
            },
        },
    );
    assert_eq!(recorder.strategy(), Strategy::SlotPairs);

    let mut totals = CountTotals::new();
    recorder.begin(2);
    recorder.generate(0);
    recorder.count(0, context.counters(), &mut totals);
    assert_eq!(totals.get(KnownCounterKind::Items), 1);
    recorder.generate(1);
    recorder.count(1, context.counters(), &mut totals);
    assert_eq!(totals.get(KnownCounterKind::Items), 3);
    let start = recorder.start();
    recorder.run(0);
    recorder.run(1);
    let end = recorder.end();
    assert_eq!((start.picos, end.picos), (10, 20));
    recorder.drop_output(0);
    recorder.drop_output(1);
    recorder.drop_input(0);
    recorder.drop_input(1);
    assert_eq!(
        log.take(),
        vec![
            "gen 1",
            "count 1",
            "gen 2",
            "count 2",
            "start",
            "benched 1",
            "benched 2",
            "end",
            "drop output 1",
            "drop output 2",
            "drop input 1",
            "drop input 2",
        ]
    );
}

#[test]
fn counted_loop_runs_the_iterations_in_the_order_of_their_inputs() {
    let log = Cell::new(Vec::new());
    let shared = shared(&log);
    let options = BenchOptions::new();
    let context = BenchContext::new(&shared, &options);

    let runs = Cell::new(0u32);
    let mut recorder = context.sample_recorder(
        || push(&log, "gen"),
        NoInputCounter,
        ByValue {
            benched: |_: ()| {
                runs.set(runs.get() + 1);
                push(&log, &format!("benched {}", runs.get()));
                runs.get()
            },
        },
    );
    assert_eq!(recorder.strategy(), Strategy::CountedLoop);

    recorder.begin(2);
    recorder.generate(0);
    recorder.generate(1);
    let _ = recorder.start();
    recorder.run(0);
    recorder.run(1);
    let _ = recorder.end();
    recorder.drop_input(0);
    recorder.drop_input(1);
    assert_eq!(log.take(), vec!["gen", "gen", "start", "benched 1", "benched 2", "end"]);
    assert_eq!(runs.get(), 2);
}
