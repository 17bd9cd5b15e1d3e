//! The benchmark loop: how samples are taken and accounted for.

use vstd::prelude::*;

use crate::config::Action;
use crate::counter::{AnyCounter, CountTotals, CounterCollection, CounterState, KnownCounterKind};
use crate::stats::{
    count_for_sample, counter_stats, is_sorted_order, ranks_before, time_stats, Sample,
    SampleCollection, Stats, StatsSet,
};
use crate::time::{is_span_of, Clock, FineDuration, Timestamp};
use crate::util::Unit;

pub mod benched;
pub mod count_input;
pub mod defer;
pub mod options;
pub mod progress;
pub mod recorder;
pub mod sample;

pub use self::benched::{Benched, ByRef, ByValue, NoInput};
pub use self::count_input::{CountInput, InputCounter, NoInputCounter};
pub use self::defer::{DeferSlot, DeferStore};
pub use self::options::{BenchOptions, DEFAULT_SAMPLE_COUNT};
pub use self::progress::{Measurement, Progress, SampleLoop};
pub use self::recorder::{Iteration, SampleRecord, SampleRecorder, SampleStep, Strategy};

use self::recorder::{counted_of, is_iteration, is_sample, sample_steps, tallied_all, Taken};
use self::sample::run_steps;

use self::progress::{
    check_keeps_tuning, compute_adjusted_duration, compute_next_elapsed, compute_per_iter_count,
    samples_bound,
};

verus! {

/// State machine for how the benchmark is being run.
#[derive(Clone, Copy, Debug, PartialEq, Eq, Structural)]
pub enum BenchMode {
    /// The benchmark is being run as a test.
    ///
    /// Don't collect samples and run exactly once.
    Test,
    /// Scale `sample_size` to determine the right size for collecting.
    Tune { sample_size: u32 },
    /// Simply collect samples.
    Collect { sample_size: u32 },
}

impl BenchMode {
    /// The number of iterations in a sample that is taken in this mode.
    pub open spec fn spec_sample_size(self) -> u32 {
        match self {
            BenchMode::Test => 1,
            BenchMode::Tune { sample_size } => sample_size,
            BenchMode::Collect { sample_size } => sample_size,
        }
    }

    /// Whether this is [`BenchMode::Test`].
    pub fn is_test(self) -> (b: bool)
        ensures
            b == (self is Test),
    {
        matches!(self, BenchMode::Test)
    }

    /// Whether this is [`BenchMode::Tune`].
    pub fn is_tune(self) -> (b: bool)
        ensures
            b == (self is Tune),
    {
        matches!(self, BenchMode::Tune { .. })
    }

    /// Whether this is [`BenchMode::Collect`].
    pub fn is_collect(self) -> (b: bool)
        ensures
            b == (self is Collect),
    {
        matches!(self, BenchMode::Collect { .. })
    }

    /// The number of iterations in a sample that is taken in this mode.
    #[verifier::when_used_as_spec(spec_sample_size)]
    pub fn sample_size(self) -> (size: u32)
        ensures
            size == self.spec_sample_size(),
    {
        match self {
            BenchMode::Test => 1,
            BenchMode::Tune { sample_size } => sample_size,
            BenchMode::Collect { sample_size } => sample_size,
        }
    }
}

/// What the benchmarks of one run of the harness share.
pub struct SharedContext<C> {
    /// The clock that samples are timed with.
    pub clock: C,
    /// The time that one iteration of an empty sample loop takes. It is
    /// taken out of every sample.
    pub bench_overhead: FineDuration,
    /// What is done with the benchmarks.
    pub action: Action,
}

/// The context of one benchmark: its options, and what was measured of it.
pub struct BenchContext<'a, C> {
    shared_context: &'a SharedContext<C>,
    /// User-configured options.
    options: &'a BenchOptions,
    /// Whether the benchmark loop was started.
    did_run: bool,
    /// Recorded samples.
    samples: SampleCollection,
    /// Per-iteration counters grouped by sample.
    counters: CounterCollection,
}

impl<'a, C: Clock> BenchContext<'a, C> {
    /// What the benchmark shares with the others of the run.
    pub closed spec fn spec_shared_context(&self) -> SharedContext<C> {
        *self.shared_context
    }

    /// User-configured options.
    pub closed spec fn spec_options(&self) -> BenchOptions {
        *self.options
    }

    /// Whether the benchmark loop was started.
    pub closed spec fn spec_did_run(&self) -> bool {
        self.did_run
    }

    /// Recorded samples.
    pub closed spec fn spec_samples(&self) -> SampleCollection {
        self.samples
    }

    /// Per-iteration counters grouped by sample.
    pub closed spec fn spec_counters(&self) -> CounterCollection {
        self.counters
    }

    /// Whether the context is in a state that its own functions leave it in:
    /// a recorded sample has at least one iteration, there are no more
    /// samples than fit the statistics, and none before the benchmark loop
    /// was started.
    pub open spec fn wf(&self) -> bool {
        &&& self.spec_counters().wf()
        &&& self.spec_samples().all@.len() <= u32::MAX
        &&& self.spec_samples().all@.len() > 0 ==> self.spec_samples().sample_size > 0
        &&& !self.spec_did_run() ==> self.spec_samples().all@.len() == 0
    }

    /// Whether every column of counts that are taken from the inputs has one
    /// entry for each recorded sample.
    pub open spec fn columns_match(&self) -> bool {
        self.spec_counters().columns_have_len(self.spec_samples().all@.len())
    }

    /// What holds of this context once the benchmark loop has run on
    /// `before`, whatever the clock showed and the benchmarked function did.
    ///
    /// Nothing has changed if the options ask for no samples or leave no
    /// time: the loop was not even started. Else it was started, and no
    /// sample was recorded if the harness runs tests. Else at least one
    /// sample was
    /// recorded, and no more than asked for unless a time floor called for
    /// them; samples that were collected before are still there if the
    /// sample size is given by the options, and were replaced if it was
    /// tuned. Where the sample size was tuned, every column of counts that
    /// are taken from the inputs has one entry for each sample; where it is
    /// given, the columns that had one for each sample before still do.
    pub open spec fn ran_from(&self, before: &Self) -> bool {
        let idle = before.is_idle();
        let target = before.spec_options().spec_target_sample_count();
        let no_floor = before.spec_options().spec_min_picos() == 0;
        let old_samples = before.spec_samples().all@;
        let new_samples = self.spec_samples().all@;
        &&& self.wf()
        &&& self.spec_shared_context() == before.spec_shared_context()
        &&& self.spec_options() == before.spec_options()
        &&& before.columns_match() ==> self.columns_match()
        &&& !idle ==> self.spec_did_run()
        &&& idle ==> {
            &&& self.spec_did_run() == before.spec_did_run()
            &&& self.spec_samples() == before.spec_samples()
            &&& self.spec_counters() == before.spec_counters()
        }
        &&& !idle ==> match before.spec_initial_mode() {
            BenchMode::Test => {
                &&& self.spec_samples().sample_size == 1
                &&& self.spec_samples().all == before.spec_samples().all
                &&& self.spec_counters() == before.spec_counters()
            },
            BenchMode::Tune { .. } => {
                &&& self.spec_samples().sample_size >= 1
                &&& new_samples.len() >= 1
                &&& no_floor ==> new_samples.len() <= target
                &&& self.columns_match()
            },
            BenchMode::Collect { sample_size } => {
                &&& old_samples.len() <= new_samples.len()
                &&& new_samples.take(old_samples.len() as int) == old_samples
                &&& old_samples.len() < u32::MAX ==> {
                    &&& old_samples.len() < new_samples.len()
                    &&& self.spec_samples().sample_size == sample_size
                }
                &&& no_floor ==> new_samples.len() <= old_samples.len() + target
            },
        }
    }

    /// What is recorded in this context, for a loop that stands at `run`.
    pub open spec fn progress(&self, run: SampleLoop) -> Progress {
        Progress {
            run,
            sample_size: self.spec_samples().sample_size,
            samples: self.spec_samples().all@,
            bytes: self.spec_counters().state(KnownCounterKind::Bytes),
            chars: self.spec_counters().state(KnownCounterKind::Chars),
            items: self.spec_counters().state(KnownCounterKind::Items),
        }
    }

    /// Where the benchmark loop starts from in this context, with a clock of
    /// the given precision: in the initial mode, with no time spent, and with
    /// all samples still to record if their size is given. The precision is
    /// of use only where the sample size is tuned.
    pub open spec fn initial_progress(&self, precision: FineDuration) -> Progress {
        let mode = self.spec_initial_mode();
        self.progress(
            SampleLoop {
                mode,
                elapsed_picos: 0,
                rem_samples: if mode is Collect {
                    Some(self.spec_options().spec_target_sample_count())
                } else {
                    None
                },
                timer_precision: if mode is Tune {
                    precision
                } else {
                    FineDuration { picos: 0 }
                },
            },
        )
    }

    /// Whether this context is what the benchmark loop leaves of `before`
    /// when the clock has the given precision and the samples are measured
    /// as `log` says: the precision is what the clock gave, if the sample
    /// size is tuned; each sample was taken because the loop was to go on,
    /// and after the last one it was not; what is recorded is what recording
    /// these samples comes to; the time since the start of the loop was
    /// measured only if time outside of the samples is part of the budget;
    /// and where the sample size was tuned, the samples that were taken
    /// before it was settled are erased: see
    /// [`holds_settled_samples`](progress::holds_settled_samples).
    pub open spec fn is_outcome_of(
        &self,
        before: &Self,
        log: Seq<Measurement>,
        precision: FineDuration,
    ) -> bool {
        let options = before.spec_options();
        let overhead = before.spec_shared_context().bench_overhead.picos;
        let target = options.spec_target_sample_count();
        let initial = before.initial_progress(precision);
        let last = initial.after_all(log, overhead, target);
        &&& before.spec_initial_mode() is Tune ==> call_ensures(
            C::precision,
            (&before.spec_shared_context().clock,),
            precision,
        )
        &&& self.progress(last.run) == last
        &&& !last.goes_on(options.spec_min_picos(), options.spec_max_picos())
        &&& forall|k: int|
            0 <= k < log.len() ==> (#[trigger] initial.after_all(
                log.take(k),
                overhead,
                target,
            )).goes_on(options.spec_min_picos(), options.spec_max_picos())
        &&& forall|k: int|
            0 <= k < log.len() ==> ((#[trigger] log[k]).since_start is None
                <==> options.spec_skips_ext_time())
        &&& before.spec_initial_mode() is Tune ==> progress::holds_settled_samples(
            initial,
            log,
            overhead,
            target,
        )
    }

    /// Whether the options ask for nothing to be run: for no samples, or for
    /// samples in no time.
    pub open spec fn spec_is_idle(&self) -> bool {
        self.spec_options().spec_max_picos() == 0 || !self.spec_options().spec_has_samples()
    }

    /// Whether the benchmark loop can run: a sample that is recorded has one
    /// iteration at least, so the options may not set the sample size to
    /// zero, unless they ask for nothing to be run or the harness runs tests.
    pub open spec fn spec_can_run(&self) -> bool {
        self.is_idle() || self.spec_initial_mode() != (BenchMode::Collect { sample_size: 0 })
    }

    /// Whether a sample of `sample_size` iterations was taken in this
    /// context, with `iterations` as its iterations and between the readings
    /// `start` and `end` of the clock: see [`is_sample`] and [`is_span_of`].
    pub open spec fn has_sampled<I, O, G, N, B>(
        &self,
        gen_input: G,
        input_counters: N,
        benched: B,
        iterations: Seq<Iteration<I, O>>,
        sample_size: u32,
        start: Timestamp,
        end: Timestamp,
    ) -> bool where G: FnMut() -> I, N: CountInput<I>, B: Benched<I, O> {
        &&& is_sample(
            gen_input,
            input_counters,
            benched,
            &self.spec_counters(),
            iterations,
            sample_size as nat,
        )
        &&& is_span_of(&self.spec_shared_context().clock, start, end)
    }

    /// Whether `measured` is what was measured of a sample of `sample_size`
    /// iterations that was taken in this context, in a loop that began at
    /// `initial_start` where that was read from the clock.
    pub open spec fn has_measured<I, O, G, N, B>(
        &self,
        gen_input: G,
        input_counters: N,
        benched: B,
        initial_start: Option<Timestamp>,
        measured: Measurement,
        sample_size: u32,
    ) -> bool where G: FnMut() -> I, N: CountInput<I>, B: Benched<I, O> {
        exists|iterations: Seq<Iteration<I, O>>, start: Timestamp, end: Timestamp|
            {
                &&& #[trigger] self.has_sampled(
                    gen_input,
                    input_counters,
                    benched,
                    iterations,
                    sample_size,
                    start,
                    end,
                )
                &&& measured == measurement_of(iterations, start, end, initial_start)
            }
    }

    /// The sizes of the samples that the benchmark loop takes of this context
    /// if the clock has the given precision and the samples are measured as
    /// `log` says: each of them is the size that the loop has come to with
    /// the measurements before it.
    pub open spec fn sample_sizes(&self, log: Seq<Measurement>, precision: FineDuration) -> Seq<
        nat,
    > {
        let overhead = self.spec_shared_context().bench_overhead.picos;
        let target = self.spec_options().spec_target_sample_count();
        let initial = self.initial_progress(precision);
        Seq::new(
            log.len(),
            |k: int|
                initial.after_all(log.take(k), overhead, target).run.mode.sample_size() as nat,
        )
    }

    /// Whether this context is what the benchmark loop leaves of `before`
    /// when it runs `benched` on what `gen_input` makes, the clock has the
    /// given precision, the loop begins at `initial_start`, and the samples
    /// are measured as `log` says: the context is the outcome of these
    /// measurements, as [`is_outcome_of`](Self::is_outcome_of) says; the
    /// beginning of the loop is a reading of the clock, taken only if time
    /// outside of the samples is part of the budget; and each measurement
    /// is that of a sample of the size that the loop had come to. What was
    /// done for it is `steps`: the steps of one sample after the other, each
    /// of the size that the loop had come to, and nothing else.
    pub open spec fn is_run_of<I, O, G, N, B>(
        &self,
        before: &Self,
        gen_input: G,
        input_counters: N,
        benched: B,
        log: Seq<Measurement>,
        precision: FineDuration,
        initial_start: Option<Timestamp>,
        steps: Seq<SampleStep>,
    ) -> bool where G: FnMut() -> I, N: CountInput<I>, B: Benched<I, O> {
        let overhead = before.spec_shared_context().bench_overhead.picos;
        let target = before.spec_options().spec_target_sample_count();
        let initial = before.initial_progress(precision);
        let sizes = before.sample_sizes(log, precision);
        &&& self.is_outcome_of(before, log, precision)
        &&& steps == run_steps(sizes, true) || steps == run_steps(sizes, false)
        &&& initial_start is None <==> before.spec_options().spec_skips_ext_time()
        &&& initial_start matches Some(reading) ==> call_ensures(
            C::start,
            (&before.spec_shared_context().clock,),
            reading,
        )
        &&& forall|k: int|
            0 <= k < log.len() ==> before.has_measured(
                gen_input,
                input_counters,
                benched,
                initial_start,
                #[trigger] log[k],
                initial.after_all(log.take(k), overhead, target).run.mode.sample_size(),
            )
    }

    /// What holds of this context once the benchmark loop has run `benched`
    /// on `before`, with inputs that `gen_input` makes and `input_counters`
    /// count: what [`ran_from`](Self::ran_from) says, and, unless the options
    /// ask for nothing to be run, that the function was run. If the harness
    /// runs tests, it was run for one sample of one iteration. Else the
    /// context is what recording some samples of it comes to: see
    /// [`is_run_of`](Self::is_run_of). What was done for it is `steps`:
    /// nothing if nothing was to be run, the steps of one sample of one
    /// iteration if the harness runs tests, and else the steps of the
    /// samples that were recorded or used for tuning.
    pub open spec fn benchmarked<I, O, G, N, B>(
        &self,
        before: &Self,
        gen_input: G,
        input_counters: N,
        benched: B,
        steps: Seq<SampleStep>,
    ) -> bool where G: FnMut() -> I, N: CountInput<I>, B: Benched<I, O> {
        &&& self.ran_from(before)
        &&& before.is_idle() ==> steps == Seq::<SampleStep>::empty()
        &&& !before.is_idle() ==> if before.spec_initial_mode() is Test {
            &&& steps == sample_steps(1, true) || steps == sample_steps(1, false)
            &&& exists|iterations: Seq<Iteration<I, O>>| #[trigger]
                is_sample(
                    gen_input,
                    input_counters,
                    benched,
                    &before.spec_counters(),
                    iterations,
                    1,
                )
        } else {
            exists|
                log: Seq<Measurement>,
                precision: FineDuration,
                initial_start: Option<Timestamp>,
            | #[trigger]
                self.is_run_of(
                    before,
                    gen_input,
                    input_counters,
                    benched,
                    log,
                    precision,
                    initial_start,
                    steps,
                )
        }
    }

    /// A run that collects samples of a given size counts that many
    /// iterations for each sample it holds, and holds one count for each
    /// sample in every column of counts that are taken from the inputs: if
    /// the options give the sample size, the loop has run in `before`, and
    /// the columns of `before` had one entry for each of its samples, then
    /// the sample size is the one of the options, the number of iterations
    /// is the sample size times the number of samples, and every such column
    /// is as long as the samples are many.
    pub proof fn lemma_collected_counts(&self, before: &Self, sample_size: u32)
        requires
            self.ran_from(before),
            !before.is_idle(),
            before.spec_initial_mode() == (BenchMode::Collect { sample_size }),
            before.spec_samples().all@.len() < u32::MAX,
            before.columns_match(),
        ensures
            self.spec_samples().sample_size == sample_size,
            self.spec_samples().all@.len() > before.spec_samples().all@.len(),
            self.spec_samples().total_iterations() == sample_size * self.spec_samples().all@.len(),
            self.spec_counters().columns_have_len(self.spec_samples().all@.len()),
    {
    }

    /// A run that tunes the sample size leaves the samples and the columns
    /// of counts in step, whatever was recorded before: if the options leave
    /// the sample size open and the loop has run in `before`, every column
    /// of counts that are taken from the inputs is as long as the samples
    /// are many, and the number of iterations is the sample size times the
    /// number of samples.
    pub proof fn lemma_tuned_counts(&self, before: &Self)
        requires
            self.ran_from(before),
            !before.is_idle(),
            before.spec_initial_mode() is Tune,
        ensures
            self.spec_samples().all@.len() >= 1,
            self.spec_samples().total_iterations() == self.spec_samples().sample_size
                * self.spec_samples().all@.len(),
            self.spec_counters().columns_have_len(self.spec_samples().all@.len()),
    {
    }

    /// A benchmark loop records exactly the samples that are asked for, where
    /// none are asked for in vain: if there is no time floor, the loop has
    /// ended below the time ceiling with the sample size settled, and the
    /// collection had room for more, then the samples recorded by the loop are
    /// as many as the options ask for, or a hundred if they do not say. If the
    /// sample size was tuned, the sample that settled it is the first of
    /// them.
    pub proof fn lemma_outcome_holds_what_is_asked_for(
        &self,
        before: &Self,
        log: Seq<Measurement>,
        precision: FineDuration,
    )
        requires
            self.is_outcome_of(before, log, precision),
            !before.is_idle(),
            before.can_run(),
            !(before.spec_initial_mode() is Test),
            before.spec_options().spec_min_picos() == 0,
            before.initial_progress(precision).after_all(
                log,
                before.spec_shared_context().bench_overhead.picos,
                before.spec_options().spec_target_sample_count(),
            ).run.elapsed_picos < before.spec_options().spec_max_picos(),
            before.initial_progress(precision).after_all(
                log,
                before.spec_shared_context().bench_overhead.picos,
                before.spec_options().spec_target_sample_count(),
            ).run.mode is Collect,
            self.spec_samples().all@.len() < u32::MAX,
        ensures
            self.spec_samples().all@.len() == before.initial_progress(precision).base()
                + before.spec_options().spec_target_sample_count(),
            before.spec_options().sample_count is None ==> self.spec_samples().all@.len()
                == before.initial_progress(precision).base() + DEFAULT_SAMPLE_COUNT,
    {
        progress::lemma_loop_records_what_is_asked_for(
            before.initial_progress(precision),
            log,
            before.spec_shared_context().bench_overhead.picos,
            before.spec_options().spec_target_sample_count(),
            before.spec_options().spec_max_picos(),
        );
    }

    /// The time ceiling bounds a run that collects samples of a given size,
    /// where the time outside of the samples is part of the budget: if the
    /// loop has run in `before`, which held no samples, and every sample has
    /// ended no less than `least` and no more than `most` after the one
    /// before it, or after the start of the loop, then there is a sample for
    /// each measurement; all samples but the last have taken less time than
    /// the ceiling allows; and if fewer samples were recorded than were
    /// asked for, the samples have taken up the ceiling at the rate of
    /// `most`.
    pub proof fn lemma_outcome_is_within_ceiling(
        &self,
        before: &Self,
        log: Seq<Measurement>,
        precision: FineDuration,
        least: u128,
        most: u128,
    )
        requires
            self.is_outcome_of(before, log, precision),
            !before.is_idle(),
            before.can_run(),
            before.spec_initial_mode() is Collect,
            before.spec_samples().all@.len() == 0,
            forall|k: int|
                0 <= k < log.len() ==> ((#[trigger] log[k]).since_start matches Some(time) && (k
                    + 1) * least <= time.picos <= (k + 1) * most),
        ensures
            log.len() >= 1,
            self.spec_samples().all@.len() == log.len(),
            (self.spec_samples().all@.len() - 1) * least < before.spec_options().spec_max_picos(),
            self.spec_samples().all@.len() < before.spec_options().spec_target_sample_count()
                && self.spec_samples().all@.len() < u32::MAX ==> self.spec_samples().all@.len()
                * most >= before.spec_options().spec_max_picos(),
    {
        let overhead = before.spec_shared_context().bench_overhead.picos;
        let target = before.spec_options().spec_target_sample_count();
        let initial = before.initial_progress(precision);
        progress::lemma_collecting_keeps_every_sample(initial, log, overhead, target);
        progress::lemma_loop_keeps_count(initial, log, overhead, target);
        if log.len() >= 1 {
            progress::lemma_ceiling_bounds_samples(
                initial,
                log,
                overhead,
                target,
                before.spec_options().spec_min_picos(),
                before.spec_options().spec_max_picos(),
                least,
                most,
            );
        }
    }

    /// Whether this context is `before` but for the counter of `kind`.
    pub open spec fn with_counter_from(&self, before: &Self, kind: KnownCounterKind) -> bool {
        &&& self.wf()
        &&& self.spec_shared_context() == before.spec_shared_context()
        &&& self.spec_options() == before.spec_options()
        &&& self.spec_did_run() == before.spec_did_run()
        &&& self.spec_samples() == before.spec_samples()
        &&& forall|other: KnownCounterKind|
            other != kind ==> self.spec_counters().state(other) == before.spec_counters().state(
                other,
            )
    }

    /// The mode in which the first sample is taken.
    pub open spec fn spec_initial_mode(&self) -> BenchMode {
        if self.spec_shared_context().action is Test {
            BenchMode::Test
        } else {
            match self.spec_options().sample_size {
                Some(sample_size) => BenchMode::Collect { sample_size },
                None => BenchMode::Tune { sample_size: 1 },
            }
        }
    }

    /// Creates a new benchmarking context.
    pub fn new(shared_context: &'a SharedContext<C>, options: &'a BenchOptions) -> (context: Self)
        ensures
            context.wf(),
            context.columns_match(),
            context.spec_shared_context() == *shared_context,
            context.spec_options() == *options,
            !context.spec_did_run(),
            context.spec_samples().all@.len() == 0,
            forall|kind: KnownCounterKind|
                context.spec_counters().state(kind) == options::preset_state(
                    options.counters@,
                    kind,
                ),
    {
        let counters = options.to_collection();
        assert forall|kind: KnownCounterKind| !(#[trigger] counters.state(kind) is PerInput) by {
            lemma_presets_are_fixed(options.counters@, kind);
        }
        Self {
            shared_context,
            options,
            did_run: false,
            samples: SampleCollection::new(),
            counters,
        }
    }

    /// What the benchmark shares with the others of the run.
    pub fn shared_context(&self) -> (shared_context: &'a SharedContext<C>)
        ensures
            *shared_context == self.spec_shared_context(),
    {
        self.shared_context
    }

    /// User-configured options.
    pub fn options(&self) -> (options: &'a BenchOptions)
        ensures
            *options == self.spec_options(),
    {
        self.options
    }

    /// Whether the benchmark loop was started.
    #[verifier::when_used_as_spec(spec_did_run)]
    pub fn did_run(&self) -> (did_run: bool)
        ensures
            did_run == self.spec_did_run(),
    {
        self.did_run
    }

    /// Recorded samples.
    pub fn samples(&self) -> (samples: &SampleCollection)
        ensures
            *samples == self.spec_samples(),
    {
        &self.samples
    }

    /// Per-iteration counters grouped by sample.
    pub fn counters(&self) -> (counters: &CounterCollection)
        ensures
            *counters == self.spec_counters(),
    {
        &self.counters
    }

    /// Whether the options ask for nothing to be run: for no samples, or for
    /// samples in no time.
    #[verifier::when_used_as_spec(spec_is_idle)]
    pub fn is_idle(&self) -> (idle: bool)
        ensures
            idle == self.spec_is_idle(),
    {
        self.options.max_time().picos == 0 || !self.options.has_samples()
    }

    /// Whether the benchmark loop can run: unless the options ask for
    /// nothing to be run or the harness runs tests, the options may not set
    /// the sample size to zero.
    #[verifier::when_used_as_spec(spec_can_run)]
    pub fn can_run(&self) -> (can: bool)
        ensures
            can == self.spec_can_run(),
    {
        if self.is_idle() {
            true
        } else {
            match self.initial_mode() {
                BenchMode::Collect { sample_size } => sample_size != 0,
                _ => true,
            }
        }
    }

    /// The mode in which the first sample is taken: a test if the harness
    /// runs tests, else with the sample size of the options, else tuning
    /// from a sample size of one.
    pub fn initial_mode(&self) -> (mode: BenchMode)
        ensures
            mode == self.spec_initial_mode(),
    {
        if self.shared_context.action.is_test() {
            BenchMode::Test
        } else if let Some(sample_size) = self.options.sample_size {
            BenchMode::Collect { sample_size }
        } else {
            BenchMode::Tune { sample_size: 1 }
        }
    }

    /// Accounts for a sample that was taken in the mode of `run`.
    ///
    /// `raw_duration` is the time between the two readings of the clock
    /// around the sample, `since_start` the time from when the loop began to
    /// the second of them, where that is part of the time budget, and
    /// `totals` what the inputs of the sample count up to.
    ///
    /// A sample that is taken while tuning replaces what was recorded. If it
    /// is long enough for the clock, its size is settled and the samples
    /// that follow are collected; else the size is doubled.
    pub fn record_sample(
        &mut self,
        run: &mut SampleLoop,
        raw_duration: FineDuration,
        since_start: Option<FineDuration>,
        totals: &CountTotals,
    )
        requires
            old(self).wf(),
            !(old(run).mode is Test),
            old(run).mode.sample_size() > 0,
            old(run).mode is Collect ==> old(self).spec_samples().all@.len() < u32::MAX,
        ensures
            final(self).wf(),
            final(self).spec_shared_context() == old(self).spec_shared_context(),
            final(self).spec_options() == old(self).spec_options(),
            final(self).spec_did_run(),
            final(self).progress(*final(run)) == old(self).progress(*old(run)).after(
                (Measurement { raw_duration, since_start, totals: *totals }),
                old(self).spec_shared_context().bench_overhead.picos,
                old(self).spec_options().spec_target_sample_count(),
            ),
            old(self).columns_match() || old(run).mode is Tune ==> final(self).columns_match(),
    {
        let sample_size = run.mode.sample_size();
        let timer_precision = run.timer_precision;
        self.did_run = true;
        self.samples.sample_size = sample_size;

        // Round up to timer precision if the duration is zero.
        //
        // This is deliberately done again later after subtracting the
        // overhead of the sample.
        let raw_duration = raw_duration.or_if_zero(timer_precision);

        if run.mode.is_tune() {
            // Clear previous smaller samples.
            self.samples.all.clear();
            self.counters.clear_input_counts();

            // If within 100x timer precision, continue tuning.
            if check_keeps_tuning(raw_duration.picos, timer_precision.picos, sample_size) {
                run.mode = BenchMode::Tune { sample_size: sample_size * 2 };
            } else {
                run.mode = BenchMode::Collect { sample_size };
                run.rem_samples = Some(self.options.target_sample_count());
            }
        }

        let adjusted_duration = compute_adjusted_duration(
            raw_duration,
            self.shared_context.bench_overhead,
            sample_size,
            timer_precision,
        );
        self.samples.all.push(Sample { duration: adjusted_duration });

        // Insert per-input counter information.
        self.counters.push_counter(
            AnyCounter::known(
                KnownCounterKind::Bytes,
                compute_per_iter_count(totals.get(KnownCounterKind::Bytes), sample_size),
            ),
        );
        self.counters.push_counter(
            AnyCounter::known(
                KnownCounterKind::Chars,
                compute_per_iter_count(totals.get(KnownCounterKind::Chars), sample_size),
            ),
        );
        self.counters.push_counter(
            AnyCounter::known(
                KnownCounterKind::Items,
                compute_per_iter_count(totals.get(KnownCounterKind::Items), sample_size),
            ),
        );

        if let Some(rem_samples) = run.rem_samples {
            run.rem_samples = Some(rem_samples.saturating_sub(1));
        }
        run.elapsed_picos = compute_next_elapsed(run.elapsed_picos, raw_duration, since_start);
    }
}

impl<'a, C: Clock> BenchContext<'a, C> {
    /// Returns what takes the samples of this benchmark: `benched` is run on
    /// the inputs that `gen_input` generates, and `input_counters` count what
    /// is in them.
    pub fn sample_recorder<I, O, G, N, B>(
        &self,
        gen_input: G,
        input_counters: N,
        benched: B,
    ) -> (recorder: SampleRecorder<'a, I, O, G, N, B, C>) where
        G: FnMut() -> I,
        N: CountInput<I>,
        B: Benched<I, O>,

        ensures
            recorder.wf(),
            recorder.clock() == self.spec_shared_context().clock,
            recorder.gen_input() == gen_input,
            recorder.input_counters() == input_counters,
            recorder.benched() == benched,
            recorder.spec_strategy() == Strategy::select(
                vstd::layout::size_of::<I>() != 0,
                recorder.spec_strategy().keeps_outputs(),
            ),
            recorder.taken() == Taken::<I, O>::start(0),
            recorder.steps() == Seq::<SampleStep>::empty(),
    {
        // Outputs are kept until a sample is over only if dropping them does
        // any work, which would otherwise be part of what is timed.
        let output_needs_drop = needs_drop::<O>();
        let input_has_storage = core::mem::size_of::<I>() != 0;
        let shared_context = self.shared_context;
        SampleRecorder::new(
            &shared_context.clock,
            gen_input,
            input_counters,
            benched,
            Strategy::select(input_has_storage, output_needs_drop),
        )
    }

    /// Runs the loop for benchmarking `benched`.
    ///
    /// Nothing is run if the options ask for no samples or leave no time:
    /// the loop is then not even started. If the harness runs tests,
    /// `benched` is run once and nothing is recorded. Else samples are taken
    /// and recorded while the options call for more: see
    /// [`SampleLoop::spec_goes_on`] and [`BenchContext::record_sample`].
    ///
    /// Returns the record of what was done: the steps of each sample that
    /// was taken, in their order.
    pub fn bench_loop<I, O, G, N, B>(&mut self, config: BencherConfig<G, N>, benched: B) -> (record:
        SampleRecord) where G: FnMut() -> I, N: CountInput<I>, B: Benched<I, O>

        requires
            old(self).wf(),
            old(self).can_run(),
            forall|unit: ()| call_requires(config.gen_input, unit),
            config.input_counters.callable(),
            benched.callable(),
        ensures
            final(self).benchmarked::<I, O, G, N, B>(
                old(self),
                config.gen_input,
                config.input_counters,
                benched,
                record.steps(),
            ),
    {
        let initial_mode = self.initial_mode();
        let mut recorder = self.sample_recorder(config.gen_input, config.input_counters, benched);
        let ghost keeps_outputs = recorder.spec_strategy().keeps_outputs();

        // The minimum time for benchmarking, in picoseconds.
        let min_picos = self.options.min_time().picos;

        // The remaining time left for benchmarking, in picoseconds.
        let max_picos = self.options.max_time().picos;

        // Don't bother running if user specifies 0 max time or 0 samples.
        if max_picos == 0 || !self.options.has_samples() {
            return recorder.into_record();
        }
        self.did_run = true;
        let clock = &self.shared_context.clock;
        let target = self.options.target_sample_count();

        let rem_samples = if initial_mode.is_collect() {
            Some(target)
        } else {
            None
        };

        // Only measure precision if we need to tune sample size.
        let timer_precision = if initial_mode.is_tune() {
            clock.precision()
        } else {
            FineDuration::default()
        };

        if !initial_mode.is_test() {
            self.samples.all.reserve(
                match self.options.sample_count {
                    Some(count) => count as usize,
                    None => 1,
                },
            );
        }
        // The time spent benchmarking includes time external to `benched`,
        // such as time spent generating inputs and running drop, unless the
        // options leave it out.

        let initial_start = if self.options.skips_ext_time() {
            None
        } else {
            Some(clock.start())
        };

        if initial_mode.is_test() {
            // Run exactly once, and record nothing.
            self.samples.sample_size = initial_mode.sample_size();
            let mut totals = CountTotals::new();
            let _ = recorder.record(&self.counters, 1, &mut totals);
            return recorder.into_record();
        }
        let ghost counters_before = self.spec_counters();
        let ghost base: int = if initial_mode is Tune {
            0
        } else {
            old(self).spec_samples().all@.len() as int
        };
        let mut run = SampleLoop {
            mode: initial_mode,
            elapsed_picos: 0,
            rem_samples,
            timer_precision,
        };
        let ghost initial = old(self).initial_progress(timer_precision);
        let ghost overhead = self.spec_shared_context().bench_overhead.picos;
        // What was measured of the samples so far.
        let ghost mut log: Seq<Measurement> = Seq::empty();

        while run.goes_on(min_picos, max_picos, self.samples.all.len())
            invariant
                recorder.clock() == *clock,
                recorder.gen_input() == config.gen_input,
                recorder.input_counters() == config.input_counters,
                recorder.benched() == benched,
                recorder.spec_strategy().keeps_outputs() == keeps_outputs,
                recorder.is_done(),
                recorder.steps() == run_steps(
                    old(self).sample_sizes(log, timer_precision),
                    keeps_outputs,
                ),
                counters_before == old(self).spec_counters(),
                forall|kind: KnownCounterKind|
                    #[trigger] self.spec_counters().state(kind) is PerInput
                        <==> counters_before.state(kind) is PerInput,
                initial_start matches Some(reading) ==> call_ensures(C::start, (clock,), reading),
                initial_mode is Tune ==> call_ensures(C::precision, (clock,), timer_precision),
                forall|k: int|
                    0 <= k < log.len() ==> old(self).has_measured::<I, O, G, N, B>(
                        config.gen_input,
                        config.input_counters,
                        benched,
                        initial_start,
                        #[trigger] log[k],
                        initial.after_all(log.take(k), overhead, target).run.mode.sample_size(),
                    ),
                initial == old(self).initial_progress(timer_precision),
                overhead == self.spec_shared_context().bench_overhead.picos,
                self.progress(run) == initial.after_all(log, overhead, target),
                forall|k: int|
                    0 <= k < log.len() ==> (#[trigger] initial.after_all(
                        log.take(k),
                        overhead,
                        target,
                    )).goes_on(min_picos, max_picos),
                forall|k: int|
                    0 <= k < log.len() ==> ((#[trigger] log[k]).since_start is None
                        <==> self.spec_options().spec_skips_ext_time()),
                initial_start is None <==> self.spec_options().spec_skips_ext_time(),
                self.wf(),
                self.spec_did_run(),
                self.spec_shared_context() == old(self).spec_shared_context(),
                self.spec_options() == old(self).spec_options(),
                old(self).columns_match() ==> self.columns_match(),
                *clock == self.spec_shared_context().clock,
                target == self.spec_options().spec_target_sample_count(),
                target >= 1,
                min_picos == self.spec_options().spec_min_picos(),
                max_picos == self.spec_options().spec_max_picos(),
                max_picos > 0,
                recorder.ready(),
                !(run.mode is Test),
                run.mode.sample_size() > 0,
                initial_mode == old(self).spec_initial_mode(),
                !(initial_mode is Test),
                base == if initial_mode is Tune {
                    0
                } else {
                    old(self).spec_samples().all@.len() as int
                },
                initial_mode is Collect ==> {
                    &&& run.mode == initial_mode
                    &&& base <= self.spec_samples().all@.len()
                    &&& self.spec_samples().all@.take(base) == old(self).spec_samples().all@
                    &&& base < self.spec_samples().all@.len() ==> self.spec_samples().sample_size
                        == run.mode.sample_size()
                },
                run.mode is Tune ==> run.rem_samples is None,
                run.mode is Tune ==> run.elapsed_picos == 0 || self.spec_samples().all@.len() == 1,
                run.mode is Tune ==> run.elapsed_picos == 0 || self.columns_match(),
                initial_mode is Tune && run.mode is Collect ==> self.columns_match(),
                initial_mode is Collect && self.spec_samples().all@.len() == base
                    ==> run.elapsed_picos == 0,
                initial_mode is Tune && run.mode is Collect ==> {
                    &&& self.spec_samples().all@.len() >= 1
                    &&& self.spec_samples().sample_size >= 1
                },
                run.mode is Collect ==> run.rem_samples == Some(
                    if target >= self.spec_samples().all@.len() - base {
                        (target - (self.spec_samples().all@.len() - base)) as u32
                    } else {
                        0u32
                    },
                ),
                run.mode is Collect && min_picos == 0 ==> self.spec_samples().all@.len() - base
                    <= target,
            decreases samples_bound(run.mode, self.spec_samples().all@.len()),
        {
            let sample_size = run.mode.sample_size();
            let mut totals = CountTotals::new();
            let ghost counters_now = self.spec_counters();
            let span = recorder.record(&self.counters, sample_size as usize, &mut totals);
            let ghost iterations = recorder.taken().iterations();

            let raw_duration = span[1].duration_since(span[0]);
            let since_start = match initial_start {
                Some(start) => Some(span[1].duration_since(start)),
                None => None,
            };
            let ghost before = self.spec_samples().all@;
            let ghost so_far = self.progress(run);
            self.record_sample(&mut run, raw_duration, since_start, &totals);
            proof {
                if initial_mode is Collect {
                    assert(self.spec_samples().all@.take(base) == before.take(base));
                }
                let measured = Measurement { raw_duration, since_start, totals };
                let longer = log.push(measured);
                assert(longer.drop_last() == log);

                // The sample is one of what was to be benchmarked.
                assert forall|i: int| 0 <= i < iterations.len() implies is_iteration(
                    config.gen_input,
                    config.input_counters,
                    benched,
                    &counters_before,
                    #[trigger] iterations[i],
                ) by {
                    assert(is_iteration(
                        config.gen_input,
                        config.input_counters,
                        benched,
                        &counters_now,
                        iterations[i],
                    ));
                    assert forall|kind: KnownCounterKind|
                        #[trigger] counters_now.state(kind) is PerInput
                            <==> counters_before.state(kind) is PerInput by {}
                }
                assert(old(self).has_sampled(
                    config.gen_input,
                    config.input_counters,
                    benched,
                    iterations,
                    sample_size,
                    span[0],
                    span[1],
                ));
                assert(measured == measurement_of(iterations, span[0], span[1], initial_start));
                assert forall|k: int| 0 <= k < longer.len() implies old(
                    self,
                ).has_measured::<I, O, G, N, B>(
                    config.gen_input,
                    config.input_counters,
                    benched,
                    initial_start,
                    #[trigger] longer[k],
                    initial.after_all(longer.take(k), overhead, target).run.mode.sample_size(),
                ) by {
                    if k < log.len() {
                        assert(longer.take(k) == log.take(k));
                        assert(longer[k] == log[k]);
                    } else {
                        assert(longer.take(k) == log);
                    }
                }

                // Counts are taken from the inputs for the kinds they were.
                assert forall|kind: KnownCounterKind|
                    #[trigger] self.spec_counters().state(kind) is PerInput
                        <==> counters_before.state(kind) is PerInput by {
                    assert(self.progress(run).counter(kind) == so_far.counter_after(kind, totals));
                    assert(so_far.counter(kind) == counters_now.state(kind));
                }
                assert forall|k: int| 0 <= k < longer.len() implies (#[trigger] initial.after_all(
                    longer.take(k),
                    overhead,
                    target,
                )).goes_on(min_picos, max_picos) by {
                    if k < log.len() {
                        assert(longer.take(k) == log.take(k));
                    } else {
                        assert(longer.take(k) == log);
                        assert(so_far.goes_on(min_picos, max_picos));
                    }
                }

                // The record has grown by the steps of this sample.
                let sizes = old(self).sample_sizes(log, timer_precision);
                let more = old(self).sample_sizes(longer, timer_precision);
                assert(more.last() == sample_size as nat) by {
                    assert(longer.take(log.len() as int) == log);
                }
                assert(more.drop_last() =~= sizes) by {
                    assert forall|k: int| 0 <= k < log.len() implies more[k] == sizes[k] by {
                        assert(longer.take(k) == log.take(k));
                    }
                }
                log = longer;
            }
        }
        proof {
            if initial_mode is Tune {
                progress::lemma_tuning_samples_are_erased(initial, log, overhead, target);
            }
            assert(self.is_outcome_of(old(self), log, timer_precision));
            assert(self.is_run_of::<I, O, G, N, B>(
                old(self),
                config.gen_input,
                config.input_counters,
                benched,
                log,
                timer_precision,
                initial_start,
                recorder.steps(),
            ));
        }
        recorder.into_record()
    }
}

/// Makes the input of a benchmarked function that takes none.
pub fn no_input() {
}

/// What is measured of a sample with the iterations `iterations` that was
/// taken between the readings `start` and `end` of the clock, in a loop that
/// began at `initial_start` where that was read: the time from `start` to
/// `end`, the time from the beginning of the loop to `end`, and what the
/// inputs count up to.
pub open spec fn measurement_of<I, O>(
    iterations: Seq<Iteration<I, O>>,
    start: Timestamp,
    end: Timestamp,
    initial_start: Option<Timestamp>,
) -> Measurement {
    Measurement {
        raw_duration: end.duration_since(start),
        since_start: match initial_start {
            Some(reading) => Some(end.duration_since(reading)),
            None => None,
        },
        totals: tallied_all(CountTotals::zero(), counted_of(iterations)),
    }
}

impl<'a, C: Clock> BenchContext<'a, C> {
    /// The count of `kind` that goes with the sample at index `sample`.
    fn counter_count_for_sample(&self, sample: usize, kind: KnownCounterKind) -> (count: Option<
        u64,
    >)
        requires
            self.wf(),
        ensures
            count == count_for_sample(self.spec_counters().state(kind), sample as int),
    {
        let counts = self.counters.counts(kind);
        let index = if self.counters.uses_input_counts(kind) {
            sample
        } else {
            0
        };
        if index < counts.len() {
            Some(counts[index])
        } else {
            None
        }
    }

    /// The statistics of the counter of `kind` over the samples, which
    /// `order` lists from the fastest to the slowest.
    fn compute_counter_stats(&self, order: &Vec<usize>, kind: KnownCounterKind) -> (stats: Option<
        StatsSet<u64>,
    >)
        requires
            self.wf(),
            is_sorted_order(order@, self.spec_samples().all@),
            order@ == crate::stats::sorted_order(self.spec_samples().all@),
        ensures
            stats == counter_stats(self.spec_counters().state(kind), self.spec_samples().all@),
    {
        let n = order.len();
        if n == 0 {
            return None;
        }
        let fastest = self.counter_count_for_sample(order[0], kind);
        let slowest = self.counter_count_for_sample(order[n - 1], kind);
        let upper = self.counter_count_for_sample(order[n / 2], kind);
        let lower = if n % 2 == 0 {
            self.counter_count_for_sample(order[n / 2 - 1], kind)
        } else {
            upper
        };
        match (fastest, slowest, lower, upper) {
            (Some(fastest), Some(slowest), Some(lower), Some(upper)) => {
                let median = ((lower as u128 + upper as u128) / 2) as u64;
                proof {
                    crate::counter::lemma_mean_of_bound(self.spec_counters().state(kind).counts());
                }
                Some(StatsSet { fastest, slowest, median, mean: self.counters.mean_count(kind) })
            },
            _ => None,
        }
    }

    /// Computes the statistics of what was recorded: the number of samples
    /// and of iterations, the time that an iteration takes, and what the
    /// counters count for an iteration.
    pub fn compute_stats(&self) -> (stats: Stats)
        requires
            self.wf(),
        ensures
            stats.sample_count == self.spec_samples().all@.len(),
            stats.iter_count == self.spec_samples().sample_size * self.spec_samples().all@.len(),
            stats.time == time_stats(self.spec_samples().all@, self.spec_samples().sample_size),
            stats.time.fastest.picos <= stats.time.median.picos <= stats.time.slowest.picos,
            forall|kind: KnownCounterKind|
                stats.counts[kind.spec_index()] == counter_stats(
                    self.spec_counters().state(kind),
                    self.spec_samples().all@,
                ),
    {
        let samples = &self.samples.all;
        let sample_count = samples.len();
        let sample_size = self.samples.sample_size;

        let total_count = self.samples.iter_count();

        let total_duration = self.samples.total_duration();
        let mean_duration = FineDuration {
            picos: if total_count == 0 {
                0
            } else {
                total_duration.picos / total_count as u128
            },
        };

        // Samples sorted by duration.
        let order = self.samples.sorted_samples();
        proof {
            if sample_count > 0 {
                crate::stats::lemma_time_stats_ordered(samples@, order@, sample_size);
            }
        }

        let time = if sample_count == 0 {
            StatsSet {
                fastest: FineDuration::default(),
                slowest: FineDuration::default(),
                median: FineDuration::default(),
                mean: mean_duration,
            }
        } else {
            let min_duration = samples[order[0]].duration.div_count(sample_size);
            let max_duration = samples[order[sample_count - 1]].duration.div_count(sample_size);
            let upper = samples[order[sample_count / 2]].duration.picos;
            let median_picos = if sample_count % 2 == 0 {
                let lower = samples[order[sample_count / 2 - 1]].duration.picos;
                assert(lower <= upper) by {
                    assert(ranks_before(
                        samples@,
                        order@[sample_count / 2 - 1] as int,
                        order@[sample_count as int / 2] as int,
                    ));
                }
                // The mean of the two, without their sum.
                lower + (upper - lower) / 2
            } else {
                upper
            };
            let median_duration = FineDuration { picos: median_picos }.div_count(sample_size);
            StatsSet {
                fastest: min_duration,
                slowest: max_duration,
                median: median_duration,
                mean: mean_duration,
            }
        };

        let counts = [
            self.compute_counter_stats(&order, KnownCounterKind::Bytes),
            self.compute_counter_stats(&order, KnownCounterKind::Chars),
            self.compute_counter_stats(&order, KnownCounterKind::Items),
        ];

        Stats { sample_count: sample_count as u32, iter_count: total_count, time, counts }
    }
}

/// Configuration of a [`Bencher`]: how the inputs of the benchmarked
/// function are generated and counted.
pub struct BencherConfig<GenI = Unit, CountI = NoInputCounter> {
    /// Generates the input of an iteration.
    pub gen_input: GenI,
    /// Count what is in an input.
    pub input_counters: CountI,
}

/// Enables contextual benchmarking: the body of a benchmark sets up its
/// data, says how inputs are made and counted, and hands over the function
/// to measure.
#[must_use]
pub struct Bencher<'a, 'b, C, Config = BencherConfig> {
    /// The context of the benchmark, which takes up what is measured.
    pub context: &'a mut BenchContext<'b, C>,
    /// How inputs are generated and counted.
    pub config: Config,
}

impl<'a, 'b, C: Clock> Bencher<'a, 'b, C> {
    /// A bencher for the benchmark of `context`.
    pub fn new(context: &'a mut BenchContext<'b, C>) -> (bencher: Self)
        ensures
            *bencher.context == *old(context),
            *final(bencher.context) == *final(context),
    {
        Self { context, config: BencherConfig { gen_input: Unit, input_counters: NoInputCounter } }
    }

    /// Benchmarks a function.
    ///
    /// Returns the record of what was done.
    pub fn bench<O, B>(self, benched: B) -> (record: SampleRecord) where B: FnMut() -> O
        requires
            old(self.context).wf(),
            old(self.context).can_run(),
            forall|unit: ()| call_requires(benched, unit),
        ensures
            final(self.context).benchmarked(
                old(self.context),
                no_input,
                NoInputCounter,
                (NoInput { benched }),
                record.steps(),
            ),
    {
        let Bencher { context, config: _ } = self;
        context.bench_loop(
            BencherConfig { gen_input: no_input, input_counters: NoInputCounter },
            NoInput { benched },
        )
    }

    /// Generate inputs for the benchmarked function.
    ///
    /// Time spent generating inputs does not affect benchmark timing.
    pub fn with_inputs<I, G>(self, gen_input: G) -> (bencher: Bencher<
        'a,
        'b,
        C,
        BencherConfig<G>,
    >) where G: FnMut() -> I

        ensures
            *bencher.context == *old(self.context),
            *final(bencher.context) == *final(self.context),
            bencher.config.gen_input == gen_input,
            CountInput::<I>::callable(&bencher.config.input_counters),
    {
        Bencher {
            context: self.context,
            config: BencherConfig { gen_input, input_counters: NoInputCounter },
        }
    }
}

impl<'a, 'b, C: Clock, GenI, CountI> Bencher<'a, 'b, C, BencherConfig<GenI, CountI>> {
    /// Assign a counter for all iterations of the benchmarked function.
    ///
    /// This will either:
    /// - Assign a new counter
    /// - Override an existing counter of the same kind
    ///
    /// If the counter depends on generated inputs, use
    /// [`Bencher::input_counter`] instead.
    pub fn counter(self, counter: AnyCounter) -> (bencher: Self)
        requires
            old(self.context).wf(),
        ensures
            *final(bencher.context) == *final(self.context),
            bencher.config == self.config,
            bencher.context.with_counter_from(old(self.context), counter.kind),
            bencher.context.spec_counters().state(counter.kind) == CounterState::Fixed(
                counter.count,
            ),
            old(self.context).columns_match() ==> bencher.context.columns_match(),
    {
        let Bencher { context, config } = self;
        context.counters.set_counter(counter);
        Bencher { context, config }
    }
}

impl<'a, 'b, C: Clock, I, GenI, CountI> Bencher<'a, 'b, C, BencherConfig<GenI, CountI>> where
    GenI: FnMut() -> I,
    CountI: CountInput<I>,
 {
    /// Create a counter of `kind` for each input of the benchmarked
    /// function, with the count that `make_counter` finds in the input.
    ///
    /// This will either:
    /// - Assign a new counter
    /// - Override an existing counter of the same kind
    ///
    /// If the counter is constant, use [`Bencher::counter`] instead.
    pub fn input_counter<F>(self, kind: KnownCounterKind, make_counter: F) -> (bencher: Bencher<
        'a,
        'b,
        C,
        BencherConfig<GenI, InputCounter<F, CountI>>,
    >) where F: FnMut(&I) -> u64
        requires
            old(self.context).wf(),
            self.config.input_counters.callable(),
            forall|input: &I| call_requires(make_counter, (input,)),
        ensures
            bencher.config.input_counters.callable(),
            *final(bencher.context) == *final(self.context),
            bencher.config.gen_input == self.config.gen_input,
            bencher.config.input_counters == (InputCounter {
                kind,
                make_counter,
                rest: self.config.input_counters,
            }),
            bencher.context.with_counter_from(old(self.context), kind),
            bencher.context.spec_counters().state(kind) == CounterState::PerInput(Seq::empty()),
            old(self.context).columns_match() && old(self.context).spec_samples().all@.len() == 0
                ==> bencher.context.columns_match(),
    {
        let Bencher { context, config } = self;
        context.counters.set_input_counter(kind);
        Bencher {
            context,
            config: BencherConfig {
                gen_input: config.gen_input,
                input_counters: InputCounter { kind, make_counter, rest: config.input_counters },
            },
        }
    }

    /// Benchmarks a function over per-iteration generated inputs, provided
    /// by-value.
    ///
    /// Per-iteration means the benchmarked function is called exactly once
    /// for each generated input.
    ///
    /// Returns the record of what was done.
    pub fn bench_values<O, B>(self, benched: B) -> (record: SampleRecord) where B: FnMut(I) -> O
        requires
            old(self.context).wf(),
            old(self.context).can_run(),
            forall|unit: ()| call_requires(self.config.gen_input, unit),
            self.config.input_counters.callable(),
            forall|input: I| call_requires(benched, (input,)),
        ensures
            final(self.context).benchmarked(
                old(self.context),
                self.config.gen_input,
                self.config.input_counters,
                (ByValue { benched }),
                record.steps(),
            ),
    {
        let Bencher { context, config } = self;
        context.bench_loop(config, ByValue { benched })
    }

    /// Benchmarks a function over per-iteration generated inputs, provided
    /// by-reference.
    ///
    /// Per-iteration means the benchmarked function is called exactly once
    /// for each generated input.
    ///
    /// Returns the record of what was done.
    pub fn bench_refs<O, B>(self, benched: B) -> (record: SampleRecord) where B: FnMut(&mut I) -> O
        requires
            old(self.context).wf(),
            old(self.context).can_run(),
            forall|unit: ()| call_requires(self.config.gen_input, unit),
            self.config.input_counters.callable(),
            forall|input: &mut I| call_requires(benched, (input,)),
        ensures
            final(self.context).benchmarked(
                old(self.context),
                self.config.gen_input,
                self.config.input_counters,
                (ByRef { benched }),
                record.steps(),
            ),
    {
        let Bencher { context, config } = self;
        context.bench_loop(config, ByRef { benched })
    }
}

/// Whether dropping a value of type `T` may do any work.
///
/// Calls `std::mem::needs_drop`. Nothing is claimed of the answer.
#[verifier::external_body]
pub(crate) fn needs_drop<T>() -> bool {
    std::mem::needs_drop::<T>()
}

/// Counts that hold for every iteration are never taken from the inputs.
proof fn lemma_presets_are_fixed(presets: Seq<AnyCounter>, kind: KnownCounterKind)
    ensures
        !(options::preset_state(presets, kind) is PerInput),
    decreases presets.len(),
{
    if presets.len() > 0 {
        lemma_presets_are_fixed(presets.drop_last(), kind);
    }
}

} // verus!
