//! Where a benchmark loop stands, and how a measured sample moves it on.

use vstd::prelude::*;

use super::BenchMode;
use crate::counter::{CountTotals, CounterState, KnownCounterKind};
use crate::stats::Sample;
use crate::time::FineDuration;

verus! {

/// How many times the clock precision a sample has to exceed before its size
/// is settled.
pub const TUNE_PRECISION_MULTIPLE: u128 = 100;

/// The least by which a sample moves the time budget on when time outside of
/// the samples is left out of it, in picoseconds.
pub const MIN_PROGRESS_PICOS: u128 = 1_000;

/// Where a benchmark loop stands between two samples.
#[derive(Clone, Copy, Debug, PartialEq, Eq, Structural)]
pub struct SampleLoop {
    /// How the next sample is taken.
    pub mode: BenchMode,
    /// The time spent benchmarking so far, in picoseconds.
    pub elapsed_picos: u128,
    /// The number of samples that are still to be recorded, once the sample
    /// size is settled.
    pub rem_samples: Option<u32>,
    /// The precision of the clock if the sample size is being tuned, else
    /// zero. It stands in for a measured time of zero.
    pub timer_precision: FineDuration,
}

/// What was measured of one sample.
pub struct Measurement {
    /// The time between the two readings of the clock around the sample.
    pub raw_duration: FineDuration,
    /// The time from when the loop began to the second of these readings,
    /// where time outside of the samples is part of the budget.
    pub since_start: Option<FineDuration>,
    /// What the inputs of the sample count up to.
    pub totals: CountTotals,
}

/// What a benchmark loop has recorded, and where it stands.
pub struct Progress {
    /// Where the loop stands.
    pub run: SampleLoop,
    /// The number of iterations in the samples that are recorded.
    pub sample_size: u32,
    /// The samples that are recorded.
    pub samples: Seq<Sample>,
    /// What is held for the counter of bytes.
    pub bytes: CounterState,
    /// What is held for the counter of characters.
    pub chars: CounterState,
    /// What is held for the counter of items.
    pub items: CounterState,
}

impl Progress {
    /// What is held for the counter of `kind`.
    pub open spec fn counter(self, kind: KnownCounterKind) -> CounterState {
        match kind {
            KnownCounterKind::Bytes => self.bytes,
            KnownCounterKind::Chars => self.chars,
            KnownCounterKind::Items => self.items,
        }
    }

    /// What is held for the counter of `kind` once a sample with the given
    /// totals is recorded: while tuning, the column of a counter that takes
    /// its counts from the inputs starts over; then the count of an
    /// iteration of the sample is added to it.
    pub open spec fn counter_after(
        self,
        kind: KnownCounterKind,
        totals: CountTotals,
    ) -> CounterState {
        let kept = if self.run.mode is Tune {
            self.counter(kind).cleared()
        } else {
            self.counter(kind)
        };
        kept.pushed(per_iter_count(totals.get(kind), self.run.mode.sample_size()))
    }

    /// The progress once the sample that `measured` is of is recorded, for a
    /// loop that is to record `target` samples and takes `overhead_picos` for
    /// each iteration of a sample.
    ///
    /// A measured time of zero counts as the precision of the clock. While
    /// tuning, the sample replaces what was recorded, and the sample size is
    /// settled or doubled: see [`next_mode`]. What is recorded for the sample
    /// is its time without the overhead: see [`adjusted_duration`].
    pub open spec fn after(
        self,
        measured: Measurement,
        overhead_picos: u128,
        target: u32,
    ) -> Progress {
        let size = self.run.mode.sample_size();
        let precision = self.run.timer_precision;
        let raw = floored(measured.raw_duration, precision);
        let mode = next_mode(self.run.mode, raw.picos, precision.picos);
        let kept = if self.run.mode is Tune {
            Seq::<Sample>::empty()
        } else {
            self.samples
        };
        Progress {
            run: SampleLoop {
                mode,
                elapsed_picos: next_elapsed(
                    self.run.elapsed_picos,
                    raw.picos,
                    measured.since_start,
                ),
                rem_samples: next_rem_samples(self.run.mode, mode, self.run.rem_samples, target),
                timer_precision: precision,
            },
            sample_size: size,
            samples: kept.push(
                Sample { duration: adjusted_duration(raw.picos, overhead_picos, size, precision) },
            ),
            bytes: self.counter_after(KnownCounterKind::Bytes, measured.totals),
            chars: self.counter_after(KnownCounterKind::Chars, measured.totals),
            items: self.counter_after(KnownCounterKind::Items, measured.totals),
        }
    }

    /// The progress once the samples that `log` holds the measurements of
    /// are recorded, one after the other.
    pub open spec fn after_all(
        self,
        log: Seq<Measurement>,
        overhead_picos: u128,
        target: u32,
    ) -> Progress
        decreases log.len(),
    {
        if log.len() == 0 {
            self
        } else {
            self.after_all(log.drop_last(), overhead_picos, target).after(
                log.last(),
                overhead_picos,
                target,
            )
        }
    }

    /// Whether the loop goes on from here, with the given time floor and
    /// ceiling.
    pub open spec fn goes_on(self, min_picos: u128, max_picos: u128) -> bool {
        self.run.spec_goes_on(min_picos, max_picos, self.samples.len())
    }
}

/// `duration`, or `floor` in its place if it is zero.
pub open spec fn floored(duration: FineDuration, floor: FineDuration) -> FineDuration {
    if duration.picos == 0 {
        floor
    } else {
        duration
    }
}

/// Whether a sample of `sample_size` iterations that took `raw_picos` is too
/// short to tell its time from the noise of a clock of the given precision,
/// so that tuning goes on with samples of twice the size. It does not go on
/// once twice the size is more than a sample can have.
pub open spec fn keeps_tuning(raw_picos: u128, precision_picos: u128, sample_size: u32) -> bool {
    raw_picos <= TUNE_PRECISION_MULTIPLE * precision_picos && 2 * sample_size <= u32::MAX
}

/// The mode after a sample that took `raw_picos` was taken in `mode`.
pub open spec fn next_mode(mode: BenchMode, raw_picos: u128, precision_picos: u128) -> BenchMode {
    match mode {
        BenchMode::Tune { sample_size } => if keeps_tuning(
            raw_picos,
            precision_picos,
            sample_size,
        ) {
            BenchMode::Tune { sample_size: (2 * sample_size) as u32 }
        } else {
            BenchMode::Collect { sample_size }
        },
        _ => mode,
    }
}

/// The overhead of the sampling loop for a sample of `sample_size`
/// iterations, in picoseconds, when that of one iteration is
/// `overhead_picos`.
pub open spec fn sample_overhead(overhead_picos: u128, sample_size: u32) -> nat {
    (overhead_picos * sample_size) as nat
}

/// What is recorded for a sample that took `raw_picos`: that time less the
/// overhead of the sampling loop, and `floor` in its place if nothing is
/// left.
pub open spec fn adjusted_duration(
    raw_picos: u128,
    overhead_picos: u128,
    sample_size: u32,
    floor: FineDuration,
) -> FineDuration {
    let overhead = sample_overhead(overhead_picos, sample_size);
    if raw_picos > overhead {
        FineDuration { picos: (raw_picos - overhead) as u128 }
    } else {
        floor
    }
}

/// The number of samples still to be recorded after a sample was taken in
/// `mode` and the loop went on in mode `next`, when `target` samples are
/// asked for in all.
pub open spec fn next_rem_samples(
    mode: BenchMode,
    next: BenchMode,
    rem_samples: Option<u32>,
    target: u32,
) -> Option<u32> {
    let before = if mode is Tune && next is Collect {
        Some(target)
    } else {
        rem_samples
    };
    match before {
        Some(rem) => Some(
            if rem == 0 {
                0u32
            } else {
                (rem - 1) as u32
            },
        ),
        None => None,
    }
}

/// The time spent benchmarking after a sample that took `raw_picos`: the
/// time since the loop began, where that was measured, and else the time
/// spent before plus that of the sample, or plus [`MIN_PROGRESS_PICOS`]
/// where the sample took less.
pub open spec fn next_elapsed(
    elapsed_picos: u128,
    raw_picos: u128,
    since_start: Option<FineDuration>,
) -> u128 {
    match since_start {
        Some(time) => time.picos,
        None => {
            let progress = if raw_picos > MIN_PROGRESS_PICOS {
                raw_picos
            } else {
                MIN_PROGRESS_PICOS
            };
            if elapsed_picos + progress > u128::MAX {
                u128::MAX
            } else {
                (elapsed_picos + progress) as u128
            }
        },
    }
}

/// The count of one iteration of a sample of `sample_size` iterations whose
/// inputs count up to `total`: the mean, rounded down, and no more than a
/// count can be.
pub open spec fn per_iter_count(total: u128, sample_size: u32) -> u64 {
    if total / (sample_size as u128) > u64::MAX {
        u64::MAX
    } else {
        (total / (sample_size as u128)) as u64
    }
}

/// Whether the loop goes on after `elapsed_picos`, with `rem_samples` samples
/// still to be recorded (one at least while their number is not settled):
/// only while the time ceiling is not reached, and then while samples are
/// still to be recorded or the time floor is not reached.
pub open spec fn budget_left(
    elapsed_picos: u128,
    rem_samples: Option<u32>,
    min_picos: u128,
    max_picos: u128,
) -> bool {
    elapsed_picos < max_picos && (match rem_samples {
        Some(rem) => rem > 0,
        None => true,
    } || elapsed_picos < min_picos)
}

/// A number that goes down with every sample that is taken in `mode` while
/// `samples` samples are recorded: it bounds the samples that the loop can
/// still take.
pub open spec fn samples_bound(mode: BenchMode, samples: nat) -> int {
    match mode {
        BenchMode::Test => 0,
        BenchMode::Tune { sample_size } => 2 * u32::MAX + 1 - sample_size,
        BenchMode::Collect { .. } => u32::MAX - samples,
    }
}

impl SampleLoop {
    /// Whether the loop goes on with another sample while `samples` samples
    /// are recorded: as long as there is budget left and the collection has
    /// room for what the sample adds.
    pub open spec fn spec_goes_on(&self, min_picos: u128, max_picos: u128, samples: nat) -> bool {
        &&& budget_left(self.elapsed_picos, self.rem_samples, min_picos, max_picos)
        &&& self.mode is Collect ==> samples < u32::MAX
    }

    /// Whether the loop goes on with another sample while `samples` samples
    /// are recorded.
    pub fn goes_on(&self, min_picos: u128, max_picos: u128, samples: usize) -> (goes_on: bool)
        ensures
            goes_on == self.spec_goes_on(min_picos, max_picos, samples as nat),
    {
        self.has_budget_left(min_picos, max_picos) && (!self.mode.is_collect() || samples
            < u32::MAX as usize)
    }

    /// Whether another sample is to be taken, with the given time floor and
    /// ceiling.
    pub fn has_budget_left(&self, min_picos: u128, max_picos: u128) -> (goes_on: bool)
        ensures
            goes_on == budget_left(self.elapsed_picos, self.rem_samples, min_picos, max_picos),
    {
        if self.elapsed_picos >= max_picos {
            // Depleted the benchmarking time budget. This is a strict
            // condition regardless of sample count and minimum time.
            false
        } else if match self.rem_samples {
            Some(rem) => rem > 0,
            None => true,
        } {
            // More samples expected.
            true
        } else {
            // Continue if we haven't reached the time floor.
            self.elapsed_picos < min_picos
        }
    }
}

/// Computes [`keeps_tuning`].
pub fn check_keeps_tuning(raw_picos: u128, precision_picos: u128, sample_size: u32) -> (keeps: bool)
    ensures
        keeps == keeps_tuning(raw_picos, precision_picos, sample_size),
{
    // `raw <= 100 * precision`, without the product.
    let whole = raw_picos / TUNE_PRECISION_MULTIPLE;
    let within = whole < precision_picos || (whole == precision_picos && raw_picos
        % TUNE_PRECISION_MULTIPLE == 0);
    within && sample_size <= u32::MAX / 2
}

/// Computes [`adjusted_duration`].
pub fn compute_adjusted_duration(
    raw_duration: FineDuration,
    bench_overhead: FineDuration,
    sample_size: u32,
    floor: FineDuration,
) -> (adjusted: FineDuration)
    ensures
        adjusted == adjusted_duration(raw_duration.picos, bench_overhead.picos, sample_size, floor),
{
    // Account for the per-sample benchmarking overhead.
    match bench_overhead.picos.checked_mul(sample_size as u128) {
        Some(overhead) => {
            if raw_duration.picos > overhead {
                FineDuration { picos: raw_duration.picos - overhead }
            } else {
                // Round up to the floor: nothing is left of the duration.
                floor
            }
        },
        None => floor,
    }
}

/// Computes [`next_elapsed`].
pub fn compute_next_elapsed(
    elapsed_picos: u128,
    raw_duration: FineDuration,
    since_start: Option<FineDuration>,
) -> (elapsed: u128)
    ensures
        elapsed == next_elapsed(elapsed_picos, raw_duration.picos, since_start),
{
    match since_start {
        Some(time) => time.picos,
        None => {
            // Progress by at least 1ns to prevent extremely fast functions
            // from taking forever when a time floor is set.
            let progress = if raw_duration.picos > MIN_PROGRESS_PICOS {
                raw_duration.picos
            } else {
                MIN_PROGRESS_PICOS
            };
            elapsed_picos.saturating_add(progress)
        },
    }
}

/// Computes [`per_iter_count`].
pub fn compute_per_iter_count(total: u128, sample_size: u32) -> (count: u64)
    requires
        sample_size > 0,
    ensures
        count == per_iter_count(total, sample_size),
{
    let mean = total / (sample_size as u128);
    if mean > u64::MAX as u128 {
        u64::MAX
    } else {
        mean as u64
    }
}

/// What is recorded for a sample is no less than the floor, which is the
/// precision of the clock while the sample size is tuned, unless taking out
/// the overhead leaves some time, but less than the floor.
pub proof fn lemma_recorded_duration_at_least_floor(
    raw_duration: FineDuration,
    overhead_picos: u128,
    sample_size: u32,
    floor: FineDuration,
)
    requires
        ({
            let raw_picos = floored(raw_duration, floor).picos;
            let overhead = sample_overhead(overhead_picos, sample_size);
            raw_picos <= overhead || raw_picos - overhead >= floor.picos
        }),
    ensures
        adjusted_duration(
            floored(raw_duration, floor).picos,
            overhead_picos,
            sample_size,
            floor,
        ).picos >= floor.picos,
{
}

/// What is recorded for a sample is zero only if the floor is.
pub proof fn lemma_recorded_duration_is_zero(
    raw_duration: FineDuration,
    overhead_picos: u128,
    sample_size: u32,
    floor: FineDuration,
)
    ensures
        adjusted_duration(
            floored(raw_duration, floor).picos,
            overhead_picos,
            sample_size,
            floor,
        ).picos == 0 ==> floor.picos == 0,
{
}

/// Where time outside of the samples is left out of the budget, the time
/// spent depends on the durations of the samples alone: a sample moves it on
/// by its duration, by [`MIN_PROGRESS_PICOS`] at least, and a longer sample
/// moves it on no less than a shorter one.
pub proof fn lemma_elapsed_without_ext_time(
    elapsed_picos: u128,
    shorter_picos: u128,
    longer_picos: u128,
)
    requires
        shorter_picos <= longer_picos,
    ensures
        next_elapsed(elapsed_picos, shorter_picos, None) <= next_elapsed(
            elapsed_picos,
            longer_picos,
            None,
        ),
        next_elapsed(elapsed_picos, shorter_picos, None) >= elapsed_picos,
        next_elapsed(elapsed_picos, shorter_picos, None) == u128::MAX || next_elapsed(
            elapsed_picos,
            shorter_picos,
            None,
        ) >= elapsed_picos + MIN_PROGRESS_PICOS,
        shorter_picos >= MIN_PROGRESS_PICOS && elapsed_picos + shorter_picos <= u128::MAX
            ==> next_elapsed(elapsed_picos, shorter_picos, None) == elapsed_picos + shorter_picos,
{
}

/// The number of samples still to be recorded when `recorded` of `target`
/// are.
pub open spec fn samples_left(target: u32, recorded: int) -> u32 {
    if recorded >= target {
        0
    } else {
        (target - recorded) as u32
    }
}

impl Progress {
    /// Whether a loop that is to record `target` samples can start from
    /// this progress: it does not run a test, a sample has one iteration at
    /// least, and all samples are still to be recorded if their size is
    /// settled.
    pub open spec fn is_start(self, target: u32) -> bool {
        &&& !(self.run.mode is Test)
        &&& self.run.mode.sample_size() > 0
        &&& self.run.mode is Tune ==> self.run.rem_samples is None
        &&& self.run.mode is Collect ==> self.run.rem_samples == Some(target)
    }

    /// The number of samples that were there before a loop that started
    /// from this progress recorded any: those that it started with, which
    /// are gone if it tuned the sample size.
    pub open spec fn base(self) -> int {
        if self.run.mode is Tune {
            0
        } else {
            self.samples.len() as int
        }
    }
}

/// However the samples of a loop are measured, the loop keeps count of them:
/// once the sample size is settled, the samples still to be recorded are
/// those asked for less those recorded since the start. The sample size is
/// never zero, and a size that is settled stays as it is.
pub proof fn lemma_loop_keeps_count(
    initial: Progress,
    log: Seq<Measurement>,
    overhead_picos: u128,
    target: u32,
)
    requires
        initial.is_start(target),
    ensures
        ({
            let last = initial.after_all(log, overhead_picos, target);
            &&& !(last.run.mode is Test)
            &&& last.run.mode.sample_size() > 0
            &&& last.run.mode is Tune ==> {
                &&& last.run.rem_samples is None
                &&& initial.run.mode is Tune
            }
            &&& last.run.mode is Collect ==> {
                &&& last.samples.len() >= initial.base()
                &&& last.run.rem_samples == Some(
                    samples_left(target, last.samples.len() - initial.base()),
                )
            }
            &&& initial.run.mode is Collect ==> last.run.mode == initial.run.mode
            &&& log.len() > 0 ==> last.samples.len() >= 1
        }),
    decreases log.len(),
{
    if log.len() > 0 {
        lemma_loop_keeps_count(initial, log.drop_last(), overhead_picos, target);
    }
}

/// A loop records exactly the samples that are asked for, where none are
/// asked for in vain: if there is no time floor, the loop has ended below
/// the time ceiling with the sample size settled, and the collection had room
/// for more, then the samples recorded since the start are as many as were
/// asked for.
pub proof fn lemma_loop_records_what_is_asked_for(
    initial: Progress,
    log: Seq<Measurement>,
    overhead_picos: u128,
    target: u32,
    max_picos: u128,
)
    requires
        initial.is_start(target),
        target >= 1,
        initial.run.elapsed_picos == 0,
        forall|k: int|
            0 <= k < log.len() ==> (#[trigger] initial.after_all(
                log.take(k),
                overhead_picos,
                target,
            )).goes_on(0, max_picos),
        !initial.after_all(log, overhead_picos, target).goes_on(0, max_picos),
        initial.after_all(log, overhead_picos, target).run.elapsed_picos < max_picos,
        initial.after_all(log, overhead_picos, target).run.mode is Collect,
        initial.after_all(log, overhead_picos, target).samples.len() < u32::MAX,
    ensures
        initial.after_all(log, overhead_picos, target).samples.len() == initial.base() + target,
{
    let last = initial.after_all(log, overhead_picos, target);
    lemma_loop_keeps_count(initial, log, overhead_picos, target);
    if log.len() > 0 {
        let earlier = log.drop_last();
        let before = initial.after_all(earlier, overhead_picos, target);
        assert(log.take(log.len() - 1) == earlier);
        assert(before.goes_on(0, max_picos));
        lemma_loop_keeps_count(initial, earlier, overhead_picos, target);
    }
}

/// What is recorded of the sample that `measured` is of, for a loop that
/// stands at `at` when the sample is taken and takes `overhead_picos` for
/// each iteration of it.
pub open spec fn recorded_sample(at: Progress, measured: Measurement, overhead_picos: u128) -> Sample {
    let precision = at.run.timer_precision;
    Sample {
        duration: adjusted_duration(
            floored(measured.raw_duration, precision).picos,
            overhead_picos,
            at.run.mode.sample_size(),
            precision,
        ),
    }
}

/// Whether a loop that has tuned the sample size holds the samples of the
/// settled size only, once it has recorded the samples that `log` holds the
/// measurements of: the samples it holds are the last of them, in their
/// order; the first of these is the one that was taken last while tuning,
/// and the others were collected after it; each was taken with the sample
/// size that is recorded; and of the samples that were taken before them,
/// all of them while tuning, nothing is left.
pub open spec fn holds_settled_samples(
    initial: Progress,
    log: Seq<Measurement>,
    overhead_picos: u128,
    target: u32,
) -> bool {
    let last = initial.after_all(log, overhead_picos, target);
    let kept = last.samples.len() as int;
    let erased = log.len() - kept;
    &&& 1 <= kept <= log.len()
    &&& forall|k: int|
        0 <= k < log.len() ==> {
            let at = #[trigger] initial.after_all(log.take(k), overhead_picos, target);
            if k < erased {
                at.run.mode is Tune
            } else {
                &&& at.run.mode.sample_size() == last.sample_size
                &&& at.run.mode is Tune <==> k == erased
                &&& last.samples[k - erased] == recorded_sample(at, log[k], overhead_picos)
            }
        }
}

/// Samples that are taken while the sample size is tuned are erased: a loop
/// that starts out tuning holds, after any sample, only samples of the size
/// it has come to. See [`holds_settled_samples`]. While it tunes, it holds
/// the one sample that was taken last.
pub proof fn lemma_tuning_samples_are_erased(
    initial: Progress,
    log: Seq<Measurement>,
    overhead_picos: u128,
    target: u32,
)
    requires
        initial.run.mode is Tune,
        log.len() >= 1,
    ensures
        holds_settled_samples(initial, log, overhead_picos, target),
        !(initial.after_all(log, overhead_picos, target).run.mode is Test),
        initial.after_all(log, overhead_picos, target).run.mode is Tune ==> initial.after_all(
            log,
            overhead_picos,
            target,
        ).samples.len() == 1,
        initial.after_all(log, overhead_picos, target).run.mode is Collect ==> initial.after_all(
            log,
            overhead_picos,
            target,
        ).run.mode.sample_size() == initial.after_all(log, overhead_picos, target).sample_size,
    decreases log.len(),
{
    let earlier = log.drop_last();
    let before = initial.after_all(earlier, overhead_picos, target);
    let last = initial.after_all(log, overhead_picos, target);
    let kept = last.samples.len() as int;
    let erased = log.len() - kept;
    assert(last == before.after(log.last(), overhead_picos, target));
    assert(log.take(earlier.len() as int) == earlier);
    if earlier.len() == 0 {
        assert(before == initial);
        assert(last.samples =~= seq![recorded_sample(initial, log.last(), overhead_picos)]);
    } else {
        lemma_tuning_samples_are_erased(initial, earlier, overhead_picos, target);
        let kept_before = before.samples.len() as int;
        let erased_before = earlier.len() - kept_before;
        if before.run.mode is Tune {
            assert(last.samples =~= seq![recorded_sample(before, log.last(), overhead_picos)]);
        } else {
            assert(last.samples =~= before.samples.push(
                recorded_sample(before, log.last(), overhead_picos),
            ));
        }
        assert forall|k: int| 0 <= k < log.len() implies {
            let at = #[trigger] initial.after_all(log.take(k), overhead_picos, target);
            if k < erased {
                at.run.mode is Tune
            } else {
                &&& at.run.mode.sample_size() == last.sample_size
                &&& at.run.mode is Tune <==> k == erased
                &&& last.samples[k - erased] == recorded_sample(at, log[k], overhead_picos)
            }
        } by {
            if k < earlier.len() {
                assert(log.take(k) =~= earlier.take(k));
                assert(log[k] == earlier[k]);
            }
        }
    }
}

/// No sample is started once the time spent has reached the ceiling: every
/// sample of a loop was taken while the time spent was below it. Where the
/// time since the start of the loop is measured, it is the time spent after
/// the sample.
pub proof fn lemma_samples_start_below_ceiling(
    initial: Progress,
    log: Seq<Measurement>,
    overhead_picos: u128,
    target: u32,
    min_picos: u128,
    max_picos: u128,
    k: int,
)
    requires
        0 <= k < log.len(),
        initial.after_all(log.take(k), overhead_picos, target).goes_on(min_picos, max_picos),
    ensures
        initial.after_all(log.take(k), overhead_picos, target).run.elapsed_picos < max_picos,
        log[k].since_start matches Some(time) ==> initial.after_all(
            log.take(k + 1),
            overhead_picos,
            target,
        ).run.elapsed_picos == time.picos,
{
    assert(log.take(k + 1).drop_last() == log.take(k));
    assert(log.take(k + 1).last() == log[k]);
}

/// A loop that collects samples of a given size keeps every sample: after
/// the samples that `log` holds the measurements of, it holds those it
/// started with and one more for each measurement, and it still collects
/// samples of that size.
pub proof fn lemma_collecting_keeps_every_sample(
    initial: Progress,
    log: Seq<Measurement>,
    overhead_picos: u128,
    target: u32,
)
    requires
        initial.run.mode is Collect,
    ensures
        initial.after_all(log, overhead_picos, target).run.mode == initial.run.mode,
        initial.after_all(log, overhead_picos, target).samples.len() == initial.samples.len()
            + log.len(),
        initial.after_all(log, overhead_picos, target).samples.take(initial.samples.len() as int)
            == initial.samples,
    decreases log.len(),
{
    let last = initial.after_all(log, overhead_picos, target);
    if log.len() > 0 {
        lemma_collecting_keeps_every_sample(initial, log.drop_last(), overhead_picos, target);
    }
    assert(last.samples.take(initial.samples.len() as int) =~= initial.samples);
}

/// The time ceiling bounds the number of samples from both sides, where the
/// time since the start of the loop is measured: if every sample ends no
/// less than `least` and no more than `most` after the one before it, or
/// after the start of the loop, then all samples but the last have taken
/// less time than the ceiling allows, and the time spent in the end lies
/// between `least` and `most` for each sample. If the loop has ended then
/// while samples were still to be recorded, and there was room for them,
/// the samples have taken up the ceiling at the rate of `most`.
pub proof fn lemma_ceiling_bounds_samples(
    initial: Progress,
    log: Seq<Measurement>,
    overhead_picos: u128,
    target: u32,
    min_picos: u128,
    max_picos: u128,
    least: u128,
    most: u128,
)
    requires
        log.len() >= 1,
        forall|k: int|
            0 <= k < log.len() ==> (#[trigger] initial.after_all(
                log.take(k),
                overhead_picos,
                target,
            )).goes_on(min_picos, max_picos),
        forall|k: int|
            0 <= k < log.len() ==> ((#[trigger] log[k]).since_start matches Some(time) && (k + 1)
                * least <= time.picos <= (k + 1) * most),
    ensures
        (log.len() - 1) * least < max_picos,
        log.len() * least <= initial.after_all(log, overhead_picos, target).run.elapsed_picos
            <= log.len() * most,
        ({
            let last = initial.after_all(log, overhead_picos, target);
            &&& !last.goes_on(min_picos, max_picos)
            &&& last.run.rem_samples matches Some(rem) ==> rem > 0
            &&& last.run.mode is Collect ==> last.samples.len() < u32::MAX
        }) ==> log.len() * most >= max_picos,
{
    let k = log.len() - 1;
    let last = initial.after_all(log, overhead_picos, target);
    assert(log.take(k + 1) == log);
    assert(log[k].since_start is Some);
    lemma_samples_start_below_ceiling(
        initial,
        log,
        overhead_picos,
        target,
        min_picos,
        max_picos,
        k,
    );
    if k > 0 {
        assert(log[k - 1].since_start is Some);
        lemma_samples_start_below_ceiling(
            initial,
            log,
            overhead_picos,
            target,
            min_picos,
            max_picos,
            k - 1,
        );
    } else {
        assert(k * least == 0) by (nonlinear_arith)
            requires
                k == 0,
        ;
    }
    if !last.goes_on(min_picos, max_picos) && (last.run.rem_samples matches Some(rem) ==> rem > 0)
        && (last.run.mode is Collect ==> last.samples.len() < u32::MAX) {
        lemma_loop_ends_at_ceiling(last, min_picos, max_picos);
    }
}

/// A loop that ends while samples are still to be recorded, and while there
/// is room for them, has spent the time that the ceiling allows.
pub proof fn lemma_loop_ends_at_ceiling(last: Progress, min_picos: u128, max_picos: u128)
    requires
        !last.goes_on(min_picos, max_picos),
        last.run.rem_samples matches Some(rem) ==> rem > 0,
        last.run.mode is Collect ==> last.samples.len() < u32::MAX,
    ensures
        last.run.elapsed_picos >= max_picos,
{
}

} // verus!
