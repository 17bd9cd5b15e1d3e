//! Sampling by hand: the benchmarked code takes a reading of the clock on
//! either side of each of its loops, and every loop makes one sample.

use vstd::prelude::*;

use crate::stats::{
    is_sorted_order, picos_at, ranks_before, sorted_order, Sample as TimedSample, SampleCollection,
};
use crate::time::{duration_text, Clock, FineDuration, Timestamp};

verus! {

/// The number of samples that a new [`Context`] aims for.
pub const TARGET_SAMPLE_COUNT: usize = 1_000;

/// The number of iterations that a new [`Context`] counts for a sample.
pub const ITER_PER_SAMPLE: u32 = 1_000;

/// Benchmark loop context.
///
/// Functions called within the benchmark loop should be inlined to ensure
/// instruction cache locality.
pub struct Context<C> {
    /// The clock that samples are timed with.
    pub clock: C,
    /// Recorded samples.
    pub samples: Vec<Sample>,
    /// The number of samples that should be taken.
    pub target: usize,
    /// The number of iterations between recording samples.
    pub iter_per_sample: u32,
}

/// Measurement datum.
#[derive(Clone, Copy, Debug, PartialEq, Eq, Structural)]
pub struct Sample {
    /// When the sample began.
    pub start: Timestamp,
    /// When the sample stopped.
    pub end: Timestamp,
}

/// Statistics from samples.
#[derive(Debug)]
pub struct Stats {
    /// Total number of samples taken.
    pub sample_count: usize,
    /// Total number of iterations (`sample_count * iter_per_sample`).
    pub total_count: usize,
    /// The total amount of time spent benchmarking.
    pub total_duration: FineDuration,
    /// Mean time taken by all iterations.
    pub avg_duration: SmallDuration,
    /// The minimum amount of time taken by an iteration.
    pub min_duration: SmallDuration,
    /// The maximum amount of time taken by an iteration.
    pub max_duration: SmallDuration,
    /// Midpoint time taken by an iteration.
    pub median_duration: SmallDuration,
}

/// Picosecond-precise duration of a single iteration.
#[derive(Clone, Copy, Debug, PartialEq, Eq, Structural, PartialOrd, Ord)]
pub struct SmallDuration {
    pub picos: u128,
}

/// Defers the drop of items produced while benchmarking.
pub struct DropStore<T> {
    /// The items whose drop is deferred.
    pub items: Vec<T>,
    /// Whether nothing is stored, because dropping an item does no work.
    pub is_no_op: bool,
}

/// The time from `start` to `end` of `sample`, in picoseconds.
pub open spec fn sample_picos(sample: Sample) -> nat {
    if sample.end.picos >= sample.start.picos {
        (sample.end.picos - sample.start.picos) as nat
    } else {
        0
    }
}

/// The time that an iteration takes in each of `samples`, which are of
/// `iter_per_sample` iterations each.
pub open spec fn iteration_times(samples: Seq<Sample>, iter_per_sample: u32) -> Seq<TimedSample> {
    Seq::new(
        samples.len(),
        |i: int|
            TimedSample {
                duration: FineDuration {
                    picos: (sample_picos(samples[i]) / iter_per_sample as nat) as u128,
                },
            },
    )
}

/// The statistics of `samples`, which are of `iter_per_sample` iterations
/// each and of which there is one at least.
///
/// The total time is that from the start of the first sample to the end of
/// the last one, and the mean is that time by the number of iterations. The
/// minimum, the maximum and the median are those of the times that an
/// iteration takes in each sample; the median of an even number of samples is
/// the mean, rounded down, of the two in the middle.
pub open spec fn stats_of(samples: Seq<Sample>, iter_per_sample: u32) -> Stats {
    let n = samples.len() as int;
    let total_count = n * iter_per_sample;
    let total = sample_picos(Sample { start: samples[0].start, end: samples[n - 1].end });
    let times = iteration_times(samples, iter_per_sample);
    let order = sorted_order(times);
    Stats {
        sample_count: n as usize,
        total_count: total_count as usize,
        total_duration: FineDuration { picos: total as u128 },
        avg_duration: SmallDuration { picos: (total / total_count as nat) as u128 },
        min_duration: SmallDuration { picos: picos_at(times, order, 0) as u128 },
        max_duration: SmallDuration { picos: picos_at(times, order, n - 1) as u128 },
        median_duration: SmallDuration {
            picos: if n % 2 == 0 {
                ((picos_at(times, order, n / 2 - 1) + picos_at(times, order, n / 2)) / 2) as u128
            } else {
                picos_at(times, order, n / 2) as u128
            },
        },
    }
}

impl<C: Clock> Context<C> {
    /// A context without samples, with the usual target and sample size.
    pub fn new(clock: C) -> (context: Self)
        ensures
            context.clock == clock,
            context.samples@.len() == 0,
            context.target == TARGET_SAMPLE_COUNT,
            context.iter_per_sample == ITER_PER_SAMPLE,
    {
        Self {
            clock,
            samples: Vec::with_capacity(TARGET_SAMPLE_COUNT),
            target: TARGET_SAMPLE_COUNT,
            iter_per_sample: ITER_PER_SAMPLE,
        }
    }

    /// Returns the number of samples that should be taken.
    pub fn target_sample_count(&self) -> (count: usize)
        ensures
            count == self.target,
    {
        self.target
    }

    /// Begins info measurement at the start of a loop: reads the clock, and
    /// returns the reading.
    pub fn start_sample(&self) -> (start: Timestamp)
        ensures
            call_ensures(C::start, (&self.clock,), start),
    {
        self.clock.start()
    }

    /// Records measurement info at the end of a loop: reads the clock, and
    /// adds the sample from `start` to that reading.
    pub fn end_sample(&mut self, start: Timestamp)
        ensures
            final(self).samples@.len() == old(self).samples@.len() + 1,
            final(self).samples@.drop_last() == old(self).samples@,
            final(self).samples@.last().start == start,
            call_ensures(C::end, (&old(self).clock,), final(self).samples@.last().end),
            final(self).clock == old(self).clock,
            final(self).target == old(self).target,
            final(self).iter_per_sample == old(self).iter_per_sample,
    {
        let end = self.clock.end();
        self.samples.push(Sample { start, end });
    }

    /// Computes the statistics of the recorded samples, if there are any.
    pub fn compute_stats(&self) -> (stats: Option<Stats>)
        requires
            self.iter_per_sample > 0,
            self.samples@.len() * self.iter_per_sample <= usize::MAX,
        ensures
            stats is Some <==> self.samples@.len() > 0,
            stats matches Some(stats) ==> stats == stats_of(self.samples@, self.iter_per_sample),
            stats matches Some(stats) ==> stats.min_duration.picos <= stats.median_duration.picos
                <= stats.max_duration.picos,
    {
        let sample_count = self.samples.len();
        if sample_count == 0 {
            return None;
        }
        let iter_per_sample = self.iter_per_sample;
        let total_count = sample_count * iter_per_sample as usize;
        assert(total_count >= 1) by (nonlinear_arith)
            requires
                total_count == sample_count * iter_per_sample,
                sample_count >= 1,
                iter_per_sample >= 1,
        ;

        let first = self.samples[0];
        let last = self.samples[sample_count - 1];

        let total_duration = last.end.duration_since(first.start);
        let avg_duration = SmallDuration::average(total_duration, total_count as u128);

        let ghost times = iteration_times(self.samples@, iter_per_sample);
        let mut all_durations = SampleCollection { sample_size: iter_per_sample, all: Vec::new() };
        let mut i: usize = 0;
        while i < sample_count
            invariant
                i <= sample_count,
                sample_count == self.samples@.len(),
                iter_per_sample == self.iter_per_sample,
                iter_per_sample > 0,
                times == iteration_times(self.samples@, iter_per_sample),
                all_durations.all@ == times.take(i as int),
            decreases sample_count - i,
        {
            let sample = self.samples[i];
            let duration = SmallDuration::average(
                sample.end.duration_since(sample.start),
                iter_per_sample as u128,
            );
            all_durations.all.push(
                TimedSample { duration: FineDuration { picos: duration.picos } },
            );
            assert(all_durations.all@ == times.take(i + 1));
            i = i + 1;
        }
        assert(all_durations.all@ == times);

        let order = all_durations.sorted_samples();
        proof {
            crate::stats::lemma_time_stats_ordered(times, order@, 1);
        }

        let min_duration = all_durations.all[order[0]].duration.picos;
        let max_duration = all_durations.all[order[sample_count - 1]].duration.picos;

        let upper = all_durations.all[order[sample_count / 2]].duration.picos;
        let median_duration = if sample_count % 2 == 0 {
            // Take average of two middle numbers.
            let lower = all_durations.all[order[sample_count / 2 - 1]].duration.picos;
            assert(lower <= upper) by {
                assert(ranks_before(
                    times,
                    order@[sample_count / 2 - 1] as int,
                    order@[sample_count as int / 2] as int,
                ));
            }
            lower + (upper - lower) / 2
        } else {
            // Single middle number.
            upper
        };

        Some(
            Stats {
                sample_count,
                total_count,
                total_duration,
                avg_duration,
                min_duration: SmallDuration { picos: min_duration },
                max_duration: SmallDuration { picos: max_duration },
                median_duration: SmallDuration { picos: median_duration },
            },
        )
    }
}

impl SmallDuration {
    /// Computes the average of a duration over a number of elements.
    pub fn average(duration: FineDuration, n: u128) -> (average: Self)
        requires
            n > 0,
        ensures
            average.picos == duration.picos / n,
    {
        Self { picos: duration.picos / n }
    }

    /// Writes this duration out for a reader, as [`FineDuration::format`]
    /// does.
    pub fn format(&self) -> (text: String)
        ensures
            text@ == duration_text(self.picos as nat),
    {
        FineDuration { picos: self.picos }.format()
    }
}

impl<T> DropStore<T> {
    /// A store without items, with room for `capacity` of them.
    pub fn with_capacity(capacity: usize) -> (store: Self)
        ensures
            store.items@.len() == 0,
    {
        let is_no_op = !crate::bench::needs_drop::<T>();
        Self {
            items: if is_no_op {
                Vec::new()
            } else {
                Vec::with_capacity(capacity)
            },
            is_no_op,
        }
    }

    /// Prepares the store for storing a sample: drops the items it holds,
    /// and makes room for `capacity` new ones. A store for items whose drop
    /// does no work is left as it is.
    pub fn prepare(&mut self, capacity: usize)
        ensures
            final(self).items@ == if old(self).is_no_op {
                old(self).items@
            } else {
                Seq::empty()
            },
            final(self).is_no_op == old(self).is_no_op,
    {
        if !self.is_no_op {
            self.items.clear();
            self.items.reserve(capacity);
        }
    }

    /// Stores `item`, to be dropped with the next call of
    /// [`prepare`](Self::prepare), unless dropping it does no work: then it
    /// is dropped at once.
    pub fn push(&mut self, item: T)
        ensures
            final(self).items@ == if old(self).is_no_op {
                old(self).items@
            } else {
                old(self).items@.push(item)
            },
            final(self).is_no_op == old(self).is_no_op,
    {
        if !self.is_no_op {
            self.items.push(item);
        }
    }
}

} // verus!
