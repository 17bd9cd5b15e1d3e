//! How a benchmark is to be run.

use vstd::prelude::*;

use crate::counter::{AnyCounter, CounterCollection, CounterState, KnownCounterKind};
use crate::time::FineDuration;

verus! {

/// The number of samples taken when none is asked for.
pub const DEFAULT_SAMPLE_COUNT: u32 = 100;

/// Benchmarking options set by the user.
pub struct BenchOptions {
    /// The number of samples to record. Absent: [`DEFAULT_SAMPLE_COUNT`].
    pub sample_count: Option<u32>,
    /// The number of iterations in a sample. Absent: tuned to the clock.
    pub sample_size: Option<u32>,
    /// Counts that hold for every iteration. Of two counts of one kind the
    /// later one holds.
    pub counters: Vec<AnyCounter>,
    /// The time floor for benchmarking. Absent: none.
    pub min_time: Option<FineDuration>,
    /// The time ceiling for benchmarking. Absent: none.
    pub max_time: Option<FineDuration>,
    /// Whether the time floor and ceiling leave out the time spent on
    /// generating inputs and dropping values. Absent: no.
    pub skip_ext_time: Option<bool>,
}

/// What `presets` hold for `kind`: the last count of that kind, if any.
pub open spec fn preset_state(presets: Seq<AnyCounter>, kind: KnownCounterKind) -> CounterState
    decreases presets.len(),
{
    if presets.len() == 0 {
        CounterState::Absent
    } else if presets.last().kind == kind {
        CounterState::Fixed(presets.last().count)
    } else {
        preset_state(presets.drop_last(), kind)
    }
}

impl BenchOptions {
    /// The number of samples that is asked for.
    pub open spec fn spec_target_sample_count(&self) -> u32 {
        match self.sample_count {
            Some(count) => count,
            None => DEFAULT_SAMPLE_COUNT,
        }
    }

    /// The time floor, in picoseconds.
    pub open spec fn spec_min_picos(&self) -> u128 {
        match self.min_time {
            Some(time) => time.picos,
            None => 0,
        }
    }

    /// The time ceiling, in picoseconds.
    pub open spec fn spec_max_picos(&self) -> u128 {
        match self.max_time {
            Some(time) => time.picos,
            None => u128::MAX,
        }
    }

    /// Whether time outside of the samples is left out of the budget.
    pub open spec fn spec_skips_ext_time(&self) -> bool {
        self.skip_ext_time == Some(true)
    }

    /// Whether these options ask for any sample at all.
    pub open spec fn spec_has_samples(&self) -> bool {
        self.sample_count != Some(0u32)
    }

    /// Options that leave every choice to the defaults.
    pub fn new() -> (options: Self)
        ensures
            options.sample_count is None,
            options.sample_size is None,
            options.counters@.len() == 0,
            options.min_time is None,
            options.max_time is None,
            options.skip_ext_time is None,
    {
        BenchOptions {
            sample_count: None,
            sample_size: None,
            counters: Vec::new(),
            min_time: None,
            max_time: None,
            skip_ext_time: None,
        }
    }

    /// Whether these options ask for any sample at all.
    #[verifier::when_used_as_spec(spec_has_samples)]
    pub fn has_samples(&self) -> (has: bool)
        ensures
            has == self.spec_has_samples(),
    {
        match self.sample_count {
            Some(count) => count != 0,
            None => true,
        }
    }

    /// The number of samples that is asked for.
    pub fn target_sample_count(&self) -> (count: u32)
        ensures
            count == self.spec_target_sample_count(),
    {
        match self.sample_count {
            Some(count) => count,
            None => DEFAULT_SAMPLE_COUNT,
        }
    }

    /// The time floor for benchmarking.
    pub fn min_time(&self) -> (time: FineDuration)
        ensures
            time.picos == self.spec_min_picos(),
    {
        match self.min_time {
            Some(time) => time,
            None => FineDuration::default(),
        }
    }

    /// The time ceiling for benchmarking.
    pub fn max_time(&self) -> (time: FineDuration)
        ensures
            time.picos == self.spec_max_picos(),
    {
        match self.max_time {
            Some(time) => time,
            None => FineDuration::max(),
        }
    }

    /// Whether time outside of the samples is left out of the budget.
    pub fn skips_ext_time(&self) -> (skips: bool)
        ensures
            skips == self.spec_skips_ext_time(),
    {
        match self.skip_ext_time {
            Some(skips) => skips,
            None => false,
        }
    }

    /// The counters that a benchmark with these options starts out with.
    pub fn to_collection(&self) -> (counters: CounterCollection)
        ensures
            counters.wf(),
            forall|kind: KnownCounterKind|
                counters.state(kind) == preset_state(self.counters@, kind),
    {
        let mut counters = CounterCollection::new();
        let mut i: usize = 0;
        while i < self.counters.len()
            invariant
                i <= self.counters@.len(),
                counters.wf(),
                forall|kind: KnownCounterKind|
                    counters.state(kind) == preset_state(self.counters@.take(i as int), kind),
            decreases self.counters@.len() - i,
        {
            assert(self.counters@.take(i + 1).drop_last() == self.counters@.take(i as int));
            counters.set_counter(self.counters[i]);
            i = i + 1;
        }
        assert(self.counters@.take(i as int) == self.counters@);
        counters
    }
}

} // verus!
