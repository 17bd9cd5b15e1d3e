//! Recorded samples and the statistics computed from them.

use vstd::prelude::*;

use crate::counter::{mean_of, CounterState};
use crate::time::FineDuration;
use crate::util::middle_of;

verus! {

/// Measurement datum: the time that one sample took as a whole.
#[derive(Clone, Copy, Debug, PartialEq, Eq, Structural)]
pub struct Sample {
    /// The time this sample took to run, with the overhead of the sampling
    /// loop taken out.
    pub duration: FineDuration,
}

/// The samples of one benchmark.
pub struct SampleCollection {
    /// The number of iterations within each sample.
    pub sample_size: u32,
    /// All recorded samples, in the order in which they were taken.
    pub all: Vec<Sample>,
}

/// The fastest, slowest, median and mean of some quantity.
#[derive(Debug, PartialEq, Eq, Structural)]
pub struct StatsSet<T> {
    /// The value of the fastest sample.
    pub fastest: T,
    /// The value of the slowest sample.
    pub slowest: T,
    /// The midpoint of the values.
    pub median: T,
    /// The average of the values.
    pub mean: T,
}

/// Statistics from samples.
pub struct Stats {
    /// Total number of samples taken.
    pub sample_count: u32,
    /// Total number of iterations (`sample_count * sample_size`).
    pub iter_count: u64,
    /// Timing statistics, per iteration.
    pub time: StatsSet<FineDuration>,
    /// Counter statistics, one slot for each kind of counter. A slot is empty
    /// if there is no count for one of the samples it is made from.
    pub counts: [Option<StatsSet<u64>>; 3],
}

/// The sum of the durations of `samples`, in picoseconds.
pub open spec fn total_picos(samples: Seq<Sample>) -> nat
    decreases samples.len(),
{
    if samples.len() == 0 {
        0
    } else {
        total_picos(samples.drop_last()) + samples.last().duration.picos as nat
    }
}

/// Whether sample `a` is ranked before sample `b`: it is the faster one, or
/// it is as fast and was taken earlier.
pub open spec fn ranks_before(samples: Seq<Sample>, a: int, b: int) -> bool {
    let fst = samples[a].duration.picos;
    let snd = samples[b].duration.picos;
    fst < snd || (fst == snd && a < b)
}

/// Whether `order` lists the indices of `samples` from the fastest sample to
/// the slowest, samples of equal duration in the order in which they were
/// taken.
pub open spec fn is_sorted_order(order: Seq<usize>, samples: Seq<Sample>) -> bool {
    &&& order.len() == samples.len()
    &&& forall|k: int| 0 <= k < order.len() ==> 0 <= #[trigger] order[k] < samples.len()
    &&& forall|i: usize| i < samples.len() ==> #[trigger] order.contains(i)
    &&& forall|j: int, k: int|
        0 <= j < k < order.len() ==> ranks_before(
            samples,
            #[trigger] order[j] as int,
            #[trigger] order[k] as int,
        )
}

/// The indices of `samples` from the fastest sample to the slowest.
pub closed spec fn sorted_order(samples: Seq<Sample>) -> Seq<usize> {
    choose|order: Seq<usize>| is_sorted_order(order, samples)
}

/// Two orders of the same samples agree on their first `n` places.
proof fn lemma_sorted_orders_agree(
    first: Seq<usize>,
    second: Seq<usize>,
    samples: Seq<Sample>,
    n: int,
)
    requires
        is_sorted_order(first, samples),
        is_sorted_order(second, samples),
        0 <= n <= samples.len(),
    ensures
        forall|k: int| 0 <= k < n ==> first[k] == second[k],
    decreases n,
{
    if n > 0 {
        lemma_sorted_orders_agree(first, second, samples, n - 1);
        let k = n - 1;
        let a = first[k];
        let b = second[k];
        if a != b {
            assert(second.contains(a));
            let p = choose|p: int| 0 <= p < second.len() && second[p] == a;
            assert(first.contains(b));
            let q = choose|q: int| 0 <= q < first.len() && first[q] == b;
            if p < k {
                assert(first[p] == a);
                assert(ranks_before(samples, first[p] as int, first[k] as int));
            } else if q < k {
                assert(second[q] == b);
                assert(ranks_before(samples, second[q] as int, second[k] as int));
            } else {
                assert(ranks_before(samples, second[k] as int, second[p] as int));
                assert(ranks_before(samples, first[k] as int, first[q] as int));
            }
        }
    }
}

/// There is only one way to order samples from fastest to slowest: every
/// such order is [`sorted_order`].
pub proof fn lemma_sorted_order_unique(order: Seq<usize>, samples: Seq<Sample>)
    requires
        is_sorted_order(order, samples),
    ensures
        order == sorted_order(samples),
{
    let chosen = sorted_order(samples);
    lemma_sorted_orders_agree(order, chosen, samples, samples.len() as int);
    assert(order =~= chosen);
}

/// The place at which a sample of `picos` picoseconds goes into `order`,
/// which lists samples from the fastest to the slowest, if it is to come
/// behind all that are not slower than it.
pub open spec fn place_in_order(samples: Seq<Sample>, order: Seq<usize>, picos: u128) -> int
    decreases order.len(),
{
    if order.len() == 0 || samples[order.last() as int].duration.picos <= picos {
        order.len() as int
    } else {
        place_in_order(samples, order.drop_last(), picos)
    }
}

/// The place that [`place_in_order`] gives is behind all samples that are
/// not slower, and in front of all that are.
proof fn lemma_place_in_order(samples: Seq<Sample>, order: Seq<usize>, picos: u128)
    requires
        forall|j: int, k: int|
            0 <= j < k < order.len() ==> samples[#[trigger] order[j] as int].duration.picos
                <= samples[#[trigger] order[k] as int].duration.picos,
    ensures
        0 <= place_in_order(samples, order, picos) <= order.len(),
        forall|k: int|
            place_in_order(samples, order, picos) <= k < order.len() ==> samples[
            #[trigger] order[k] as int].duration.picos > picos,
        forall|k: int|
            0 <= k < place_in_order(samples, order, picos) ==> samples[
            #[trigger] order[k] as int].duration.picos <= picos,
    decreases order.len(),
{
    if order.len() > 0 {
        let rest = order.drop_last();
        assert forall|j: int, k: int| 0 <= j < k < rest.len() implies samples[
        #[trigger] rest[j] as int].duration.picos <= samples[
        #[trigger] rest[k] as int].duration.picos by {
            assert(rest[j] == order[j] && rest[k] == order[k]);
        }
        lemma_place_in_order(samples, rest, picos);
        if samples[order.last() as int].duration.picos <= picos {
            assert forall|k: int| 0 <= k < order.len() implies samples[
            #[trigger] order[k] as int].duration.picos <= picos by {
                if k < order.len() - 1 {
                    assert(samples[order[k] as int].duration.picos <= samples[order[order.len()
                        - 1] as int].duration.picos);
                }
            }
        } else {
            let at = place_in_order(samples, rest, picos);
            assert forall|k: int| at <= k < order.len() implies samples[
            #[trigger] order[k] as int].duration.picos > picos by {
                if k < order.len() - 1 {
                    assert(rest[k] == order[k]);
                }
            }
            assert forall|k: int| 0 <= k < at implies samples[
            #[trigger] order[k] as int].duration.picos <= picos by {
                assert(rest[k] == order[k]);
            }
        }
    }
}

/// Samples can be put in order: [`sorted_order`] lists the indices of
/// `samples` from the fastest sample to the slowest, samples of equal
/// duration in the order in which they were taken.
pub proof fn lemma_sorted_order_is_sorted(samples: Seq<Sample>)
    requires
        samples.len() <= usize::MAX,
    ensures
        is_sorted_order(sorted_order(samples), samples),
    decreases samples.len(),
{
    if samples.len() == 0 {
        let order = Seq::<usize>::empty();
        assert(is_sorted_order(order, samples));
    } else {
        let n = samples.len() as int;
        let earlier = samples.drop_last();
        lemma_sorted_order_is_sorted(earlier);
        let before = sorted_order(earlier);
        let picos = samples[n - 1].duration.picos;
        assert forall|j: int, k: int| 0 <= j < k < before.len() implies samples[
        #[trigger] before[j] as int].duration.picos <= samples[
        #[trigger] before[k] as int].duration.picos by {
            assert(ranks_before(earlier, before[j] as int, before[k] as int));
        }
        lemma_place_in_order(samples, before, picos);
        let at = place_in_order(samples, before, picos);
        let order = before.insert(at, (n - 1) as usize);
        assert forall|k: int| 0 <= k < order.len() implies 0 <= #[trigger] order[k]
            < samples.len() by {
            if k < at {
                assert(order[k] == before[k]);
            } else if k > at {
                assert(order[k] == before[k - 1]);
            }
        }
        assert forall|i: usize| i < samples.len() implies #[trigger] order.contains(i) by {
            if i == n - 1 {
                assert(order[at] == i);
            } else {
                assert(before.contains(i));
                let p = choose|p: int| 0 <= p < before.len() && before[p] == i;
                if p < at {
                    assert(order[p] == i);
                } else {
                    assert(order[p + 1] == i);
                }
            }
        }
        assert forall|j: int, k: int| 0 <= j < k < order.len() implies ranks_before(
            samples,
            #[trigger] order[j] as int,
            #[trigger] order[k] as int,
        ) by {
            let bj = if j < at {
                j
            } else {
                j - 1
            };
            let bk = if k < at {
                k
            } else {
                k - 1
            };
            if j != at && k != at {
                assert(order[j] == before[bj] && order[k] == before[bk]);
                assert(ranks_before(earlier, before[bj] as int, before[bk] as int));
            } else if j == at {
                assert(order[k] == before[bk]);
                assert(samples[before[bk] as int].duration.picos > picos);
            } else {
                assert(order[j] == before[bj]);
                assert(before[bj] < n - 1);
                assert(samples[before[bj] as int].duration.picos <= picos);
            }
        }
        assert(is_sorted_order(order, samples));
    }
}

/// The duration, in picoseconds, of the sample at place `k` of `order`.
pub open spec fn picos_at(samples: Seq<Sample>, order: Seq<usize>, k: int) -> nat {
    samples[order[k] as int].duration.picos as nat
}

/// The midpoint of the durations of `samples`, in picoseconds: that of the
/// sample in the middle, or the mean, rounded down, of those of the two
/// samples in the middle; zero if there are no samples.
pub open spec fn median_picos(samples: Seq<Sample>) -> nat {
    let order = sorted_order(samples);
    let n = samples.len() as int;
    if n == 0 {
        0
    } else if n % 2 == 0 {
        (picos_at(samples, order, n / 2 - 1) + picos_at(samples, order, n / 2)) / 2
    } else {
        picos_at(samples, order, n / 2)
    }
}

/// The statistics of the time that one iteration takes, for samples of
/// `sample_size` iterations each. All of them are zero if there are no
/// samples.
pub open spec fn time_stats(samples: Seq<Sample>, sample_size: u32) -> StatsSet<FineDuration> {
    let order = sorted_order(samples);
    let n = samples.len() as int;
    let size = sample_size as nat;
    let total = if total_picos(samples) > u128::MAX {
        u128::MAX as nat
    } else {
        total_picos(samples)
    };
    StatsSet {
        fastest: FineDuration {
            picos: if n == 0 {
                0
            } else {
                (picos_at(samples, order, 0) / size) as u128
            },
        },
        slowest: FineDuration {
            picos: if n == 0 {
                0
            } else {
                (picos_at(samples, order, n - 1) / size) as u128
            },
        },
        median: FineDuration {
            picos: if n == 0 {
                0
            } else {
                (median_picos(samples) / size) as u128
            },
        },
        mean: FineDuration {
            picos: if n * size == 0 {
                0
            } else {
                (total / (n * size) as nat) as u128
            },
        },
    }
}

/// Of the time statistics of some samples, the fastest is no more than the
/// median and the median no more than the slowest. Without samples all three
/// are zero.
pub proof fn lemma_time_stats_ordered(samples: Seq<Sample>, order: Seq<usize>, sample_size: u32)
    requires
        is_sorted_order(order, samples),
        sample_size > 0,
    ensures
        time_stats(samples, sample_size).fastest.picos <= time_stats(
            samples,
            sample_size,
        ).median.picos,
        time_stats(samples, sample_size).median.picos <= time_stats(
            samples,
            sample_size,
        ).slowest.picos,
        samples.len() == 0 ==> time_stats(samples, sample_size).median.picos == 0,
{
    lemma_sorted_order_unique(order, samples);
    let n = samples.len() as int;
    let size = sample_size as int;
    if n > 0 {
        let first = picos_at(samples, order, 0) as int;
        let last = picos_at(samples, order, n - 1) as int;
        let median = median_picos(samples) as int;
        let upper = picos_at(samples, order, n / 2) as int;
        if n / 2 > 0 {
            assert(ranks_before(samples, order[0] as int, order[n / 2] as int));
        }
        if n / 2 < n - 1 {
            assert(ranks_before(samples, order[n / 2] as int, order[n - 1] as int));
        }
        if n % 2 == 0 {
            let lower = picos_at(samples, order, n / 2 - 1) as int;
            assert(ranks_before(samples, order[n / 2 - 1] as int, order[n / 2] as int));
            if n / 2 - 1 > 0 {
                assert(ranks_before(samples, order[0] as int, order[n / 2 - 1] as int));
            }
            assert(first <= lower <= median <= upper <= last);
        }
        assert(first <= median <= last);
        assert(first / size <= median / size <= last / size) by (nonlinear_arith)
            requires
                0 <= first <= median <= last,
                size > 0,
        ;
    }
}

/// The count that `state` has for the sample at index `i`: the entry of the
/// sample in a per-input column, or the fixed count.
pub open spec fn count_for_sample(state: CounterState, i: int) -> Option<u64> {
    let counts = state.counts();
    let at = if state is PerInput {
        i
    } else {
        0
    };
    if 0 <= at < counts.len() {
        Some(counts[at])
    } else {
        None
    }
}

/// The statistics of a counter in state `state` over `samples`: the counts
/// of the fastest and of the slowest sample, the mean, rounded down, of the
/// counts of the one or two samples in the middle, and the mean of all counts.
/// There are none if one of these samples has no count.
pub open spec fn counter_stats(state: CounterState, samples: Seq<Sample>) -> Option<
    StatsSet<u64>,
> {
    let order = sorted_order(samples);
    let n = samples.len() as int;
    if n == 0 {
        None
    } else {
        let fastest = count_for_sample(state, order[0] as int);
        let slowest = count_for_sample(state, order[n - 1] as int);
        let upper = count_for_sample(state, order[n / 2] as int);
        let lower = if n % 2 == 0 {
            count_for_sample(state, order[n / 2 - 1] as int)
        } else {
            upper
        };
        if fastest is Some && slowest is Some && lower is Some && upper is Some {
            Some(
                StatsSet {
                    fastest: fastest->0,
                    slowest: slowest->0,
                    median: ((lower->0 + upper->0) / 2) as u64,
                    mean: mean_of(state.counts()) as u64,
                },
            )
        } else {
            None
        }
    }
}

impl SampleCollection {
    /// A collection without samples.
    pub fn new() -> (samples: Self)
        ensures
            samples.sample_size == 0,
            samples.all@.len() == 0,
    {
        SampleCollection { sample_size: 0, all: Vec::new() }
    }

    /// The total number of iterations across all samples.
    pub open spec fn total_iterations(&self) -> int {
        self.sample_size * self.all@.len()
    }

    /// The total number of iterations across all samples.
    pub fn iter_count(&self) -> (count: u64)
        requires
            self.all@.len() <= u32::MAX,
        ensures
            count == self.total_iterations(),
    {
        let size = self.sample_size as u64;
        let len = self.all.len() as u64;
        assert(size * len <= 0xffff_ffff * 0xffff_ffff) by (nonlinear_arith)
            requires
                size <= 0xffff_ffff,
                len <= 0xffff_ffff,
        ;
        size * len
    }

    /// The total time spent in all samples, or the longest duration that can
    /// be represented if the total is longer than that.
    pub fn total_duration(&self) -> (total: FineDuration)
        ensures
            total.picos == if total_picos(self.all@) > u128::MAX {
                u128::MAX as nat
            } else {
                total_picos(self.all@)
            },
    {
        let mut picos: u128 = 0;
        let mut i: usize = 0;
        while i < self.all.len()
            invariant
                i <= self.all@.len(),
                picos == if total_picos(self.all@.take(i as int)) > u128::MAX {
                    u128::MAX as nat
                } else {
                    total_picos(self.all@.take(i as int))
                },
            decreases self.all@.len() - i,
        {
            assert(self.all@.take(i + 1).drop_last() == self.all@.take(i as int));
            picos = picos.saturating_add(self.all[i].duration.picos);
            i = i + 1;
        }
        assert(self.all@.take(i as int) == self.all@);
        FineDuration { picos }
    }

    /// The indices of all samples, from the fastest sample to the slowest.
    /// Samples of equal duration keep the order in which they were taken.
    pub fn sorted_samples(&self) -> (order: Vec<usize>)
        ensures
            order@ == sorted_order(self.all@),
            is_sorted_order(order@, self.all@),
    {
        let len = self.all.len();
        let mut order: Vec<usize> = Vec::new();
        let mut i: usize = 0;
        while i < len
            invariant
                len == self.all@.len(),
                i <= len,
                is_sorted_order(order@, self.all@.take(i as int)),
            decreases len - i,
        {
            let picos = self.all[i].duration.picos;
            let mut at: usize = i;
            while at > 0 && self.all[order[at - 1]].duration.picos > picos
                invariant
                    len == self.all@.len(),
                    i < len,
                    at <= i,
                    picos == self.all@[i as int].duration.picos,
                    is_sorted_order(order@, self.all@.take(i as int)),
                    forall|k: int|
                        at <= k < i ==> self.all@[#[trigger] order@[k] as int].duration.picos
                            > picos,
                decreases at,
            {
                at = at - 1;
            }
            let ghost before = order@;
            order.insert(at, i);
            proof {
                let old_samples = self.all@.take(i as int);
                let samples = self.all@.take(i + 1);
                let after = order@;
                assert(after == before.insert(at as int, i));
                assert forall|k: int| 0 <= k < after.len() implies 0 <= #[trigger] after[k]
                    < samples.len() by {
                    if k < at {
                        assert(after[k] == before[k]);
                    } else if k > at {
                        assert(after[k] == before[k - 1]);
                    }
                }
                assert forall|j: usize| j < samples.len() implies #[trigger] after.contains(j) by {
                    if j == i {
                        assert(after[at as int] == i);
                    } else {
                        assert(before.contains(j));
                        let p = choose|p: int| 0 <= p < before.len() && before[p] == j;
                        if p < at {
                            assert(after[p] == j);
                        } else {
                            assert(after[p + 1] == j);
                        }
                    }
                }
                assert forall|j: int, k: int| 0 <= j < k < after.len() implies ranks_before(
                    samples,
                    #[trigger] after[j] as int,
                    #[trigger] after[k] as int,
                ) by {
                    let bj = if j < at {
                        j
                    } else {
                        j - 1
                    };
                    let bk = if k < at {
                        k
                    } else {
                        k - 1
                    };
                    if j != at && k != at {
                        assert(after[j] == before[bj] && after[k] == before[bk]);
                        assert(ranks_before(old_samples, before[bj] as int, before[bk] as int));
                    } else if j == at {
                        assert(after[k] == before[bk]);
                        assert(self.all@[before[bk] as int].duration.picos > picos);
                    } else {
                        assert(after[j] == before[bj]);
                        assert(before[bj] < i);
                        if at > 0 {
                            assert(self.all@[before[at - 1] as int].duration.picos <= picos);
                            if bj < at - 1 {
                                assert(ranks_before(
                                    old_samples,
                                    before[bj] as int,
                                    before[at - 1] as int,
                                ));
                            }
                        }
                    }
                }
            }
            i = i + 1;
        }
        proof {
            assert(self.all@.take(len as int) == self.all@);
            lemma_sorted_order_unique(order@, self.all@);
        }
        order
    }
}

} // verus!
