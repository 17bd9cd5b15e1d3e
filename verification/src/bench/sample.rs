//! Taking a whole sample with a [`SampleRecorder`].
//!
//! A sample is taken through the actions of the recorder alone, so what its
//! record shows of the sample is what was done.

use vstd::prelude::*;

use super::benched::Benched;
use super::count_input::CountInput;
use super::recorder::{
    counted_of, is_counted, is_sample, lemma_sample_steps_cardinality, sample_steps, tallied_all,
    Counted, Iteration, SampleRecorder, SampleStep, Taken,
};
use crate::counter::{CountTotals, CounterCollection};
use crate::time::{is_span_of, Clock, Timestamp};

verus! {

impl<I, O> Taken<I, O> {
    /// The iterations that were run: the input of each, with what was found
    /// in it, and its output.
    pub open spec fn iterations(self) -> Seq<Iteration<I, O>> {
        Seq::new(
            self.outputs.len(),
            |i: int| Iteration { counted: self.counted[i], output: self.outputs[i] },
        )
    }

    /// Whether this is a whole sample of `sample_size` iterations: each has
    /// its input generated and counted, was run, and has what it left behind
    /// dropped.
    pub open spec fn is_whole(self, sample_size: nat, keeps_outputs: bool) -> bool {
        &&& self.size == sample_size
        &&& self.generated.len() == sample_size
        &&& self.counted.len() == sample_size
        &&& self.is_done(keeps_outputs)
    }
}

/// The steps of samples of the given sizes, taken one after the other.
pub open spec fn run_steps(sizes: Seq<nat>, keeps_outputs: bool) -> Seq<SampleStep>
    decreases sizes.len(),
{
    if sizes.len() == 0 {
        Seq::empty()
    } else {
        run_steps(sizes.drop_last(), keeps_outputs) + sample_steps(sizes.last(), keeps_outputs)
    }
}

/// A record that holds the first `done` of `steps` after what stood in
/// `before` holds one more of them once the next of them is added.
proof fn lemma_next_step(before: Seq<SampleStep>, steps: Seq<SampleStep>, done: int)
    requires
        0 <= done < steps.len(),
    ensures
        (before + steps.subrange(0, done)).push(steps[done]) == before + steps.subrange(
            0,
            done + 1,
        ),
{
    assert((before + steps.subrange(0, done)).push(steps[done]) =~= before + steps.subrange(
        0,
        done + 1,
    ));
}

/// The steps of a sample are four for each iteration, one more for each if
/// outputs are kept, and the two readings of the clock, which stand right
/// after the inputs are counted and right after the iterations are run.
proof fn lemma_sample_steps_readings(sample_size: nat, keeps_outputs: bool)
    ensures
        ({
            let steps = sample_steps(sample_size, keeps_outputs);
            let n = sample_size as int;
            let kept = if keeps_outputs {
                n
            } else {
                0
            };
            &&& steps.len() == 4 * n + kept + 2
            &&& steps[2 * n] == SampleStep::Start
            &&& steps[3 * n + 1] == SampleStep::End
        }),
{
}

impl<'c, I, O, G, N, B, C> SampleRecorder<'c, I, O, G, N, B, C> where
    G: FnMut() -> I,
    N: CountInput<I>,
    B: Benched<I, O>,
    C: Clock,
 {
    /// Takes one sample of `sample_size` iterations and returns the readings
    /// of the clock from right before the first iteration and from right
    /// after the last one.
    ///
    /// Every input is generated, and counted into `totals`, before the first
    /// reading. Outputs and inputs are dropped after the second one. The
    /// record of the recorder grows by the steps of the sample, in their
    /// order, and the sample that it holds is the one that was run.
    pub fn record(
        &mut self,
        counters: &CounterCollection,
        sample_size: usize,
        totals: &mut CountTotals,
    ) -> (span: [Timestamp; 2])
        requires
            old(self).ready(),
            old(self).is_done(),
            counters.wf(),
        ensures
            final(self).ready(),
            final(self).is_done(),
            final(self).set_up_as(old(self)),
            final(self).steps() == old(self).steps() + sample_steps(
                sample_size as nat,
                old(self).spec_strategy().keeps_outputs(),
            ),
            final(self).taken().is_whole(
                sample_size as nat,
                old(self).spec_strategy().keeps_outputs(),
            ),
            is_span_of(&old(self).clock(), span[0], span[1]),
            is_sample(
                old(self).gen_input(),
                old(self).input_counters(),
                old(self).benched(),
                counters,
                final(self).taken().iterations(),
                sample_size as nat,
            ),
            *final(totals) == tallied_all(*old(totals), counted_of(final(self).taken().iterations())),
    {
        let keeps_outputs = self.strategy().keeps_outputs();
        let ghost before = *self;
        let ghost totals_before = *totals;
        let ghost n = sample_size as int;
        let ghost kept = if keeps_outputs {
            n
        } else {
            0
        };
        let ghost plan = sample_steps(sample_size as nat, keeps_outputs);
        proof {
            lemma_sample_steps_readings(sample_size as nat, keeps_outputs);
            assert(before.steps() =~= before.steps() + plan.subrange(0, 0));
        }

        self.begin(sample_size);
        let mut i: usize = 0;
        while i < sample_size
            invariant
                i <= sample_size,
                n == sample_size,
                counters.wf(),
                self.ready(),
                self.set_up_as(&before),
                plan == sample_steps(sample_size as nat, keeps_outputs),
                plan.len() == 4 * n + kept + 2,
                self.steps() == before.steps() + plan.subrange(0, 2 * i),
                self.taken() == (Taken {
                    generated: self.taken().generated,
                    counted: self.taken().counted,
                    ..Taken::<I, O>::start(sample_size as nat)
                }),
                self.taken().generated.len() == i,
                self.taken().counted.len() == i,
                forall|k: int|
                    0 <= k < i ==> is_counted(
                        before.gen_input(),
                        before.input_counters(),
                        counters,
                        #[trigger] self.taken().counted[k],
                    ),
                *totals == tallied_all(totals_before, self.taken().counted),
            decreases sample_size - i,
        {
            let ghost counted = self.taken().counted;
            proof {
                lemma_sample_steps_cardinality(sample_size as nat, keeps_outputs, i);
                lemma_next_step(before.steps(), plan, 2 * i);
                lemma_next_step(before.steps(), plan, 2 * i + 1);
            }
            self.generate(i);
            self.count(i, counters, totals);
            proof {
                assert forall|k: int| 0 <= k < i + 1 implies is_counted(
                    before.gen_input(),
                    before.input_counters(),
                    counters,
                    #[trigger] self.taken().counted[k],
                ) by {
                    if k < i {
                        assert(self.taken().counted[k] == self.taken().counted.drop_last()[k]);
                        assert(self.taken().counted[k] == counted[k]);
                    } else {
                        assert(self.taken().counted[k] == self.taken().counted.last());
                    }
                }
            }
            i += 1;
        }

        let ghost prepared = self.taken();
        proof {
            lemma_next_step(before.steps(), plan, 2 * n);
        }
        let start = self.start();

        let mut i: usize = 0;
        while i < sample_size
            invariant
                i <= sample_size,
                n == sample_size,
                self.ready(),
                self.set_up_as(&before),
                plan == sample_steps(sample_size as nat, keeps_outputs),
                plan.len() == 4 * n + kept + 2,
                self.steps() == before.steps() + plan.subrange(0, 2 * n + 1 + i),
                self.taken() == (Taken { outputs: self.taken().outputs, ..prepared }),
                prepared.generated.len() == sample_size,
                self.taken().outputs.len() == i,
            decreases sample_size - i,
        {
            proof {
                lemma_sample_steps_cardinality(sample_size as nat, keeps_outputs, i);
                lemma_next_step(before.steps(), plan, 2 * n + 1 + i);
            }
            self.run(i);
            i += 1;
        }

        proof {
            lemma_next_step(before.steps(), plan, 3 * n + 1);
        }
        let end = self.end();
        let ghost ran = self.taken();

        if keeps_outputs {
            let mut i: usize = 0;
            while i < sample_size
                invariant
                    i <= sample_size,
                    n == sample_size,
                    kept == n,
                    keeps_outputs,
                    keeps_outputs == before.spec_strategy().keeps_outputs(),
                    self.ready(),
                    self.set_up_as(&before),
                    plan == sample_steps(sample_size as nat, keeps_outputs),
                    plan.len() == 4 * n + kept + 2,
                    self.steps() == before.steps() + plan.subrange(0, 3 * n + 2 + i),
                    self.taken() == (Taken { dropped_outputs: i as nat, ..ran }),
                    ran.outputs.len() == sample_size,
                decreases sample_size - i,
            {
                proof {
                    lemma_sample_steps_cardinality(sample_size as nat, keeps_outputs, i);
                    lemma_next_step(before.steps(), plan, 3 * n + 2 + i);
                }
                self.drop_output(i);
                i += 1;
            }
        }

        let ghost kept_dropped = self.taken();
        let mut i: usize = 0;
        while i < sample_size
            invariant
                i <= sample_size,
                n == sample_size,
                kept == if keeps_outputs {
                    n
                } else {
                    0
                },
                keeps_outputs == before.spec_strategy().keeps_outputs(),
                self.ready(),
                self.set_up_as(&before),
                plan == sample_steps(sample_size as nat, keeps_outputs),
                plan.len() == 4 * n + kept + 2,
                self.steps() == before.steps() + plan.subrange(0, 3 * n + 2 + kept + i),
                self.taken() == (Taken { dropped_inputs: i as nat, ..kept_dropped }),
                kept_dropped.outputs.len() == sample_size,
                keeps_outputs ==> kept_dropped.dropped_outputs == sample_size,
            decreases sample_size - i,
        {
            proof {
                lemma_sample_steps_cardinality(sample_size as nat, keeps_outputs, i);
                lemma_next_step(before.steps(), plan, 3 * n + 2 + kept + i);
            }
            self.drop_input(i);
            i += 1;
        }

        proof {
            let taken = self.taken();
            let iterations = taken.iterations();
            self.lemma_record_is_of_calls();
            assert(plan.subrange(0, 4 * n + kept + 2) =~= plan);
            assert(taken.counted == prepared.counted);
            assert(taken.generated == prepared.generated);
            assert(counted_of(iterations) =~= taken.counted);
        }
        [start, end]
    }
}

} // verus!
