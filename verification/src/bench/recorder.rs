//! What takes a sample, one action at a time: it generates an input, counts
//! what is in it, reads the clock, runs the benchmarked function, and drops
//! what is left behind. It keeps a record of what it did.
//!
//! Only the actions of this module reach what they act on, and only they add
//! to the record: whatever uses a [`SampleRecorder`] can neither act without
//! the record showing it nor have the record show what it did not do.

use std::collections::VecDeque;

use vstd::prelude::*;

use super::benched::Benched;
use super::count_input::CountInput;
use super::defer::DeferStore;
use crate::counter::{CountTotals, CounterCollection, CounterState, KnownCounterKind};
use crate::time::{Clock, Timestamp};

verus! {

/// One thing that is done while a sample is taken.
#[derive(Clone, Copy, Debug, PartialEq, Eq, Structural)]
pub enum SampleStep {
    /// The input of an iteration is generated and stored.
    Generate(usize),
    /// What is in the input of an iteration is counted.
    Count(usize),
    /// The clock is read, and with that the timed section begins.
    Start,
    /// The benchmarked function is run for an iteration.
    Run(usize),
    /// The clock is read, and with that the timed section is over.
    End,
    /// The output of an iteration is dropped.
    DropOutput(usize),
    /// The input of an iteration is dropped, unless the benchmarked function
    /// took it.
    DropInput(usize),
}

impl SampleStep {
    /// The iteration that the step belongs to, unless it is a reading of the
    /// clock.
    pub open spec fn iteration(self) -> Option<usize> {
        match self {
            SampleStep::Generate(i) => Some(i),
            SampleStep::Count(i) => Some(i),
            SampleStep::Run(i) => Some(i),
            SampleStep::DropOutput(i) => Some(i),
            SampleStep::DropInput(i) => Some(i),
            SampleStep::Start => None,
            SampleStep::End => None,
        }
    }
}

/// The steps of a sample of `sample_size` iterations, in the order in which
/// they are taken: each input is generated and counted, the clock is read,
/// the benchmarked function is run once for each input, the clock is read
/// again, the outputs are dropped if they were kept, and the inputs are
/// dropped.
pub open spec fn sample_steps(sample_size: nat, keeps_outputs: bool) -> Seq<SampleStep> {
    let prepare = Seq::new(
        2 * sample_size,
        |k: int|
            if k % 2 == 0 {
                SampleStep::Generate((k / 2) as usize)
            } else {
                SampleStep::Count((k / 2) as usize)
            },
    );
    let run = Seq::new(sample_size, |i: int| SampleStep::Run(i as usize));
    let drop_outputs = if keeps_outputs {
        Seq::new(sample_size, |i: int| SampleStep::DropOutput(i as usize))
    } else {
        Seq::empty()
    };
    let drop_inputs = Seq::new(sample_size, |i: int| SampleStep::DropInput(i as usize));
    prepare + seq![SampleStep::Start] + run + seq![SampleStep::End] + drop_outputs + drop_inputs
}

/// In a sample of `sample_size` iterations, the input of iteration `i` is
/// generated once and counted once, and that before the timed section; the
/// benchmarked function is run once for the iteration, and that within the
/// timed section; and the input is dropped once, and that after the timed
/// section and after the output of the iteration is dropped, where outputs
/// are kept. The clock is read once on either side of the timed section.
pub proof fn lemma_sample_steps_cardinality(sample_size: nat, keeps_outputs: bool, i: usize)
    requires
        i < sample_size,
        sample_size <= usize::MAX,
    ensures
        ({
            let steps = sample_steps(sample_size, keeps_outputs);
            let n = sample_size as int;
            let kept = if keeps_outputs {
                n
            } else {
                0
            };
            &&& steps.len() == 4 * n + kept + 2
            &&& steps[2 * i] == SampleStep::Generate(i)
            &&& steps[2 * i + 1] == SampleStep::Count(i)
            &&& steps[2 * n] == SampleStep::Start
            &&& steps[2 * n + 1 + i] == SampleStep::Run(i)
            &&& steps[3 * n + 1] == SampleStep::End
            &&& keeps_outputs ==> steps[3 * n + 2 + i] == SampleStep::DropOutput(i)
            &&& steps[3 * n + 2 + kept + i] == SampleStep::DropInput(i)
            &&& forall|k: int|
                0 <= k < steps.len() ==> {
                    &&& #[trigger] steps[k] == SampleStep::Generate(i) ==> k == 2 * i
                    &&& steps[k] == SampleStep::Count(i) ==> k == 2 * i + 1
                    &&& steps[k] == SampleStep::Start ==> k == 2 * n
                    &&& steps[k] == SampleStep::Run(i) ==> k == 2 * n + 1 + i
                    &&& steps[k] == SampleStep::End ==> k == 3 * n + 1
                    &&& steps[k] == SampleStep::DropOutput(i) ==> keeps_outputs && k == 3 * n + 2
                        + i
                    &&& steps[k] == SampleStep::DropInput(i) ==> k == 3 * n + 2 + kept + i
                }
        }),
{
    let steps = sample_steps(sample_size, keeps_outputs);
    let n = sample_size as int;
    let kept = if keeps_outputs {
        n
    } else {
        0
    };
    assert(steps[2 * i] == SampleStep::Generate(i));
    assert(steps[2 * i + 1] == SampleStep::Count(i));
    assert forall|k: int| 0 <= k < steps.len() implies {
        &&& #[trigger] steps[k] == SampleStep::Generate(i) ==> k == 2 * i
        &&& steps[k] == SampleStep::Count(i) ==> k == 2 * i + 1
        &&& steps[k] == SampleStep::Start ==> k == 2 * n
        &&& steps[k] == SampleStep::Run(i) ==> k == 2 * n + 1 + i
        &&& steps[k] == SampleStep::End ==> k == 3 * n + 1
        &&& steps[k] == SampleStep::DropOutput(i) ==> keeps_outputs && k == 3 * n + 2 + i
        &&& steps[k] == SampleStep::DropInput(i) ==> k == 3 * n + 2 + kept + i
    } by {
        if k < 2 * n {
            if k % 2 == 0 {
                assert(steps[k] == SampleStep::Generate((k / 2) as usize));
            } else {
                assert(steps[k] == SampleStep::Count((k / 2) as usize));
            }
        } else if k == 2 * n {
        } else if k < 3 * n + 1 {
            assert(steps[k] == SampleStep::Run((k - 2 * n - 1) as usize));
        } else if k == 3 * n + 1 {
        } else if k < 3 * n + 2 + kept {
            assert(steps[k] == SampleStep::DropOutput((k - 3 * n - 2) as usize));
        } else {
            assert(steps[k] == SampleStep::DropInput((k - 3 * n - 2 - kept) as usize));
        }
    }
}

/// Nothing is done in a sample but for its iterations: every step of a
/// sample of `sample_size` iterations that is no reading of the clock
/// belongs to one of these iterations.
pub proof fn lemma_sample_steps_are_of_iterations(sample_size: nat, keeps_outputs: bool)
    requires
        sample_size <= usize::MAX,
    ensures
        forall|k: int|
            0 <= k < sample_steps(sample_size, keeps_outputs).len() ==> ((#[trigger] sample_steps(
                sample_size,
                keeps_outputs,
            )[k]).iteration() matches Some(i) ==> i < sample_size),
{
    let steps = sample_steps(sample_size, keeps_outputs);
    let n = sample_size as int;
    let kept = if keeps_outputs {
        n
    } else {
        0
    };
    assert forall|k: int| 0 <= k < steps.len() implies ((#[trigger] steps[k]).iteration() matches Some(
        i,
    ) ==> i < sample_size) by {
        if k < 2 * n {
            if k % 2 == 0 {
                assert(steps[k] == SampleStep::Generate((k / 2) as usize));
            } else {
                assert(steps[k] == SampleStep::Count((k / 2) as usize));
            }
        } else if k == 2 * n {
        } else if k < 3 * n + 1 {
            assert(steps[k] == SampleStep::Run((k - 2 * n - 1) as usize));
        } else if k == 3 * n + 1 {
        } else if k < 3 * n + 2 + kept {
            assert(steps[k] == SampleStep::DropOutput((k - 3 * n - 2) as usize));
        } else {
            assert(steps[k] == SampleStep::DropInput((k - 3 * n - 2 - kept) as usize));
        }
    }
}

/// Hands `value` back as it is, and keeps the compiler from knowing that:
/// it cannot leave out or move what makes the value.
///
/// Calls `std::hint::black_box`, which is documented as an identity function
/// and is claimed here to return its argument.
#[verifier::external_body]
fn black_box<T>(value: T) -> (same: T)
    ensures
        same == value,
{
    std::hint::black_box(value)
}

/// An input of a sample, with what the counters have found in it.
pub struct Counted<I> {
    /// The input.
    pub input: I,
    /// Its count of bytes, if one was taken.
    pub bytes: Option<u64>,
    /// Its count of characters, if one was taken.
    pub chars: Option<u64>,
    /// Its count of items, if one was taken.
    pub items: Option<u64>,
}

impl<I> Counted<I> {
    /// The count of `kind`, if one was taken.
    pub open spec fn count(self, kind: KnownCounterKind) -> Option<u64> {
        match kind {
            KnownCounterKind::Bytes => self.bytes,
            KnownCounterKind::Chars => self.chars,
            KnownCounterKind::Items => self.items,
        }
    }
}

/// An iteration of a sample: its input, with what the counters have found in
/// it, and the output that the benchmarked function has returned for it.
pub struct Iteration<I, O> {
    /// The input, with what was found in it.
    pub counted: Counted<I>,
    /// The output.
    pub output: O,
}

/// The inputs of `iterations`, with what was found in them.
pub open spec fn counted_of<I, O>(iterations: Seq<Iteration<I, O>>) -> Seq<Counted<I>> {
    Seq::new(iterations.len(), |i: int| iterations[i].counted)
}

/// `totals` with `count` added to the total of `kind`, if there is a count.
pub open spec fn tallied_kind(
    totals: CountTotals,
    kind: KnownCounterKind,
    count: Option<u64>,
) -> CountTotals {
    match count {
        Some(count) => totals.tallied(kind, count),
        None => totals,
    }
}

/// `totals` with the counts of one input added.
pub open spec fn tallied_one<I>(totals: CountTotals, counted: Counted<I>) -> CountTotals {
    tallied_kind(
        tallied_kind(
            tallied_kind(totals, KnownCounterKind::Bytes, counted.bytes),
            KnownCounterKind::Chars,
            counted.chars,
        ),
        KnownCounterKind::Items,
        counted.items,
    )
}

/// `totals` with the counts of all of `counted` added, one input after the
/// other.
pub open spec fn tallied_all<I>(totals: CountTotals, counted: Seq<Counted<I>>) -> CountTotals
    decreases counted.len(),
{
    if counted.len() == 0 {
        totals
    } else {
        tallied_one(tallied_all(totals, counted.drop_last()), counted.last())
    }
}

/// Whether `counted` holds an input that `gen_input` has made, with what
/// `input_counters` have found in it: a count for each kind whose counts
/// `counters` takes from the inputs and that there is a function for, and
/// for no other kind.
pub open spec fn is_counted<I, G: FnMut() -> I, N: CountInput<I>>(
    gen_input: G,
    input_counters: N,
    counters: &CounterCollection,
    counted: Counted<I>,
) -> bool {
    &&& call_ensures(gen_input, (), counted.input)
    &&& forall|kind: KnownCounterKind|
        match #[trigger] counted.count(kind) {
            Some(count) => counters.state(kind) is PerInput && input_counters.found(
                kind,
                &counted.input,
                count,
            ),
            None => !(counters.state(kind) is PerInput) || !input_counters.counts(kind),
        }
}

/// Whether `iteration` holds an input that `gen_input` has made, with what
/// `input_counters` have found in it, and the output that `benched` has
/// returned for it.
pub open spec fn is_iteration<I, O, G: FnMut() -> I, N: CountInput<I>, B: Benched<I, O>>(
    gen_input: G,
    input_counters: N,
    benched: B,
    counters: &CounterCollection,
    iteration: Iteration<I, O>,
) -> bool {
    &&& is_counted(gen_input, input_counters, counters, iteration.counted)
    &&& benched.returned(iteration.counted.input, iteration.output)
}

/// Whether `iterations` holds the iterations of a sample of `sample_size`
/// iterations, in the order in which their inputs were generated: `gen_input`
/// has made the input of each, `input_counters` have counted what is in it,
/// and `benched` has returned its output for that input.
pub open spec fn is_sample<I, O, G: FnMut() -> I, N: CountInput<I>, B: Benched<I, O>>(
    gen_input: G,
    input_counters: N,
    benched: B,
    counters: &CounterCollection,
    iterations: Seq<Iteration<I, O>>,
    sample_size: nat,
) -> bool {
    &&& iterations.len() == sample_size
    &&& forall|i: int|
        0 <= i < iterations.len() ==> is_iteration(
            gen_input,
            input_counters,
            benched,
            counters,
            #[trigger] iterations[i],
        )
}

/// How the inputs and outputs of a sample are kept out of the way while it
/// is timed.
#[derive(Clone, Copy, Debug, PartialEq, Eq, Structural)]
pub enum Strategy {
    /// The iterations are counted, and no slot is looked up for any of them.
    /// Inputs are set aside; outputs are not kept.
    CountedLoop,
    /// The iterations are counted as well, and outputs are set aside to be
    /// dropped once the sample is over.
    CountedLoopDeferredDrop,
    /// Each iteration has a slot for its input and one for its output.
    SlotPairs,
    /// Each iteration has a slot for its input. Outputs are not kept.
    InputsOnly,
}

impl Strategy {
    /// The strategy for inputs and outputs of types with the given
    /// properties, whether or not outputs take memory: a counted loop if
    /// inputs take no memory, and else slots; and outputs are kept until the
    /// sample is over if dropping an output does any work.
    pub open spec fn spec_select(input_has_storage: bool, output_needs_drop: bool) -> Strategy {
        if input_has_storage {
            if output_needs_drop {
                Strategy::SlotPairs
            } else {
                Strategy::InputsOnly
            }
        } else {
            if output_needs_drop {
                Strategy::CountedLoopDeferredDrop
            } else {
                Strategy::CountedLoop
            }
        }
    }

    /// Whether outputs are kept until the sample is over.
    pub open spec fn spec_keeps_outputs(self) -> bool {
        self is CountedLoopDeferredDrop || self is SlotPairs
    }

    /// The strategy for inputs and outputs of types with the given
    /// properties.
    #[verifier::when_used_as_spec(spec_select)]
    pub fn select(input_has_storage: bool, output_needs_drop: bool) -> (strategy: Strategy)
        ensures
            strategy == Self::spec_select(input_has_storage, output_needs_drop),
            strategy.keeps_outputs() == output_needs_drop,
    {
        if input_has_storage {
            if output_needs_drop {
                Strategy::SlotPairs
            } else {
                Strategy::InputsOnly
            }
        } else {
            if output_needs_drop {
                Strategy::CountedLoopDeferredDrop
            } else {
                Strategy::CountedLoop
            }
        }
    }

    /// Whether outputs are kept until the sample is over.
    #[verifier::when_used_as_spec(spec_keeps_outputs)]
    pub fn keeps_outputs(self) -> (keeps: bool)
        ensures
            keeps == self.spec_keeps_outputs(),
    {
        matches!(self, Strategy::CountedLoopDeferredDrop | Strategy::SlotPairs)
    }
}

/// How far the taking of a sample has come.
pub struct Taken<I, O> {
    /// The number of iterations of the sample.
    pub size: nat,
    /// The inputs that were generated, in the order of their iterations.
    pub generated: Seq<I>,
    /// The inputs that were counted, with what was found in them.
    pub counted: Seq<Counted<I>>,
    /// The outputs that the benchmarked function has returned.
    pub outputs: Seq<O>,
    /// The number of outputs that were dropped.
    pub dropped_outputs: nat,
    /// The number of inputs that were dropped.
    pub dropped_inputs: nat,
}

impl<I, O> Taken<I, O> {
    /// A sample of `size` iterations of which nothing is done yet.
    pub open spec fn start(size: nat) -> Self {
        Taken {
            size,
            generated: Seq::empty(),
            counted: Seq::empty(),
            outputs: Seq::empty(),
            dropped_outputs: 0,
            dropped_inputs: 0,
        }
    }

    /// Whether nothing of the sample is left to run or to drop: the
    /// benchmarked function was run on every input that was generated, and
    /// what that left behind was dropped.
    pub open spec fn is_done(self, keeps_outputs: bool) -> bool {
        &&& self.outputs.len() == self.generated.len()
        &&& self.dropped_inputs == self.generated.len()
        &&& keeps_outputs ==> self.dropped_outputs == self.generated.len()
    }
}

/// The record of what a [`SampleRecorder`] has done. Nothing but the actions
/// of the recorder makes or changes one.
pub struct SampleRecord {
    /// The steps, in the order in which they were taken.
    steps: Ghost<Seq<SampleStep>>,
}

impl SampleRecord {
    /// Everything that was done, in order.
    pub closed spec fn steps(&self) -> Seq<SampleStep> {
        self.steps@
    }
}

/// Takes the samples of one benchmark, action by action, and keeps the
/// record of the actions.
///
/// The recorder keeps the memory for inputs and outputs from one sample to
/// the next, so that a sample does not start out with allocating it.
pub struct SampleRecorder<'c, I, O, G, N, B, C> {
    /// The clock that the samples are timed with.
    clock: &'c C,
    /// Generates the input of an iteration.
    gen_input: G,
    /// Count what is in an input.
    input_counters: N,
    /// The benchmarked function.
    benched: B,
    /// How inputs and outputs are kept out of the way.
    strategy: Strategy,
    /// The slots of the iterations, unless they are counted.
    defer_store: DeferStore<I, O>,
    /// The inputs of counted iterations that are yet to run.
    queued_inputs: VecDeque<I>,
    /// The inputs that counted iterations have left behind.
    used_inputs: VecDeque<I>,
    /// The outputs of counted iterations.
    outputs: VecDeque<O>,
    /// How far the sample has come that is being taken.
    taken: Ghost<Taken<I, O>>,
    /// Everything that was done so far, in order.
    record: SampleRecord,
}

/// Adds to `totals` what `input` counts for `kind`, if `counters` takes the
/// counts of that kind from the inputs.
fn count_kind<I, N: CountInput<I>>(
    input_counters: &mut N,
    counters: &CounterCollection,
    kind: KnownCounterKind,
    input: &I,
    totals: &mut CountTotals,
) -> (found: Ghost<Option<u64>>)
    requires
        old(input_counters).callable(),
        counters.wf(),
    ensures
        *final(input_counters) == *old(input_counters),
        match found@ {
            Some(count) => {
                &&& counters.state(kind) is PerInput
                &&& old(input_counters).found(kind, input, count)
                &&& *final(totals) == old(totals).tallied(kind, count)
            },
            None => {
                &&& !(counters.state(kind) is PerInput) || !old(input_counters).counts(kind)
                &&& *final(totals) == *old(totals)
            },
        },
{
    if counters.uses_input_counts(kind) {
        if let Some(count) = input_counters.count_input(kind, input) {
            totals.tally(kind, count);
            return Ghost(Some(count));
        }
    }
    Ghost(None)
}

/// Adds to `totals` what `input` counts for each kind whose counts `counters`
/// takes from the inputs.
fn count_kinds<I, N: CountInput<I>>(
    input_counters: &mut N,
    counters: &CounterCollection,
    input: &I,
    totals: &mut CountTotals,
) -> (counted: Ghost<Counted<I>>)
    requires
        old(input_counters).callable(),
        counters.wf(),
    ensures
        *final(input_counters) == *old(input_counters),
        counted@.input == *input,
        forall|kind: KnownCounterKind|
            match #[trigger] counted@.count(kind) {
                Some(count) => counters.state(kind) is PerInput && old(input_counters).found(
                    kind,
                    input,
                    count,
                ),
                None => !(counters.state(kind) is PerInput) || !old(input_counters).counts(kind),
            },
        *final(totals) == tallied_one(*old(totals), counted@),
{
    let bytes = count_kind(input_counters, counters, KnownCounterKind::Bytes, input, totals);
    let chars = count_kind(input_counters, counters, KnownCounterKind::Chars, input, totals);
    let items = count_kind(input_counters, counters, KnownCounterKind::Items, input, totals);
    Ghost(Counted { input: *input, bytes: bytes@, chars: chars@, items: items@ })
}

impl<'c, I, O, G, N, B, C> SampleRecorder<'c, I, O, G, N, B, C> where
    G: FnMut() -> I,
    N: CountInput<I>,
    B: Benched<I, O>,
    C: Clock,
 {
    /// The clock that the samples are timed with.
    pub closed spec fn clock(&self) -> C {
        *self.clock
    }

    /// The function that generates the input of an iteration.
    pub closed spec fn gen_input(&self) -> G {
        self.gen_input
    }

    /// The functions that count what is in an input.
    pub closed spec fn input_counters(&self) -> N {
        self.input_counters
    }

    /// The benchmarked function.
    pub closed spec fn benched(&self) -> B {
        self.benched
    }

    /// How inputs and outputs are kept out of the way.
    pub closed spec fn spec_strategy(&self) -> Strategy {
        self.strategy
    }

    /// How far the sample has come that is being taken.
    pub closed spec fn taken(&self) -> Taken<I, O> {
        self.taken@
    }

    /// Everything that was done so far, in order.
    pub closed spec fn steps(&self) -> Seq<SampleStep> {
        self.record.steps@
    }

    /// Whether the recorder holds what its record says: the inputs that
    /// were generated and are yet to run wait where the strategy keeps
    /// them, and the inputs and outputs that are on record are what the
    /// functions have returned.
    pub closed spec fn wf(&self) -> bool {
        let taken = self.taken@;
        let generated = taken.generated.len() as int;
        let run = taken.outputs.len() as int;
        &&& self.defer_store.keeps_outputs == self.strategy.keeps_outputs()
        &&& taken.counted.len() <= generated
        &&& run <= generated <= taken.size
        &&& taken.dropped_outputs <= run
        &&& taken.dropped_inputs <= run
        &&& forall|k: int|
            0 <= k < generated ==> call_ensures(self.gen_input, (), #[trigger] taken.generated[k])
        &&& forall|k: int|
            0 <= k < taken.counted.len() ==> (#[trigger] taken.counted[k]).input
                == taken.generated[k]
        &&& forall|k: int|
            0 <= k < run ==> self.benched.returned(taken.generated[k], #[trigger] taken.outputs[k])
        &&& match self.strategy {
            Strategy::SlotPairs => {
                &&& self.defer_store.slots@.len() == taken.size
                &&& forall|k: int|
                    run <= k < generated ==> (#[trigger] self.defer_store.slots@[k]).input == Some(
                        taken.generated[k],
                    )
            },
            Strategy::InputsOnly => {
                &&& self.defer_store.inputs@.len() == taken.size
                &&& forall|k: int|
                    run <= k < generated ==> #[trigger] self.defer_store.inputs@[k] == Some(
                        taken.generated[k],
                    )
            },
            _ => self.queued_inputs@ == taken.generated.subrange(run, generated),
        }
    }

    /// Whether an action can be taken: the functions involved accept every
    /// input, and the recorder holds what its record says.
    pub open spec fn ready(&self) -> bool {
        &&& call_requires(self.gen_input(), ())
        &&& self.input_counters().callable()
        &&& self.benched().callable()
        &&& self.wf()
    }

    /// Whether this recorder is still set up as `before` was.
    pub open spec fn set_up_as(&self, before: &Self) -> bool {
        &&& self.clock() == before.clock()
        &&& self.gen_input() == before.gen_input()
        &&& self.input_counters() == before.input_counters()
        &&& self.benched() == before.benched()
        &&& self.spec_strategy() == before.spec_strategy()
    }

    /// Whether this recorder is `before` with `step` done since, which has
    /// brought the sample to `taken`.
    pub open spec fn did(&self, before: &Self, step: SampleStep, taken: Taken<I, O>) -> bool {
        &&& self.ready()
        &&& self.set_up_as(before)
        &&& self.steps() == before.steps().push(step)
        &&& self.taken() == taken
    }

    /// Whether nothing of the sample that was taken last is left to run or
    /// to drop.
    pub open spec fn is_done(&self) -> bool {
        self.taken().is_done(self.spec_strategy().keeps_outputs())
    }

    /// The inputs and outputs on record are what the functions of the
    /// recorder have returned: each input that was generated is one that
    /// `gen_input` has made, each input that was counted is the one that was
    /// generated for its iteration, and each output is what `benched` has
    /// returned for the input of its iteration.
    pub proof fn lemma_record_is_of_calls(&self)
        requires
            self.wf(),
        ensures
            self.taken().counted.len() <= self.taken().generated.len(),
            self.taken().outputs.len() <= self.taken().generated.len() <= self.taken().size,
            forall|k: int|
                0 <= k < self.taken().generated.len() ==> call_ensures(
                    self.gen_input(),
                    (),
                    #[trigger] self.taken().generated[k],
                ),
            forall|k: int|
                0 <= k < self.taken().counted.len() ==> (#[trigger] self.taken().counted[k]).input
                    == self.taken().generated[k],
            forall|k: int|
                0 <= k < self.taken().outputs.len() ==> self.benched().returned(
                    self.taken().generated[k],
                    #[trigger] self.taken().outputs[k],
                ),
    {
    }

    /// A recorder that has done nothing yet.
    pub fn new(
        clock: &'c C,
        gen_input: G,
        input_counters: N,
        benched: B,
        strategy: Strategy,
    ) -> (recorder: Self)
        ensures
            recorder.wf(),
            recorder.clock() == *clock,
            recorder.gen_input() == gen_input,
            recorder.input_counters() == input_counters,
            recorder.benched() == benched,
            recorder.spec_strategy() == strategy,
            recorder.taken() == Taken::<I, O>::start(0),
            recorder.steps() == Seq::<SampleStep>::empty(),
    {
        let recorder = SampleRecorder {
            clock,
            gen_input,
            input_counters,
            benched,
            strategy,
            defer_store: DeferStore::new(strategy.keeps_outputs()),
            queued_inputs: VecDeque::new(),
            used_inputs: VecDeque::new(),
            outputs: VecDeque::new(),
            taken: Ghost(Taken::start(0)),
            record: SampleRecord { steps: Ghost(Seq::empty()) },
        };
        assert(recorder.queued_inputs@ =~= recorder.taken@.generated.subrange(0, 0));
        recorder
    }

    /// Gives up the recorder for the record of what it has done.
    pub fn into_record(self) -> (record: SampleRecord)
        ensures
            record.steps() == self.steps(),
    {
        self.record
    }

    /// How inputs and outputs are kept out of the way.
    #[verifier::when_used_as_spec(spec_strategy)]
    pub fn strategy(&self) -> (strategy: Strategy)
        ensures
            strategy == self.spec_strategy(),
    {
        self.strategy
    }

    /// Makes room for a sample of `sample_size` iterations. This is no step
    /// of the sample: nothing is left of the sample before to act on.
    pub fn begin(&mut self, sample_size: usize)
        requires
            old(self).ready(),
            old(self).is_done(),
        ensures
            final(self).ready(),
            final(self).set_up_as(old(self)),
            final(self).steps() == old(self).steps(),
            final(self).taken() == Taken::<I, O>::start(sample_size as nat),
    {
        proof {
            self.taken@ = Taken::start(sample_size as nat);
        }
        match self.strategy {
            Strategy::SlotPairs | Strategy::InputsOnly => {
                self.defer_store.prepare(sample_size);
            },
            Strategy::CountedLoop | Strategy::CountedLoopDeferredDrop => {
                self.queued_inputs.clear();
                self.used_inputs.clear();
                self.outputs.clear();
                self.queued_inputs.reserve(sample_size);
                self.used_inputs.reserve(sample_size);
                if self.strategy.keeps_outputs() {
                    self.outputs.reserve(sample_size);
                }
                assert(self.queued_inputs@ =~= self.taken@.generated.subrange(0, 0));
            },
        }
    }

    /// Generates the input of iteration `i`, which is the next to get one,
    /// and stores it.
    pub fn generate(&mut self, i: usize)
        requires
            old(self).ready(),
            i == old(self).taken().generated.len(),
            i < old(self).taken().size,
        ensures
            final(self).did(
                old(self),
                SampleStep::Generate(i),
                (Taken { generated: final(self).taken().generated, ..old(self).taken() }),
            ),
            final(self).taken().generated.len() == i + 1,
            final(self).taken().generated.drop_last() == old(self).taken().generated,
            call_ensures(old(self).gen_input(), (), final(self).taken().generated.last()),
    {
        let input = (self.gen_input)();
        proof {
            let before = self.taken@.generated;
            self.taken@ = Taken { generated: before.push(input), ..self.taken@ };
            self.record.steps@ = self.record.steps@.push(SampleStep::Generate(i));
            assert(before.push(input).drop_last() =~= before);
        }
        match self.strategy {
            Strategy::SlotPairs => {
                self.defer_store.slots[i].input = Some(input);
            },
            Strategy::InputsOnly => {
                self.defer_store.inputs[i] = Some(input);
            },
            Strategy::CountedLoop | Strategy::CountedLoopDeferredDrop => {
                self.queued_inputs.push_back(input);
                assert(self.queued_inputs@ =~= self.taken@.generated.subrange(
                    self.taken@.outputs.len() as int,
                    self.taken@.generated.len() as int,
                ));
            },
        }
    }

    /// Counts what is in the input of iteration `i`, which is the next to
    /// be counted, into `totals`. Inputs are counted before any is run.
    pub fn count(&mut self, i: usize, counters: &CounterCollection, totals: &mut CountTotals)
        requires
            old(self).ready(),
            counters.wf(),
            i == old(self).taken().counted.len(),
            i < old(self).taken().generated.len(),
            old(self).taken().outputs.len() == 0,
        ensures
            final(self).did(
                old(self),
                SampleStep::Count(i),
                (Taken { counted: final(self).taken().counted, ..old(self).taken() }),
            ),
            final(self).taken().counted.len() == i + 1,
            final(self).taken().counted.drop_last() == old(self).taken().counted,
            final(self).taken().counted.last().input == old(self).taken().generated[i as int],
            is_counted(
                old(self).gen_input(),
                old(self).input_counters(),
                counters,
                final(self).taken().counted.last(),
            ),
            *final(totals) == tallied_one(*old(totals), final(self).taken().counted.last()),
    {
        let counted = match self.strategy {
            Strategy::SlotPairs => match &self.defer_store.slots[i].input {
                Some(input) => count_kinds(&mut self.input_counters, counters, input, totals),
                None => vstd::pervasive::unreached(),
            },
            Strategy::InputsOnly => match &self.defer_store.inputs[i] {
                Some(input) => count_kinds(&mut self.input_counters, counters, input, totals),
                None => vstd::pervasive::unreached(),
            },
            Strategy::CountedLoop | Strategy::CountedLoopDeferredDrop => count_kinds(
                &mut self.input_counters,
                counters,
                &self.queued_inputs[i],
                totals,
            ),
        };
        proof {
            let before = self.taken@.counted;
            self.taken@ = Taken { counted: before.push(counted@), ..self.taken@ };
            self.record.steps@ = self.record.steps@.push(SampleStep::Count(i));
            assert(before.push(counted@).drop_last() =~= before);
        }
    }

    /// Reads the clock, and with that begins the timed section.
    pub fn start(&mut self) -> (now: Timestamp)
        requires
            old(self).ready(),
        ensures
            final(self).did(old(self), SampleStep::Start, old(self).taken()),
            call_ensures(C::start, (&old(self).clock(),), now),
    {
        let now = self.clock.start();
        proof {
            self.record.steps@ = self.record.steps@.push(SampleStep::Start);
        }
        now
    }

    /// Runs the benchmarked function on the input of iteration `i`, which
    /// is the next to run, and keeps the output if outputs are kept.
    pub fn run(&mut self, i: usize)
        requires
            old(self).ready(),
            i == old(self).taken().outputs.len(),
            i < old(self).taken().generated.len(),
        ensures
            final(self).did(
                old(self),
                SampleStep::Run(i),
                (Taken { outputs: final(self).taken().outputs, ..old(self).taken() }),
            ),
            final(self).taken().outputs.len() == i + 1,
            final(self).taken().outputs.drop_last() == old(self).taken().outputs,
            old(self).benched().returned(
                old(self).taken().generated[i as int],
                final(self).taken().outputs.last(),
            ),
    {
        let ghost before = self.taken@.outputs;
        match self.strategy {
            Strategy::SlotPairs => {
                let output = black_box(self.benched.run(&mut self.defer_store.slots[i].input));
                proof {
                    self.taken@ = Taken { outputs: before.push(output), ..self.taken@ };
                }
                self.defer_store.slots[i].output = Some(output);
            },
            Strategy::InputsOnly => {
                let output = black_box(self.benched.run(&mut self.defer_store.inputs[i]));
                proof {
                    self.taken@ = Taken { outputs: before.push(output), ..self.taken@ };
                }
            },
            Strategy::CountedLoop | Strategy::CountedLoopDeferredDrop => {
                let ghost queued = self.queued_inputs@;
                let mut slot = self.queued_inputs.pop_front();
                assert(slot == Some(self.taken@.generated[i as int])) by {
                    assert(queued[0] == self.taken@.generated[i as int]);
                }
                let output = black_box(self.benched.run(&mut slot));
                proof {
                    self.taken@ = Taken { outputs: before.push(output), ..self.taken@ };
                    assert(self.queued_inputs@ =~= self.taken@.generated.subrange(
                        self.taken@.outputs.len() as int,
                        self.taken@.generated.len() as int,
                    ));
                }
                if self.strategy.keeps_outputs() {
                    self.outputs.push_back(output);
                }
                if let Some(input) = slot {
                    self.used_inputs.push_back(input);
                }
            },
        }
        proof {
            self.record.steps@ = self.record.steps@.push(SampleStep::Run(i));
            assert(self.taken@.outputs.drop_last() =~= before);
        }
    }

    /// Reads the clock, and with that ends the timed section.
    pub fn end(&mut self) -> (now: Timestamp)
        requires
            old(self).ready(),
        ensures
            final(self).did(old(self), SampleStep::End, old(self).taken()),
            call_ensures(C::end, (&old(self).clock(),), now),
    {
        let now = self.clock.end();
        proof {
            self.record.steps@ = self.record.steps@.push(SampleStep::End);
        }
        now
    }

    /// Drops the output of iteration `i`, which was run and whose output is
    /// the next to be dropped, where outputs are kept.
    pub fn drop_output(&mut self, i: usize)
        requires
            old(self).ready(),
            old(self).spec_strategy().keeps_outputs(),
            i == old(self).taken().dropped_outputs,
            i < old(self).taken().outputs.len(),
        ensures
            final(self).did(
                old(self),
                SampleStep::DropOutput(i),
                (Taken { dropped_outputs: (i + 1) as nat, ..old(self).taken() }),
            ),
    {
        match self.strategy {
            Strategy::SlotPairs => {
                self.defer_store.slots[i].output = None;
            },
            _ => {
                let _ = self.outputs.pop_front();
            },
        }
        proof {
            self.taken@ = Taken { dropped_outputs: (i + 1) as nat, ..self.taken@ };
            self.record.steps@ = self.record.steps@.push(SampleStep::DropOutput(i));
        }
    }

    /// Drops the input of iteration `i`, if the benchmarked function has
    /// left it. The iteration was run, its output is dropped if outputs are
    /// kept, and its input is the next to be dropped.
    pub fn drop_input(&mut self, i: usize)
        requires
            old(self).ready(),
            i == old(self).taken().dropped_inputs,
            i < old(self).taken().outputs.len(),
            old(self).spec_strategy().keeps_outputs() ==> i < old(self).taken().dropped_outputs,
        ensures
            final(self).did(
                old(self),
                SampleStep::DropInput(i),
                (Taken { dropped_inputs: (i + 1) as nat, ..old(self).taken() }),
            ),
    {
        match self.strategy {
            Strategy::SlotPairs => {
                self.benched.drop_input(&mut self.defer_store.slots[i].input);
            },
            Strategy::InputsOnly => {
                self.benched.drop_input(&mut self.defer_store.inputs[i]);
            },
            Strategy::CountedLoop | Strategy::CountedLoopDeferredDrop => {
                let mut slot = self.used_inputs.pop_front();
                self.benched.drop_input(&mut slot);
            },
        }
        proof {
            self.taken@ = Taken { dropped_inputs: (i + 1) as nat, ..self.taken@ };
            self.record.steps@ = self.record.steps@.push(SampleStep::DropInput(i));
        }
    }
}

} // verus!
