//! Storage that keeps the inputs and outputs of a sample out of the way.

use vstd::prelude::*;

verus! {

/// The place of one iteration in a [`DeferStore`] that keeps outputs.
pub struct DeferSlot<I, O> {
    /// The input of the iteration, from when it is generated until the
    /// benchmarked function takes it or it is dropped.
    pub input: Option<I>,
    /// The output of the iteration, from when it is produced until it is
    /// dropped.
    pub output: Option<O>,
}

/// Defers the use of generated inputs and the drop of produced outputs, so
/// that neither happens while a sample is timed.
///
/// The store has a slot for each iteration of a sample: for the input and
/// the output of the iteration if it keeps outputs, for the input alone if it
/// does not. The memory of the slots is reused from one sample to the next.
pub struct DeferStore<I, O> {
    /// The slots of a store that keeps outputs.
    pub slots: Vec<DeferSlot<I, O>>,
    /// The slots of a store that does not keep outputs.
    pub inputs: Vec<Option<I>>,
    /// Whether outputs are kept in the slots until the sample is over. This
    /// is chosen when the store is made and stays as it is.
    pub keeps_outputs: bool,
}

impl<I, O> DeferStore<I, O> {
    /// Whether the store holds `n` slots, all of them empty.
    pub open spec fn is_vacant(&self, n: nat) -> bool {
        if self.keeps_outputs {
            &&& self.inputs@.len() == 0
            &&& self.slots@.len() == n
            &&& forall|i: int|
                0 <= i < n ==> (#[trigger] self.slots@[i]).input is None && self.slots@[i].output
                    is None
        } else {
            &&& self.slots@.len() == 0
            &&& self.inputs@.len() == n
            &&& forall|i: int| 0 <= i < n ==> (#[trigger] self.inputs@[i]) is None
        }
    }

    /// A store without slots. Outputs are kept until the sample is over if
    /// `keeps_outputs` is set, which it needs to be only if dropping an
    /// output does any work.
    pub fn new(keeps_outputs: bool) -> (store: Self)
        ensures
            store.keeps_outputs == keeps_outputs,
            store.is_vacant(0),
    {
        DeferStore { slots: Vec::new(), inputs: Vec::new(), keeps_outputs }
    }

    /// Prepares the store for a sample of `sample_size` iterations: afterwards
    /// it holds that many empty slots. What the slots held before is dropped.
    pub fn prepare(&mut self, sample_size: usize)
        ensures
            final(self).is_vacant(sample_size as nat),
            final(self).keeps_outputs == old(self).keeps_outputs,
    {
        self.slots.clear();
        self.inputs.clear();
        if self.keeps_outputs {
            self.slots.reserve(sample_size);
        } else {
            self.inputs.reserve(sample_size);
        }
        let mut i: usize = 0;
        while i < sample_size
            invariant
                i <= sample_size,
                self.is_vacant(i as nat),
                self.keeps_outputs == old(self).keeps_outputs,
            decreases sample_size - i,
        {
            if self.keeps_outputs {
                self.slots.push(DeferSlot { input: None, output: None });
            } else {
                self.inputs.push(None);
            }
            i = i + 1;
        }
    }

    /// The slots of the store: those for inputs and outputs if it keeps
    /// outputs, and else those for inputs alone.
    pub fn slots(&self) -> (slots: Result<&Vec<DeferSlot<I, O>>, &Vec<Option<I>>>)
        ensures
            match slots {
                Ok(slots) => self.keeps_outputs && *slots == self.slots,
                Err(inputs) => !self.keeps_outputs && *inputs == self.inputs,
            },
    {
        if self.keeps_outputs {
            Ok(&self.slots)
        } else {
            Err(&self.inputs)
        }
    }
}

} // verus!
