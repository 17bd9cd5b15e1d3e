//! Counters that take their counts from the generated inputs.

use vstd::prelude::*;

use crate::counter::KnownCounterKind;

verus! {

/// The functions that count what is in an input, at most one for each kind
/// of counter.
pub trait CountInput<I>: Sized {
    /// Whether every function accepts every input.
    spec fn callable(&self) -> bool;

    /// Whether there is a function for `kind`.
    spec fn counts(&self, kind: KnownCounterKind) -> bool;

    /// Whether `count` is what the function for `kind` has found in `input`
    /// when it was asked.
    spec fn found(&self, kind: KnownCounterKind, input: &I, count: u64) -> bool;

    /// The count of `kind` that `input` has, if there is a function for that
    /// kind.
    fn count_input(&mut self, kind: KnownCounterKind, input: &I) -> (count: Option<u64>)
        requires
            old(self).callable(),
        ensures
            *final(self) == *old(self),
            count is Some <==> old(self).counts(kind),
            count matches Some(found) ==> old(self).found(kind, input, found),
    ;
}

/// No function for any kind.
pub struct NoInputCounter;

/// A function for one kind, in front of those that were there before it.
pub struct InputCounter<F, Rest> {
    /// The kind that is counted.
    pub kind: KnownCounterKind,
    /// The function that counts it.
    pub make_counter: F,
    /// The functions for the other kinds.
    pub rest: Rest,
}

impl<I> CountInput<I> for NoInputCounter {
    open spec fn callable(&self) -> bool {
        true
    }

    open spec fn counts(&self, kind: KnownCounterKind) -> bool {
        false
    }

    open spec fn found(&self, kind: KnownCounterKind, input: &I, count: u64) -> bool {
        false
    }

    fn count_input(&mut self, kind: KnownCounterKind, input: &I) -> (count: Option<u64>) {
        None
    }
}

impl<I, F: FnMut(&I) -> u64, Rest: CountInput<I>> CountInput<I> for InputCounter<F, Rest> {
    open spec fn callable(&self) -> bool {
        &&& forall|input: &I| call_requires(self.make_counter, (input,))
        &&& self.rest.callable()
    }

    open spec fn counts(&self, kind: KnownCounterKind) -> bool {
        kind == self.kind || self.rest.counts(kind)
    }

    open spec fn found(&self, kind: KnownCounterKind, input: &I, count: u64) -> bool {
        if kind == self.kind {
            call_ensures(self.make_counter, (input,), count)
        } else {
            self.rest.found(kind, input, count)
        }
    }

    fn count_input(&mut self, kind: KnownCounterKind, input: &I) -> (count: Option<u64>) {
        if kind == self.kind {
            Some((self.make_counter)(input))
        } else {
            self.rest.count_input(kind, input)
        }
    }
}

} // verus!
