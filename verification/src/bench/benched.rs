//! How a benchmarked function takes the input that was generated for it.

use vstd::prelude::*;

verus! {

/// A benchmarked function, called on inputs that wait in the slots of a
/// [`DeferStore`](super::DeferStore).
pub trait Benched<I, O>: Sized {
    /// Whether the function accepts every input.
    spec fn callable(&self) -> bool;

    /// Whether `output` is what the function has returned when it was run
    /// on `input`.
    spec fn returned(&self, input: I, output: O) -> bool;

    /// Whether the function takes its input out of the slot (or else only
    /// borrows it).
    spec fn takes_input(&self) -> bool;

    /// Runs the function once, on the input in `slot`.
    fn run(&mut self, slot: &mut Option<I>) -> (output: O)
        requires
            old(self).callable(),
            *old(slot) is Some,
        ensures
            *final(self) == *old(self),
            old(self).returned(old(slot)->0, output),
            *final(slot) is None <==> old(self).takes_input(),
    ;

    /// Drops the input that an earlier run has left in `slot`, if any.
    fn drop_input(&self, slot: &mut Option<I>)
        ensures
            *final(slot) is None,
    ;
}

/// A benchmarked function that takes each of its inputs by value.
pub struct ByValue<B> {
    pub benched: B,
}

/// A benchmarked function that borrows each of its inputs.
pub struct ByRef<B> {
    pub benched: B,
}

/// A benchmarked function without inputs.
pub struct NoInput<B> {
    pub benched: B,
}

impl<I, O, B: FnMut(I) -> O> Benched<I, O> for ByValue<B> {
    open spec fn callable(&self) -> bool {
        forall|input: I| call_requires(self.benched, (input,))
    }

    open spec fn returned(&self, input: I, output: O) -> bool {
        call_ensures(self.benched, (input,), output)
    }

    open spec fn takes_input(&self) -> bool {
        true
    }

    fn run(&mut self, slot: &mut Option<I>) -> (output: O) {
        let input = slot.take().unwrap();
        (self.benched)(input)
    }

    // The benchmarked function has taken the input.
    fn drop_input(&self, slot: &mut Option<I>) {
        *slot = None;
    }
}

impl<I, O, B: FnMut(&mut I) -> O> Benched<I, O> for ByRef<B> {
    open spec fn callable(&self) -> bool {
        forall|input: &mut I| call_requires(self.benched, (input,))
    }

    open spec fn returned(&self, input: I, output: O) -> bool {
        exists|borrowed: &mut I|
            *borrowed == input && #[trigger] call_ensures(self.benched, (borrowed,), output)
    }

    open spec fn takes_input(&self) -> bool {
        false
    }

    fn run(&mut self, slot: &mut Option<I>) -> (output: O) {
        match slot {
            Some(input) => (self.benched)(input),
            None => vstd::pervasive::unreached(),
        }
    }

    // The input is still there, and its turn to be dropped has come.
    fn drop_input(&self, slot: &mut Option<I>) {
        *slot = None;
    }
}

impl<O, B: FnMut() -> O> Benched<(), O> for NoInput<B> {
    open spec fn callable(&self) -> bool {
        forall|input: ()| call_requires(self.benched, input)
    }

    open spec fn returned(&self, input: (), output: O) -> bool {
        call_ensures(self.benched, (), output)
    }

    open spec fn takes_input(&self) -> bool {
        true
    }

    fn run(&mut self, slot: &mut Option<()>) -> (output: O) {
        *slot = None;
        (self.benched)()
    }

    fn drop_input(&self, slot: &mut Option<()>) {
        *slot = None;
    }
}

} // verus!
