use crate::traits::{Reset, SampleProcessor};
use vstd::prelude::*;

verus! {

/// Series composition: the output of `a` is fed as input to `b`.
#[derive(Clone, Copy, Debug)]
pub struct Chain<A, B> {
    /// First processor in the chain.
    pub a: A,
    /// Second processor.
    pub b: B,
}

impl<A, B> Chain<A, B> {
    /// Build a chain.
    pub fn new(a: A, b: B) -> (c: Self)
        ensures
            c.a == a,
            c.b == b,
    {
        Self { a, b }
    }
}

impl<A: Reset, B: Reset> Reset for Chain<A, B> {
    open spec fn resets_to(&self, after: Self) -> bool {
        self.a.resets_to(after.a) && self.b.resets_to(after.b)
    }

    fn reset(&mut self) {
        self.a.reset();
        self.b.reset();
    }
}

impl<I, A: SampleProcessor<I>, B: SampleProcessor<A::Output>> SampleProcessor<I> for Chain<A, B> {
    type Output = B::Output;

    open spec fn well_formed(&self) -> bool {
        self.a.well_formed() && self.b.well_formed()
    }

    open spec fn steps_to(&self, input: I, after: Self) -> bool {
        &&& self.a.steps_to(input, after.a)
        &&& self.b.steps_to(self.a.next_output(input), after.b)
    }

    open spec fn next_output(&self, input: I) -> B::Output {
        self.b.next_output(self.a.next_output(input))
    }

    fn process_sample(&mut self, input: I) -> (out: B::Output) {
        let mid = self.a.process_sample(input);
        self.b.process_sample(mid)
    }
}

} // verus!
