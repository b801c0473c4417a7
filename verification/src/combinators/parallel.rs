use crate::traits::{Reset, SampleProcessor};
use vstd::prelude::*;

verus! {

/// Parallel composition that emits both processors' outputs as a pair.
#[derive(Clone, Copy, Debug)]
pub struct Parallel<A, B> {
    /// Upper branch.
    pub a: A,
    /// Lower branch.
    pub b: B,
}

impl<A, B> Parallel<A, B> {
    /// Build a parallel pair.
    pub fn new(a: A, b: B) -> (p: Self)
        ensures
            p.a == a,
            p.b == b,
    {
        Self { a, b }
    }
}

impl<A: Reset, B: Reset> Reset for Parallel<A, B> {
    open spec fn resets_to(&self, after: Self) -> bool {
        self.a.resets_to(after.a) && self.b.resets_to(after.b)
    }

    fn reset(&mut self) {
        self.a.reset();
        self.b.reset();
    }
}

impl<I: Copy, A: SampleProcessor<I>, B: SampleProcessor<I>> SampleProcessor<I> for Parallel<A, B> {
    type Output = (A::Output, B::Output);

    open spec fn well_formed(&self) -> bool {
        self.a.well_formed() && self.b.well_formed()
    }

    /// Both branches step on the same input.
    open spec fn steps_to(&self, input: I, after: Self) -> bool {
        self.a.steps_to(input, after.a) && self.b.steps_to(input, after.b)
    }

    open spec fn next_output(&self, input: I) -> (A::Output, B::Output) {
        (self.a.next_output(input), self.b.next_output(input))
    }

    fn process_sample(&mut self, input: I) -> (out: (A::Output, B::Output)) {
        let oa = self.a.process_sample(input);
        let ob = self.b.process_sample(input);
        (oa, ob)
    }
}

} // verus!
