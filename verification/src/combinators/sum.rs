use crate::scalar::Scalar;
use crate::traits::{Reset, SampleProcessor};
use vstd::prelude::*;

verus! {

/// Parallel processors whose outputs are added.
#[derive(Clone, Copy, Debug)]
pub struct Sum<A, B> {
    /// Upper branch.
    pub a: A,
    /// Lower branch.
    pub b: B,
}

impl<A, B> Sum<A, B> {
    /// Build a sum.
    pub fn new(a: A, b: B) -> (s: Self)
        ensures
            s.a == a,
            s.b == b,
    {
        Self { a, b }
    }
}

impl<A: Reset, B: Reset> Reset for Sum<A, B> {
    open spec fn resets_to(&self, after: Self) -> bool {
        self.a.resets_to(after.a) && self.b.resets_to(after.b)
    }

    fn reset(&mut self) {
        self.a.reset();
        self.b.reset();
    }
}

impl<I: Copy, O: Scalar, A: SampleProcessor<I, Output = O>, B: SampleProcessor<I, Output = O>> SampleProcessor<I> for Sum<A, B> {
    type Output = O;

    open spec fn well_formed(&self) -> bool {
        self.a.well_formed() && self.b.well_formed()
    }

    /// Both branches step on the same input.
    open spec fn steps_to(&self, input: I, after: Self) -> bool {
        self.a.steps_to(input, after.a) && self.b.steps_to(input, after.b)
    }

    /// `a`'s output plus `b`'s output.
    open spec fn next_output(&self, input: I) -> O {
        self.a.next_output(input).spec_plus(self.b.next_output(input))
    }

    fn process_sample(&mut self, input: I) -> (out: O) {
        let oa = self.a.process_sample(input);
        let ob = self.b.process_sample(input);
        oa.plus(ob)
    }
}

} // verus!
