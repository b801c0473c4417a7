use crate::traits::{Reset, SampleProcessor};
use vstd::prelude::*;

verus! {

/// Inspect each output sample without altering it: the inspector is called
/// with a reference to every output (it must accept every output).
pub struct Tap<F, Fun> {
    /// Inner processor.
    pub inner: F,
    /// Inspector function.
    pub func: Fun,
}

impl<F, Fun> Tap<F, Fun> {
    /// Build a tap.
    pub fn new(inner: F, func: Fun) -> (t: Self)
        ensures
            t.inner == inner,
            t.func == func,
    {
        Self { inner, func }
    }
}

impl<F: Reset, Fun> Reset for Tap<F, Fun> {
    open spec fn resets_to(&self, after: Self) -> bool {
        self.inner.resets_to(after.inner) && after.func == self.func
    }

    fn reset(&mut self) {
        self.inner.reset();
    }
}

impl<I, F: SampleProcessor<I>, Fun: Fn(&F::Output)> SampleProcessor<I> for Tap<F, Fun> {
    type Output = F::Output;

    open spec fn well_formed(&self) -> bool {
        self.inner.well_formed() && forall|y: F::Output| call_requires(self.func, (&y,))
    }

    open spec fn steps_to(&self, input: I, after: Self) -> bool {
        self.inner.steps_to(input, after.inner) && after.func == self.func
    }

    /// The inner output, unchanged.
    open spec fn next_output(&self, input: I) -> F::Output {
        self.inner.next_output(input)
    }

    /// The inspector is called with the output.
    fn process_sample(&mut self, input: I) -> (out: F::Output)
        ensures
            call_ensures(old(self).func, (&out,), ()),
    {
        let y = self.inner.process_sample(input);
        (self.func)(&y);
        y
    }
}

} // verus!
