use crate::scalar::Scalar;
use crate::traits::{Reset, SampleProcessor};
use vstd::prelude::*;

verus! {

/// Wet/dry mixer: `(1 - wet) * dry + wet * processed`. `wet` is not
/// clamped.
#[derive(Clone, Copy, Debug)]
pub struct WetDry<F, T> {
    /// Inner processor.
    pub inner: F,
    /// Wet mix coefficient.
    pub wet: T,
}

impl<F, T> WetDry<F, T> {
    /// Build with the given wet mix.
    pub fn new(inner: F, wet: T) -> (w: Self)
        ensures
            w.inner == inner,
            w.wet == wet,
    {
        Self { inner, wet }
    }
}

impl<F: Reset, T> Reset for WetDry<F, T> {
    open spec fn resets_to(&self, after: Self) -> bool {
        self.inner.resets_to(after.inner) && after.wet == self.wet
    }

    fn reset(&mut self) {
        self.inner.reset();
    }
}

impl<T: Scalar, F: SampleProcessor<T, Output = T>> SampleProcessor<T> for WetDry<F, T> {
    type Output = T;

    open spec fn well_formed(&self) -> bool {
        self.inner.well_formed()
    }

    open spec fn steps_to(&self, input: T, after: Self) -> bool {
        self.inner.steps_to(input, after.inner) && after.wet == self.wet
    }

    /// `(1 - wet) * input + wet * inner_output`.
    open spec fn next_output(&self, input: T) -> T {
        T::spec_one().spec_minus(self.wet).spec_times(input).spec_plus(self.wet.spec_times(self.inner.next_output(input)))
    }

    fn process_sample(&mut self, input: T) -> (out: T) {
        let processed = self.inner.process_sample(input);
        let one = T::one();
        one.minus(self.wet).times(input).plus(self.wet.times(processed))
    }
}

} // verus!
