use crate::scalar::Scalar;
use crate::traits::{FiltFiltKernel, Reset, Retune, SampleProcessor, SteadyState};
use vstd::prelude::*;

verus! {

/// Stateless multiplicative gain: every input is multiplied by `value`.
#[derive(Clone, Copy, Debug, PartialEq, Eq)]
pub struct Gain<T> {
    /// Multiplier applied to every sample.
    pub value: T,
}

impl<T> Gain<T> {
    /// Construct a gain.
    pub fn new(value: T) -> (g: Self)
        ensures
            g.value == value,
    {
        Self { value }
    }
}

impl<T: Scalar> Gain<T> {
    /// Unity gain.
    pub fn unity() -> (g: Self)
        ensures
            g.value == T::spec_one(),
    {
        Self { value: T::one() }
    }
}

impl<T> Reset for Gain<T> {
    open spec fn resets_to(&self, after: Self) -> bool {
        after == *self
    }

    fn reset(&mut self) {
    }
}

impl<T> Retune<T> for Gain<T> {
    open spec fn retunes_to(&self, value: T, after: Self) -> bool {
        after == Gain { value }
    }

    fn retune(&mut self, value: T) {
        self.value = value;
    }
}

impl<T: Scalar> SampleProcessor<T> for Gain<T> {
    type Output = T;

    open spec fn well_formed(&self) -> bool {
        true
    }

    open spec fn steps_to(&self, input: T, after: Self) -> bool {
        after == *self
    }

    open spec fn next_output(&self, input: T) -> T {
        input.spec_times(self.value)
    }

    fn process_sample(&mut self, input: T) -> (out: T) {
        input.times(self.value)
    }
}

impl<T: Scalar> SteadyState<T> for Gain<T> {
    /// A gain holds no state: nothing changes.
    open spec fn steadies_to(&self, input: T, after: Self) -> bool {
        after == *self
    }

    fn reset_to_steady_input(&mut self, _input: T) {
        self.reset();
    }
}

impl<T: Scalar> FiltFiltKernel<T> for Gain<T> {
    /// A memoryless kernel needs no padding.
    open spec fn pad_len_spec(&self) -> int {
        0
    }

    fn filtfilt_pad_len(&self) -> (n: usize) {
        0
    }
}

} // verus!
