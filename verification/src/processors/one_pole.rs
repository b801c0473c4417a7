use super::ema::smooth;
use crate::scalar::Scalar;
use crate::traits::{Reset, Retune, SampleProcessor};
use vstd::prelude::*;

verus! {

/// One-pole IIR: `y[n] = alpha * x[n] + (1 - alpha) * y[n-1]`.
///
/// `alpha` is the weight on the *new* input (the response-domain alpha):
/// bigger `alpha` means less smoothing, `alpha = 1` passes the input
/// through.
#[derive(Clone, Copy, Debug)]
pub struct OnePole<T> {
    /// Mix factor applied to the new input.
    pub alpha: T,
    y: T,
}

impl<T> OnePole<T> {
    /// The mix factor (the public `alpha` field).
    pub closed spec fn spec_alpha(&self) -> T {
        self.alpha
    }

    /// The previous output `y[n-1]`.
    pub closed spec fn spec_last_output(&self) -> T {
        self.y
    }
}

impl<T: Scalar> OnePole<T> {
    /// Build a one-pole filter with zero initial state.
    pub fn new(alpha: T) -> (p: Self)
        ensures
            p.spec_alpha() == alpha,
            p.spec_last_output() == T::spec_zero(),
    {
        Self { alpha, y: T::zero() }
    }

    /// Build with a pre-loaded last-output value, for stitching blocks.
    pub fn with_state(alpha: T, last_output: T) -> (p: Self)
        ensures
            p.spec_alpha() == alpha,
            p.spec_last_output() == last_output,
    {
        Self { alpha, y: last_output }
    }

    /// Current output (the `y[n-1]` that the next call will see).
    pub fn last_output(&self) -> (y: T)
        ensures
            y == self.spec_last_output(),
    {
        self.y
    }
}

impl<T: Scalar> Reset for OnePole<T> {
    open spec fn resets_to(&self, after: Self) -> bool {
        after.spec_alpha() == self.spec_alpha() && after.spec_last_output() == T::spec_zero()
    }

    fn reset(&mut self) {
        self.y = T::zero();
    }
}

impl<T> Retune<T> for OnePole<T> {
    /// Replace `alpha` without disturbing state.
    open spec fn retunes_to(&self, alpha: T, after: Self) -> bool {
        after.spec_alpha() == alpha && after.spec_last_output() == self.spec_last_output()
    }

    fn retune(&mut self, alpha: T) {
        self.alpha = alpha;
    }
}

impl<T: Scalar> SampleProcessor<T> for OnePole<T> {
    type Output = T;

    open spec fn well_formed(&self) -> bool {
        true
    }

    open spec fn steps_to(&self, input: T, after: Self) -> bool {
        after.spec_alpha() == self.spec_alpha() && after.spec_last_output() == self.next_output(input)
    }

    open spec fn next_output(&self, input: T) -> T {
        smooth(self.spec_alpha(), input, self.spec_last_output())
    }

    fn process_sample(&mut self, input: T) -> (out: T) {
        let one = T::one();
        self.y = self.alpha.times(input).plus(one.minus(self.alpha).times(self.y));
        self.y
    }
}

} // verus!
