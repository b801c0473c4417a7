use crate::scalar::Scalar;
use crate::traits::{FiltFiltKernel, Reset, Retune, SampleProcessor, SteadyState};
use vstd::prelude::*;

verus! {

/// `alpha * x + (1 - alpha) * y`: the exponential-average update.
pub open spec fn smooth<T: Scalar>(alpha: T, x: T, y: T) -> T {
    alpha.spec_times(x).spec_plus(T::spec_one().spec_minus(alpha).spec_times(y))
}

/// Exponential moving average: `y[n] = alpha * x[n] + (1 - alpha) * y[n-1]`.
///
/// `alpha` is in `(0, 1]`; smaller values respond more slowly and
/// `alpha = 1` passes the input through.
#[derive(Clone, Copy, Debug)]
pub struct Ema<T> {
    /// Weight applied to the new input sample.
    pub alpha: T,
    y: T,
}

impl<T> Ema<T> {
    /// The weight (the public `alpha` field).
    pub closed spec fn spec_alpha(&self) -> T {
        self.alpha
    }

    /// The previous output `y[n-1]`.
    pub closed spec fn spec_last_output(&self) -> T {
        self.y
    }
}

impl<T: Scalar> Ema<T> {
    /// Build with zero initial state.
    pub fn new(alpha: T) -> (e: Self)
        ensures
            e.spec_alpha() == alpha,
            e.spec_last_output() == T::spec_zero(),
    {
        Self { alpha, y: T::zero() }
    }

    /// Build with a pre-loaded previous output value.
    pub fn with_state(alpha: T, last_output: T) -> (e: Self)
        ensures
            e.spec_alpha() == alpha,
            e.spec_last_output() == last_output,
    {
        Self { alpha, y: last_output }
    }

    /// Current previous-output state.
    pub fn last_output(&self) -> (y: T)
        ensures
            y == self.spec_last_output(),
    {
        self.y
    }
}

impl<T: Scalar> Reset for Ema<T> {
    open spec fn resets_to(&self, after: Self) -> bool {
        after.spec_alpha() == self.spec_alpha() && after.spec_last_output() == T::spec_zero()
    }

    fn reset(&mut self) {
        self.y = T::zero();
    }
}

impl<T> Retune<T> for Ema<T> {
    /// New weight, same state.
    open spec fn retunes_to(&self, alpha: T, after: Self) -> bool {
        after.spec_alpha() == alpha && after.spec_last_output() == self.spec_last_output()
    }

    fn retune(&mut self, alpha: T) {
        self.alpha = alpha;
    }
}

impl<T: Scalar> SampleProcessor<T> for Ema<T> {
    type Output = T;

    open spec fn well_formed(&self) -> bool {
        true
    }

    open spec fn steps_to(&self, input: T, after: Self) -> bool {
        after.spec_alpha() == self.spec_alpha() && after.spec_last_output() == self.next_output(input)
    }

    open spec fn next_output(&self, input: T) -> T {
        smooth(self.spec_alpha(), input, self.spec_last_output())
    }

    fn process_sample(&mut self, input: T) -> (out: T) {
        let one = T::one();
        self.y = self.alpha.times(input).plus(one.minus(self.alpha).times(self.y));
        self.y
    }
}

impl<T: Scalar> SteadyState<T> for Ema<T> {
    /// The previous output becomes `input`.
    open spec fn steadies_to(&self, input: T, after: Self) -> bool {
        after.spec_alpha() == self.spec_alpha() && after.spec_last_output() == input
    }

    fn reset_to_steady_input(&mut self, input: T) {
        self.y = input;
    }
}

impl<T: Scalar> FiltFiltKernel<T> for Ema<T> {
    open spec fn pad_len_spec(&self) -> int {
        6
    }

    fn filtfilt_pad_len(&self) -> (n: usize) {
        6
    }
}

} // verus!
