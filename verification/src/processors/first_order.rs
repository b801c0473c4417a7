use crate::scalar::Scalar;
use crate::traits::{FiltFiltKernel, Reset, Retune, SampleProcessor, SteadyState};
use vstd::prelude::*;

verus! {

/// Coefficients of a general first-order IIR:
/// `y[n] = b0*x[n] + b1*x[n-1] - a1*y[n-1]` (with `a0 = 1`).
#[derive(Clone, Copy, Debug, PartialEq)]
pub struct FirstOrderCoeffs<T> {
    /// Current-input feed-forward coefficient.
    pub b0: T,
    /// Previous-input feed-forward coefficient.
    pub b1: T,
    /// Previous-output feedback coefficient.
    pub a1: T,
}

impl<T> FirstOrderCoeffs<T> {
    /// Construct from normalised coefficients.
    pub fn new(b0: T, b1: T, a1: T) -> (c: Self)
        ensures
            c == (FirstOrderCoeffs { b0, b1, a1 }),
    {
        Self { b0, b1, a1 }
    }
}

impl<T: Scalar> FirstOrderCoeffs<T> {
    /// Construct from an unnormalised four-tuple `(b0, b1, a0, a1)` by
    /// dividing through by `a0`.
    pub fn from_unnormalised(b0: T, b1: T, a0: T, a1: T) -> (c: Self)
        ensures
            c == (FirstOrderCoeffs { b0: b0.spec_divide(a0), b1: b1.spec_divide(a0), a1: a1.spec_divide(a0) }),
    {
        Self { b0: b0.divide(a0), b1: b1.divide(a0), a1: a1.divide(a0) }
    }

    /// Identity transfer function: `b0 = 1`, `b1 = a1 = 0`.
    pub fn identity() -> (c: Self)
        ensures
            c == (FirstOrderCoeffs { b0: T::spec_one(), b1: T::spec_zero(), a1: T::spec_zero() }),
    {
        Self { b0: T::one(), b1: T::zero(), a1: T::zero() }
    }
}

/// General first-order IIR processor.
#[derive(Clone, Copy, Debug)]
pub struct FirstOrder<T> {
    /// Active coefficient set.
    pub coeffs: FirstOrderCoeffs<T>,
    x1: T,
    y1: T,
}

impl<T> FirstOrder<T> {
    /// The active coefficients (the public `coeffs` field).
    pub closed spec fn spec_coeffs(&self) -> FirstOrderCoeffs<T> {
        self.coeffs
    }

    /// The previous input `x[n-1]`.
    pub closed spec fn last_input(&self) -> T {
        self.x1
    }

    /// The previous output `y[n-1]`.
    pub closed spec fn spec_last_output(&self) -> T {
        self.y1
    }
}

impl<T: Scalar> FirstOrder<T> {
    /// Build with zero initial state.
    pub fn new(coeffs: FirstOrderCoeffs<T>) -> (f: Self)
        ensures
            f.spec_coeffs() == coeffs,
            f.last_input() == T::spec_zero(),
            f.spec_last_output() == T::spec_zero(),
    {
        Self { coeffs, x1: T::zero(), y1: T::zero() }
    }

    /// Build with pre-loaded previous input and output.
    pub fn with_state(coeffs: FirstOrderCoeffs<T>, x1: T, y1: T) -> (f: Self)
        ensures
            f.spec_coeffs() == coeffs,
            f.last_input() == x1,
            f.spec_last_output() == y1,
    {
        Self { coeffs, x1, y1 }
    }
}

impl<T: Scalar> Reset for FirstOrder<T> {
    open spec fn resets_to(&self, after: Self) -> bool {
        &&& after.spec_coeffs() == self.spec_coeffs()
        &&& after.last_input() == T::spec_zero()
        &&& after.spec_last_output() == T::spec_zero()
    }

    fn reset(&mut self) {
        self.x1 = T::zero();
        self.y1 = T::zero();
    }
}

impl<T> Retune<FirstOrderCoeffs<T>> for FirstOrder<T> {
    /// New coefficients, same state.
    open spec fn retunes_to(&self, coeffs: FirstOrderCoeffs<T>, after: Self) -> bool {
        &&& after.spec_coeffs() == coeffs
        &&& after.last_input() == self.last_input()
        &&& after.spec_last_output() == self.spec_last_output()
    }

    fn retune(&mut self, coeffs: FirstOrderCoeffs<T>) {
        self.coeffs = coeffs;
    }
}

impl<T: Scalar> SampleProcessor<T> for FirstOrder<T> {
    type Output = T;

    open spec fn well_formed(&self) -> bool {
        true
    }

    open spec fn steps_to(&self, input: T, after: Self) -> bool {
        &&& after.spec_coeffs() == self.spec_coeffs()
        &&& after.last_input() == input
        &&& after.spec_last_output() == self.next_output(input)
    }

    /// `(b0*x + b1*x[n-1]) - a1*y[n-1]`.
    open spec fn next_output(&self, input: T) -> T {
        let c = self.spec_coeffs();
        c.b0.spec_times(input).spec_plus(c.b1.spec_times(self.last_input())).spec_minus(c.a1.spec_times(self.spec_last_output()))
    }

    fn process_sample(&mut self, input: T) -> (out: T) {
        let y = self.coeffs.b0.times(input).plus(self.coeffs.b1.times(self.x1)).minus(self.coeffs.a1.times(self.y1));
        self.x1 = input;
        self.y1 = y;
        y
    }
}

impl<T: Scalar> SteadyState<T> for FirstOrder<T> {
    /// The previous input becomes `input` and the previous output
    /// `((b0 + b1) * input) / (1 + a1)`.
    open spec fn steadies_to(&self, input: T, after: Self) -> bool {
        let c = self.spec_coeffs();
        &&& after.spec_coeffs() == c
        &&& after.last_input() == input
        &&& after.spec_last_output() == c.b0.spec_plus(c.b1).spec_times(input).spec_divide(T::spec_one().spec_plus(c.a1))
    }

    fn reset_to_steady_input(&mut self, input: T) {
        let one = T::one();
        let steady = self.coeffs.b0.plus(self.coeffs.b1).times(input).divide(one.plus(self.coeffs.a1));
        self.x1 = input;
        self.y1 = steady;
    }
}

impl<T: Scalar> FiltFiltKernel<T> for FirstOrder<T> {
    open spec fn pad_len_spec(&self) -> int {
        6
    }

    fn filtfilt_pad_len(&self) -> (n: usize) {
        6
    }
}

} // verus!
