use crate::coeffs::BiquadCoeffs;
use crate::scalar::Scalar;
use crate::traits::{FiltFiltKernel, Reset, Retune, SampleProcessor, SteadyState};
use vstd::prelude::*;

verus! {

/// Direct-form-II transposed state for one biquad (two state values).
#[derive(Clone, Copy, Debug, Default)]
pub struct BiquadState<T> {
    /// `s1` from the DF2T diagram.
    pub s1: T,
    /// `s2` from the DF2T diagram.
    pub s2: T,
}

impl<T: Scalar> BiquadState<T> {
    /// The zero state.
    pub open spec fn spec_zero() -> Self {
        BiquadState { s1: T::spec_zero(), s2: T::spec_zero() }
    }

    /// Zeroed state.
    pub fn zero() -> (s: Self)
        ensures
            s == Self::spec_zero(),
    {
        Self { s1: T::zero(), s2: T::zero() }
    }
}

/// One DF2T biquad step on input `x`: the output
/// `y = b0*x + s1` and the next state `s1' = (b1*x - a1*y) + s2`,
/// `s2' = b2*x - a2*y`.
pub open spec fn biquad_step<T: Scalar>(c: BiquadCoeffs<T>, s: BiquadState<T>, x: T) -> (BiquadState<T>, T) {
    let y = c.b0.spec_times(x).spec_plus(s.s1);
    (
        BiquadState {
            s1: c.b1.spec_times(x).spec_minus(c.a1.spec_times(y)).spec_plus(s.s2),
            s2: c.b2.spec_times(x).spec_minus(c.a2.spec_times(y)),
        },
        y,
    )
}

/// The state one biquad settles in under the constant input `x`:
/// `steady = ((b0 + b1 + b2) * x) / (1 + a1 + a2)`, `s1 = steady - b0*x`,
/// `s2 = b2*x - a2*steady`. Also gives `steady`, its output.
pub open spec fn biquad_steady<T: Scalar>(c: BiquadCoeffs<T>, x: T) -> (BiquadState<T>, T) {
    let numerator = c.b0.spec_plus(c.b1).spec_plus(c.b2);
    let denominator = T::spec_one().spec_plus(c.a1).spec_plus(c.a2);
    let steady = numerator.spec_times(x).spec_divide(denominator);
    (
        BiquadState { s1: steady.spec_minus(c.b0.spec_times(x)), s2: c.b2.spec_times(x).spec_minus(c.a2.spec_times(steady)) },
        steady,
    )
}

/// Compute one DF2T step.
pub(crate) fn step_section<T: Scalar>(c: &BiquadCoeffs<T>, s: &mut BiquadState<T>, x: T) -> (y: T)
    ensures
        (*final(s), y) == biquad_step(*c, *old(s), x),
{
    let y = c.b0.times(x).plus(s.s1);
    let s1_next = c.b1.times(x).minus(c.a1.times(y)).plus(s.s2);
    let s2_next = c.b2.times(x).minus(c.a2.times(y));
    s.s1 = s1_next;
    s.s2 = s2_next;
    y
}

/// Compute the steady state of one section under constant input `x`.
pub(crate) fn steady_section<T: Scalar>(c: &BiquadCoeffs<T>, x: T) -> (r: (BiquadState<T>, T))
    ensures
        r == biquad_steady(*c, x),
{
    let one = T::one();
    let numerator = c.b0.plus(c.b1).plus(c.b2);
    let denominator = one.plus(c.a1).plus(c.a2);
    let steady = numerator.times(x).divide(denominator);
    (BiquadState { s1: steady.minus(c.b0.times(x)), s2: c.b2.times(x).minus(c.a2.times(steady)) }, steady)
}

/// Single biquad (second-order section) running in direct-form-II
/// transposed.
#[derive(Clone, Copy, Debug)]
pub struct Biquad<T> {
    /// Active coefficient set.
    pub coeffs: BiquadCoeffs<T>,
    state: BiquadState<T>,
}

impl<T> Biquad<T> {
    /// The active coefficients (the public `coeffs` field).
    pub closed spec fn spec_coeffs(&self) -> BiquadCoeffs<T> {
        self.coeffs
    }

    /// The DF2T state.
    pub closed spec fn state(&self) -> BiquadState<T> {
        self.state
    }
}

impl<T: Scalar> Biquad<T> {
    /// Build a biquad from coefficients with zeroed state.
    pub fn new(coeffs: BiquadCoeffs<T>) -> (b: Self)
        ensures
            b.spec_coeffs() == coeffs,
            b.state() == BiquadState::<T>::spec_zero(),
    {
        Self { coeffs, state: BiquadState::zero() }
    }
}

impl<T: Scalar> Reset for Biquad<T> {
    open spec fn resets_to(&self, after: Self) -> bool {
        after.spec_coeffs() == self.spec_coeffs() && after.state() == BiquadState::<T>::spec_zero()
    }

    fn reset(&mut self) {
        self.state = BiquadState::zero();
    }
}

impl<T> Retune<BiquadCoeffs<T>> for Biquad<T> {
    /// New coefficients, same state.
    open spec fn retunes_to(&self, coeffs: BiquadCoeffs<T>, after: Self) -> bool {
        after.spec_coeffs() == coeffs && after.state() == self.state()
    }

    fn retune(&mut self, coeffs: BiquadCoeffs<T>) {
        self.coeffs = coeffs;
    }
}

impl<T: Scalar> SampleProcessor<T> for Biquad<T> {
    type Output = T;

    open spec fn well_formed(&self) -> bool {
        true
    }

    /// Coefficients stay; the state takes one DF2T step.
    open spec fn steps_to(&self, input: T, after: Self) -> bool {
        after.spec_coeffs() == self.spec_coeffs() && after.state() == biquad_step(self.spec_coeffs(), self.state(), input).0
    }

    open spec fn next_output(&self, input: T) -> T {
        biquad_step(self.spec_coeffs(), self.state(), input).1
    }

    fn process_sample(&mut self, input: T) -> (out: T) {
        step_section(&self.coeffs, &mut self.state, input)
    }
}

impl<T: Scalar> SteadyState<T> for Biquad<T> {
    /// The state becomes the steady state for `input`.
    open spec fn steadies_to(&self, input: T, after: Self) -> bool {
        after.spec_coeffs() == self.spec_coeffs() && after.state() == biquad_steady(self.spec_coeffs(), input).0
    }

    fn reset_to_steady_input(&mut self, input: T) {
        let r = steady_section(&self.coeffs, input);
        self.state = r.0;
    }
}

impl<T: Scalar> FiltFiltKernel<T> for Biquad<T> {
    open spec fn pad_len_spec(&self) -> int {
        9
    }

    fn filtfilt_pad_len(&self) -> (n: usize) {
        9
    }
}

} // verus!
