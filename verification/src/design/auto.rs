use super::errors::{BiquadDesignError, ExponentialAverageError};
use crate::processors::{Biquad, OnePole};
use crate::scalar::Scalar;
use crate::traits::{Reset, SampleProcessor};
use vstd::prelude::*;

verus! {

/// Error from building a [`Lowpass`].
#[derive(Clone, Copy, Debug, PartialEq, Eq, Structural)]
pub enum LowpassBuildError {
    /// `order = 0` or higher than the prototype supports.
    UnsupportedOrder { requested: usize },
    /// Upstream EMA designer rejected the parameters.
    ExponentialAverage(ExponentialAverageError),
    /// Upstream biquad designer rejected the parameters.
    Biquad(BiquadDesignError),
    /// The numeric type couldn't represent the designed coefficient.
    NumericConversion,
}

impl From<ExponentialAverageError> for LowpassBuildError {
    fn from(e: ExponentialAverageError) -> (r: Self) {
        Self::ExponentialAverage(e)
    }
}

impl vstd::std_specs::convert::FromSpecImpl<ExponentialAverageError> for LowpassBuildError {
    open spec fn obeys_from_spec() -> bool {
        true
    }

    open spec fn from_spec(e: ExponentialAverageError) -> Self {
        LowpassBuildError::ExponentialAverage(e)
    }
}

impl From<BiquadDesignError> for LowpassBuildError {
    fn from(e: BiquadDesignError) -> (r: Self) {
        Self::Biquad(e)
    }
}

impl vstd::std_specs::convert::FromSpecImpl<BiquadDesignError> for LowpassBuildError {
    open spec fn obeys_from_spec() -> bool {
        true
    }

    open spec fn from_spec(e: BiquadDesignError) -> Self {
        LowpassBuildError::Biquad(e)
    }
}

/// The kernel a lowpass of a given order is built on.
#[derive(Clone, Copy, Debug, PartialEq, Eq, Structural)]
pub enum LowpassKernel {
    /// First order: a one-pole filter.
    OnePole,
    /// Second order: a biquad.
    Biquad,
}

/// Pick the kernel for a lowpass of order `order`: `1` is a one-pole, `2` a
/// biquad, anything else unsupported.
pub fn lowpass_kernel(order: usize) -> (r: Result<LowpassKernel, LowpassBuildError>)
    ensures
        order == 1 ==> r == Ok::<LowpassKernel, LowpassBuildError>(LowpassKernel::OnePole),
        order == 2 ==> r == Ok::<LowpassKernel, LowpassBuildError>(LowpassKernel::Biquad),
        order != 1 && order != 2 ==> r == Err::<LowpassKernel, LowpassBuildError>(LowpassBuildError::UnsupportedOrder { requested: order }),
{
    match order {
        1 => Ok(LowpassKernel::OnePole),
        2 => Ok(LowpassKernel::Biquad),
        n => Err(LowpassBuildError::UnsupportedOrder { requested: n }),
    }
}

/// Kernel-erased lowpass processor: a [`OnePole`] for order 1 or a
/// [`Biquad`] for order 2, dispatched by `match`.
#[derive(Clone, Copy, Debug)]
pub enum Lowpass<T> {
    /// 1st-order kernel.
    OnePole(OnePole<T>),
    /// 2nd-order kernel.
    Biquad(Biquad<T>),
}

impl<T: Scalar> Reset for Lowpass<T> {
    /// The kernel stays and is reset.
    open spec fn resets_to(&self, after: Self) -> bool {
        match (self, after) {
            (Lowpass::OnePole(p), Lowpass::OnePole(q)) => p.resets_to(q),
            (Lowpass::Biquad(p), Lowpass::Biquad(q)) => p.resets_to(q),
            _ => false,
        }
    }

    fn reset(&mut self) {
        match self {
            Lowpass::OnePole(p) => p.reset(),
            Lowpass::Biquad(p) => p.reset(),
        }
    }
}

impl<T: Scalar> SampleProcessor<T> for Lowpass<T> {
    type Output = T;

    open spec fn well_formed(&self) -> bool {
        true
    }

    /// The kernel stays and takes its own step.
    open spec fn steps_to(&self, input: T, after: Self) -> bool {
        match (self, after) {
            (Lowpass::OnePole(p), Lowpass::OnePole(q)) => p.steps_to(input, q),
            (Lowpass::Biquad(p), Lowpass::Biquad(q)) => p.steps_to(input, q),
            _ => false,
        }
    }

    /// The kernel's output.
    open spec fn next_output(&self, input: T) -> T {
        match self {
            Lowpass::OnePole(p) => p.next_output(input),
            Lowpass::Biquad(p) => p.next_output(input),
        }
    }

    fn process_sample(&mut self, input: T) -> (out: T) {
        match self {
            Lowpass::OnePole(p) => p.process_sample(input),
            Lowpass::Biquad(p) => p.process_sample(input),
        }
    }

    /// Dispatches once and runs the kernel's own block loop.
    fn process_into(&mut self, input: &[T], output: &mut [T]) {
        let ghost n = input@.len();
        match self {
            Lowpass::OnePole(p) => {
                let ghost p0 = *p;
                p.process_into(input, output);
                proof {
                    let st = choose|states: Seq<OnePole<T>>|
                        {
                            &&& states.len() == n + 1
                            &&& states[0] == p0
                            &&& states[n as int] == *p
                            &&& forall|i: int|
                                0 <= i < n ==> {
                                    &&& states[i].steps_to(input@[i], #[trigger] states[i + 1])
                                    &&& output@[i] == states[i].next_output(input@[i])
                                }
                        };
                    let ls = Seq::new(st.len(), |i: int| Lowpass::OnePole(st[i]));
                    assert forall|i: int| 0 <= i < n implies {
                        &&& ls[i].steps_to(input@[i], #[trigger] ls[i + 1])
                        &&& output@[i] == ls[i].next_output(input@[i])
                    } by {
                        assert(st[i].steps_to(input@[i], st[i + 1]));
                    }
                    assert(ls[n as int] == Lowpass::OnePole(*p));
                    assert(ls[0] == *old(self));
                    assert(ls.len() == n + 1);
                }
            },
            Lowpass::Biquad(p) => {
                let ghost p0 = *p;
                p.process_into(input, output);
                proof {
                    let st = choose|states: Seq<Biquad<T>>|
                        {
                            &&& states.len() == n + 1
                            &&& states[0] == p0
                            &&& states[n as int] == *p
                            &&& forall|i: int|
                                0 <= i < n ==> {
                                    &&& states[i].steps_to(input@[i], #[trigger] states[i + 1])
                                    &&& output@[i] == states[i].next_output(input@[i])
                                }
                        };
                    let ls = Seq::new(st.len(), |i: int| Lowpass::Biquad(st[i]));
                    assert forall|i: int| 0 <= i < n implies {
                        &&& ls[i].steps_to(input@[i], #[trigger] ls[i + 1])
                        &&& output@[i] == ls[i].next_output(input@[i])
                    } by {
                        assert(st[i].steps_to(input@[i], st[i + 1]));
                    }
                    assert(ls[n as int] == Lowpass::Biquad(*p));
                    assert(ls[0] == *old(self));
                    assert(ls.len() == n + 1);
                }
            },
        }
    }
}

} // verus!
