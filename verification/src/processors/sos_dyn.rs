use super::biquad::{step_section, BiquadState};
use super::sos::cascade_step;
use crate::coeffs::BiquadCoeffs;
use crate::scalar::Scalar;
use crate::traits::{Prepare, ProcessSpec, Reset, Retune, SampleProcessor};
use vstd::prelude::*;

verus! {

/// Heap-backed SOS cascade of arbitrary length: the algorithm of
/// [`crate::processors::SosCascade`] with a section count known only at run
/// time.
#[derive(Clone, Debug)]
pub struct SosDyn<T> {
    /// Active sections.
    pub sections: Vec<BiquadCoeffs<T>>,
    states: Vec<BiquadState<T>>,
}

/// Error returned by [`SosDyn::prepare`] when the spec is unworkable.
#[derive(Clone, Copy, Debug, PartialEq, Eq, Structural)]
pub struct SosDynPrepareError;

/// `n` zero states.
fn zero_states<T: Scalar>(n: usize) -> (r: Vec<BiquadState<T>>)
    ensures
        r@ == Seq::new(n as nat, |_k: int| BiquadState::<T>::spec_zero()),
{
    crate::adaptive::filled(BiquadState::zero(), n)
}

impl<T> SosDyn<T> {
    /// The sections (the public `sections` field).
    pub closed spec fn spec_sections(&self) -> Seq<BiquadCoeffs<T>> {
        self.sections@
    }

    /// The sections' DF2T states, in cascade order.
    pub closed spec fn states(&self) -> Seq<BiquadState<T>> {
        self.states@
    }

    /// One state per section.
    pub open spec fn inv(&self) -> bool {
        self.states().len() == self.spec_sections().len()
    }
}

impl<T: Scalar> SosDyn<T> {
    /// Build from a slice of biquad sections, with zeroed states.
    pub fn new(sections: &[BiquadCoeffs<T>]) -> (s: Self)
        ensures
            s.spec_sections() == sections@,
            s.states() == Seq::new(sections@.len(), |_k: int| BiquadState::<T>::spec_zero()),
    {
        Self { sections: vstd::slice::slice_to_vec(sections), states: zero_states(sections.len()) }
    }

    /// Number of sections.
    pub fn len(&self) -> (n: usize)
        ensures
            n == self.spec_sections().len(),
    {
        self.sections.len()
    }

    /// `true` when no sections are configured.
    pub fn is_empty(&self) -> (e: bool)
        ensures
            e == (self.spec_sections().len() == 0),
    {
        self.sections.len() == 0
    }

    /// Zero every section state.
    fn clear(&mut self)
        ensures
            final(self).spec_sections() == old(self).spec_sections(),
            final(self).states() == Seq::new(old(self).states().len(), |_k: int| BiquadState::<T>::spec_zero()),
    {
        let n = self.states.len();
        self.states = zero_states(n);
    }
}

impl<T: Scalar, S> Prepare<S> for SosDyn<T> {
    type Error = SosDynPrepareError;

    /// Always succeeds; zeroes the section states.
    open spec fn prepares_to(&self, spec: ProcessSpec<S>, after: Self, result: Result<(), SosDynPrepareError>) -> bool {
        &&& result == Ok::<(), SosDynPrepareError>(())
        &&& after.spec_sections() == self.spec_sections()
        &&& after.states() == Seq::new(self.states().len(), |_k: int| BiquadState::<T>::spec_zero())
    }

    fn prepare(&mut self, spec: ProcessSpec<S>) -> (r: Result<(), SosDynPrepareError>) {
        self.clear();
        Ok(())
    }
}

impl<T: Scalar> Reset for SosDyn<T> {
    open spec fn resets_to(&self, after: Self) -> bool {
        &&& after.spec_sections() == self.spec_sections()
        &&& after.states() == Seq::new(self.states().len(), |_k: int| BiquadState::<T>::spec_zero())
    }

    fn reset(&mut self) {
        self.clear();
    }
}

impl<T: Scalar> Retune<Vec<BiquadCoeffs<T>>> for SosDyn<T> {
    /// Replace the sections and always zero the states.
    open spec fn retunes_to(&self, coeffs: Vec<BiquadCoeffs<T>>, after: Self) -> bool {
        &&& after.spec_sections() == coeffs@
        &&& after.states() == Seq::new(coeffs@.len(), |_k: int| BiquadState::<T>::spec_zero())
    }

    fn retune(&mut self, coeffs: Vec<BiquadCoeffs<T>>) {
        let new_len = coeffs.len();
        self.sections = coeffs;
        self.states = zero_states(new_len);
    }
}

impl<T: Scalar> SampleProcessor<T> for SosDyn<T> {
    type Output = T;

    open spec fn well_formed(&self) -> bool {
        self.inv()
    }

    open spec fn steps_to(&self, input: T, after: Self) -> bool {
        &&& after.spec_sections() == self.spec_sections()
        &&& after.states() == cascade_step(self.spec_sections(), self.states(), input, self.spec_sections().len()).0
    }

    /// The input passed through every section in order.
    open spec fn next_output(&self, input: T) -> T {
        cascade_step(self.spec_sections(), self.states(), input, self.spec_sections().len()).1
    }

    fn process_sample(&mut self, input: T) -> (out: T) {
        let n = self.sections.len();
        let ghost cs = self.sections@;
        let ghost ss = self.states@;
        let mut x = input;
        let mut i: usize = 0;
        while i < n
            invariant
                0 <= i <= n,
                n == cs.len(),
                cs == self.sections@,
                ss.len() == n,
                self.states@.len() == n,
                ({
                    let r = cascade_step(cs, ss, input, i as nat);
                    &&& x == r.1
                    &&& self.states@.take(i as int) == r.0
                }),
                forall|j: int| i <= j < n ==> #[trigger] self.states@[j] == ss[j],
            decreases n - i,
        {
            let mut s = self.states[i];
            let y = step_section(&self.sections[i], &mut s, x);
            self.states.set(i, s);
            x = y;
            i = i + 1;
            proof {
                let r = cascade_step(cs, ss, input, i as nat);
                assert(self.states@.take(i as int) =~= r.0);
            }
        }
        proof {
            assert(self.states@.take(n as int) == self.states@);
        }
        x
    }
}

} // verus!
