use super::biquad::{biquad_steady, biquad_step, steady_section, step_section, BiquadState};
use crate::coeffs::{BiquadCoeffs, SosCoeffs};
use crate::scalar::Scalar;
use crate::traits::{FiltFiltKernel, Reset, Retune, SampleProcessor, SteadyState};
use vstd::prelude::*;

verus! {

/// The first `n` sections of a cascade applied to `x`: each section takes
/// one DF2T step on the previous section's output. Gives the sections' new
/// states and the last output.
pub open spec fn cascade_step<T: Scalar>(cs: Seq<BiquadCoeffs<T>>, ss: Seq<BiquadState<T>>, x: T, n: nat) -> (Seq<BiquadState<T>>, T)
    decreases n,
{
    if n == 0 {
        (Seq::empty(), x)
    } else {
        let prev = cascade_step(cs, ss, x, (n - 1) as nat);
        let r = biquad_step(cs[n - 1], ss[n - 1], prev.1);
        (prev.0.push(r.0), r.1)
    }
}

/// The steady states of the first `n` sections under the constant input
/// `x`, each section fed the previous section's steady output.
pub open spec fn cascade_steady<T: Scalar>(cs: Seq<BiquadCoeffs<T>>, x: T, n: nat) -> (Seq<BiquadState<T>>, T)
    decreases n,
{
    if n == 0 {
        (Seq::empty(), x)
    } else {
        let prev = cascade_steady(cs, x, (n - 1) as nat);
        let r = biquad_steady(cs[n - 1], prev.1);
        (prev.0.push(r.0), r.1)
    }
}

/// How many of the sections satisfy `pred`.
pub open spec fn count_sections<T>(cs: Seq<BiquadCoeffs<T>>, pred: spec_fn(BiquadCoeffs<T>) -> bool) -> nat
    decreases cs.len(),
{
    if cs.len() == 0 {
        0
    } else {
        count_sections(cs.drop_last(), pred) + if pred(cs.last()) { 1nat } else { 0nat }
    }
}

/// How many of the sections have `b2 == 0` (a zero at the origin).
pub open spec fn zeros_at_origin<T: Scalar>(cs: Seq<BiquadCoeffs<T>>) -> nat {
    count_sections(cs, |c: BiquadCoeffs<T>| c.b2 == T::spec_zero())
}

/// How many of the sections have `a2 == 0` (a pole at the origin).
pub open spec fn poles_at_origin<T: Scalar>(cs: Seq<BiquadCoeffs<T>>) -> nat {
    count_sections(cs, |c: BiquadCoeffs<T>| c.a2 == T::spec_zero())
}

/// Cascade of `N` biquads in DF2T, one state per section.
#[derive(Clone, Copy, Debug)]
pub struct SosCascade<T, const N: usize> {
    /// Active SOS coefficients.
    pub coeffs: SosCoeffs<T, N>,
    states: [BiquadState<T>; N],
}

impl<T, const N: usize> SosCascade<T, N> {
    /// The active coefficients (the public `coeffs` field).
    pub closed spec fn spec_coeffs(&self) -> SosCoeffs<T, N> {
        self.coeffs
    }

    /// The sections' DF2T states, in cascade order.
    pub closed spec fn states(&self) -> Seq<BiquadState<T>> {
        self.states@
    }

    proof fn lemma_lens(&self)
        ensures
            self.states().len() == N,
            self.spec_coeffs().sections@.len() == N,
    {
        broadcast use vstd::array::group_array_axioms;
    }
}

impl<T: Scalar, const N: usize> SosCascade<T, N> {
    /// Build a cascade with zeroed state for every section.
    pub fn new(coeffs: SosCoeffs<T, N>) -> (c: Self)
        ensures
            c.spec_coeffs() == coeffs,
            c.states() == Seq::new(N as nat, |_k: int| BiquadState::<T>::spec_zero()),
    {
        let c = Self { coeffs, states: [BiquadState::zero(); N] };
        proof {
            broadcast use vstd::array::group_array_axioms;
            assert(c.states() =~= Seq::new(N as nat, |_k: int| BiquadState::<T>::spec_zero()));
        }
        c
    }

    /// Number of sections.
    pub fn len(&self) -> (n: usize)
        ensures
            n == N,
    {
        N
    }

    /// `true` when there are no sections.
    pub fn is_empty(&self) -> (e: bool)
        ensures
            e == (N == 0),
    {
        N == 0
    }
}

impl<T: Scalar, const N: usize> Reset for SosCascade<T, N> {
    open spec fn resets_to(&self, after: Self) -> bool {
        &&& after.spec_coeffs() == self.spec_coeffs()
        &&& after.states() == Seq::new(N as nat, |_k: int| BiquadState::<T>::spec_zero())
    }

    fn reset(&mut self) {
        self.states = [BiquadState::zero(); N];
        proof {
            broadcast use vstd::array::group_array_axioms;
            assert(self.states() =~= Seq::new(N as nat, |_k: int| BiquadState::<T>::spec_zero()));
        }
    }
}

impl<T, const N: usize> Retune<SosCoeffs<T, N>> for SosCascade<T, N> {
    /// New coefficients, same states.
    open spec fn retunes_to(&self, coeffs: SosCoeffs<T, N>, after: Self) -> bool {
        after.spec_coeffs() == coeffs && after.states() == self.states()
    }

    fn retune(&mut self, coeffs: SosCoeffs<T, N>) {
        self.coeffs = coeffs;
    }
}

impl<T: Scalar, const N: usize> SampleProcessor<T> for SosCascade<T, N> {
    type Output = T;

    open spec fn well_formed(&self) -> bool {
        true
    }

    open spec fn steps_to(&self, input: T, after: Self) -> bool {
        &&& after.spec_coeffs() == self.spec_coeffs()
        &&& after.states() == cascade_step(self.spec_coeffs().sections@, self.states(), input, N as nat).0
    }

    /// The input passed through every section in order.
    open spec fn next_output(&self, input: T) -> T {
        cascade_step(self.spec_coeffs().sections@, self.states(), input, N as nat).1
    }

    fn process_sample(&mut self, input: T) -> (out: T) {
        proof {
            self.lemma_lens();
        }
        let ghost cs = self.coeffs.sections@;
        let ghost ss = self.states@;
        let mut x = input;
        let mut i: usize = 0;
        while i < N
            invariant
                0 <= i <= N,
                cs == self.coeffs.sections@,
                cs.len() == N,
                ss.len() == N,
                self.coeffs == old(self).coeffs,
                self.states@.len() == N,
                ({
                    let r = cascade_step(cs, ss, input, i as nat);
                    &&& x == r.1
                    &&& self.states@.take(i as int) == r.0
                }),
                forall|j: int| i <= j < N ==> #[trigger] self.states@[j] == ss[j],
            decreases N - i,
        {
            let mut s = self.states[i];
            let y = step_section(&self.coeffs.sections[i], &mut s, x);
            self.states[i] = s;
            x = y;
            i = i + 1;
            proof {
                broadcast use vstd::array::group_array_axioms;
                let r = cascade_step(cs, ss, input, i as nat);
                assert(self.states@.take(i as int) =~= r.0);
            }
        }
        proof {
            assert(self.states@.take(N as int) == self.states@);
        }
        x
    }
}

impl<T: Scalar, const N: usize> SteadyState<T> for SosCascade<T, N> {
    /// Each section is set to its steady state under the steady output of
    /// the sections before it.
    open spec fn steadies_to(&self, input: T, after: Self) -> bool {
        &&& after.spec_coeffs() == self.spec_coeffs()
        &&& after.states() == cascade_steady(self.spec_coeffs().sections@, input, N as nat).0
    }

    fn reset_to_steady_input(&mut self, input: T) {
        proof {
            self.lemma_lens();
        }
        let ghost cs = self.coeffs.sections@;
        let mut section_input = input;
        let mut i: usize = 0;
        while i < N
            invariant
                0 <= i <= N,
                cs == self.coeffs.sections@,
                cs.len() == N,
                self.coeffs == old(self).coeffs,
                self.states@.len() == N,
                ({
                    let r = cascade_steady(cs, input, i as nat);
                    &&& section_input == r.1
                    &&& self.states@.take(i as int) == r.0
                }),
            decreases N - i,
        {
            let r = steady_section(&self.coeffs.sections[i], section_input);
            self.states[i] = r.0;
            section_input = r.1;
            i = i + 1;
            proof {
                broadcast use vstd::array::group_array_axioms;
                assert(self.states@.take(i as int) =~= cascade_steady(cs, input, i as nat).0);
            }
        }
        proof {
            assert(self.states@.take(N as int) == self.states@);
        }
    }
}

impl<T: Scalar, const N: usize> FiltFiltKernel<T> for SosCascade<T, N> {
    /// `0` with no sections; otherwise `3 * (2N + 1 - min(z, p))` with `z`
    /// the sections with a zero at the origin and `p` those with a pole
    /// there.
    open spec fn pad_len_spec(&self) -> int {
        if N == 0 {
            0
        } else {
            let z = zeros_at_origin(self.spec_coeffs().sections@);
            let p = poles_at_origin(self.spec_coeffs().sections@);
            3 * (2 * N + 1 - if z < p { z } else { p })
        }
    }

    fn filtfilt_pad_len(&self) -> (n: usize) {
        if N == 0 {
            return 0;
        }
        proof {
            self.lemma_lens();
        }
        let ghost cs = self.coeffs.sections@;
        let mut zeros: usize = 0;
        let mut poles: usize = 0;
        let mut i: usize = 0;
        while i < N
            invariant
                0 <= i <= N,
                cs == self.coeffs.sections@,
                cs.len() == N,
                zeros == zeros_at_origin(cs.take(i as int)),
                poles == poles_at_origin(cs.take(i as int)),
                zeros <= i,
                poles <= i,
            decreases N - i,
        {
            let section = self.coeffs.sections[i];
            proof {
                assert(cs.take(i + 1).drop_last() == cs.take(i as int));
            }
            if section.b2.is_zero() {
                zeros += 1;
            }
            if section.a2.is_zero() {
                poles += 1;
            }
            i = i + 1;
        }
        proof {
            assert(cs.take(N as int) == cs);
        }
        let m = if zeros < poles { zeros } else { poles };
        3 * (2 * N + 1 - m)
    }
}

} // verus!
