use super::{filled, nudge_weights, nudged, ring_filter};
use crate::ring::{dot, recent};
use crate::scalar::Scalar;
use crate::traits::{AdaptiveProcessor, Reset};
use vstd::prelude::*;

verus! {

/// Numeric requirements for [`Lms`] coefficient/sample types.
pub trait LmsScalar: Scalar {
}

impl<T: Scalar> LmsScalar for T {
}

/// Least-Mean-Squares adaptive FIR.
///
/// Keeps `n` weights and the last `n` inputs. `process_sample` filters the
/// input through the weights; `adapt(desired, output)` moves each weight by
/// `mu * (desired - output)` times the matching past input. Call
/// `process_sample` for an input before `adapt` for that step (or use
/// `process_adapt`).
#[derive(Clone, Debug)]
pub struct Lms<T> {
    /// Weight vector `w[0..n]`.
    pub w: Vec<T>,
    /// Step size.
    pub mu: T,
    buf: Vec<T>,
    head: usize,
}

impl<T> Lms<T> {
    /// The weights (the public `w` field).
    pub closed spec fn weights(&self) -> Seq<T> {
        self.w@
    }

    /// The step size (the public `mu` field).
    pub closed spec fn step_size(&self) -> T {
        self.mu
    }

    /// The inputs filtered so far, most recent first (`n` of them; none
    /// when there are no weights).
    pub closed spec fn history(&self) -> Seq<T> {
        if self.w@.len() == 0 {
            Seq::empty()
        } else {
            recent(self.buf@, self.head - 1)
        }
    }

    /// The delay line matches the weights and its position is in range.
    pub closed spec fn inv(&self) -> bool {
        &&& self.buf@.len() == if self.w@.len() == 0 { 1 } else { self.w@.len() }
        &&& self.head < self.buf@.len()
    }

    /// The history holds as many inputs as there are weights.
    pub proof fn lemma_history_len(&self)
        requires
            self.inv(),
        ensures
            self.history().len() == self.weights().len(),
    {
    }
}

impl<T: LmsScalar> Lms<T> {
    /// Build an LMS filter of length `n` with step size `mu`; weights and
    /// history start at zero.
    pub fn new(n: usize, mu: T) -> (f: Self)
        ensures
            f.inv(),
            f.weights() == Seq::new(n as nat, |_k: int| T::spec_zero()),
            f.step_size() == mu,
            f.history() == Seq::new(n as nat, |_k: int| T::spec_zero()),
    {
        let zero = T::zero();
        let m = if n > 1 { n } else { 1 };
        let f = Self { w: filled(zero, n), mu, buf: filled(zero, m), head: 0 };
        proof {
            if n > 0 {
                assert(f.history() =~= Seq::new(n as nat, |_k: int| T::spec_zero()));
            } else {
                assert(f.history() =~= Seq::new(n as nat, |_k: int| T::spec_zero()));
            }
        }
        f
    }

    /// Number of taps.
    pub fn len(&self) -> (n: usize)
        ensures
            n == self.weights().len(),
    {
        self.w.len()
    }

    /// `true` when there are no taps.
    pub fn is_empty(&self) -> (e: bool)
        ensures
            e == (self.weights().len() == 0),
    {
        self.w.len() == 0
    }
}

impl<T: LmsScalar> Reset for Lms<T> {
    /// Weights and history back to zero; the step size stays.
    open spec fn resets_to(&self, after: Self) -> bool {
        &&& (self.inv() ==> after.inv())
        &&& after.step_size() == self.step_size()
        &&& after.weights() == Seq::new(self.weights().len(), |_k: int| T::spec_zero())
        &&& self.inv() ==> after.history() == Seq::new(self.weights().len(), |_k: int| T::spec_zero())
    }

    fn reset(&mut self) {
        let zero = T::zero();
        self.w = filled(zero, self.w.len());
        self.buf = filled(zero, self.buf.len());
        self.head = 0;
        assert(self.weights() =~= Seq::new(old(self).weights().len(), |_k: int| T::spec_zero()));
        proof {
            if old(self).inv() && self.w@.len() > 0 {
                assert forall|k: int| 0 <= k < self.w@.len() implies #[trigger] self.history()[k] == T::spec_zero() by {
                    crate::ring::lemma_wrap(-1 - k, self.buf@.len() as int);
                }
            }
            if old(self).inv() {
                assert(self.history() =~= Seq::new(old(self).weights().len(), |_k: int| T::spec_zero()));
            }
        }
    }
}

impl<T: LmsScalar> AdaptiveProcessor<T> for Lms<T> {
    type Output = T;

    open spec fn adaptive_well_formed(&self) -> bool {
        self.inv()
    }

    /// The weights and step size stay; the input enters the history.
    open spec fn filters_to(&self, input: T, after: Self) -> bool {
        &&& after.inv()
        &&& after.weights() == self.weights()
        &&& after.step_size() == self.step_size()
        &&& after.history() == (seq![input] + self.history()).take(self.weights().len() as int)
    }

    /// The weighted sum of the input and the history:
    /// `w[0] * input + w[1] * x[n-1] + ...`, summed left to right.
    open spec fn filtered_output(&self, input: T) -> T {
        dot(self.weights(), seq![input] + self.history(), self.weights().len())
    }

    /// Each weight moves by `mu * (desired - output)` times its past input.
    open spec fn adapts_to(&self, desired: T, output: T, after: Self) -> bool {
        &&& after.inv()
        &&& after.step_size() == self.step_size()
        &&& after.history() == self.history()
        &&& after.weights() == nudged(self.weights(), self.history(), self.step_size().spec_times(desired.spec_minus(output)))
    }

    /// `desired - output`.
    open spec fn adaptation_error(desired: T, output: T) -> T {
        desired.spec_minus(output)
    }

    fn process_sample(&mut self, input: T) -> (out: T) {
        let n = self.w.len();
        if n == 0 {
            assert(self.history() =~= (seq![input] + self.history()).take(0));
            return T::zero();
        }
        ring_filter(&self.w, &mut self.buf, &mut self.head, input)
    }

    fn adapt(&mut self, desired: T, output: T) -> (err: T) {
        let err = desired.minus(output);
        let n = self.w.len();
        if n == 0 {
            assert(self.weights() =~= nudged(self.weights(), self.history(), self.step_size().spec_times(err)));
            return err;
        }
        let scale = self.mu.times(err);
        nudge_weights(&mut self.w, &self.buf, self.head, scale);
        err
    }
}

} // verus!
