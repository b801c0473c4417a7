use super::{filled, nudge_weights, nudged, ring_filter};
use super::lms::LmsScalar;
use crate::ring::{dot, recent};
use crate::scalar::Scalar;
use crate::traits::{AdaptiveProcessor, Reset};
use vstd::prelude::*;

verus! {

/// Numeric requirements for [`Nlms`]: those of [`LmsScalar`] (division is
/// part of [`Scalar`]).
pub trait NlmsScalar: LmsScalar {
}

impl<T: LmsScalar> NlmsScalar for T {
}

/// Normalised LMS.
///
/// Like [`super::Lms`], but the step is divided by the instantaneous input
/// power `x^T x + eps` (the sum of squares of the stored inputs), which keeps
/// adaptation stable as the input level varies.
#[derive(Clone, Debug)]
pub struct Nlms<T> {
    /// Weight vector `w[0..n]`.
    pub w: Vec<T>,
    /// Step size.
    pub mu: T,
    /// Regularisation constant added to the denominator.
    pub eps: T,
    buf: Vec<T>,
    head: usize,
}

impl<T> Nlms<T> {
    /// The weights (the public `w` field).
    pub closed spec fn weights(&self) -> Seq<T> {
        self.w@
    }

    /// The step size (the public `mu` field).
    pub closed spec fn step_size(&self) -> T {
        self.mu
    }

    /// The regulariser (the public `eps` field).
    pub closed spec fn regulariser(&self) -> T {
        self.eps
    }

    /// The delay line in storage order.
    pub closed spec fn storage(&self) -> Seq<T> {
        self.buf@
    }

    /// The delay line's write position.
    pub closed spec fn position(&self) -> int {
        self.head as int
    }

    /// The inputs filtered so far, most recent first (`n` of them; none
    /// when there are no weights).
    pub open spec fn history(&self) -> Seq<T> {
        if self.weights().len() == 0 {
            Seq::empty()
        } else {
            recent(self.storage(), self.position() - 1)
        }
    }

    /// The delay line matches the weights and its position is in range.
    pub closed spec fn inv(&self) -> bool {
        &&& self.buf@.len() == if self.w@.len() == 0 { 1 } else { self.w@.len() }
        &&& self.head < self.buf@.len()
    }

    /// The stored inputs are the history in another order, so their sum of
    /// squares (32-bit samples) is the history's.
    pub proof fn lemma_storage_power(s: Nlms<i32>)
        requires
            s.inv(),
            s.weights().len() > 0,
        ensures
            s.storage().len() == s.weights().len(),
            crate::exact::sum_squares(s.storage()) == crate::exact::sum_squares(s.history()),
    {
        crate::exact::lemma_sum_squares_recent(s.buf@, s.head as int);
    }

    /// The delay line holds as many inputs as there are weights.
    pub proof fn lemma_storage_len(&self)
        requires
            self.inv(),
            self.weights().len() > 0,
        ensures
            self.storage().len() == self.weights().len(),
    {
    }
}

impl<T: NlmsScalar> Nlms<T> {
    /// Build an NLMS filter of length `n`; weights and history start at
    /// zero.
    pub fn new(n: usize, mu: T, eps: T) -> (f: Self)
        ensures
            f.inv(),
            f.weights() == Seq::new(n as nat, |_k: int| T::spec_zero()),
            f.step_size() == mu,
            f.regulariser() == eps,
            f.history() == Seq::new(n as nat, |_k: int| T::spec_zero()),
    {
        let zero = T::zero();
        let m = if n > 1 { n } else { 1 };
        let f = Self { w: filled(zero, n), mu, eps, buf: filled(zero, m), head: 0 };
        assert(f.history() =~= Seq::new(n as nat, |_k: int| T::spec_zero()));
        f
    }

    /// Number of taps.
    pub fn len(&self) -> (n: usize)
        ensures
            n == self.weights().len(),
    {
        self.w.len()
    }

    /// `true` when there are no taps.
    pub fn is_empty(&self) -> (e: bool)
        ensures
            e == (self.weights().len() == 0),
    {
        self.w.len() == 0
    }
}

impl<T: NlmsScalar> Reset for Nlms<T> {
    /// Weights and history back to zero; step size and regulariser stay.
    open spec fn resets_to(&self, after: Self) -> bool {
        &&& (self.inv() ==> after.inv())
        &&& after.step_size() == self.step_size()
        &&& after.regulariser() == self.regulariser()
        &&& after.weights() == Seq::new(self.weights().len(), |_k: int| T::spec_zero())
        &&& self.inv() ==> after.history() == Seq::new(self.weights().len(), |_k: int| T::spec_zero())
    }

    fn reset(&mut self) {
        let zero = T::zero();
        self.w = filled(zero, self.w.len());
        self.buf = filled(zero, self.buf.len());
        self.head = 0;
        assert(self.weights() =~= Seq::new(old(self).weights().len(), |_k: int| T::spec_zero()));
        proof {
            if old(self).inv() && self.w@.len() > 0 {
                assert forall|k: int| 0 <= k < self.w@.len() implies #[trigger] self.history()[k] == T::spec_zero() by {
                    crate::ring::lemma_wrap(-1 - k, self.buf@.len() as int);
                }
            }
            if old(self).inv() {
                assert(self.history() =~= Seq::new(old(self).weights().len(), |_k: int| T::spec_zero()));
            }
        }
    }
}

impl<T: NlmsScalar> AdaptiveProcessor<T> for Nlms<T> {
    type Output = T;

    open spec fn adaptive_well_formed(&self) -> bool {
        self.inv()
    }

    /// Weights and parameters stay; the input enters the history.
    open spec fn filters_to(&self, input: T, after: Self) -> bool {
        &&& after.inv()
        &&& after.weights() == self.weights()
        &&& after.step_size() == self.step_size()
        &&& after.regulariser() == self.regulariser()
        &&& after.history() == (seq![input] + self.history()).take(self.weights().len() as int)
    }

    /// The weighted sum of the input and the history, left to right.
    open spec fn filtered_output(&self, input: T) -> T {
        dot(self.weights(), seq![input] + self.history(), self.weights().len())
    }

    /// With `power` the sum of squares of the stored inputs (in storage
    /// order), each weight moves by `mu * (desired - output) / (power + eps)`
    /// times its past input.
    open spec fn adapts_to(&self, desired: T, output: T, after: Self) -> bool {
        let power = dot(self.storage(), self.storage(), self.weights().len());
        let scale = self.step_size().spec_times(desired.spec_minus(output)).spec_divide(power.spec_plus(self.regulariser()));
        &&& after.inv()
        &&& after.step_size() == self.step_size()
        &&& after.regulariser() == self.regulariser()
        &&& after.history() == self.history()
        &&& after.weights() == if self.weights().len() == 0 {
            self.weights()
        } else {
            nudged(self.weights(), self.history(), scale)
        }
    }

    /// `desired - output`.
    open spec fn adaptation_error(desired: T, output: T) -> T {
        desired.spec_minus(output)
    }

    fn process_sample(&mut self, input: T) -> (out: T) {
        let n = self.w.len();
        if n == 0 {
            assert(self.history() =~= (seq![input] + self.history()).take(0));
            return T::zero();
        }
        ring_filter(&self.w, &mut self.buf, &mut self.head, input)
    }

    fn adapt(&mut self, desired: T, output: T) -> (err: T) {
        let err = desired.minus(output);
        let n = self.w.len();
        if n == 0 {
            return err;
        }
        let mut power = T::zero();
        let mut k: usize = 0;
        while k < n
            invariant
                n == self.w@.len(),
                n == self.buf@.len(),
                0 <= k <= n,
                power == dot(self.buf@, self.buf@, k as nat),
            decreases n - k,
        {
            power = power.plus(self.buf[k].times(self.buf[k]));
            k = k + 1;
        }
        let scale = self.mu.times(err).divide(power.plus(self.eps));
        nudge_weights(&mut self.w, &self.buf, self.head, scale);
        err
    }
}

} // verus!
