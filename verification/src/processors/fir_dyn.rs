use crate::adaptive::ring_filter;
use crate::ring::{dot, recent};
use crate::scalar::Scalar;
use crate::traits::{is_default, Prepare, ProcessSpec, Reset, Retune, SampleProcessor};
use vstd::prelude::*;

verus! {

/// Heap-backed FIR filter of arbitrary length: the algorithm of
/// [`crate::processors::Fir`] with a tap count known only at run time.
#[derive(Clone, Debug)]
pub struct FirDyn<T> {
    /// Tap values.
    pub b: Vec<T>,
    buf: Vec<T>,
    head: usize,
}

/// Error returned by [`FirDyn::prepare`] when the spec is unworkable.
#[derive(Clone, Copy, Debug, PartialEq, Eq, Structural)]
pub struct FirDynPrepareError;

/// A vector of `max(n, 1)` copies of one default value.
fn default_line<T: Default + Copy>(n: usize) -> (r: Vec<T>)
    ensures
        r@.len() == if n == 0 { 1 } else { n },
        exists|v: T| is_default(v) && r@ == Seq::new(r@.len(), |_k: int| v),
{
    let v = T::default();
    assert(is_default(v));
    let m = if n > 1 { n } else { 1 };
    crate::adaptive::filled(v, m)
}

impl<T> FirDyn<T> {
    /// The taps (the public `b` field).
    pub closed spec fn taps(&self) -> Seq<T> {
        self.b@
    }

    /// The past inputs, most recent first (as many as there are taps).
    pub closed spec fn history(&self) -> Seq<T> {
        if self.b@.len() == 0 {
            Seq::empty()
        } else {
            recent(self.buf@, self.head - 1)
        }
    }

    /// The delay line matches the taps and its position is in range.
    pub closed spec fn inv(&self) -> bool {
        &&& self.buf@.len() == if self.b@.len() == 0 { 1 } else { self.b@.len() }
        &&& self.head < self.buf@.len()
    }

    /// `after` holds `taps` and a history of one default value.
    pub open spec fn is_fresh(after: Self, taps: Seq<T>) -> bool where T: Default {
        &&& after.inv()
        &&& after.taps() == taps
        &&& exists|v: T| is_default(v) && after.history() == Seq::new(taps.len(), |_k: int| v)
    }

    proof fn lemma_fresh(b: Vec<T>, buf: Vec<T>, v: T) where T: Default
        requires
            is_default(v),
            buf@.len() == if b@.len() == 0 { 1 } else { b@.len() },
            buf@ == Seq::new(buf@.len(), |_k: int| v),
        ensures
            Self::is_fresh(FirDyn { b, buf, head: 0 }, b@),
    {
        let f = FirDyn { b, buf, head: 0 };
        if b@.len() > 0 {
            assert forall|k: int| 0 <= k < b@.len() implies #[trigger] f.history()[k] == v by {
                crate::ring::lemma_wrap(-1 - k, buf@.len() as int);
            }
        }
        assert(f.history() =~= Seq::new(b@.len(), |_k: int| v));
    }
}

impl<T: Default + Copy> FirDyn<T> {
    /// Build from a slice of taps, with a default-valued history.
    pub fn new(taps: &[T]) -> (f: Self)
        ensures
            Self::is_fresh(f, taps@),
    {
        let len = taps.len();
        let b = vstd::slice::slice_to_vec(taps);
        let buf = default_line(len);
        proof {
            let v = choose|v: T| is_default(v) && buf@ == Seq::new(buf@.len(), |_k: int| v);
            Self::lemma_fresh(b, buf, v);
        }
        Self { b, buf, head: 0 }
    }

    /// Number of taps.
    pub fn len(&self) -> (n: usize)
        ensures
            n == self.taps().len(),
    {
        self.b.len()
    }

    /// `true` when no taps are configured.
    pub fn is_empty(&self) -> (e: bool)
        ensures
            e == (self.taps().len() == 0),
    {
        self.b.len() == 0
    }
}

impl<T: Default + Copy> FirDyn<T> {
    /// Clear the delay line to one default value.
    fn clear(&mut self)
        ensures
            old(self).inv() ==> Self::is_fresh(*final(self), old(self).taps()),
            final(self).taps() == old(self).taps(),
    {
        let n = self.buf.len();
        let v = T::default();
        assert(is_default(v));
        self.buf = crate::adaptive::filled(v, n);
        self.head = 0;
        proof {
            if old(self).inv() {
                Self::lemma_fresh(self.b, self.buf, v);
            }
        }
    }
}

impl<T: Default + Copy, S: Copy> Prepare<S> for FirDyn<T> {
    type Error = FirDynPrepareError;

    /// Always succeeds; resets the delay line.
    open spec fn prepares_to(&self, spec: ProcessSpec<S>, after: Self, result: Result<(), FirDynPrepareError>) -> bool {
        &&& result == Ok::<(), FirDynPrepareError>(())
        &&& after.taps() == self.taps()
        &&& self.inv() ==> Self::is_fresh(after, self.taps())
    }

    fn prepare(&mut self, spec: ProcessSpec<S>) -> (r: Result<(), FirDynPrepareError>) {
        self.clear();
        Ok(())
    }
}

impl<T: Default + Copy> Reset for FirDyn<T> {
    open spec fn resets_to(&self, after: Self) -> bool {
        &&& after.taps() == self.taps()
        &&& self.inv() ==> Self::is_fresh(after, self.taps())
    }

    fn reset(&mut self) {
        self.clear();
    }
}

impl<T: Default + Copy> Retune<Vec<T>> for FirDyn<T> {
    /// Replace the taps and always reset the delay line.
    open spec fn retunes_to(&self, coeffs: Vec<T>, after: Self) -> bool {
        Self::is_fresh(after, coeffs@)
    }

    fn retune(&mut self, coeffs: Vec<T>) {
        let len = coeffs.len();
        let buf = default_line(len);
        proof {
            let v = choose|v: T| is_default(v) && buf@ == Seq::new(buf@.len(), |_k: int| v);
            Self::lemma_fresh(coeffs, buf, v);
        }
        self.b = coeffs;
        self.buf = buf;
        self.head = 0;
    }
}

impl<T: Scalar + Default> SampleProcessor<T> for FirDyn<T> {
    type Output = T;

    open spec fn well_formed(&self) -> bool {
        self.inv()
    }

    open spec fn steps_to(&self, input: T, after: Self) -> bool {
        &&& after.inv()
        &&& after.taps() == self.taps()
        &&& after.history() == (seq![input] + self.history()).take(self.taps().len() as int)
    }

    /// `b[0]*input + b[1]*x[n-1] + ...`, summed left to right (zero with no
    /// taps).
    open spec fn next_output(&self, input: T) -> T {
        dot(self.taps(), seq![input] + self.history(), self.taps().len())
    }

    fn process_sample(&mut self, input: T) -> (out: T) {
        let n = self.b.len();
        if n == 0 {
            assert(self.history() =~= (seq![input] + self.history()).take(0));
            return T::zero();
        }
        ring_filter(&self.b, &mut self.buf, &mut self.head, input)
    }
}

} // verus!
