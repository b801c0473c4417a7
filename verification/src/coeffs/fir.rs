use super::TransferFunction;
use crate::traits::is_default;
use vstd::prelude::*;

verus! {

/// FIR filter coefficients `b[0..N]`: `H(z) = sum_{k<N} b[k] z^(-k)`.
#[derive(Clone, Copy, Debug, PartialEq, Eq)]
pub struct FirCoeffs<T, const N: usize> {
    /// Feed-forward taps, indexed from tap 0 (most recent input).
    pub b: [T; N],
}

impl<T, const N: usize> FirCoeffs<T, N> {
    /// Wrap a tap array.
    pub fn new(b: [T; N]) -> (c: Self)
        ensures
            c.b == b,
    {
        Self { b }
    }

    /// Number of taps.
    pub fn len(&self) -> (n: usize)
        ensures
            n == N,
    {
        N
    }

    /// `true` when there are no taps (only possible for `N = 0`).
    pub fn is_empty(&self) -> (e: bool)
        ensures
            e == (N == 0),
    {
        N == 0
    }
}

impl<T: Default + Copy, const N: usize> Default for FirCoeffs<T, N> {
    fn default() -> (c: Self)
        ensures
            exists|v: T| is_default(v) && c.b@ == Seq::new(N as nat, |_k: int| v),
    {
        let v = T::default();
        assert(is_default(v));
        let c = Self { b: [v; N] };
        proof {
            broadcast use vstd::array::group_array_axioms;
            assert(c.b@ =~= Seq::new(N as nat, |_k: int| v));
        }
        c
    }
}

impl<T: Copy, const N: usize> FirCoeffs<T, N> {
    /// Lift this FIR into the equivalent transfer function with no
    /// denominator taps.
    pub fn to_transfer_function(self) -> (tf: TransferFunction<T, N, 0>)
        ensures
            tf.b == self.b,
    {
        TransferFunction::new(self.b, [])
    }
}

impl<T, const N: usize> From<FirCoeffs<T, N>> for TransferFunction<T, N, 0> {
    fn from(c: FirCoeffs<T, N>) -> (tf: Self) {
        TransferFunction { b: c.b, a: [] }
    }
}

impl<T, const N: usize> vstd::std_specs::convert::FromSpecImpl<FirCoeffs<T, N>> for TransferFunction<T, N, 0> {
    open spec fn obeys_from_spec() -> bool {
        true
    }

    open spec fn from_spec(c: FirCoeffs<T, N>) -> Self {
        TransferFunction { b: c.b, a: [] }
    }
}

impl<T, const N: usize> From<TransferFunction<T, N, 0>> for FirCoeffs<T, N> {
    fn from(tf: TransferFunction<T, N, 0>) -> (c: Self) {
        Self { b: tf.b }
    }
}

impl<T, const N: usize> vstd::std_specs::convert::FromSpecImpl<TransferFunction<T, N, 0>> for FirCoeffs<T, N> {
    open spec fn obeys_from_spec() -> bool {
        true
    }

    open spec fn from_spec(tf: TransferFunction<T, N, 0>) -> Self {
        FirCoeffs { b: tf.b }
    }
}

} // verus!
