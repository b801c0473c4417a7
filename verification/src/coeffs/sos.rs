use super::BiquadCoeffs;
use crate::scalar::Scalar;
use vstd::prelude::*;

verus! {

/// A fixed-size cascade of second-order sections, applied in order from
/// `sections[0]` to `sections[N - 1]`.
#[derive(Clone, Copy, Debug, PartialEq)]
pub struct SosCoeffs<T, const N: usize> {
    /// Biquad sections, applied in order.
    pub sections: [BiquadCoeffs<T>; N],
}

impl<T, const N: usize> SosCoeffs<T, N> {
    /// Wrap a fixed array of biquad sections.
    pub fn new(sections: [BiquadCoeffs<T>; N]) -> (c: Self)
        ensures
            c.sections == sections,
    {
        Self { sections }
    }

    /// Build an SOS cascade from an array of biquad sections.
    pub fn from_biquads(sections: [BiquadCoeffs<T>; N]) -> (c: Self)
        ensures
            c.sections == sections,
    {
        Self { sections }
    }

    /// Number of sections.
    pub fn len(&self) -> (n: usize)
        ensures
            n == N,
    {
        N
    }

    /// `true` when there are no sections (only possible for `N = 0`).
    pub fn is_empty(&self) -> (e: bool)
        ensures
            e == (N == 0),
    {
        N == 0
    }
}

impl<T: Scalar, const N: usize> Default for SosCoeffs<T, N> {
    /// `N` identity sections.
    fn default() -> (c: Self)
        ensures
            c.sections@ == Seq::new(N as nat, |_k: int| BiquadCoeffs::<T>::spec_identity()),
    {
        let c = Self { sections: [BiquadCoeffs::identity(); N] };
        proof {
            broadcast use vstd::array::group_array_axioms;
            assert(c.sections@ =~= Seq::new(N as nat, |_k: int| BiquadCoeffs::<T>::spec_identity()));
        }
        c
    }
}

} // verus!
