use crate::coeffs::FirCoeffs;
use crate::processors::Fir;
use crate::scalar::Scalar;
use vstd::prelude::*;

verus! {

/// Specification for an `N`-tap rectangular moving average FIR.
#[derive(Clone, Copy, Debug, PartialEq, Eq, Structural)]
pub struct MovingAverageSpec;

/// Error type for the moving-average designer.
#[derive(Clone, Copy, Debug, PartialEq, Eq, Structural)]
pub enum MovingAverageError {
    /// `N == 0` is not a valid moving average.
    EmptyFilter,
    /// `N` could not be converted to the target numeric type.
    NumericConversion,
}

/// The moving-average design outcome for `N` taps in the sample type `T`:
/// `N` copies of `1 / N`, or the reason there is none.
pub open spec fn moving_average_taps<T: Scalar>(n: usize) -> Result<Seq<T>, MovingAverageError> {
    if n == 0 {
        Err(MovingAverageError::EmptyFilter)
    } else {
        match T::spec_from_count(n) {
            Some(nt) => Ok(Seq::new(n as nat, |_k: int| T::spec_one().spec_divide(nt))),
            None => Err(MovingAverageError::NumericConversion),
        }
    }
}

impl MovingAverageSpec {
    /// Design an `N`-tap moving average FIR with uniform weights `1/N`.
    pub fn design<T: Scalar, const N: usize>(self) -> (r: Result<FirCoeffs<T, N>, MovingAverageError>)
        ensures
            match moving_average_taps::<T>(N) {
                Ok(taps) => r matches Ok(c) && c.b@ == taps,
                Err(e) => r == Err::<FirCoeffs<T, N>, MovingAverageError>(e),
            },
    {
        if N == 0 {
            return Err(MovingAverageError::EmptyFilter);
        }
        let n_t = match T::from_count(N) {
            Some(v) => v,
            None => return Err(MovingAverageError::NumericConversion),
        };
        let coeff = T::one().divide(n_t);
        let c = FirCoeffs::new([coeff; N]);
        proof {
            broadcast use vstd::array::group_array_axioms;
            assert(c.b@ =~= Seq::new(N as nat, |_k: int| T::spec_one().spec_divide(n_t)));
        }
        Ok(c)
    }

    /// Design and build a [`Fir`] (with a default-valued history).
    pub fn build<T: Scalar + Default, const N: usize>(self) -> (r: Result<Fir<T, N>, MovingAverageError>)
        ensures
            match moving_average_taps::<T>(N) {
                Ok(taps) => r matches Ok(f) && f.inv() && f.spec_coeffs().b@ == taps,
                Err(e) => r is Err && r->Err_0 == e,
            },
    {
        match self.design::<T, N>() {
            Ok(c) => Ok(Fir::new(c)),
            Err(e) => Err(e),
        }
    }
}

} // verus!
