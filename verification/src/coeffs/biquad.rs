use super::TransferFunction;
use crate::scalar::Scalar;
use vstd::prelude::*;

verus! {

/// Second-order section (biquad) coefficients in normalised form:
///
/// ```text
///     y[n] = b0*x[n] + b1*x[n-1] + b2*x[n-2] - a1*y[n-1] - a2*y[n-2]
/// ```
///
/// `a0` is taken to be 1 (`from_unnormalised` divides it out).
#[derive(Clone, Copy, Debug, PartialEq)]
pub struct BiquadCoeffs<T> {
    /// `b[0]` feed-forward.
    pub b0: T,
    /// `b[1]` feed-forward.
    pub b1: T,
    /// `b[2]` feed-forward.
    pub b2: T,
    /// `a[1]` feed-back, with the sign of the difference equation above.
    pub a1: T,
    /// `a[2]` feed-back.
    pub a2: T,
}

impl<T> BiquadCoeffs<T> {
    /// Construct from the five normalised coefficients.
    pub fn new(b0: T, b1: T, b2: T, a1: T, a2: T) -> (c: Self)
        ensures
            c == (BiquadCoeffs { b0, b1, b2, a1, a2 }),
    {
        Self { b0, b1, b2, a1, a2 }
    }
}

impl<T: Scalar> BiquadCoeffs<T> {
    /// Construct from an unnormalised six-tuple `(b0, b1, b2, a0, a1, a2)`
    /// by dividing through by `a0`.
    pub fn from_unnormalised(b0: T, b1: T, b2: T, a0: T, a1: T, a2: T) -> (c: Self)
        ensures
            c == (BiquadCoeffs {
                b0: b0.spec_divide(a0),
                b1: b1.spec_divide(a0),
                b2: b2.spec_divide(a0),
                a1: a1.spec_divide(a0),
                a2: a2.spec_divide(a0),
            }),
    {
        Self {
            b0: b0.divide(a0),
            b1: b1.divide(a0),
            b2: b2.divide(a0),
            a1: a1.divide(a0),
            a2: a2.divide(a0),
        }
    }

    /// The identity section, which passes its input through unchanged.
    pub open spec fn spec_identity() -> Self {
        BiquadCoeffs {
            b0: T::spec_one(),
            b1: T::spec_zero(),
            b2: T::spec_zero(),
            a1: T::spec_zero(),
            a2: T::spec_zero(),
        }
    }

    /// Identity section: `b0 = 1`, every other coefficient `0`.
    pub fn identity() -> (c: Self)
        ensures
            c == Self::spec_identity(),
    {
        Self { b0: T::one(), b1: T::zero(), b2: T::zero(), a1: T::zero(), a2: T::zero() }
    }
}

impl<T: Copy> BiquadCoeffs<T> {
    /// Lift this biquad into the equivalent transfer function with three
    /// numerator and two denominator coefficients.
    pub fn to_transfer_function(self) -> (tf: TransferFunction<T, 3, 2>)
        ensures
            tf.b@ == seq![self.b0, self.b1, self.b2],
            tf.a@ == seq![self.a1, self.a2],
    {
        let tf = TransferFunction::new([self.b0, self.b1, self.b2], [self.a1, self.a2]);
        assert(tf.b@ =~= seq![self.b0, self.b1, self.b2]);
        assert(tf.a@ =~= seq![self.a1, self.a2]);
        tf
    }
}

impl<T: Copy> From<BiquadCoeffs<T>> for TransferFunction<T, 3, 2> {
    fn from(c: BiquadCoeffs<T>) -> (tf: Self) {
        let tf = c.to_transfer_function();
        proof {
            broadcast use vstd::array::group_array_axioms;
            assert(tf.b =~= [c.b0, c.b1, c.b2]);
            assert(tf.a =~= [c.a1, c.a2]);
        }
        tf
    }
}

impl<T: Copy> vstd::std_specs::convert::FromSpecImpl<BiquadCoeffs<T>> for TransferFunction<T, 3, 2> {
    open spec fn obeys_from_spec() -> bool {
        true
    }

    open spec fn from_spec(c: BiquadCoeffs<T>) -> Self {
        TransferFunction { b: [c.b0, c.b1, c.b2], a: [c.a1, c.a2] }
    }
}

} // verus!
