use vstd::prelude::*;

verus! {

/// Rational transfer function `H(z) = B(z) / A(z)` in `z^{-1}` form.
///
/// `b` holds the numerator (feed-forward) taps, `a` the denominator
/// (feed-back) taps without the implicit leading `a[0] = 1`:
///
/// ```text
///     y[n] = sum_k b[k] * x[n-k]  -  sum_{k>=1} a[k] * y[n-k]
/// ```
#[derive(Clone, Copy, Debug, PartialEq)]
pub struct TransferFunction<T, const NB: usize, const NA: usize> {
    /// Feed-forward taps `b[0..NB]`.
    pub b: [T; NB],
    /// Feed-back taps `a[1..=NA]` (the `a[0] = 1` term is implicit).
    pub a: [T; NA],
}

impl<T, const NB: usize, const NA: usize> TransferFunction<T, NB, NA> {
    /// Wrap raw numerator/denominator arrays. `a` must *not* include the
    /// leading `a[0] = 1` term.
    pub fn new(b: [T; NB], a: [T; NA]) -> (tf: Self)
        ensures
            tf.b == b,
            tf.a == a,
    {
        Self { b, a }
    }
}

} // verus!
