use vstd::prelude::*;

verus! {

/// Single-input single-output state-space model of order `N`:
///
/// ```text
///     x[n+1] = A x[n] + B u[n]
///     y[n]   = C x[n] + D u[n]
/// ```
///
/// `a` is stored row-major.
#[derive(Clone, Copy, Debug, PartialEq)]
pub struct StateSpace<T, const N: usize> {
    /// State transition matrix `A` (row-major).
    pub a: [[T; N]; N],
    /// Input matrix `B`.
    pub b: [T; N],
    /// Output matrix `C`.
    pub c: [T; N],
    /// Feed-through scalar `D`.
    pub d: T,
}

impl<T, const N: usize> StateSpace<T, N> {
    /// Wrap the four parameter blocks.
    pub fn new(a: [[T; N]; N], b: [T; N], c: [T; N], d: T) -> (s: Self)
        ensures
            s == (StateSpace { a, b, c, d }),
    {
        Self { a, b, c, d }
    }
}

} // verus!
