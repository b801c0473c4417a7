use crate::scalar::Scalar;
use vstd::prelude::*;

verus! {

/// Numeric bounds for materialising a biquad against a generic sample
/// type: every [`Scalar`] qualifies.
pub trait BiquadScalar: Scalar {
}

impl<T: Scalar> BiquadScalar for T {
}

/// Error type for biquad design.
#[derive(Clone, Copy, Debug, PartialEq, Eq, Structural)]
pub enum BiquadDesignError {
    /// Normalised frequency outside `(0, 0.5)`.
    InvalidFrequency,
    /// Q was non-positive.
    InvalidQ,
}

/// Error type for exponential-average design.
#[derive(Clone, Copy, Debug, PartialEq, Eq, Structural)]
pub enum ExponentialAverageError {
    /// `alpha` was not in `(0, 1]` (after derivation from time constant or
    /// cutoff if applicable).
    InvalidAlpha,
    /// A spec input that should be strictly positive was not.
    InvalidParameter,
}

/// Tapering windows for windowed-sinc FIR design.
#[derive(Clone, Copy, Debug, PartialEq, Eq, Structural)]
pub enum Window {
    /// No window (truncated sinc).
    Rectangular,
    /// Hann window.
    Hann,
    /// Hamming window.
    Hamming,
    /// Blackman window.
    Blackman,
}

/// Error type for windowed-sinc design.
#[derive(Clone, Copy, Debug, PartialEq, Eq, Structural)]
pub enum WindowedSincError {
    /// `cutoff` was outside `(0, 0.5)`.
    InvalidCutoff,
    /// `N` was zero.
    InvalidLength,
}

} // verus!
