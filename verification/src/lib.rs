//! # filterkit
//!
//! Composable DSP filters and processors with machine-checked contracts.
//!
//! It provides filter coefficient types, processing traits, stateful
//! processors, combinators, variable-rate stream processors, adaptive
//! filters and design helpers. Every processor is generic over a
//! [`Scalar`] sample type whose arithmetic is described by spec functions,
//! so each contract states the exact expression a processor evaluates.
pub mod adaptive;
pub mod coeffs;
pub mod combinators;
pub mod design;
pub mod exact;
pub mod laws;
pub mod processors;
pub mod ring;
pub mod scalar;
pub mod stream;
pub mod traits;

pub use scalar::Scalar;
pub use traits::{
    AdaptiveProcessor, FiltFiltKernel, Prepare, ProcessInPlace, ProcessSpec, ProcessorExt, Reset, Retune, SampleProcessor,
    SteadyState, StreamProcessor, StreamStatus,
};

pub use coeffs::{BiquadCoeffs, FirCoeffs, SosCoeffs, StateSpace, TransferFunction};

pub use processors::{
    Biquad, Delay, DirectFormI, Ema, Fir, FirstOrder, FirstOrderCoeffs, Gain, OnePole, SosCascade,
    StateSpaceProcessor,
};

pub use combinators::{Bypass, Chain, MapOutput, Parallel, Sum, Tap, WetDry};
