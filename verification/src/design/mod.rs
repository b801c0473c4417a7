//! Design helpers: specifications that compile down to filter
//! coefficients or processors.
mod auto;
mod errors;
mod moving_average;

pub use auto::{lowpass_kernel, Lowpass, LowpassBuildError, LowpassKernel};
pub use errors::{BiquadDesignError, BiquadScalar, ExponentialAverageError, Window, WindowedSincError};
pub use moving_average::{moving_average_taps, MovingAverageError, MovingAverageSpec};
