//! Variable-rate stream processors: decimators, interpolators and
//! polyphase resamplers.
pub(crate) mod decimator;
pub(crate) mod interpolator;
pub(crate) mod resampler;

pub use decimator::{decimate_run, decimate_step, Decimator};
pub use interpolator::{zero_stuff, Interpolator};
pub use resampler::{
    emit_run, feed_run, sub_filter, PolyphaseResampler, PolyphaseResamplerPrepareError,
};
