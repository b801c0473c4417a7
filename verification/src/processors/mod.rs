//! Runtime processors: they own the mutable state of a filter realisation.
//! Coefficients live separately in [`crate::coeffs`] so they can be shared.
mod biquad;
mod delay;
pub(crate) mod direct_form;
pub(crate) mod ema;
mod fir;
mod fir_dyn;
mod first_order;
mod gain;
mod one_pole;
pub(crate) mod sos;
mod sos_dyn;
mod state_space;

pub use biquad::{Biquad, BiquadState};
pub use delay::Delay;
pub use direct_form::DirectFormI;
pub use ema::Ema;
pub use fir::{Fir, FirState};
pub use fir_dyn::{FirDyn, FirDynPrepareError};
pub use first_order::{FirstOrder, FirstOrderCoeffs};
pub use gain::Gain;
pub use one_pole::OnePole;
pub use sos::SosCascade;
pub use sos_dyn::{SosDyn, SosDynPrepareError};
pub use state_space::StateSpaceProcessor;
