//! Combinators for composing sample processors.
mod bypass;
mod chain;
mod map;
mod parallel;
mod sum;
mod tap;
mod wet_dry;

pub use bypass::Bypass;
pub use chain::Chain;
pub use map::{total_function, MapOutput};
pub use parallel::Parallel;
pub use sum::Sum;
pub use tap::Tap;
pub use wet_dry::WetDry;
