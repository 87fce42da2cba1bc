//! Interpolation in maturity between calibrated slices.
pub mod atm_variance;
pub mod config;
pub mod time_interpolator;

pub use atm_variance::AtmVarianceTime;
pub use config::TimeInterpConfig;
pub use time_interpolator::bracket_maturity;
