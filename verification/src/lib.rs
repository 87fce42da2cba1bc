//! SANOS calibration library: market data containers, discrete martingale
//! densities and the configuration, layout and constraint structure of the
//! calibration problem.
//!
//! Real-valued quantities (strikes, maturities, prices, probabilities,
//! tolerances) are held in exact fixed point: a value `v` stands for the real
//! number `v / UNIT`.
use vstd::prelude::*;

pub mod backbone;
pub mod calibration;
pub mod density;
pub mod error;
pub mod fit;
pub mod grid;
pub mod interp;
pub mod market;
pub mod snapshot;
pub mod sorting;
pub mod text;

verus! {

/// Number of raw units in one whole unit of the fixed-point representation
/// (twelve decimal places).
pub const UNIT: i64 = 1_000_000_000_000;

/// Smallest positive fixed-point value.
pub const MIN_POSITIVE: i64 = 1;

} // verus!
