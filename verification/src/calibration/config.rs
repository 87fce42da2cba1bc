//! Configuration of a full calibration run.
use vstd::prelude::*;
use crate::backbone::BackboneConfig;
use crate::fit::FitConfig;
use crate::grid::StrikeGridPolicyConfig;
use crate::interp::TimeInterpConfig;
use crate::market::CompletionConfig;

verus! {

/// What a failed convex-order check of the calibrated density does.
#[derive(Debug, Clone, Copy, PartialEq, Eq)]
pub enum ConvexOrderValidationMode {
    /// The calibration fails.
    Error,
    /// The failure is reported and the calibration goes on.
    Warn,
}

impl Default for ConvexOrderValidationMode {
    fn default() -> (r: Self)
        ensures
            r is Error,
    {
        ConvexOrderValidationMode::Error
    }
}

/// Every setting of a calibration run.
#[derive(Debug, Clone, PartialEq, Eq)]
pub struct CalibrationConfig {
    pub backbone: BackboneConfig,
    pub grid: StrikeGridPolicyConfig,
    pub fit: FitConfig,
    pub market_completion: Option<CompletionConfig>,
    pub time_interp: TimeInterpConfig,
    pub convex_order_validation: ConvexOrderValidationMode,
}

} // verus!
