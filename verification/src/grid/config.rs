//! User-facing strike grid configuration and its validation.
use vstd::prelude::*;
use crate::error::{outcome, SanosError, SanosResult};
use crate::grid::policy::{
    lmq_error, market_anchored_error, validate_log_moneyness_quantiles, validate_market_anchored,
    LogMoneynessQuantiles, MarketAnchored,
};
use crate::{MIN_POSITIVE, UNIT};

verus! {

/// How to extend the grid beyond the market strikes: `n_left` / `n_right`
/// geometric steps of factor `ratio` (fixed point, must exceed one).
#[derive(Debug, Clone, Copy, PartialEq, Eq)]
pub struct WingsConfig {
    pub n_left: usize,
    pub n_right: usize,
    pub ratio: i64,
}

/// First failing check of a wings configuration.
pub open spec fn wings_error(c: WingsConfig) -> Option<SanosError> {
    if c.ratio <= UNIT {
        Some(
            SanosError::InvalidBound {
                field: "grid.wings.ratio",
                value: c.ratio,
                min: (UNIT + 1) as i64,
                max: i64::MAX,
            },
        )
    } else {
        None
    }
}

impl Default for WingsConfig {
    fn default() -> (r: Self)
        ensures
            r == (WingsConfig { n_left: 2, n_right: 2, ratio: 1_200_000_000_000 }),
    {
        WingsConfig { n_left: 2, n_right: 2, ratio: 1_200_000_000_000 }
    }
}

impl WingsConfig {
    /// The ratio must exceed one.
    pub fn validate(&self) -> (r: SanosResult<()>)
        ensures
            r == outcome(wings_error(*self)),
    {
        if self.ratio <= UNIT {
            return Err(
                SanosError::InvalidBound {
                    field: "grid.wings.ratio",
                    value: self.ratio,
                    min: UNIT + 1,
                    max: i64::MAX,
                },
            );
        }
        Ok(())
    }
}

/// Optional refinement around the at-the-money strike: `steps` points on each
/// side, `delta_log` apart in log-strike (fixed point, positive when enabled).
#[derive(Debug, Clone, Copy, PartialEq, Eq)]
pub struct AtmRefineConfig {
    pub enabled: bool,
    pub steps: usize,
    pub delta_log: i64,
}

/// First failing check of an at-the-money refinement configuration.
pub open spec fn atm_refine_error(c: AtmRefineConfig) -> Option<SanosError> {
    if c.enabled && c.delta_log <= 0 {
        Some(
            SanosError::InvalidBound {
                field: "grid.atm_refine.delta_log",
                value: c.delta_log,
                min: MIN_POSITIVE,
                max: i64::MAX,
            },
        )
    } else {
        None
    }
}

impl Default for AtmRefineConfig {
    fn default() -> (r: Self)
        ensures
            r == (AtmRefineConfig { enabled: false, steps: 2, delta_log: 50_000_000_000 }),
    {
        AtmRefineConfig { enabled: false, steps: 2, delta_log: 50_000_000_000 }
    }
}

impl AtmRefineConfig {
    /// When enabled, the log step must be positive.
    pub fn validate(&self) -> (r: SanosResult<()>)
        ensures
            r == outcome(atm_refine_error(*self)),
    {
        if self.enabled && self.delta_log <= 0 {
            return Err(
                SanosError::InvalidBound {
                    field: "grid.atm_refine.delta_log",
                    value: self.delta_log,
                    min: MIN_POSITIVE,
                    max: i64::MAX,
                },
            );
        }
        Ok(())
    }
}

/// Controls the maximum number of grid points.
#[derive(Debug, Clone, Copy, PartialEq, Eq)]
pub struct GridSizeConfig {
    pub max_points: usize,
    pub keep_all_market_strikes: bool,
}

/// First failing check of a grid size configuration.
pub open spec fn grid_size_error(c: GridSizeConfig) -> Option<SanosError> {
    if c.max_points == 0 {
        Some(SanosError::InvalidOrdering { msg: "grid.grid_size.max_points must be > 0" })
    } else {
        None
    }
}

impl Default for GridSizeConfig {
    fn default() -> (r: Self)
        ensures
            r == (GridSizeConfig { max_points: 80, keep_all_market_strikes: true }),
    {
        GridSizeConfig { max_points: 80, keep_all_market_strikes: true }
    }
}

impl GridSizeConfig {
    /// At least one grid point must be allowed.
    pub fn validate(&self) -> (r: SanosResult<()>)
        ensures
            r == outcome(grid_size_error(*self)),
    {
        if self.max_points == 0 {
            return Err(SanosError::InvalidOrdering { msg: "grid.grid_size.max_points must be > 0" });
        }
        Ok(())
    }
}

/// Serializable strike grid policy configuration.
#[derive(Debug, Clone, Copy, PartialEq, Eq)]
pub enum StrikeGridPolicyConfig {
    MarketAnchored(MarketAnchoredGridConfig),
    LogMoneynessQuantiles(LogMoneynessQuantilesGridConfig),
}

impl Default for StrikeGridPolicyConfig {
    fn default() -> (r: Self)
        ensures
            r == StrikeGridPolicyConfig::MarketAnchored(default_market_anchored_grid_config()),
    {
        StrikeGridPolicyConfig::MarketAnchored(MarketAnchoredGridConfig::default())
    }
}

/// Configuration of the market-anchored strike grid (fixed-point strikes).
#[derive(Debug, Clone, Copy, PartialEq, Eq)]
pub struct MarketAnchoredGridConfig {
    pub ensure_atm: bool,
    pub wings: WingsConfig,
    pub atm_refine: AtmRefineConfig,
    pub grid_size: GridSizeConfig,
    pub min_strike: i64,
    pub max_strike: i64,
    pub min_spacing_log: i64,
}

/// The default market-anchored configuration.
pub open spec fn default_market_anchored_grid_config() -> MarketAnchoredGridConfig {
    MarketAnchoredGridConfig {
        ensure_atm: true,
        wings: WingsConfig { n_left: 2, n_right: 2, ratio: 1_200_000_000_000 },
        atm_refine: AtmRefineConfig { enabled: false, steps: 2, delta_log: 50_000_000_000 },
        grid_size: GridSizeConfig { max_points: 80, keep_all_market_strikes: true },
        min_strike: 100_000_000,
        max_strike: 10_000_000_000_000_000,
        min_spacing_log: 1_000_000_000,
    }
}

impl Default for MarketAnchoredGridConfig {
    fn default() -> (r: Self)
        ensures
            r == default_market_anchored_grid_config(),
    {
        MarketAnchoredGridConfig {
            ensure_atm: true,
            wings: WingsConfig::default(),
            atm_refine: AtmRefineConfig::default(),
            grid_size: GridSizeConfig::default(),
            min_strike: 100_000_000,
            max_strike: 10_000_000_000_000_000,
            min_spacing_log: 1_000_000_000,
        }
    }
}

impl MarketAnchoredGridConfig {
    /// Validates the sub-configurations (wings, refinement, size) and then
    /// `min_strike > 0`, `max_strike > min_strike`, `min_spacing_log >= 0`.
    pub fn validate(&self) -> (r: SanosResult<()>)
        ensures
            r == outcome(
                market_anchored_error(
                    self.wings,
                    self.atm_refine,
                    self.grid_size,
                    self.min_strike,
                    self.max_strike,
                    self.min_spacing_log,
                    true,
                ),
            ),
    {
        validate_market_anchored(
            &self.wings,
            &self.atm_refine,
            &self.grid_size,
            self.min_strike,
            self.max_strike,
            self.min_spacing_log,
            true,
        )
    }

    /// Validates and maps the configuration to the runtime policy, field by
    /// field.
    pub fn to_runtime(&self) -> (r: SanosResult<MarketAnchored>)
        ensures
            r is Ok <==> market_anchored_error(
                self.wings,
                self.atm_refine,
                self.grid_size,
                self.min_strike,
                self.max_strike,
                self.min_spacing_log,
                true,
            ) is None,
            r matches Err(e) ==> market_anchored_error(
                self.wings,
                self.atm_refine,
                self.grid_size,
                self.min_strike,
                self.max_strike,
                self.min_spacing_log,
                true,
            ) == Some(e),
            r matches Ok(p) ==> p == (MarketAnchored {
                ensure_atm: self.ensure_atm,
                wings: self.wings,
                atm_refine: self.atm_refine,
                size_control: self.grid_size,
                min_strike: self.min_strike,
                max_strike: self.max_strike,
                min_spacing_log: self.min_spacing_log,
            }),
    {
        self.validate()?;
        Ok(
            MarketAnchored {
                ensure_atm: self.ensure_atm,
                wings: self.wings,
                atm_refine: self.atm_refine,
                size_control: self.grid_size,
                min_strike: self.min_strike,
                max_strike: self.max_strike,
                min_spacing_log: self.min_spacing_log,
            },
        )
    }
}

/// Configuration of the log-moneyness quantile strike grid (fixed point).
#[derive(Debug, Clone, Copy, PartialEq, Eq)]
pub struct LogMoneynessQuantilesGridConfig {
    pub n: usize,
    pub left_sigmas: i64,
    pub right_sigmas: i64,
    pub alpha_left: i64,
    pub alpha_right: i64,
    pub include_market_strikes: bool,
    pub min_spacing: Option<i64>,
    pub k_min: Option<i64>,
    pub k_max: Option<i64>,
}

impl Default for LogMoneynessQuantilesGridConfig {
    fn default() -> (r: Self)
        ensures
            r == (LogMoneynessQuantilesGridConfig {
                n: 80,
                left_sigmas: 4_500_000_000_000,
                right_sigmas: 3_000_000_000_000,
                alpha_left: 1_800_000_000_000,
                alpha_right: 1_200_000_000_000,
                include_market_strikes: true,
                min_spacing: None,
                k_min: None,
                k_max: None,
            }),
    {
        LogMoneynessQuantilesGridConfig {
            n: 80,
            left_sigmas: 4_500_000_000_000,
            right_sigmas: 3_000_000_000_000,
            alpha_left: 1_800_000_000_000,
            alpha_right: 1_200_000_000_000,
            include_market_strikes: true,
            min_spacing: None,
            k_min: None,
            k_max: None,
        }
    }
}

impl LogMoneynessQuantilesGridConfig {
    /// The runtime policy with the same fields.
    pub open spec fn runtime_spec(self) -> LogMoneynessQuantiles {
        LogMoneynessQuantiles {
            n: self.n,
            left_sigmas: self.left_sigmas,
            right_sigmas: self.right_sigmas,
            alpha_left: self.alpha_left,
            alpha_right: self.alpha_right,
            include_market_strikes: self.include_market_strikes,
            min_spacing: self.min_spacing,
            k_min: self.k_min,
            k_max: self.k_max,
        }
    }

    /// Checks, in order: `n >= 3`; `left_sigmas`, `right_sigmas`,
    /// `alpha_left`, `alpha_right` positive; `min_spacing >= 0`, `k_min > 0`,
    /// `k_max > 0` when present; `k_max > k_min` when both are present.
    pub fn validate(&self) -> (r: SanosResult<()>)
        ensures
            r == outcome(lmq_error(self.runtime_spec(), true)),
    {
        validate_log_moneyness_quantiles(&self.runtime_spec_exec(), true)
    }

    fn runtime_spec_exec(&self) -> (r: LogMoneynessQuantiles)
        ensures
            r == self.runtime_spec(),
    {
        LogMoneynessQuantiles {
            n: self.n,
            left_sigmas: self.left_sigmas,
            right_sigmas: self.right_sigmas,
            alpha_left: self.alpha_left,
            alpha_right: self.alpha_right,
            include_market_strikes: self.include_market_strikes,
            min_spacing: self.min_spacing,
            k_min: self.k_min,
            k_max: self.k_max,
        }
    }

    /// Validates and maps the configuration to the runtime policy, field by
    /// field.
    pub fn to_runtime(&self) -> (r: SanosResult<LogMoneynessQuantiles>)
        ensures
            r is Ok <==> lmq_error(self.runtime_spec(), true) is None,
            r matches Err(e) ==> lmq_error(self.runtime_spec(), true) == Some(e),
            r matches Ok(p) ==> p == self.runtime_spec(),
    {
        self.validate()?;
        Ok(self.runtime_spec_exec())
    }
}

} // verus!
