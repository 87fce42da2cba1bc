//! Strike grids: configuration, runtime policies and the exact steps of grid
//! construction.
pub mod config;
pub mod policy;
pub mod strikes;

pub use config::{
    AtmRefineConfig, GridSizeConfig, LogMoneynessQuantilesGridConfig, MarketAnchoredGridConfig,
    StrikeGridPolicyConfig, WingsConfig,
};
pub use policy::{LogMoneynessQuantiles, MarketAnchored};
