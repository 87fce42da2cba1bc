//! Configuration of the backbone model that the calibration perturbs.
pub mod config;

pub use config::{AtmMidPolicyConfig, BackboneConfig, BsTimeChangedConfig};
