//! Configuration of a full calibration run, the completed warm-start
//! density and the checks of a calibrated density.
pub mod checks;
pub mod completed;
pub mod config;

pub use checks::check_calibrated_density;
pub use completed::build_completed_grids_and_density;
pub use config::{CalibrationConfig, ConvexOrderValidationMode};
