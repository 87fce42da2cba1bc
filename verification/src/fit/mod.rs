//! Calibration fit: configuration, kernels, layout of the decision vector and
//! the constraint structure of the optimization problem.
pub mod config;
pub mod extract;
pub mod initialization;
pub mod kernels;
pub mod layout;
pub mod lp_builder;
pub mod lp_model;
pub mod lp_stages;
pub mod regularization;
pub mod residual;

pub use config::{
    ConstraintConfig, FitConfig, InitPriceProxyConfig, InitializationConfig, KernelConfig,
    LambdaScaling, ObjectiveConfig, OmegaConfig, QuoteWeightMode, QuoteWeightingConfig, RegularizationConfig,
    RegularizationMode, SmoothingOrder, WarmStartMode,
};
pub use kernels::{DenseMat, KernelC, KernelSet, KernelTransition};
pub use layout::{diff_rows, QLayout};
pub use lp_model::{LinTerm, LpConstraint, LpModel, LpObjective, LpVar, Sense};
pub use lp_builder::{BuiltLp, LpLayout, SanosLpBuilder};
