//! Discrete martingale densities: marginals at node maturities and their
//! time-indexed sequence.
pub mod marginal;
pub mod martingale;
pub mod tol;

pub use marginal::MarginalDensity;

pub use tol::DensityTolerances;
pub use martingale::MartingaleDensity;
