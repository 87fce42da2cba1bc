//! Choice of the time interpolation.
use vstd::prelude::*;

verus! {

/// Time interpolation between maturity nodes.
#[derive(Debug, Clone, Copy, PartialEq, Eq, Default)]
pub enum TimeInterpConfig {
    /// Weight linear in maturity.
    LinearTime,
    /// Weight from the interpolated ATM total variance.
    #[default]
    AtmVarianceTime,
}

} // verus!
