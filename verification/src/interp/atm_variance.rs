//! Interpolation in implied ATM total variance: for a maturity between two
//! nodes, the ATM variance is interpolated linearly in time and the weight of
//! the upper node is the position of the resulting ATM call between the node
//! ATM calls.
use vstd::prelude::*;

verus! {

/// Interpolation in implied Black-Scholes ATM variance.
#[derive(Debug, Clone, Copy, Default, PartialEq, Eq)]
pub struct AtmVarianceTime;

} // verus!
