//! Numerical tolerances used when checking densities.
use vstd::prelude::*;
use crate::error::{SanosError, SanosResult};

verus! {

/// Tolerances (fixed point) for the checks on marginal densities:
/// `mass` bounds the deviation of the total mass from one and the depth of a
/// negative atom, `mean` bounds the deviation of the mean from one, and
/// `order` is the slack allowed in the convex-order comparison.
#[derive(Debug, Clone, Copy)]
pub struct DensityTolerances {
    mass: i64,
    mean: i64,
    order: i64,
}

impl DensityTolerances {
    #[verifier::type_invariant]
    spec fn inv(self) -> bool {
        self.mass >= 0 && self.mean >= 0 && self.order >= 0
    }

    /// The mass tolerance.
    pub closed spec fn mass_spec(self) -> i64 {
        self.mass
    }

    /// The mean tolerance.
    pub closed spec fn mean_spec(self) -> i64 {
        self.mean
    }

    /// The convex-order tolerance.
    pub closed spec fn order_spec(self) -> i64 {
        self.order
    }

    /// Tolerances with the same value `v` for the three checks.
    pub closed spec fn spec_of(v: i64) -> DensityTolerances {
        DensityTolerances { mass: v, mean: v, order: v }
    }

    /// Builds tolerances; each must be non-negative. They are checked in the
    /// order mass, mean, order.
    pub fn new(mass: i64, mean: i64, order: i64) -> (r: SanosResult<Self>)
        ensures
            mass < 0 ==> r == Err::<Self, SanosError>(
                SanosError::InvalidBound { field: "mass", value: mass, min: 0, max: i64::MAX },
            ),
            mass >= 0 && mean < 0 ==> r == Err::<Self, SanosError>(
                SanosError::InvalidBound { field: "mean", value: mean, min: 0, max: i64::MAX },
            ),
            mass >= 0 && mean >= 0 && order < 0 ==> r == Err::<Self, SanosError>(
                SanosError::InvalidBound { field: "order", value: order, min: 0, max: i64::MAX },
            ),
            r matches Ok(t) ==> t.mass_spec() == mass && t.mean_spec() == mean && t.order_spec()
                == order,
            r is Ok <==> mass >= 0 && mean >= 0 && order >= 0,
    {
        if mass < 0 {
            return Err(SanosError::InvalidBound { field: "mass", value: mass, min: 0, max: i64::MAX });
        }
        if mean < 0 {
            return Err(SanosError::InvalidBound { field: "mean", value: mean, min: 0, max: i64::MAX });
        }
        if order < 0 {
            return Err(
                SanosError::InvalidBound { field: "order", value: order, min: 0, max: i64::MAX },
            );
        }
        Ok(DensityTolerances { mass, mean, order })
    }

    /// Uses the same tolerance for the three checks.
    pub fn from_tol(tol: i64) -> (r: SanosResult<Self>)
        ensures
            tol < 0 ==> r == Err::<Self, SanosError>(
                SanosError::InvalidBound { field: "mass", value: tol, min: 0, max: i64::MAX },
            ),
            r matches Ok(t) ==> t.mass_spec() == tol && t.mean_spec() == tol && t.order_spec()
                == tol && t == DensityTolerances::spec_of(tol),
            r is Ok <==> tol >= 0,
    {
        Self::new(tol, tol, tol)
    }

    /// The mass tolerance.
    pub fn mass(&self) -> (r: i64)
        ensures
            r == self.mass_spec(),
            r >= 0,
    {
        proof {
            use_type_invariant(self);
        }
        self.mass
    }

    /// The mean tolerance.
    pub fn mean(&self) -> (r: i64)
        ensures
            r == self.mean_spec(),
            r >= 0,
    {
        proof {
            use_type_invariant(self);
        }
        self.mean
    }

    /// The convex-order tolerance.
    pub fn order(&self) -> (r: i64)
        ensures
            r == self.order_spec(),
            r >= 0,
    {
        proof {
            use_type_invariant(self);
        }
        self.order
    }
}

} // verus!
