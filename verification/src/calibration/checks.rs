//! Checks of a calibrated density before it is accepted.
use vstd::prelude::*;
use crate::calibration::config::ConvexOrderValidationMode;
use crate::density::marginal::tolerance_check;
use crate::density::martingale::{convex_ordered, is_first_invalid, CONVEX_ORDER_MSG};
use crate::density::{DensityTolerances, MartingaleDensity};
use crate::error::{SanosError, SanosResult};

verus! {

/// Tolerance (fixed point, `1e-6`) of the checks on a calibrated density.
pub const CALIBRATED_DENSITY_TOL: i64 = 1_000_000;

/// Checks a calibrated density with tolerance [`CALIBRATED_DENSITY_TOL`]:
/// every marginal must pass the tolerance checks (the first failure is
/// reported); a convex-order violation is an error in `Error` mode, and in
/// `Warn` mode the result is `Ok(true)`, asking for a warning. `Ok(false)`
/// means both checks passed.
pub fn check_calibrated_density(density: &MartingaleDensity, mode: ConvexOrderValidationMode) -> (r:
    SanosResult<bool>)
    ensures
        ({
            let tol = DensityTolerances::spec_of(CALIBRATED_DENSITY_TOL);
            let ms = density.marginals_spec();
            let marginals_ok = forall|j: int|
                0 <= j < ms.len() ==> tolerance_check(
                    (#[trigger] ms[j]).atoms_spec(),
                    tol.mass_spec() as int,
                    tol.mean_spec() as int,
                ) is Ok;
            let ordered = convex_ordered(ms, tol.order_spec() as int);
            &&& !marginals_ok ==> (r matches Err(e) && exists|j: int|
                is_first_invalid(ms, tol, j) && tolerance_check(
                    ms[j].atoms_spec(),
                    tol.mass_spec() as int,
                    tol.mean_spec() as int,
                ) == Err::<(), SanosError>(e))
            &&& marginals_ok && ordered ==> r == Ok::<bool, SanosError>(false)
            &&& marginals_ok && !ordered && mode is Error ==> r == Err::<bool, SanosError>(
                SanosError::InvalidOrdering { msg: CONVEX_ORDER_MSG },
            )
            &&& marginals_ok && !ordered && mode is Warn ==> r == Ok::<bool, SanosError>(true)
        }),
{
    let tol = match DensityTolerances::from_tol(CALIBRATED_DENSITY_TOL) {
        Ok(t) => t,
        Err(e) => {
            return Err(e);
        },
    };
    match density.validate_marginals(tol) {
        Err(e) => {
            return Err(e);
        },
        Ok(()) => {},
    }
    match density.validate_convex_order(tol) {
        Ok(()) => Ok(false),
        Err(e) => match mode {
            ConvexOrderValidationMode::Error => Err(e),
            ConvexOrderValidationMode::Warn => Ok(true),
        },
    }
}

} // verus!
