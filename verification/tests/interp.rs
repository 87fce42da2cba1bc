use sanos::backbone::config::atm_variance_knots;
use sanos::backbone::{AtmMidPolicyConfig, BackboneConfig, BsTimeChangedConfig};
use sanos::calibration::ConvexOrderValidationMode;
use sanos::error::SanosError;
use sanos::interp::{bracket_maturity, AtmVarianceTime, TimeInterpConfig};

#[test]
fn bracket_maturity_clamps_and_brackets() {
    let ms = [10, 20, 30, 40];
    assert_eq!(bracket_maturity(5, &ms), Ok(0));
    assert_eq!(bracket_maturity(10, &ms), Ok(0));
    assert_eq!(bracket_maturity(25, &ms), Ok(1));
    // a node inside the grid belongs to the interval that ends at it
    assert_eq!(bracket_maturity(20, &ms), Ok(0));
    assert_eq!(bracket_maturity(40, &ms), Ok(2));
    assert_eq!(bracket_maturity(99, &ms), Ok(2));
}

#[test]
fn bracket_maturity_rejects_bad_inputs() {
    assert_eq!(
        bracket_maturity(0, &[1, 2]),
        Err(SanosError::InvalidBound { field: "maturity", value: 0, min: 1, max: i64::MAX })
    );
    assert_eq!(
        bracket_maturity(1, &[1]),
        Err(SanosError::InvalidOrdering { msg: "need at least 2 maturities for interpolation" })
    );
    assert_eq!(
        bracket_maturity(1, &[1, 3, 3]),
        Err(SanosError::InvalidOrdering { msg: "maturities must be strictly increasing" })
    );
}

#[test]
fn interpolation_and_validation_defaults() {
    assert_eq!(TimeInterpConfig::default(), TimeInterpConfig::AtmVarianceTime);
    assert_eq!(AtmVarianceTime::default(), AtmVarianceTime);
    assert_eq!(ConvexOrderValidationMode::default(), ConvexOrderValidationMode::Error);
}

fn bs(var_floor: i64, tol_log: i64) -> BackboneConfig {
    BackboneConfig::BsTimeChanged(BsTimeChangedConfig {
        atm_policy: AtmMidPolicyConfig::NearestOrLinearLogMoneyness { tol_log },
        var_floor,
        enforce_non_decreasing: true,
        eta: 250_000_000_000,
    })
}

#[test]
fn backbone_config_checks_floor_then_tolerance() {
    assert!(bs(0, 0).validate().is_ok());
    assert_eq!(bs(0, 0).eta(), 250_000_000_000);
    match bs(-1, 0).validate().unwrap_err() {
        SanosError::InvalidBound { field, .. } => assert_eq!(field, "bs_time_changed.var_floor"),
        e => panic!("unexpected error variant: {e:?}"),
    }
    match bs(0, -1).validate().unwrap_err() {
        SanosError::InvalidBound { field, .. } => assert_eq!(field, "atm_policy.tol_log"),
        e => panic!("unexpected error variant: {e:?}"),
    }
    assert_eq!(
        AtmMidPolicyConfig::default(),
        AtmMidPolicyConfig::NearestOrLinearLogMoneyness { tol_log: 100 }
    );
}

#[test]
fn snapshot_default_strike_convention() {
    assert_eq!(sanos::snapshot::default_strike_convention(), "forward_moneyness");
    assert_eq!(sanos::snapshot::IV_SNAPSHOT_SCHEMA, "sanos.iv_surface.v1");
}

fn bs_cfg(var_floor: i64, enforce_non_decreasing: bool) -> BsTimeChangedConfig {
    BsTimeChangedConfig {
        atm_policy: AtmMidPolicyConfig::default(),
        var_floor,
        enforce_non_decreasing,
        eta: 1_000_000_000_000,
    }
}

#[test]
fn variance_knots_apply_floor_and_monotone_clamp() {
    let vars = [(10, 50), (20, 30), (30, 80), (40, 5)];
    assert_eq!(
        atm_variance_knots(&vars, &bs_cfg(20, true)).unwrap(),
        vec![(10, 50), (20, 50), (30, 80), (40, 80)]
    );
    assert_eq!(
        atm_variance_knots(&vars, &bs_cfg(20, false)).unwrap(),
        vec![(10, 50), (20, 30), (30, 80), (40, 20)]
    );
    assert_eq!(
        atm_variance_knots(&[], &bs_cfg(0, true)).unwrap_err(),
        SanosError::EmptyCollection { what: "OptionBook.atm_mids" }
    );
    assert_eq!(
        atm_variance_knots(&[(10, 1), (0, 1)], &bs_cfg(0, true)).unwrap_err(),
        SanosError::InvalidBound { field: "maturity", value: 0, min: 1, max: i64::MAX }
    );
    match atm_variance_knots(&vars, &bs_cfg(-1, true)).unwrap_err() {
        SanosError::InvalidBound { field, .. } => assert_eq!(field, "bs_time_changed.var_floor"),
        e => panic!("unexpected error variant: {e:?}"),
    }
}

// The original builder tests invert Black-Scholes ATM prices back to these
// variances (floating point, in app/); here the variances are given directly
// to the verified knot step.
const T_HALF: i64 = 500_000_000_000;
const T_ONE: i64 = 1_000_000_000_000;

fn eta_quarter(var_floor: i64, enforce_non_decreasing: bool) -> BsTimeChangedConfig {
    BsTimeChangedConfig { eta: 250_000_000_000, ..bs_cfg(var_floor, enforce_non_decreasing) }
}

#[test]
fn builder_recovers_input_atm_variances() {
    let vars = [(T_HALF, 40_000_000_000), (T_ONE, 90_000_000_000)];
    assert_eq!(atm_variance_knots(&vars, &eta_quarter(0, false)).unwrap(), vars.to_vec());
}

#[test]
fn builder_applies_var_floor() {
    let knots = atm_variance_knots(&[(T_HALF, 0)], &eta_quarter(20_000_000_000, true)).unwrap();
    assert_eq!(knots, vec![(T_HALF, 20_000_000_000)]);
}

#[test]
fn builder_clamps_decreasing_variance_when_enabled() {
    let vars = [(T_HALF, 90_000_000_000), (T_ONE, 40_000_000_000)];
    assert_eq!(
        atm_variance_knots(&vars, &eta_quarter(0, true)).unwrap(),
        vec![(T_HALF, 90_000_000_000), (T_ONE, 90_000_000_000)]
    );
}

#[test]
fn builder_keeps_decreasing_variance_when_disabled() {
    let vars = [(T_HALF, 90_000_000_000), (T_ONE, 40_000_000_000)];
    assert_eq!(atm_variance_knots(&vars, &eta_quarter(0, false)).unwrap(), vars.to_vec());
}
