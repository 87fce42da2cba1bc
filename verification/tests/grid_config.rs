use sanos::error::SanosError;
use sanos::grid::{
    AtmRefineConfig, GridSizeConfig, LogMoneynessQuantilesGridConfig, MarketAnchored,
    MarketAnchoredGridConfig, StrikeGridPolicyConfig, WingsConfig,
};
use sanos::UNIT;

fn fx(v: f64) -> i64 {
    (v * UNIT as f64).round() as i64
}

#[test]
fn wings_validate_rejects_ratio_not_greater_than_one() {
    let cfg = WingsConfig { n_left: 1, n_right: 1, ratio: fx(1.0) };
    let err = cfg.validate().unwrap_err();
    match err {
        SanosError::InvalidBound { field, .. } => assert_eq!(field, "grid.wings.ratio"),
        _ => panic!("unexpected error variant: {err:?}"),
    }
}

#[test]
fn atm_refine_validate_requires_positive_delta_when_enabled() {
    let cfg = AtmRefineConfig { enabled: true, steps: 2, delta_log: fx(0.0) };
    let err = cfg.validate().unwrap_err();
    match err {
        SanosError::InvalidBound { field, .. } => assert_eq!(field, "grid.atm_refine.delta_log"),
        _ => panic!("unexpected error variant: {err:?}"),
    }
}

#[test]
fn grid_size_validate_rejects_zero_max_points() {
    let cfg = GridSizeConfig { max_points: 0, keep_all_market_strikes: true };
    let err = cfg.validate().unwrap_err();
    match err {
        SanosError::InvalidOrdering { msg } => {
            assert_eq!(msg, "grid.grid_size.max_points must be > 0")
        }
        _ => panic!("unexpected error variant: {err:?}"),
    }
}

#[test]
fn market_anchored_validate_rejects_invalid_ordering() {
    let cfg = MarketAnchoredGridConfig {
        min_strike: fx(2.0),
        max_strike: fx(2.0),
        ..MarketAnchoredGridConfig::default()
    };
    let err = cfg.validate().unwrap_err();
    match err {
        SanosError::InvalidOrdering { msg } => {
            assert_eq!(msg, "grid.market_anchored.max_strike must be > min_strike")
        }
        _ => panic!("unexpected error variant: {err:?}"),
    }
}

#[test]
fn market_anchored_to_runtime_maps_fields() {
    let cfg = MarketAnchoredGridConfig {
        ensure_atm: false,
        wings: WingsConfig { n_left: 3, n_right: 4, ratio: fx(1.3) },
        atm_refine: AtmRefineConfig { enabled: true, steps: 5, delta_log: fx(0.02) },
        grid_size: GridSizeConfig { max_points: 17, keep_all_market_strikes: false },
        min_strike: fx(0.2),
        max_strike: fx(3.5),
        min_spacing_log: fx(0.004),
    };

    let runtime = cfg.to_runtime().unwrap();
    assert_eq!(runtime.ensure_atm, cfg.ensure_atm);
    assert_eq!(runtime.wings, cfg.wings);
    assert_eq!(runtime.atm_refine, cfg.atm_refine);
    assert_eq!(runtime.size_control, cfg.grid_size);
    assert_eq!(runtime.min_strike, cfg.min_strike);
    assert_eq!(runtime.max_strike, cfg.max_strike);
    assert_eq!(runtime.min_spacing_log, cfg.min_spacing_log);
}

#[test]
fn log_moneyness_quantiles_validate_rejects_alpha_not_positive() {
    let cfg = LogMoneynessQuantilesGridConfig {
        alpha_left: fx(0.0),
        ..LogMoneynessQuantilesGridConfig::default()
    };
    let err = cfg.validate().unwrap_err();
    match err {
        SanosError::InvalidBound { field, .. } => {
            assert_eq!(field, "grid.log_moneyness_quantiles.alpha_left")
        }
        _ => panic!("unexpected error variant: {err:?}"),
    }
}

#[test]
fn log_moneyness_quantiles_validate_rejects_bad_caps() {
    let cfg = LogMoneynessQuantilesGridConfig {
        k_min: Some(fx(1.2)),
        k_max: Some(fx(1.2)),
        ..LogMoneynessQuantilesGridConfig::default()
    };
    let err = cfg.validate().unwrap_err();
    match err {
        SanosError::InvalidOrdering { msg } => {
            assert_eq!(msg, "grid.log_moneyness_quantiles.k_max must be > k_min")
        }
        _ => panic!("unexpected error variant: {err:?}"),
    }
}

#[test]
fn log_moneyness_quantiles_to_runtime_maps_fields() {
    let cfg = LogMoneynessQuantilesGridConfig {
        n: 41,
        left_sigmas: fx(5.0),
        right_sigmas: fx(2.8),
        alpha_left: fx(2.0),
        alpha_right: fx(1.3),
        include_market_strikes: false,
        min_spacing: Some(fx(1e-4)),
        k_min: Some(fx(0.2)),
        k_max: Some(fx(4.0)),
    };

    let runtime = cfg.to_runtime().unwrap();
    assert_eq!(runtime.n, cfg.n);
    assert_eq!(runtime.left_sigmas, cfg.left_sigmas);
    assert_eq!(runtime.right_sigmas, cfg.right_sigmas);
    assert_eq!(runtime.alpha_left, cfg.alpha_left);
    assert_eq!(runtime.alpha_right, cfg.alpha_right);
    assert_eq!(runtime.include_market_strikes, cfg.include_market_strikes);
    assert_eq!(runtime.min_spacing, cfg.min_spacing);
    assert_eq!(runtime.k_min, cfg.k_min);
    assert_eq!(runtime.k_max, cfg.k_max);
}

#[test]
fn build_strike_grids_propagates_invalid_config() {
    // the wings check fails first, with its own field name
    let cfg = StrikeGridPolicyConfig::MarketAnchored(MarketAnchoredGridConfig {
        ensure_atm: true,
        wings: WingsConfig { n_left: 2, n_right: 2, ratio: fx(1.0) },
        atm_refine: AtmRefineConfig::default(),
        grid_size: GridSizeConfig::default(),
        min_strike: fx(1e-4),
        max_strike: fx(1e4),
        min_spacing_log: fx(1e-3),
    });
    let StrikeGridPolicyConfig::MarketAnchored(c) = cfg else { unreachable!() };
    let err = c.to_runtime().unwrap_err();
    match err {
        SanosError::InvalidBound { field, .. } => assert_eq!(field, "grid.wings.ratio"),
        _ => panic!("unexpected error variant: {err:?}"),
    }
}

#[test]
fn market_anchored_build_rejects_invalid_policy_config() {
    let policy = MarketAnchored { min_spacing_log: fx(-1e-3), ..MarketAnchored::default() };
    let err = policy.validate().unwrap_err();
    match err {
        SanosError::InvalidBound { field, .. } => assert_eq!(field, "min_spacing_log"),
        _ => panic!("unexpected error variant: {err:?}"),
    }
}

#[test]
fn grid_defaults_are_the_documented_values() {
    let cfg = MarketAnchoredGridConfig::default();
    assert!(cfg.validate().is_ok());
    assert_eq!(cfg.min_strike, fx(1e-4));
    assert_eq!(cfg.max_strike, fx(1e4));
    assert_eq!(cfg.wings.ratio, fx(1.2));
    assert!(LogMoneynessQuantilesGridConfig::default().validate().is_ok());
    let lmq = LogMoneynessQuantilesGridConfig { n: 2, ..Default::default() };
    assert_eq!(
        lmq.validate().unwrap_err(),
        SanosError::InvalidOrdering { msg: "grid.log_moneyness_quantiles.n must be >= 3" }
    );
    let bad_min = LogMoneynessQuantilesGridConfig { k_min: Some(0), ..Default::default() };
    assert!(matches!(
        bad_min.validate().unwrap_err(),
        SanosError::InvalidBound { field: "grid.log_moneyness_quantiles.k_min", .. }
    ));
}
