use sanos::density::DensityTolerances;
use sanos::error::SanosError;
use sanos::fit::extract::extract_density;
use sanos::fit::initialization::{
    build_strict_linear_martingale_density, compute_raw_linear_density, quote_proxy_value,
    validate_strikes_and_calls,
};
use sanos::fit::{DenseMat, InitPriceProxyConfig, KernelC, KernelSet, QLayout};
use sanos::market::{CallQuote, OptionBook, OptionChain};
use sanos::UNIT;

/// Fixed-point value of a real number.
fn fx(v: f64) -> i64 {
    (v * UNIT as f64).round() as i64
}

fn fxs(v: &[f64]) -> Vec<i64> {
    v.iter().map(|&x| fx(x)).collect()
}

fn tol() -> DensityTolerances {
    DensityTolerances::from_tol(fx(1e-12)).unwrap()
}

fn valid_strikes() -> Vec<i64> {
    fxs(&[0.5, 1.0, 1.5])
}

fn valid_calls() -> Vec<i64> {
    fxs(&[0.5, 0.125, 0.0])
}

fn make_book_with_calls(maturity: f64, strikes: &[f64], bids: &[f64], asks: &[f64]) -> OptionBook {
    let quotes = strikes
        .iter()
        .zip(bids.iter().zip(asks.iter()))
        .map(|(&k, (&bid, &ask))| CallQuote::new(fx(k), fx(bid), fx(ask), UNIT).unwrap())
        .collect::<Vec<_>>();
    let chain = OptionChain::new(fx(maturity), quotes).unwrap();
    OptionBook::new(vec![chain]).unwrap()
}

#[test]
fn compute_raw_linear_density_happy_path() {
    let marginal =
        compute_raw_linear_density(fx(1.0), &valid_strikes(), &valid_calls(), tol()).unwrap();
    let probs = marginal.probabilities();
    assert_eq!(probs.len(), 3);
    assert_eq!(probs, fxs(&[0.25, 0.5, 0.25]));
}

#[test]
fn compute_raw_linear_density_rejects_length_mismatch() {
    let err = compute_raw_linear_density(fx(1.0), &fxs(&[0.5, 1.0]), &fxs(&[0.5]), tol())
        .unwrap_err();
    assert!(matches!(err, SanosError::InvalidOrdering { .. }));
}

#[test]
fn compute_raw_linear_density_rejects_too_few_nodes() {
    let err = compute_raw_linear_density(fx(1.0), &fxs(&[1.0]), &fxs(&[0.0]), tol()).unwrap_err();
    assert!(matches!(err, SanosError::InvalidOrdering { .. }));
}

#[test]
fn compute_raw_linear_density_rejects_non_positive_strike() {
    let err = compute_raw_linear_density(fx(1.0), &fxs(&[0.0, 1.0]), &fxs(&[0.5, 0.0]), tol())
        .unwrap_err();
    assert!(matches!(err, SanosError::InvalidBound { field: "strike", .. }));
}

#[test]
fn compute_raw_linear_density_rejects_non_increasing_strikes() {
    let err = compute_raw_linear_density(fx(1.0), &fxs(&[0.5, 0.5]), &fxs(&[0.5, 0.5]), tol())
        .unwrap_err();
    assert!(matches!(err, SanosError::InvalidOrdering { .. }));
}

#[test]
fn compute_raw_linear_density_propagates_marginal_validation_error() {
    // p = [1, 0] on strikes [0.5, 1.0]: the mean is not one
    let err = compute_raw_linear_density(fx(1.0), &fxs(&[0.5, 1.0]), &fxs(&[0.9, 0.9]), tol())
        .unwrap_err();
    assert!(matches!(err, SanosError::InvalidOrdering { .. }));
}

#[test]
fn compute_raw_linear_density_reports_unrepresentable_masses() {
    // a call jump of one over one fixed-point unit of strike
    let err = compute_raw_linear_density(fx(1.0), &[UNIT, UNIT + 1], &[UNIT, 0], tol()).unwrap_err();
    assert_eq!(err, SanosError::NonFinite { field: "density", value: i64::MAX });
}

#[test]
fn strike_checks_report_the_first_bad_node() {
    assert_eq!(
        validate_strikes_and_calls(&[5, 3, 0], &[0, 0, 0]),
        Err(SanosError::InvalidOrdering { msg: "strikes must be strictly increasing" })
    );
    assert_eq!(
        validate_strikes_and_calls(&[5, 6, 0], &[0, 0, 0]),
        Err(SanosError::InvalidBound { field: "strike", value: 0, min: 1, max: i64::MAX })
    );
    assert!(validate_strikes_and_calls(&[5, 6], &[0, 0]).is_ok());
}

#[test]
fn quote_proxies_pick_mid_bid_or_ask() {
    let q = CallQuote::new(UNIT, fx(0.2), fx(0.3), UNIT).unwrap();
    assert_eq!(quote_proxy_value(q, InitPriceProxyConfig::Mid), fx(0.25));
    assert_eq!(quote_proxy_value(q, InitPriceProxyConfig::Bid), fx(0.2));
    assert_eq!(quote_proxy_value(q, InitPriceProxyConfig::Ask), fx(0.3));
}

#[test]
fn build_strict_linear_martingale_density_supports_all_price_proxies() {
    let strikes = [0.5, 1.0, 1.5];
    let calls = [0.5, 0.125, 0.0];
    let book = make_book_with_calls(1.0, &strikes, &calls, &calls);
    for proxy in [InitPriceProxyConfig::Mid, InitPriceProxyConfig::Bid, InitPriceProxyConfig::Ask] {
        let q = build_strict_linear_martingale_density(&book, proxy, fx(1e-12)).unwrap();
        assert_eq!(q.marginals().len(), 1);
    }
}

#[test]
fn build_strict_linear_martingale_density_detects_convex_order_violation() {
    let strikes = [0.5, 1.0, 1.5];
    let spread = [0.5, 0.125, 0.0];
    let degenerate = [0.5, 0.0, 0.0];
    let quotes = |calls: &[f64]| {
        strikes
            .iter()
            .zip(calls.iter())
            .map(|(&k, &c)| CallQuote::new(fx(k), fx(c), fx(c), UNIT).unwrap())
            .collect::<Vec<_>>()
    };
    let chain1 = OptionChain::new(fx(0.5), quotes(&spread)).unwrap();
    let chain2 = OptionChain::new(fx(1.0), quotes(&degenerate)).unwrap();
    let book = OptionBook::new(vec![chain1, chain2]).unwrap();
    let err = build_strict_linear_martingale_density(&book, InitPriceProxyConfig::Mid, fx(1e-12))
        .unwrap_err();
    assert!(matches!(err, SanosError::InvalidOrdering { .. }));
}

#[test]
fn build_strict_linear_martingale_density_propagates_raw_density_error() {
    let book = make_book_with_calls(1.0, &[0.5, 1.0], &[0.9, 0.9], &[0.9, 0.9]);
    let err = build_strict_linear_martingale_density(&book, InitPriceProxyConfig::Mid, fx(1e-12))
        .unwrap_err();
    assert!(matches!(err, SanosError::InvalidOrdering { .. }));
}

fn kernel(t: f64, model: &[f64]) -> KernelC {
    KernelC {
        maturity: fx(t),
        market_strikes: vec![UNIT],
        model_strikes: fxs(model),
        c: DenseMat::new(1, model.len(), vec![0; model.len()]).unwrap(),
    }
}

#[test]
fn extract_density_reads_blocks_of_the_solution() {
    let kernels = KernelSet {
        c: vec![kernel(0.5, &[0.5, 1.0, 1.5]), kernel(1.0, &[0.5, 1.5])],
        transitions: vec![],
    };
    let layout = QLayout::from_kernels(&kernels.c).unwrap();
    let x = fxs(&[0.25, 0.5, 0.25, 0.5, 0.5]);
    let q = extract_density(&layout, &x, &kernels).unwrap();
    assert_eq!(q.marginals().len(), 2);
    assert_eq!(q.marginals()[1].probabilities(), fxs(&[0.5, 0.5]));
    assert_eq!(q.marginals()[1].maturity(), fx(1.0));
}

#[test]
fn extract_density_rejects_short_vectors_and_misaligned_layouts() {
    let kernels = KernelSet { c: vec![kernel(0.5, &[0.5, 1.0, 1.5])], transitions: vec![] };
    let layout = QLayout::from_kernels(&kernels.c).unwrap();
    assert_eq!(
        extract_density(&layout, &fxs(&[0.5, 0.5]), &kernels).unwrap_err(),
        SanosError::InvalidOrdering { msg: "solution vector too short for layout" }
    );
    let two = KernelSet {
        c: vec![kernel(0.5, &[0.5, 1.0, 1.5]), kernel(1.0, &[1.0])],
        transitions: vec![],
    };
    assert_eq!(
        extract_density(&layout, &fxs(&[0.25, 0.5, 0.25]), &two).unwrap_err(),
        SanosError::InvalidOrdering { msg: "layout sizes must align with kernel slices" }
    );
    // masses that do not sum to one fail the marginal checks
    assert!(extract_density(&layout, &fxs(&[0.5, 0.5, 0.5]), &kernels).is_err());
}
