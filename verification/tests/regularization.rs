use sanos::error::SanosError;
use sanos::fit::regularization::{build_tikhonov, isqrt, RegularizationMatrix, Tikhonov};
use sanos::fit::{LambdaScaling, QLayout, RegularizationConfig, RegularizationMode, SmoothingOrder};
use sanos::UNIT;

/// Fixed-point value of a real number.
fn fx(v: f64) -> i64 {
    (v * UNIT as f64).round() as i64
}

fn layout(sizes: &[usize], maturities: &[f64]) -> QLayout {
    let mut offsets = Vec::new();
    let mut total = 0;
    for &s in sizes {
        offsets.push(total);
        total += s;
    }
    QLayout {
        offsets,
        sizes: sizes.to_vec(),
        maturities: maturities.iter().map(|&t| fx(t)).collect(),
        total,
    }
}

fn layout_3_4() -> QLayout {
    layout(&[3, 4], &[0.5, 1.0])
}

fn cfg(mode: RegularizationMode, lambda: f64) -> RegularizationConfig {
    RegularizationConfig { mode, lambda: fx(lambda), ..RegularizationConfig::default() }
}

fn d1() -> RegularizationMode {
    RegularizationMode::Smoothing { order: SmoothingOrder::D1 }
}

fn dense(t: &Tikhonov) -> (usize, usize, Vec<i64>) {
    match &t.matrix {
        RegularizationMatrix::Dense { nrows, ncols, data } => (*nrows, *ncols, data.clone()),
        RegularizationMatrix::Identity { n } => {
            let mut data = vec![0; n * n];
            for i in 0..*n {
                data[i * n + i] = UNIT;
            }
            (*n, *n, data)
        }
    }
}

fn rows(t: &Tikhonov) -> usize {
    dense(t).0
}

#[test]
fn ridge_dimensions() {
    let reg = build_tikhonov(&cfg(RegularizationMode::Ridge, 0.01), &layout_3_4()).unwrap().unwrap();
    assert_eq!(rows(&reg), 7);
    assert_eq!(dense(&reg).1, 7);
    assert_eq!(reg.matrix, RegularizationMatrix::Identity { n: 7 });
}

#[test]
fn smoothing_d1_dimensions() {
    let reg = build_tikhonov(&cfg(d1(), 0.01), &layout_3_4()).unwrap().unwrap();
    assert_eq!(rows(&reg), 5);
    assert_eq!(dense(&reg).1, 7);
}

#[test]
fn smoothing_d2_dimensions() {
    let mode = RegularizationMode::Smoothing { order: SmoothingOrder::D2 };
    let reg = build_tikhonov(&cfg(mode, 0.01), &layout_3_4()).unwrap().unwrap();
    assert_eq!(rows(&reg), 3);
    assert_eq!(dense(&reg).1, 7);
}

#[test]
fn smoothing_d1_values() {
    let reg = build_tikhonov(&cfg(d1(), 1.0), &layout(&[4], &[1.0])).unwrap().unwrap();
    let d = dense(&reg).2;
    let one = UNIT;
    assert_eq!(d, vec![-one, one, 0, 0, 0, -one, one, 0, 0, 0, -one, one]);
}

#[test]
fn smoothing_d2_values() {
    let mode = RegularizationMode::Smoothing { order: SmoothingOrder::D2 };
    let reg = build_tikhonov(&cfg(mode, 1.0), &layout(&[4], &[1.0])).unwrap().unwrap();
    let d = dense(&reg).2;
    assert_eq!(d[0], fx(1.0));
    assert_eq!(d[1], fx(-2.0));
    assert_eq!(d[2], fx(1.0));
    assert_eq!(d[3], 0);
    assert_eq!(d[4], 0);
    assert_eq!(d[5], fx(1.0));
    assert_eq!(d[6], fx(-2.0));
    assert_eq!(d[7], fx(1.0));
}

#[test]
fn block_diagonal_structure() {
    let reg = build_tikhonov(&cfg(d1(), 0.5), &layout(&[3, 3], &[0.5, 1.0])).unwrap().unwrap();
    assert_eq!(rows(&reg), 4);
    let d = dense(&reg).2;
    assert_eq!(d[0], fx(-1.0));
    assert_eq!(d[1], fx(1.0));
    assert_eq!(d[3], 0);
    assert_eq!(d[4], 0);
    assert_eq!(d[12], 0);
    assert_eq!(d[13], 0);
    assert_eq!(d[14], 0);
    assert_eq!(d[15], fx(-1.0));
    assert_eq!(d[16], fx(1.0));
    assert_eq!(d[17], 0);
}

#[test]
fn none_mode_returns_none() {
    let c = RegularizationConfig::default();
    assert!(build_tikhonov(&c, &layout_3_4()).unwrap().is_none());
}

#[test]
fn target_is_zero() {
    let reg = build_tikhonov(&cfg(d1(), 0.1), &layout_3_4()).unwrap().unwrap();
    assert!(reg.target.iter().all(|&v| v == 0));
    assert_eq!(reg.target.len(), 5);
    assert_eq!(reg.lambda, fx(0.1));
}

#[test]
fn per_maturity_scaling_applies_sqrt() {
    let c = RegularizationConfig {
        mode: d1(),
        lambda: fx(1.0),
        lambda_scaling: LambdaScaling { knots: vec![(fx(0.02), fx(4.0)), (fx(1.0), fx(1.0))] },
    };
    let reg = build_tikhonov(&c, &layout(&[3, 3], &[0.02, 1.0])).unwrap().unwrap();
    let d = dense(&reg).2;
    assert_eq!(d[0], fx(-2.0));
    assert_eq!(d[1], fx(2.0));
    assert_eq!(d[15], fx(-1.0));
    assert_eq!(d[16], fx(1.0));
}

#[test]
fn uniform_scaling_matches_unscaled() {
    let plain = cfg(d1(), 0.5);
    let scaled = RegularizationConfig {
        mode: d1(),
        lambda: fx(0.5),
        lambda_scaling: LambdaScaling { knots: vec![] },
    };
    let a = build_tikhonov(&plain, &layout_3_4()).unwrap().unwrap();
    let b = build_tikhonov(&scaled, &layout_3_4()).unwrap().unwrap();
    assert_eq!(dense(&a).2, dense(&b).2);
}

#[test]
fn scaled_ridge_puts_square_roots_on_the_diagonal() {
    let c = RegularizationConfig {
        mode: RegularizationMode::Ridge,
        lambda: fx(1.0),
        lambda_scaling: LambdaScaling { knots: vec![(fx(0.5), fx(9.0)), (fx(1.0), fx(4.0))] },
    };
    let reg = build_tikhonov(&c, &layout(&[1, 2], &[0.5, 1.0])).unwrap().unwrap();
    let (n, m, d) = dense(&reg);
    assert_eq!((n, m), (3, 3));
    assert_eq!(d, vec![fx(3.0), 0, 0, 0, fx(2.0), 0, 0, 0, fx(2.0)]);
}

#[test]
fn smoothing_without_rows_is_rejected() {
    let mode = RegularizationMode::Smoothing { order: SmoothingOrder::D2 };
    let err = build_tikhonov(&cfg(mode, 1.0), &layout(&[2, 1], &[0.5, 1.0])).unwrap_err();
    assert_eq!(
        err.message(),
        "smoothing regularization requires at least 2 strikes per maturity (D1) or 3 (D2)"
    );
}

#[test]
fn integer_square_root_rounds_down() {
    assert_eq!(isqrt(0), 0);
    assert_eq!(isqrt(15), 3);
    assert_eq!(isqrt(16), 4);
    assert_eq!(isqrt(u128::MAX), u64::MAX as u128);
}

#[test]
fn tikhonov_reports_invalid_lambda_scaling_knots() {
    let bad = LambdaScaling { knots: vec![(fx(1.0), fx(1.0)), (fx(0.5), fx(2.0))] };
    let c = RegularizationConfig { mode: RegularizationMode::Ridge, lambda: fx(0.1), lambda_scaling: bad.clone() };
    assert_eq!(
        build_tikhonov(&c, &layout_3_4()).unwrap_err(),
        SanosError::InvalidOrdering { msg: "lambda_scaling knots must be strictly increasing in maturity" }
    );
    let c = RegularizationConfig { mode: RegularizationMode::Off, lambda: fx(0.1), lambda_scaling: bad };
    assert!(build_tikhonov(&c, &layout_3_4()).unwrap().is_none());
}
