use sanos::calibration::build_completed_grids_and_density;
use sanos::error::SanosError;
use sanos::market::{complete_slice_remark_2_8, validate_internal_slice, CompletionConfig};
use sanos::UNIT;

const TOL: i128 = 100;

fn fx(v: &[i64]) -> Vec<i64> {
    v.to_vec()
}

#[test]
fn completion_succeeds_on_clean_slice_and_density_is_martingale() {
    let k = fx(&[
        700_000_000_000,
        900_000_000_000,
        1_000_000_000_000,
        1_100_000_000_000,
        1_300_000_000_000,
    ]);
    let c = fx(&[
        300_010_000_000,
        140_000_000_000,
        80_000_000_000,
        45_000_000_000,
        15_000_000_000,
    ]);
    let cfg = CompletionConfig::default();

    let out = complete_slice_remark_2_8(&k, &c, &cfg).unwrap();
    assert_eq!(out.k[0], 0);
    assert_eq!(out.calls[0], UNIT);
    assert_eq!(out.slopes.len(), out.k.len());
    assert_eq!(out.density.len() + 1, out.k.len());
    assert!(out.density.iter().all(|&p| p >= -(cfg.tol as i128)));

    let sum_p: i128 = out.density.iter().sum();
    let mean_p: i128 = out
        .density
        .iter()
        .enumerate()
        .map(|(i, &p)| p * out.k[i + 1] as i128)
        .sum::<i128>()
        / UNIT as i128;
    assert!((sum_p - UNIT as i128).abs() <= cfg.tol as i128);
    assert!((mean_p - UNIT as i128).abs() <= cfg.tol as i128);
}

#[test]
fn completion_fails_when_internal_calls_are_not_monotone_or_convex() {
    let k = fx(&[800_000_000_000, 950_000_000_000, 1_050_000_000_000, 1_200_000_000_000]);
    let c_bad_monotone = fx(&[220_000_000_000, 180_000_000_000, 190_000_000_000, 100_000_000_000]);
    let err = complete_slice_remark_2_8(&k, &c_bad_monotone, &CompletionConfig::default())
        .unwrap_err();
    let msg = err.message();
    assert!(msg.contains("monotone decreasing"));

    let c_bad_convex = fx(&[220_000_000_000, 120_000_000_000, 115_000_000_000, 50_000_000_000]);
    let err = complete_slice_remark_2_8(&k, &c_bad_convex, &CompletionConfig::default())
        .unwrap_err();
    let msg = err.message();
    assert!(msg.contains("convexity"));
}

#[test]
fn completion_assembles_wings_and_diagnostics() {
    let k = [700_000_000_000, 900_000_000_000, 1_000_000_000_000, 1_100_000_000_000, 1_300_000_000_000];
    let c = [300_010_000_000, 140_000_000_000, 80_000_000_000, 45_000_000_000, 15_000_000_000];
    let out = complete_slice_remark_2_8(&k, &c, &CompletionConfig::default()).unwrap();
    // K1 = 0.2 * K2 and KN = 2 * K_last are admissible at once.
    assert_eq!(out.diagnostics.k1, 140_000_000_000);
    assert_eq!(out.diagnostics.k_n, 2_600_000_000_000);
    assert_eq!(
        out.k,
        vec![0, 140_000_000_000, 700_000_000_000, 900_000_000_000, 1_000_000_000_000,
            1_100_000_000_000, 1_300_000_000_000, 2_600_000_000_000]
    );
    assert_eq!(
        out.calls,
        vec![UNIT, 860_000_000_000, 300_010_000_000, 140_000_000_000, 80_000_000_000,
            45_000_000_000, 15_000_000_000, 0]
    );
    // dC0 = -1 exactly; dC1 = (0.30001 - 0.86) / 0.56 rounded toward zero.
    assert_eq!(out.slopes[0], -1_000_000_000_000);
    assert_eq!(out.slopes[1], -999_982_142_857);
    assert_eq!(out.slopes[2], -800_050_000_000);
    assert_eq!(*out.slopes.last().unwrap(), 0);
    assert_eq!(out.diagnostics.d_c0, out.slopes[0]);
    assert_eq!(out.diagnostics.d_c_last1, out.slopes[out.slopes.len() - 2]);
    // The increments telescope to exactly one unit of mass.
    assert_eq!(out.diagnostics.sum_p, UNIT as i128);
    assert!((out.diagnostics.mean_p - UNIT as i128).abs() <= TOL);
    assert_eq!(out.diagnostics.min_p, *out.density.iter().min().unwrap());
}

#[test]
fn completion_widens_k1_until_admissible() {
    // With K1 = 0.99999 * K2 the left slope is positive: one halving is needed.
    let cfg = CompletionConfig { k1_ratio: 999_990_000_000, ..CompletionConfig::default() };
    let k = [700_000_000_000, 900_000_000_000, 1_000_000_000_000, 1_100_000_000_000, 1_300_000_000_000];
    let c = [300_010_000_000, 140_000_000_000, 80_000_000_000, 45_000_000_000, 15_000_000_000];
    let out = complete_slice_remark_2_8(&k, &c, &cfg).unwrap();
    assert_eq!(out.diagnostics.k1, 349_996_500_000);
}

#[test]
fn completion_reports_k1_search_failure() {
    // One step halves K1 and the budget is spent before the new candidate is tried.
    let cfg = CompletionConfig { k1_ratio: 999_990_000_000, max_iters: 1, ..CompletionConfig::default() };
    let k = [700_000_000_000, 900_000_000_000, 1_000_000_000_000, 1_100_000_000_000, 1_300_000_000_000];
    let c = [300_010_000_000, 140_000_000_000, 80_000_000_000, 45_000_000_000, 15_000_000_000];
    let err = complete_slice_remark_2_8(&k, &c, &cfg).unwrap_err();
    assert!(err.message().starts_with("failed to find K1 satisfying -1 < dC1 < dC2 with margin: K1=0.349996500000, K2=0.700000000000, C2=0.300010000000, dC1=-0.999971428857, dC2=-0.800050000000, margin=0.000000000100"));
}

#[test]
fn completion_rejects_invalid_config_first() {
    let cfg = CompletionConfig { max_iters: 0, ..CompletionConfig::default() };
    let err = complete_slice_remark_2_8(&[1], &[1], &cfg).unwrap_err();
    assert_eq!(err.message(), "invalid CompletionConfig.max_iters=0, must be >= 1");
}

#[test]
fn internal_slice_checks_in_order() {
    let tol = 100;
    let e = validate_internal_slice(&[1, 2], &[1], tol).unwrap_err();
    assert_eq!(e.message(), "internal slice length mismatch: strikes=2, calls=1");
    let e = validate_internal_slice(&[1, 2], &[1, 2], tol).unwrap_err();
    assert_eq!(e.message(), "Remark 2.8 strict completion requires at least 3 internal strikes, got 2");
    let e = validate_internal_slice(&[900_000_000_000, 0, 1_100_000_000_000], &[1, 1, 1], tol)
        .unwrap_err();
    assert_eq!(e.message(), "invalid strike at i=1: K=0.000000000000 must be > 0");
    let e = validate_internal_slice(
        &[900_000_000_000, 1_000_000_000_000, 1_100_000_000_000],
        &[500_000_000_000, UNIT, 1],
        tol,
    )
    .unwrap_err();
    assert_eq!(e.message(), "invalid call at i=1: C=1.000000000000 must satisfy 0 < C < 1");
    let e = validate_internal_slice(
        &[900_000_000_000, 900_000_000_000, 1_100_000_000_000],
        &[3, 2, 1],
        tol,
    )
    .unwrap_err();
    assert_eq!(
        e.message(),
        "strikes not strictly increasing at i=1: K_prev=0.900000000000, K=0.900000000000"
    );
    let e = validate_internal_slice(
        &[1_100_000_000_000, 1_200_000_000_000, 1_300_000_000_000],
        &[3, 2, 1],
        tol,
    )
    .unwrap_err();
    assert_eq!(
        e.message(),
        "internal strikes must straddle 1.0: K_min=1.100000000000, K_max=1.300000000000"
    );
    assert!(validate_internal_slice(
        &[900_000_000_000, 1_000_000_000_000, 1_100_000_000_000],
        &[150_000_000_000, 80_000_000_000, 30_000_000_000],
        tol,
    )
    .is_ok());
}

fn clean_slice() -> (Vec<i64>, Vec<i64>) {
    (
        vec![700_000_000_000, 900_000_000_000, 1_000_000_000_000, 1_100_000_000_000, 1_300_000_000_000],
        vec![300_010_000_000, 140_000_000_000, 80_000_000_000, 45_000_000_000, 15_000_000_000],
    )
}

#[test]
fn completed_grids_and_density_from_backbone_calls() {
    let (k, c) = clean_slice();
    let grids = vec![(1_000_000_000_000, k.clone()), (500_000_000_000, k.clone())];
    let calls = vec![c.clone(), c.clone()];
    let cfg = CompletionConfig::default();
    let (out_grids, density) =
        build_completed_grids_and_density(&grids, &calls, &cfg, 1_000_000).unwrap();
    let slice = complete_slice_remark_2_8(&k, &c, &cfg).unwrap();
    // Grids keep the input order and drop K0 = 0.
    assert_eq!(out_grids.len(), 2);
    assert_eq!(out_grids[0].0, 1_000_000_000_000);
    assert_eq!(out_grids[1].0, 500_000_000_000);
    assert_eq!(out_grids[0].1, slice.k[1..].to_vec());
    // Marginals come by increasing maturity, with the completed atoms.
    let ms = density.marginals();
    assert_eq!(ms.len(), 2);
    assert_eq!(ms[0].maturity(), 500_000_000_000);
    assert_eq!(ms[1].maturity(), 1_000_000_000_000);
    let atoms: Vec<(i64, i64)> = slice.k[1..]
        .iter()
        .copied()
        .zip(slice.density.iter().map(|&p| p as i64))
        .collect();
    assert_eq!(ms[0].atoms(), &atoms);
    assert_eq!(ms[1].atoms(), &atoms);
}

#[test]
fn completed_grids_and_density_reports_first_failing_slice() {
    let (k, c) = clean_slice();
    let bad = vec![220_000_000_000, 180_000_000_000, 190_000_000_000, 100_000_000_000, 50_000_000_000];
    let grids = vec![(500_000_000_000, k.clone()), (1_000_000_000_000, k.clone())];
    let calls = vec![c.clone(), bad];
    let err = build_completed_grids_and_density(&grids, &calls, &CompletionConfig::default(), 0)
        .unwrap_err();
    assert!(err.message().starts_with("calls not monotone decreasing at i=2"));
}

#[test]
fn completed_grids_and_density_rejects_repeated_maturity_and_empty_input() {
    let (k, c) = clean_slice();
    let grids = vec![(500_000_000_000, k.clone()), (500_000_000_000, k.clone())];
    let calls = vec![c.clone(), c.clone()];
    let err = build_completed_grids_and_density(&grids, &calls, &CompletionConfig::default(), 0)
        .unwrap_err();
    assert_eq!(err, SanosError::DuplicateKey { what: "maturity", value: 500_000_000_000 });
    let err = build_completed_grids_and_density(&[], &[], &CompletionConfig::default(), 0)
        .unwrap_err();
    assert_eq!(err, SanosError::EmptyCollection { what: "MartingaleDensity.marginals" });
}
