use sanos::calibration::{check_calibrated_density, ConvexOrderValidationMode};
use sanos::density::{DensityTolerances, MarginalDensity, MartingaleDensity};
use sanos::error::SanosError;
use sanos::UNIT;

/// Fixed-point value of a real number.
fn fx(v: f64) -> i64 {
    (v * UNIT as f64).round() as i64
}

fn marginal(t: f64, atoms: &[(f64, f64)], tol: DensityTolerances) -> MarginalDensity {
    let atoms = atoms.iter().map(|&(k, q)| (fx(k), fx(q))).collect();
    MarginalDensity::new(fx(t), atoms, tol).unwrap()
}

#[test]
fn martingale_density_convex_order_passes_for_same_marginals() {
    let tol = DensityTolerances::from_tol(fx(1e-12)).unwrap();

    let m1 = marginal(0.5, &[(0.9, 0.5), (1.1, 0.5)], tol);
    let m2 = marginal(1.0, &[(0.9, 0.5), (1.1, 0.5)], tol);

    let md = MartingaleDensity::new(vec![m2.clone(), m1.clone()]).unwrap();
    md.validate_marginals(tol).unwrap();
    md.validate_convex_order(tol).unwrap();
}

#[test]
fn martingale_density_convex_order_fails_when_more_concentrated_later() {
    let tol = DensityTolerances::new(fx(1e-12), fx(1e-12), fx(1e-12)).unwrap();

    let early = marginal(0.5, &[(0.8, 0.5), (1.2, 0.5)], tol);
    let late = marginal(1.0, &[(1.0, 1.0)], tol);

    let md = MartingaleDensity::new(vec![early, late]).unwrap();
    let err = md.validate_convex_order(tol).unwrap_err();
    let msg = err.message();
    assert!(msg.contains("convex order violated"));
}

#[test]
fn martingale_density_sorts_marginals_by_maturity() {
    let tol = DensityTolerances::from_tol(fx(1e-12)).unwrap();
    let a = marginal(1.0, &[(0.9, 0.5), (1.1, 0.5)], tol);
    let b = marginal(0.25, &[(0.95, 0.5), (1.05, 0.5)], tol);
    let c = marginal(0.5, &[(1.0, 1.0)], tol);
    let md = MartingaleDensity::new(vec![a, b, c]).unwrap();
    let ts: Vec<i64> = md.marginals().iter().map(|m| m.maturity()).collect();
    assert_eq!(ts, vec![fx(0.25), fx(0.5), fx(1.0)]);
}

#[test]
fn martingale_density_rejects_empty_and_reports_least_repeated_maturity() {
    assert_eq!(
        MartingaleDensity::new(vec![]).unwrap_err(),
        SanosError::EmptyCollection { what: "MartingaleDensity.marginals" }
    );
    let tol = DensityTolerances::from_tol(fx(1e-12)).unwrap();
    let ms = vec![
        marginal(2.0, &[(1.0, 1.0)], tol),
        marginal(1.0, &[(1.0, 1.0)], tol),
        marginal(2.0, &[(1.0, 1.0)], tol),
        marginal(1.0, &[(1.0, 1.0)], tol),
    ];
    assert_eq!(
        MartingaleDensity::new(ms).unwrap_err(),
        SanosError::DuplicateKey { what: "maturity", value: fx(1.0) }
    );
}

#[test]
fn marginal_density_rejects_bad_inputs() {
    let tol = DensityTolerances::from_tol(fx(1e-12)).unwrap();
    // mean 0.75 instead of 1
    let err = MarginalDensity::new(fx(1.0), vec![(fx(0.5), fx(0.5)), (fx(1.0), fx(0.5))], tol)
        .unwrap_err();
    assert!(matches!(err, SanosError::InvalidOrdering { .. }));
    // mass 0.9
    let err = MarginalDensity::new(fx(1.0), vec![(fx(1.0), fx(0.9))], tol).unwrap_err();
    assert!(matches!(err, SanosError::InvalidOrdering { .. }));
    // non-increasing strikes
    let err = MarginalDensity::new(fx(1.0), vec![(fx(1.0), fx(0.5)), (fx(1.0), fx(0.5))], tol)
        .unwrap_err();
    assert!(matches!(err, SanosError::InvalidOrdering { .. }));
    // non-positive strike
    let err = MarginalDensity::new(fx(1.0), vec![(0, fx(1.0))], tol).unwrap_err();
    assert!(matches!(err, SanosError::InvalidBound { field: "strike", .. }));
    // negative atom below tolerance
    let err = MarginalDensity::new(
        fx(1.0),
        vec![(fx(0.5), fx(-0.5)), (fx(1.0), fx(0.5)), (fx(1.5), fx(1.0))],
        tol,
    )
    .unwrap_err();
    assert!(matches!(err, SanosError::InvalidBound { field: "probability", .. }));
    // non-positive maturity, empty atoms
    assert!(matches!(
        MarginalDensity::new(0, vec![(fx(1.0), fx(1.0))], tol).unwrap_err(),
        SanosError::InvalidBound { field: "maturity", .. }
    ));
    assert!(matches!(
        MarginalDensity::new(fx(1.0), vec![], tol).unwrap_err(),
        SanosError::EmptyCollection { .. }
    ));
}

#[test]
fn marginal_density_call_transform_exact_values() {
    let tol = DensityTolerances::from_tol(0).unwrap();
    let m = marginal(0.5, &[(0.8, 0.5), (1.2, 0.5)], tol);
    // C(0.8) = 0.5 * 0.4 = 0.2, in squared units
    let unit2 = (UNIT as i128) * (UNIT as i128);
    assert_eq!(m.call(fx(0.8)).unwrap(), unit2 / 5);
    // C(1.0) = 0.5 * 0.2 = 0.1
    assert_eq!(m.call(fx(1.0)).unwrap(), unit2 / 10);
    // above every strike
    assert_eq!(m.call(fx(2.0)).unwrap(), 0);
    // at zero: the mean
    assert_eq!(m.call(0).unwrap(), unit2);
    assert!(matches!(m.call(-1).unwrap_err(), SanosError::InvalidBound { field: "kappa", .. }));
    assert_eq!(m.probabilities(), vec![fx(0.5), fx(0.5)]);
}

#[test]
fn convex_order_on_grid_extends_between_grid_points() {
    // law: the grid check also orders the call transforms between grid points
    let tol = DensityTolerances::from_tol(0).unwrap();
    let early = marginal(0.5, &[(0.9, 0.5), (1.1, 0.5)], tol);
    let late = marginal(1.0, &[(0.8, 0.5), (1.2, 0.5)], tol);
    let md = MartingaleDensity::new(vec![early.clone(), late.clone()]).unwrap();
    md.validate_convex_order(tol).unwrap();
    let mut k = fx(0.8);
    while k <= fx(1.5) {
        assert!(early.call(k).unwrap() <= late.call(k).unwrap());
        k += fx(0.01);
    }
}

#[test]
fn density_tolerances_reject_negative_values() {
    assert!(matches!(
        DensityTolerances::from_tol(-1).unwrap_err(),
        SanosError::InvalidBound { field: "mass", .. }
    ));
    assert!(matches!(
        DensityTolerances::new(0, -1, 0).unwrap_err(),
        SanosError::InvalidBound { field: "mean", .. }
    ));
    assert!(matches!(
        DensityTolerances::new(0, 0, -1).unwrap_err(),
        SanosError::InvalidBound { field: "order", .. }
    ));
}

#[test]
fn calibrated_density_check_follows_convex_order_mode() {
    let tol = DensityTolerances::from_tol(fx(1e-12)).unwrap();
    let ok = MartingaleDensity::new(vec![
        marginal(0.5, &[(0.9, 0.5), (1.1, 0.5)], tol),
        marginal(1.0, &[(0.8, 0.5), (1.2, 0.5)], tol),
    ])
    .unwrap();
    assert_eq!(check_calibrated_density(&ok, ConvexOrderValidationMode::Error), Ok(false));

    let bad = || {
        MartingaleDensity::new(vec![
            marginal(0.5, &[(0.8, 0.5), (1.2, 0.5)], tol),
            marginal(1.0, &[(1.0, 1.0)], tol),
        ])
        .unwrap()
    };
    assert_eq!(
        check_calibrated_density(&bad(), ConvexOrderValidationMode::Error).unwrap_err().message(),
        "convex order violated: call-transform decreases with maturity"
    );
    assert_eq!(check_calibrated_density(&bad(), ConvexOrderValidationMode::Warn), Ok(true));

    // A marginal accepted at a loose tolerance fails the calibrated check.
    let loose = DensityTolerances::from_tol(fx(1e-4)).unwrap();
    let off = MartingaleDensity::new(vec![marginal(1.0, &[(1.0, 1.00001)], loose)]).unwrap();
    assert!(check_calibrated_density(&off, ConvexOrderValidationMode::Warn).is_err());
}

#[test]
fn martingale_density_rebuild_is_idempotent_and_order_insensitive() {
    let tol = DensityTolerances::from_tol(fx(1e-12)).unwrap();
    let a = marginal(1.0, &[(0.8, 0.5), (1.2, 0.5)], tol);
    let b = marginal(0.25, &[(0.95, 0.5), (1.05, 0.5)], tol);
    let c = marginal(0.5, &[(0.9, 0.5), (1.1, 0.5)], tol);
    let md = MartingaleDensity::new(vec![a.clone(), b.clone(), c.clone()]).unwrap();
    let view = |d: &MartingaleDensity| -> Vec<(i64, Vec<(i64, i64)>)> {
        d.marginals().iter().map(|m| (m.maturity(), m.atoms().clone())).collect()
    };
    let again = MartingaleDensity::new(md.marginals().to_vec()).unwrap();
    assert_eq!(view(&again), view(&md));
    let shuffled = MartingaleDensity::new(vec![c, a, b]).unwrap();
    assert_eq!(view(&shuffled), view(&md));
}
