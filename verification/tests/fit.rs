use sanos::error::SanosError;
use sanos::fit::{
    DenseMat, FitConfig, KernelC, KernelSet, KernelTransition, LambdaScaling, ObjectiveConfig,
    LpModel, QLayout, QuoteWeightMode, SanosLpBuilder, Sense,
};
use sanos::fit::residual::build_residual_problem;
use sanos::market::{CallQuote, OptionBook, OptionChain};
use sanos::UNIT;

/// Fixed-point value of a real number.
fn fx(v: f64) -> i64 {
    (v * UNIT as f64).round() as i64
}

fn mat(nrows: usize, ncols: usize, f: impl Fn(usize, usize) -> f64) -> DenseMat {
    let mut data = Vec::new();
    for r in 0..nrows {
        for c in 0..ncols {
            data.push(fx(f(r, c)));
        }
    }
    DenseMat::new(nrows, ncols, data).unwrap()
}

/// Kernel of one maturity: call payoffs `(k_i - K_m)^+` of the model atoms.
fn kernel(t: f64, market: &[f64], model: &[f64]) -> KernelC {
    KernelC {
        maturity: fx(t),
        market_strikes: market.iter().map(|&k| fx(k)).collect(),
        model_strikes: model.iter().map(|&k| fx(k)).collect(),
        c: mat(market.len(), model.len(), |m, i| (model[i] - market[m]).max(0.0)),
    }
}

fn transition(t: f64, n_cur: usize, n_prev: usize, both: bool) -> KernelTransition {
    let u = mat(n_cur, n_cur, |r, c| if r == c { 1.0 } else { 0.0 });
    let r = mat(n_cur, n_prev, |r, c| if r == c { 0.5 } else { 0.0 });
    KernelTransition {
        maturity: fx(t),
        u: u.clone(),
        r: r.clone(),
        u_alt: if both { Some(u) } else { None },
        r_alt: if both { Some(r) } else { None },
    }
}

fn quote(k: f64, bid: f64, ask: f64) -> CallQuote {
    CallQuote::new(fx(k), fx(bid), fx(ask), UNIT).unwrap()
}

fn sample_book() -> OptionBook {
    let q0 = vec![quote(0.9, 0.12, 0.12), quote(1.0, 0.08, 0.08), quote(1.1, 0.05, 0.05)];
    let q1 = vec![quote(0.9, 0.18, 0.18), quote(1.0, 0.15, 0.15), quote(1.1, 0.12, 0.12)];
    let c0 = OptionChain::new(fx(0.5), q0).unwrap();
    let c1 = OptionChain::new(fx(1.0), q1).unwrap();
    OptionBook::new(vec![c0, c1]).unwrap()
}

fn sample_kernels(both: bool) -> KernelSet {
    let strikes = [0.9, 1.0, 1.1];
    KernelSet {
        c: vec![kernel(0.5, &strikes, &strikes), kernel(1.0, &strikes, &strikes)],
        transitions: vec![transition(1.0, 3, 3, both)],
    }
}

fn time_rows(built: &sanos::fit::BuiltLp) -> usize {
    built.model.constraints.iter().filter(|c| c.name.starts_with("time_")).count()
}

#[test]
fn fit_config_default_validates() {
    let cfg = FitConfig::default();
    assert!(cfg.validate().is_ok());
}

#[test]
fn weighting_defaults_match_legacy_behavior() {
    let cfg = FitConfig::default();
    assert_eq!(cfg.weighting.mode, QuoteWeightMode::BidAskSpread);
    assert_eq!(cfg.weighting.spread_floor, fx(1e-12));
    assert_eq!(cfg.weighting.vega_floor, fx(1e-12));
}

#[test]
fn invalid_weighting_floor_is_rejected() {
    let mut cfg = FitConfig::default();
    cfg.weighting.vega_floor = 0;
    assert!(matches!(
        cfg.validate(),
        Err(SanosError::InvalidBound { field: "weighting.vega_floor", .. })
    ));
}

#[test]
fn lambda_scaling_interpolates() {
    let scaling = LambdaScaling { knots: vec![(fx(0.1), fx(10.0)), (fx(1.0), fx(1.0))] };
    assert_eq!(scaling.scale_at(fx(0.55)), fx(5.5));
    assert_eq!(scaling.scale_at(fx(0.01)), fx(10.0));
    assert_eq!(scaling.scale_at(fx(5.0)), fx(1.0));
}

#[test]
fn layout_offsets_are_correct() {
    let book = sample_book();
    let kernels = sample_kernels(false);
    let cfg = FitConfig::default();
    let (_problem, layout) = build_residual_problem(&book, &kernels, &cfg).unwrap();
    for j in 0..layout.sizes.len() {
        assert_eq!(layout.offsets[j], layout.sizes[..j].iter().sum::<usize>());
    }
    let direct = QLayout::from_kernels(&kernels.c).unwrap();
    assert_eq!(direct, layout);
}

#[test]
fn build_problem_succeeds() {
    let book = sample_book();
    let kernels = sample_kernels(false);
    let cfg = FitConfig::default();
    let (problem, layout) = build_residual_problem(&book, &kernels, &cfg).unwrap();
    assert_eq!(layout.total, 6);
    assert_eq!(problem.a.ncols, 6);
    assert_eq!(problem.a.nrows, 6);
    assert_eq!(problem.a.data.len(), 36);
    assert_eq!(problem.b.len(), 6);
    assert_eq!(problem.eq.nrows, 4);
    assert_eq!(problem.eq_rhs, vec![UNIT as i128; 4]);
    assert_eq!(problem.ineq.nrows, 3);
    assert_eq!(problem.ineq_rhs, vec![0; 3]);
    assert!(problem.nonnegative);
}

#[test]
fn residual_rows_are_weighted_kernel_rows() {
    let q0 = CallQuote::new(fx(0.9), fx(0.10), fx(0.12), UNIT).unwrap();
    let book = OptionBook::new(vec![OptionChain::new(fx(0.5), vec![q0]).unwrap()]).unwrap();
    let kernels = KernelSet { c: vec![kernel(0.5, &[0.9], &[0.8, 1.0, 1.2])], transitions: vec![] };
    let mut cfg = FitConfig::default();
    cfg.constraints.enforce_simplex = false;
    cfg.constraints.include_time_constraints = false;
    let (p, _) = build_residual_problem(&book, &kernels, &cfg).unwrap();
    // weight 1 / spread 0.02 = 50; kernel row (0, 0.1, 0.3)
    assert_eq!(p.a.data, vec![0, fx(5.0) as i128, fx(15.0) as i128]);
    assert_eq!(p.b, vec![fx(5.5) as i128]);
    // mean row only: the model strikes
    assert_eq!(p.eq.data, vec![fx(0.8) as i128, fx(1.0) as i128, fx(1.2) as i128]);
    assert_eq!(p.ineq.nrows, 0);
}

#[test]
fn residual_calendar_rows_negate_u_and_keep_r() {
    let book = sample_book();
    let kernels = sample_kernels(false);
    let (p, _) = build_residual_problem(&book, &kernels, &FitConfig::default()).unwrap();
    // row 0: -1 on q_1_0 (column 3), 0.5 on q_0_0 (column 0)
    assert_eq!(&p.ineq.data[0..6], &[fx(0.5) as i128, 0, 0, -(UNIT as i128), 0, 0]);
}

#[test]
fn lp_time_constraints_lp_builder_adds_time_constraints_when_enabled() {
    let book = sample_book();
    let kernels = sample_kernels(false);
    let fit = FitConfig::default();
    let built = SanosLpBuilder.build(&book, &kernels, &fit, &ObjectiveConfig::HardBidAsk).unwrap();
    let expected: usize = kernels.transitions.iter().map(|tr| tr.u.nrows).sum();
    assert_eq!(time_rows(&built), expected);
}

#[test]
fn builder_lp_builder_adds_time_constraints_when_enabled() {
    let book = sample_book();
    let kernels = sample_kernels(false);
    let fit = FitConfig::default();
    let built = SanosLpBuilder.build(&book, &kernels, &fit, &ObjectiveConfig::HardBidAsk).unwrap();
    let expected: usize = kernels.transitions.iter().map(|tr| tr.u.nrows).sum();
    assert_eq!(time_rows(&built), expected);
}

#[test]
fn lp_time_constraints_lp_builder_skips_time_constraints_when_disabled() {
    let book = sample_book();
    let kernels = sample_kernels(false);
    let mut fit = FitConfig::default();
    fit.constraints.include_time_constraints = false;
    let built = SanosLpBuilder.build(&book, &kernels, &fit, &ObjectiveConfig::HardBidAsk).unwrap();
    assert_eq!(time_rows(&built), 0);
}

#[test]
fn builder_lp_builder_skips_time_constraints_when_disabled() {
    let book = sample_book();
    let kernels = sample_kernels(false);
    let mut fit = FitConfig::default();
    fit.constraints.include_time_constraints = false;
    let built = SanosLpBuilder.build(&book, &kernels, &fit, &ObjectiveConfig::HardBidAsk).unwrap();
    assert_eq!(time_rows(&built), 0);
}

#[test]
fn lp_builder_adds_both_time_constraint_blocks_for_omega_both() {
    let book = sample_book();
    let kernels = sample_kernels(true);
    assert!(kernels.transitions.iter().all(|tr| tr.u_alt.is_some() && tr.r_alt.is_some()));
    let fit = FitConfig::default();
    let built = SanosLpBuilder.build(&book, &kernels, &fit, &ObjectiveConfig::HardBidAsk).unwrap();
    let expected: usize = kernels.transitions.iter().map(|tr| tr.u.nrows * 2).sum();
    assert_eq!(time_rows(&built), expected);
}

fn hinge(penalty: f64, eps: f64) -> ObjectiveConfig {
    ObjectiveConfig::HingeBidAsk { slack_penalty: fx(penalty), epsilon_inside: fx(eps) }
}

#[test]
fn lp_time_constraints_hinge_bid_ask_objective_builds() {
    let book = sample_book();
    let kernels = sample_kernels(false);
    let built =
        SanosLpBuilder.build(&book, &kernels, &FitConfig::default(), &hinge(1000.0, 0.0)).unwrap();
    assert!(!built.model.objective.terms.is_empty());
}

#[test]
fn builder_hinge_bid_ask_objective_builds() {
    let book = sample_book();
    let kernels = sample_kernels(false);
    let built =
        SanosLpBuilder.build(&book, &kernels, &FitConfig::default(), &hinge(1000.0, 0.0)).unwrap();
    assert!(!built.model.objective.terms.is_empty());
}

fn objective_coef(built: &sanos::fit::BuiltLp, var_name: &str) -> f64 {
    let vid = built
        .model
        .vars
        .iter()
        .position(|v| v.name == var_name)
        .expect("variable must exist");
    built
        .model
        .objective
        .terms
        .iter()
        .find(|t| t.var == vid)
        .map(|t| t.coef as f64)
        .unwrap_or(0.0)
}

fn inverse_spread_case() -> sanos::fit::BuiltLp {
    let q0 = quote(0.9, 0.25, 0.26);
    let q1 = quote(1.1, 0.08, 0.18);
    let book = OptionBook::new(vec![OptionChain::new(fx(0.5), vec![q0, q1]).unwrap()]).unwrap();
    let kernels = KernelSet {
        c: vec![kernel(0.5, &[0.9, 1.1], &[0.9, 1.0, 1.1])],
        transitions: vec![],
    };
    SanosLpBuilder.build(&book, &kernels, &FitConfig::default(), &hinge(1.0, 1.0)).unwrap()
}

#[test]
fn lp_time_constraints_hinge_objective_uses_inverse_spread_weights() {
    let built = inverse_spread_case();
    let e0 = objective_coef(&built, "e_mid_0_0");
    let e1 = objective_coef(&built, "e_mid_0_1");
    let s0 = objective_coef(&built, "s_bid_0_0");
    let s1 = objective_coef(&built, "s_bid_0_1");
    assert!((e0 / e1 - 10.0).abs() < 1e-12, "e_mid ratio expected 10, got {}", e0 / e1);
    assert!((s0 / s1 - 10.0).abs() < 1e-12, "slack ratio expected 10, got {}", s0 / s1);
}

#[test]
fn builder_hinge_objective_uses_inverse_spread_weights() {
    let built = inverse_spread_case();
    let e0 = objective_coef(&built, "e_mid_0_0");
    let e1 = objective_coef(&built, "e_mid_0_1");
    let s0 = objective_coef(&built, "s_bid_0_0");
    let s1 = objective_coef(&built, "s_bid_0_1");
    assert!((e0 / e1 - 10.0).abs() < 1e-12, "e_mid ratio expected 10, got {}", e0 / e1);
    assert!((s0 / s1 - 10.0).abs() < 1e-12, "slack ratio expected 10, got {}", s0 / s1);
}

#[test]
fn hard_bid_ask_program_has_expected_rows() {
    let book = sample_book();
    let kernels = sample_kernels(false);
    let built =
        SanosLpBuilder.build(&book, &kernels, &FitConfig::default(), &ObjectiveConfig::HardBidAsk)
            .unwrap();
    let names: Vec<&str> = built.model.constraints.iter().map(|c| c.name.as_str()).collect();
    assert_eq!(
        names,
        vec![
            "simplex_0", "simplex_1", "hard_bid_0_0", "hard_ask_0_0", "hard_bid_0_1", "hard_ask_0_1",
            "hard_bid_0_2", "hard_ask_0_2", "mean_0", "hard_bid_1_0", "hard_ask_1_0",
            "hard_bid_1_1", "hard_ask_1_1", "hard_bid_1_2", "hard_ask_1_2", "mean_1", "time_1_0",
            "time_1_1", "time_1_2",
        ]
    );
    assert_eq!(built.model.vars.len(), 6);
    assert_eq!(built.model.vars[4].name, "q_1_1");
    assert_eq!(built.model.vars[4].lb, Some(0));
    assert_eq!(built.layout.q_var_ids, vec![vec![0, 1, 2], vec![3, 4, 5]]);
    let mean = &built.model.constraints[8];
    assert_eq!(mean.sense, Sense::Eq);
    assert_eq!(mean.rhs, UNIT as i128);
    assert_eq!(mean.terms.iter().map(|t| t.coef).collect::<Vec<_>>(), vec![
        fx(0.9) as i128,
        fx(1.0) as i128,
        fx(1.1) as i128,
    ]);
    // the kernel entry of the first atom for the strike 1.1 is zero and left out
    assert_eq!(built.model.constraints[6].terms.len(), 0);
    assert_eq!(built.model.constraints[2].terms.len(), 2);
    assert_eq!(built.model.constraints[2].rhs, fx(0.12) as i128);
    let time = &built.model.constraints[16];
    assert_eq!(time.sense, Sense::Ge);
    assert_eq!(time.terms.len(), 2);
    assert_eq!(time.terms[0].var, 3);
    assert_eq!(time.terms[1].var, 0);
    assert_eq!(time.terms[1].coef, -(fx(0.5) as i128));
    assert!(built.model.objective.terms.is_empty());
}

#[test]
fn l1_mid_program_adds_one_slack_per_quote() {
    let book = sample_book();
    let kernels = sample_kernels(false);
    let built = SanosLpBuilder
        .build(&book, &kernels, &FitConfig::default(), &ObjectiveConfig::L1Mid { weight: UNIT })
        .unwrap();
    assert_eq!(built.model.vars.len(), 12);
    assert_eq!(built.model.vars[6].name, "e_0_0");
    let pos = built.model.constraints.iter().find(|c| c.name == "l1_neg_1_2").unwrap();
    assert_eq!(pos.rhs, -(fx(0.12) as i128));
    assert_eq!(pos.terms.last().unwrap().var, 11);
    assert_eq!(pos.terms.last().unwrap().coef, -(UNIT as i128));
    // zero spread: the spread is floored at one fixed-point unit
    let coef = built.model.objective.terms[0].coef;
    assert_eq!(coef, (UNIT as i128) * (UNIT as i128));
}

#[test]
fn builder_reports_the_first_failing_check() {
    let book = sample_book();
    let kernels = sample_kernels(false);
    let fit = FitConfig::default();
    let b = SanosLpBuilder;
    assert_eq!(
        b.build(&book, &kernels, &fit, &ObjectiveConfig::L1Mid { weight: 0 }).unwrap_err(),
        SanosError::InvalidBound { field: "objective.weight", value: 0, min: 1, max: i64::MAX }
    );
    assert_eq!(
        b.build(&book, &kernels, &fit, &hinge(1.0, -1.0)).unwrap_err(),
        SanosError::InvalidBound {
            field: "objective.epsilon_inside",
            value: -UNIT,
            min: 0,
            max: i64::MAX
        }
    );
    let mut short = kernels.clone();
    short.c.pop();
    short.transitions.clear();
    assert_eq!(
        b.build(&book, &short, &fit, &ObjectiveConfig::HardBidAsk).unwrap_err(),
        SanosError::InvalidOrdering { msg: "kernels.c.len() must match book.len()" }
    );
    let mut bad = kernels.clone();
    bad.c[1].market_strikes.pop();
    assert_eq!(
        b.build(&book, &bad, &fit, &ObjectiveConfig::HardBidAsk).unwrap_err(),
        SanosError::InvalidOrdering { msg: "kernel market_strikes must align with chain quotes" }
    );
    let mut bad_t = kernels.clone();
    bad_t.transitions[0].r = mat(3, 2, |_, _| 1.0);
    assert_eq!(
        b.build(&book, &bad_t, &fit, &ObjectiveConfig::HardBidAsk).unwrap_err(),
        SanosError::InvalidOrdering { msg: "R dimensions must be Nj x N(j-1)" }
    );
    let mut half = kernels.clone();
    half.transitions[0].u_alt = Some(mat(3, 3, |_, _| 1.0));
    assert_eq!(
        b.build(&book, &half, &fit, &ObjectiveConfig::HardBidAsk).unwrap_err(),
        SanosError::InvalidOrdering { msg: "u_alt and r_alt must both be present or both absent" }
    );
    let mut no_transitions = kernels.clone();
    no_transitions.transitions.clear();
    assert_eq!(
        b.build(&book, &no_transitions, &fit, &ObjectiveConfig::HardBidAsk).unwrap_err(),
        SanosError::InvalidOrdering { msg: "KernelSet.transitions must have len = c.len()-1" }
    );
}

#[test]
fn objective_config_validation() {
    assert!(ObjectiveConfig::HardBidAsk.validate().is_ok());
    assert!(hinge(1.0, 0.0).validate().is_ok());
    assert_eq!(
        hinge(0.0, 0.0).validate().unwrap_err(),
        SanosError::InvalidBound {
            field: "objective.slack_penalty",
            value: 0,
            min: 1,
            max: i64::MAX
        }
    );
    assert_eq!(ObjectiveConfig::default(), ObjectiveConfig::HardBidAsk);
}

fn one_quote_residual(cfg: &FitConfig) -> Result<(Vec<i128>, Vec<i128>), SanosError> {
    let q0 = CallQuote::new(fx(0.9), fx(0.10), fx(0.12), UNIT).unwrap();
    let book = OptionBook::new(vec![OptionChain::new(fx(0.5), vec![q0]).unwrap()]).unwrap();
    let kernels = KernelSet { c: vec![kernel(0.5, &[0.9], &[0.8, 1.0, 1.2])], transitions: vec![] };
    build_residual_problem(&book, &kernels, cfg).map(|(p, _)| (p.a.data, p.b))
}

#[test]
fn residual_weights_use_the_configured_spread_floor() {
    let mut cfg = FitConfig::default();
    cfg.constraints.include_time_constraints = false;
    // The spread 0.02 is below the floor 0.05: weight 1 / 0.05 = 20.
    cfg.weighting.spread_floor = fx(0.05);
    let (a, b) = one_quote_residual(&cfg).unwrap();
    assert_eq!(a, vec![0, fx(2.0) as i128, fx(6.0) as i128]);
    assert_eq!(b, vec![fx(2.2) as i128]);
    // A floor below the spread leaves the weight 1 / 0.02 = 50.
    cfg.weighting.spread_floor = fx(0.01);
    let (a, _) = one_quote_residual(&cfg).unwrap();
    assert_eq!(a, vec![0, fx(5.0) as i128, fx(15.0) as i128]);
}

#[test]
fn residual_identity_weighting_keeps_the_quote_weight() {
    let mut cfg = FitConfig::default();
    cfg.constraints.include_time_constraints = false;
    cfg.weighting.mode = QuoteWeightMode::Identity;
    let (a, b) = one_quote_residual(&cfg).unwrap();
    // weight 1: the kernel row (0, 0.1, 0.3) and the mid 0.11 themselves.
    assert_eq!(a, vec![0, fx(0.1) as i128, fx(0.3) as i128]);
    assert_eq!(b, vec![fx(0.11) as i128]);
}

#[test]
fn vega_weighting_modes_are_refused() {
    for mode in [QuoteWeightMode::Vega, QuoteWeightMode::BidAskVega] {
        let mut cfg = FitConfig::default();
        cfg.weighting.mode = mode;
        let err = one_quote_residual(&cfg).unwrap_err();
        assert_eq!(
            err.message(),
            "vega quote weighting is not supported: it needs the Black vega of the quote mid"
        );
        let book = sample_book();
        let kernels = sample_kernels(false);
        let err = SanosLpBuilder
            .build(&book, &kernels, &cfg, &ObjectiveConfig::HardBidAsk)
            .unwrap_err();
        assert!(matches!(err, SanosError::InvalidOrdering { .. }));
    }
}

#[test]
fn lp_objective_weights_use_spread_floor_and_identity() {
    let q0 = quote(0.9, 0.25, 0.26);
    let book = OptionBook::new(vec![OptionChain::new(fx(0.5), vec![q0]).unwrap()]).unwrap();
    let kernels = KernelSet { c: vec![kernel(0.5, &[0.9], &[0.9, 1.0, 1.1])], transitions: vec![] };
    let l1 = ObjectiveConfig::L1Mid { weight: UNIT };
    // spread 0.01, floor 0.04: weight 1 / 0.04 = 25
    let mut cfg = FitConfig::default();
    cfg.weighting.spread_floor = fx(0.04);
    let built = SanosLpBuilder.build(&book, &kernels, &cfg, &l1).unwrap();
    assert_eq!(objective_coef(&built, "e_0_0"), fx(25.0) as f64);
    // identity: the quote weight 1
    cfg.weighting = FitConfig::default().weighting;
    cfg.weighting.mode = QuoteWeightMode::Identity;
    let built = SanosLpBuilder.build(&book, &kernels, &cfg, &l1).unwrap();
    assert_eq!(objective_coef(&built, "e_0_0"), UNIT as f64);
}

#[test]
fn time_constraints_step_adds_nothing_when_disabled_whatever_its_inputs() {
    let mut lp = LpModel::new();
    // One transition for two blocks whose ids lie beyond every variable.
    let kernels = sample_kernels(false);
    let q_var_ids = vec![vec![7, 8, 9], vec![10, 11, 12]];
    let mut cfg = FitConfig::default();
    cfg.constraints.include_time_constraints = false;
    assert_eq!(SanosLpBuilder.add_time_constraints(&mut lp, &kernels, &q_var_ids, &cfg), Ok(()));
    assert!(lp.constraints.is_empty());
    assert!(lp.vars.is_empty());
}

#[test]
fn time_constraints_stop_at_the_first_row_naming_an_unknown_variable() {
    let mut lp = LpModel::new();
    for i in 0..5 {
        lp.add_var(format!("q_{i}"), Some(0), None).unwrap();
    }
    let kernels = sample_kernels(false);
    // Rows 0 and 1 name variables 3, 4 and 0, 1; row 2 names variable 9.
    let q_var_ids = vec![vec![0, 1, 2], vec![3, 4, 9]];
    let cfg = FitConfig::default();
    let err = SanosLpBuilder.add_time_constraints(&mut lp, &kernels, &q_var_ids, &cfg).unwrap_err();
    assert_eq!(err, SanosError::InvalidOrdering { msg: "term references an unknown variable" });
    let names: Vec<&str> = lp.constraints.iter().map(|c| c.name.as_str()).collect();
    assert_eq!(names, vec!["time_1_0", "time_1_1"]);
}

#[test]
fn weighting_mode_is_checked_after_the_kernels() {
    let mut cfg = FitConfig::default();
    cfg.weighting.mode = QuoteWeightMode::Vega;
    cfg.weighting.spread_floor = 0;
    let book = sample_book();
    // One kernel for two chains: the kernel count is reported first.
    let kernels = KernelSet { c: vec![sample_kernels(false).c[0].clone()], transitions: vec![] };
    let expected = SanosError::InvalidOrdering { msg: "kernels.c.len() must match book.len()" };
    assert_eq!(build_residual_problem(&book, &kernels, &cfg).unwrap_err(), expected);
    cfg.weighting.spread_floor = 1;
    let hinge = ObjectiveConfig::HingeBidAsk { slack_penalty: UNIT, epsilon_inside: 0 };
    assert_eq!(SanosLpBuilder.build(&book, &kernels, &cfg, &hinge).unwrap_err(), expected);
}
