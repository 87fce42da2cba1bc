//! Runtime strike grid policies: their parameters, their validation and the
//! exact (order-based) steps of grid construction.
use vstd::prelude::*;
use crate::error::{first_of, outcome, SanosError, SanosResult};
use crate::grid::config::{
    atm_refine_error, grid_size_error, wings_error, AtmRefineConfig, GridSizeConfig, WingsConfig,
};
use crate::grid::strikes::{
    apply_hard_caps, capped, enforce_min_spacing, evenly_spaced, far_from,
    lemma_evenly_spaced_len, lemma_evenly_spaced_within, lemma_far_from_within,
    lemma_spaced_within, lemma_strike_set_keeps, lemma_strike_set_len,
    lemma_strike_set_of_clean, lemma_strike_set_within, merge_market_and_quantiles, merged_strikes, near_any,
    pick_evenly_spaced, sort_and_dedup_strikes, spaced, strike_set, strictly_increasing,
    UNIQUE_TOL,
};
use crate::MIN_POSITIVE;

verus! {

/// Market-anchored strike grid: market strikes, the at-the-money strike,
/// geometric wings and an optional refinement around the money, cleaned and
/// clamped to `[min_strike, max_strike]` (fixed point).
#[derive(Debug, Clone, Copy, PartialEq, Eq)]
pub struct MarketAnchored {
    pub ensure_atm: bool,
    pub wings: WingsConfig,
    pub atm_refine: AtmRefineConfig,
    pub size_control: GridSizeConfig,
    pub min_strike: i64,
    pub max_strike: i64,
    pub min_spacing_log: i64,
}

/// First failing check of market-anchored parameters. `qualified` selects the
/// field names of the user configuration (`grid.market_anchored.*`) instead of
/// those of the runtime policy.
pub open spec fn market_anchored_error(
    wings: WingsConfig,
    atm_refine: AtmRefineConfig,
    size: GridSizeConfig,
    min_strike: i64,
    max_strike: i64,
    min_spacing_log: i64,
    qualified: bool,
) -> Option<SanosError> {
    first_of(
        wings_error(wings),
        first_of(
            atm_refine_error(atm_refine),
            first_of(
                grid_size_error(size),
                if min_strike <= 0 {
                    Some(
                        SanosError::InvalidBound {
                            field: if qualified {
                                "grid.market_anchored.min_strike"
                            } else {
                                "min_strike"
                            },
                            value: min_strike,
                            min: MIN_POSITIVE,
                            max: i64::MAX,
                        },
                    )
                } else if max_strike <= min_strike {
                    Some(
                        SanosError::InvalidOrdering {
                            msg: if qualified {
                                "grid.market_anchored.max_strike must be > min_strike"
                            } else {
                                "max_strike must be > min_strike"
                            },
                        },
                    )
                } else if min_spacing_log < 0 {
                    Some(
                        SanosError::InvalidBound {
                            field: if qualified {
                                "grid.market_anchored.min_spacing_log"
                            } else {
                                "min_spacing_log"
                            },
                            value: min_spacing_log,
                            min: 0,
                            max: i64::MAX,
                        },
                    )
                } else {
                    None
                },
            ),
        ),
    )
}

/// Runs the market-anchored checks in order.
pub(crate) fn validate_market_anchored(
    wings: &WingsConfig,
    atm_refine: &AtmRefineConfig,
    size: &GridSizeConfig,
    min_strike: i64,
    max_strike: i64,
    min_spacing_log: i64,
    qualified: bool,
) -> (r: SanosResult<()>)
    ensures
        r == outcome(
            market_anchored_error(
                *wings,
                *atm_refine,
                *size,
                min_strike,
                max_strike,
                min_spacing_log,
                qualified,
            ),
        ),
{
    wings.validate()?;
    atm_refine.validate()?;
    size.validate()?;
    if min_strike <= 0 {
        return Err(
            SanosError::InvalidBound {
                field: if qualified {
                    "grid.market_anchored.min_strike"
                } else {
                    "min_strike"
                },
                value: min_strike,
                min: MIN_POSITIVE,
                max: i64::MAX,
            },
        );
    }
    if max_strike <= min_strike {
        return Err(
            SanosError::InvalidOrdering {
                msg: if qualified {
                    "grid.market_anchored.max_strike must be > min_strike"
                } else {
                    "max_strike must be > min_strike"
                },
            },
        );
    }
    if min_spacing_log < 0 {
        return Err(
            SanosError::InvalidBound {
                field: if qualified {
                    "grid.market_anchored.min_spacing_log"
                } else {
                    "min_spacing_log"
                },
                value: min_spacing_log,
                min: 0,
                max: i64::MAX,
            },
        );
    }
    Ok(())
}

impl Default for MarketAnchored {
    fn default() -> (r: Self)
        ensures
            r == (MarketAnchored {
                ensure_atm: true,
                wings: WingsConfig { n_left: 2, n_right: 2, ratio: 1_200_000_000_000 },
                atm_refine: AtmRefineConfig {
                    enabled: false,
                    steps: 2,
                    delta_log: 50_000_000_000,
                },
                size_control: GridSizeConfig { max_points: 80, keep_all_market_strikes: true },
                min_strike: 100_000_000,
                max_strike: 10_000_000_000_000_000,
                min_spacing_log: 1_000_000_000,
            }),
    {
        MarketAnchored {
            ensure_atm: true,
            wings: WingsConfig::default(),
            atm_refine: AtmRefineConfig::default(),
            size_control: GridSizeConfig::default(),
            min_strike: 100_000_000,
            max_strike: 10_000_000_000_000_000,
            min_spacing_log: 1_000_000_000,
        }
    }
}

impl MarketAnchored {
    /// Validates the policy parameters (runtime field names).
    pub fn validate(&self) -> (r: SanosResult<()>)
        ensures
            r == outcome(
                market_anchored_error(
                    self.wings,
                    self.atm_refine,
                    self.size_control,
                    self.min_strike,
                    self.max_strike,
                    self.min_spacing_log,
                    false,
                ),
            ),
    {
        validate_market_anchored(
            &self.wings,
            &self.atm_refine,
            &self.size_control,
            self.min_strike,
            self.max_strike,
            self.min_spacing_log,
            false,
        )
    }
}

/// Log-moneyness quantile strike grid with asymmetric left/right shaping
/// (fixed-point parameters).
#[derive(Debug, Clone, Copy, PartialEq, Eq)]
pub struct LogMoneynessQuantiles {
    pub n: usize,
    pub left_sigmas: i64,
    pub right_sigmas: i64,
    pub alpha_left: i64,
    pub alpha_right: i64,
    pub include_market_strikes: bool,
    pub min_spacing: Option<i64>,
    pub k_min: Option<i64>,
    pub k_max: Option<i64>,
}

/// Name of a field of the quantile-grid parameters, qualified or not.
pub open spec fn lmq_name(qualified: bool, long: &'static str, short: &'static str) -> &'static str {
    if qualified {
        long
    } else {
        short
    }
}

/// `Some(InvalidBound)` when `value` is not positive.
pub open spec fn positive_error(field: &'static str, value: i64) -> Option<SanosError> {
    if value <= 0 {
        Some(SanosError::InvalidBound { field, value, min: MIN_POSITIVE, max: i64::MAX })
    } else {
        None
    }
}

/// First failing check of quantile-grid parameters. `qualified` selects the
/// field names of the user configuration (`grid.log_moneyness_quantiles.*`).
pub open spec fn lmq_error(p: LogMoneynessQuantiles, qualified: bool) -> Option<SanosError> {
    if p.n < 3 {
        Some(
            SanosError::InvalidOrdering {
                msg: lmq_name(
                    qualified,
                    "grid.log_moneyness_quantiles.n must be >= 3",
                    "log_moneyness_quantiles.n must be >= 3",
                ),
            },
        )
    } else if p.left_sigmas <= 0 {
        positive_error(
            lmq_name(
                qualified,
                "grid.log_moneyness_quantiles.left_sigmas",
                "log_moneyness_quantiles.left_sigmas",
            ),
            p.left_sigmas,
        )
    } else if p.right_sigmas <= 0 {
        positive_error(
            lmq_name(
                qualified,
                "grid.log_moneyness_quantiles.right_sigmas",
                "log_moneyness_quantiles.right_sigmas",
            ),
            p.right_sigmas,
        )
    } else if p.alpha_left <= 0 {
        positive_error(
            lmq_name(
                qualified,
                "grid.log_moneyness_quantiles.alpha_left",
                "log_moneyness_quantiles.alpha_left",
            ),
            p.alpha_left,
        )
    } else if p.alpha_right <= 0 {
        positive_error(
            lmq_name(
                qualified,
                "grid.log_moneyness_quantiles.alpha_right",
                "log_moneyness_quantiles.alpha_right",
            ),
            p.alpha_right,
        )
    } else if p.min_spacing matches Some(s) && s < 0 {
        Some(
            SanosError::InvalidBound {
                field: lmq_name(
                    qualified,
                    "grid.log_moneyness_quantiles.min_spacing",
                    "log_moneyness_quantiles.min_spacing",
                ),
                value: p.min_spacing->Some_0,
                min: 0,
                max: i64::MAX,
            },
        )
    } else if p.k_min matches Some(k) && k <= 0 {
        positive_error(
            lmq_name(
                qualified,
                "grid.log_moneyness_quantiles.k_min",
                "log_moneyness_quantiles.k_min",
            ),
            p.k_min->Some_0,
        )
    } else if p.k_max matches Some(k) && k <= 0 {
        positive_error(
            lmq_name(
                qualified,
                "grid.log_moneyness_quantiles.k_max",
                "log_moneyness_quantiles.k_max",
            ),
            p.k_max->Some_0,
        )
    } else if p.k_min is Some && p.k_max is Some && p.k_max->Some_0 <= p.k_min->Some_0 {
        Some(
            SanosError::InvalidOrdering {
                msg: lmq_name(
                    qualified,
                    "grid.log_moneyness_quantiles.k_max must be > k_min",
                    "log_moneyness_quantiles.k_max must be > k_min",
                ),
            },
        )
    } else {
        None
    }
}

fn check_positive(field: &'static str, value: i64) -> (r: SanosResult<()>)
    ensures
        r == outcome(positive_error(field, value)),
{
    if value <= 0 {
        return Err(SanosError::InvalidBound { field, value, min: MIN_POSITIVE, max: i64::MAX });
    }
    Ok(())
}

/// Runs the quantile-grid checks in order.
pub(crate) fn validate_log_moneyness_quantiles(p: &LogMoneynessQuantiles, qualified: bool) -> (r:
    SanosResult<()>)
    ensures
        r == outcome(lmq_error(*p, qualified)),
{
    if p.n < 3 {
        return Err(
            SanosError::InvalidOrdering {
                msg: if qualified {
                    "grid.log_moneyness_quantiles.n must be >= 3"
                } else {
                    "log_moneyness_quantiles.n must be >= 3"
                },
            },
        );
    }
    check_positive(
        if qualified {
            "grid.log_moneyness_quantiles.left_sigmas"
        } else {
            "log_moneyness_quantiles.left_sigmas"
        },
        p.left_sigmas,
    )?;
    check_positive(
        if qualified {
            "grid.log_moneyness_quantiles.right_sigmas"
        } else {
            "log_moneyness_quantiles.right_sigmas"
        },
        p.right_sigmas,
    )?;
    check_positive(
        if qualified {
            "grid.log_moneyness_quantiles.alpha_left"
        } else {
            "log_moneyness_quantiles.alpha_left"
        },
        p.alpha_left,
    )?;
    check_positive(
        if qualified {
            "grid.log_moneyness_quantiles.alpha_right"
        } else {
            "log_moneyness_quantiles.alpha_right"
        },
        p.alpha_right,
    )?;
    if let Some(s) = p.min_spacing {
        if s < 0 {
            return Err(
                SanosError::InvalidBound {
                    field: if qualified {
                        "grid.log_moneyness_quantiles.min_spacing"
                    } else {
                        "log_moneyness_quantiles.min_spacing"
                    },
                    value: s,
                    min: 0,
                    max: i64::MAX,
                },
            );
        }
    }
    if let Some(k) = p.k_min {
        check_positive(
            if qualified {
                "grid.log_moneyness_quantiles.k_min"
            } else {
                "log_moneyness_quantiles.k_min"
            },
            k,
        )?;
    }
    if let Some(k) = p.k_max {
        check_positive(
            if qualified {
                "grid.log_moneyness_quantiles.k_max"
            } else {
                "log_moneyness_quantiles.k_max"
            },
            k,
        )?;
    }
    if let (Some(lo), Some(hi)) = (p.k_min, p.k_max) {
        if hi <= lo {
            return Err(
                SanosError::InvalidOrdering {
                    msg: if qualified {
                        "grid.log_moneyness_quantiles.k_max must be > k_min"
                    } else {
                        "log_moneyness_quantiles.k_max must be > k_min"
                    },
                },
            );
        }
    }
    Ok(())
}

impl Default for LogMoneynessQuantiles {
    fn default() -> (r: Self)
        ensures
            r == (LogMoneynessQuantiles {
                n: 80,
                left_sigmas: 4_500_000_000_000,
                right_sigmas: 3_000_000_000_000,
                alpha_left: 1_800_000_000_000,
                alpha_right: 1_200_000_000_000,
                include_market_strikes: true,
                min_spacing: None,
                k_min: None,
                k_max: None,
            }),
    {
        LogMoneynessQuantiles {
            n: 80,
            left_sigmas: 4_500_000_000_000,
            right_sigmas: 3_000_000_000_000,
            alpha_left: 1_800_000_000_000,
            alpha_right: 1_200_000_000_000,
            include_market_strikes: true,
            min_spacing: None,
            k_min: None,
            k_max: None,
        }
    }
}

impl LogMoneynessQuantiles {
    /// Validates the policy parameters (runtime field names).
    pub fn validate(&self) -> (r: SanosResult<()>)
        ensures
            r == outcome(lmq_error(*self, false)),
    {
        validate_log_moneyness_quantiles(self, false)
    }
}


/// Distance below which a quantile strike counts as a market strike when
/// the two are merged: the minimum spacing (0 when unset), at least
/// [`UNIQUE_TOL`].
pub open spec fn merge_tolerance(min_spacing: Option<i64>) -> i64 {
    let v = match min_spacing {
        Some(v) => v,
        None => 0,
    };
    if v > UNIQUE_TOL {
        v
    } else {
        UNIQUE_TOL
    }
}

/// Strikes of a quantile grid from its quantile strikes and the chain's
/// market strikes: the quantile strikes sorted, de-duplicated and thinned
/// to the minimum spacing; merged with the market strikes when they are
/// included, else evenly down-sampled to `n` points when there are more;
/// then sorted and de-duplicated, held within the hard caps, and sorted and
/// de-duplicated again.
pub open spec fn quantile_grid_strikes(
    p: LogMoneynessQuantiles,
    quantiles: Seq<i64>,
    market: Seq<i64>,
) -> Seq<i64> {
    let q = spaced(strike_set(quantiles), p.min_spacing);
    let merged = if p.include_market_strikes {
        merged_strikes(market, q, p.n as int, merge_tolerance(p.min_spacing))
    } else if q.len() > p.n {
        evenly_spaced(q, p.n as int)
    } else {
        q
    };
    strike_set(strike_set(merged).map_values(|k: i64| capped(k, p.k_min, p.k_max)))
}

impl LogMoneynessQuantiles {
    /// Assembles the strikes of a quantile grid (see
    /// [`quantile_grid_strikes`]); the caller falls back to a safe grid when
    /// fewer than three remain.
    pub fn assemble_strikes(&self, quantiles: Vec<i64>, market: &[i64]) -> (r: Vec<i64>)
        ensures
            r@ == quantile_grid_strikes(*self, quantiles@, market@),
            strictly_increasing(r@),
    {
        let q = enforce_min_spacing(sort_and_dedup_strikes(quantiles), self.min_spacing);
        let merged = if self.include_market_strikes {
            let v: i64 = match self.min_spacing {
                Some(v) => v,
                None => 0,
            };
            let tol: i64 = if v > UNIQUE_TOL {
                v
            } else {
                UNIQUE_TOL
            };
            merge_market_and_quantiles(market, q.as_slice(), self.n, tol)
        } else if q.len() > self.n {
            pick_evenly_spaced(q.as_slice(), self.n)
        } else {
            q
        };
        let merged = sort_and_dedup_strikes(merged);
        sort_and_dedup_strikes(apply_hard_caps(merged, self.k_min, self.k_max))
    }
}


proof fn lemma_concat_contains(a: Seq<i64>, b: Seq<i64>, x: i64)
    requires
        (a + b).contains(x),
    ensures
        a.contains(x) || b.contains(x),
{
    let i = choose|i: int| 0 <= i < (a + b).len() && #[trigger] (a + b)[i] == x;
    if i < a.len() {
        assert(a[i] == x);
    } else {
        assert(b[i - a.len()] == x);
    }
}

/// A quantile grid that includes the market strikes keeps its other strikes
/// away from them: with a minimum spacing `v > 0` and no hard caps, every
/// strike of the grid is a market strike or lies more than `v` from every
/// market strike (for market strikes that are positive and more than
/// `UNIQUE_TOL` apart, as a chain's strikes are).
pub proof fn lemma_quantile_grid_keeps_spacing_from_market(
    p: LogMoneynessQuantiles,
    quantiles: Seq<i64>,
    market: Seq<i64>,
    v: i64,
)
    requires
        p.include_market_strikes,
        p.min_spacing == Some(v),
        v > 0,
        p.k_min is None,
        p.k_max is None,
        forall|i: int| 0 <= i < market.len() ==> #[trigger] market[i] > 0,
        forall|a: int, b: int| 0 <= a < b < market.len() ==> market[a] + UNIQUE_TOL < market[b],
    ensures
        forall|x: i64|
            #[trigger] quantile_grid_strikes(p, quantiles, market).contains(x) ==> market.contains(x)
                || (forall|k: int|
                0 <= k < market.len() ==> #[trigger] market[k] - x > v || x - market[k] > v),
{
    let q = spaced(strike_set(quantiles), p.min_spacing);
    let tol = merge_tolerance(p.min_spacing);
    assert(tol >= v);
    lemma_strike_set_of_clean(market);
    let m = strike_set(market);
    assert(m == market);
    let merged = merged_strikes(market, q, p.n as int, tol);
    let sm = strike_set(merged);
    assert(sm.map_values(|k: i64| capped(k, p.k_min, p.k_max)) =~= sm);
    lemma_strike_set_within(sm);
    lemma_strike_set_within(merged);
    let far = far_from(q, m, tol, q.len() as int);
    let extras = evenly_spaced(far, p.n - m.len());
    lemma_far_from_within(q, m, tol, q.len() as int);
    lemma_evenly_spaced_within(far, p.n - m.len());
    lemma_strike_set_within(m + extras);
    assert forall|x: i64| #[trigger] quantile_grid_strikes(p, quantiles, market).contains(
        x,
    ) implies market.contains(x) || (forall|k: int|
        0 <= k < market.len() ==> #[trigger] market[k] - x > v || x - market[k] > v) by {
        assert(sm.contains(x));
        assert(merged.contains(x));
        if m.len() < p.n {
            assert(merged == strike_set(m + extras));
            assert((m + extras).contains(x));
            lemma_concat_contains(m, extras, x);
            if !m.contains(x) {
                assert(extras.contains(x));
                assert(far.contains(x));
                assert(!near_any(m, x, tol));
                assert forall|k: int| 0 <= k < market.len() implies #[trigger] market[k] - x > v
                    || x - market[k] > v by {
                    assert(!(-tol <= m[k] - x <= tol));
                }
            }
        }
    }
}


/// A quantile grid that includes the market strikes keeps every one of
/// them: with no hard caps, every market strike (positive and more than
/// `UNIQUE_TOL` apart, as a chain's strikes are) is a strike of the grid.
pub proof fn lemma_quantile_grid_keeps_market_strikes(
    p: LogMoneynessQuantiles,
    quantiles: Seq<i64>,
    market: Seq<i64>,
)
    requires
        p.include_market_strikes,
        p.k_min is None,
        p.k_max is None,
        forall|i: int| 0 <= i < market.len() ==> #[trigger] market[i] > 0,
        forall|a: int, b: int| 0 <= a < b < market.len() ==> market[a] + UNIQUE_TOL < market[b],
    ensures
        forall|k: int|
            0 <= k < market.len() ==> quantile_grid_strikes(p, quantiles, market).contains(
                #[trigger] market[k],
            ),
{
    let q = spaced(strike_set(quantiles), p.min_spacing);
    let tol = merge_tolerance(p.min_spacing);
    assert(tol >= UNIQUE_TOL);
    lemma_strike_set_of_clean(market);
    let m = strike_set(market);
    assert(m == market);
    let merged = merged_strikes(market, q, p.n as int, tol);
    let sm = strike_set(merged);
    assert(sm.map_values(|k: i64| capped(k, p.k_min, p.k_max)) =~= sm);
    let far = far_from(q, m, tol, q.len() as int);
    let extras = evenly_spaced(far, p.n - m.len());
    lemma_far_from_within(q, m, tol, q.len() as int);
    lemma_evenly_spaced_within(far, p.n - m.len());
    let u = m + extras;
    lemma_strike_set_within(u);
    // Below a market strike, the strikes of `u` are at least
    // `UNIQUE_TOL + 1` lower.
    assert forall|k: int, z: i64| 0 <= k < market.len() && u.contains(z) && z < market[k] implies market[k]
        - z >= UNIQUE_TOL + 1 by {
        lemma_concat_contains(m, extras, z);
        if m.contains(z) {
            let a = choose|a: int| 0 <= a < m.len() && m[a] == z;
            if a >= k {
                if a > k {
                    assert(market[k] + UNIQUE_TOL < market[a]);
                }
            }
        } else {
            assert(far.contains(z));
            assert(!near_any(m, z, tol));
            assert(!(-tol <= m[k] - z <= tol));
        }
    }
    assert forall|k: int| 0 <= k < market.len() implies quantile_grid_strikes(
        p,
        quantiles,
        market,
    ).contains(#[trigger] market[k]) by {
        let y = market[k];
        if m.len() >= p.n {
            assert(merged == market);
            assert(sm == market);
            assert(quantile_grid_strikes(p, quantiles, market) == market);
            assert(market[k] == y);
        } else {
            assert(merged == strike_set(u));
            assert(u[k] == y);
            assert(u.contains(y));
            lemma_strike_set_keeps(u, y);
            assert forall|z: i64| merged.contains(z) && z < y implies y - z >= UNIQUE_TOL + 1 by {
                assert(u.contains(z));
            }
            lemma_strike_set_keeps(merged, y);
            lemma_strike_set_within(merged);
            assert forall|z: i64| sm.contains(z) && z < y implies y - z >= UNIQUE_TOL + 1 by {
                assert(merged.contains(z));
                assert(u.contains(z));
            }
            lemma_strike_set_keeps(sm, y);
        }
    }
}


/// A quantile grid without hard caps invents no strike: every strike is a
/// quantile strike or, when market strikes are included, a market strike.
/// Without market strikes it has at most `n` strikes.
pub proof fn lemma_quantile_grid_draws_from_inputs(
    p: LogMoneynessQuantiles,
    quantiles: Seq<i64>,
    market: Seq<i64>,
)
    requires
        p.k_min is None,
        p.k_max is None,
    ensures
        forall|x: i64| #[trigger] quantile_grid_strikes(p, quantiles, market).contains(x) ==> (
        quantiles.contains(x) || (p.include_market_strikes && market.contains(x))),
        !p.include_market_strikes ==> quantile_grid_strikes(p, quantiles, market).len() <= p.n,
{
    let sq = strike_set(quantiles);
    let q = spaced(sq, p.min_spacing);
    let tol = merge_tolerance(p.min_spacing);
    let m = strike_set(market);
    let merged = if p.include_market_strikes {
        merged_strikes(market, q, p.n as int, tol)
    } else if q.len() > p.n {
        evenly_spaced(q, p.n as int)
    } else {
        q
    };
    let sm = strike_set(merged);
    assert(sm.map_values(|k: i64| capped(k, p.k_min, p.k_max)) =~= sm);
    lemma_strike_set_within(sm);
    lemma_strike_set_within(merged);
    lemma_strike_set_within(quantiles);
    lemma_strike_set_within(market);
    lemma_spaced_within(sq, p.min_spacing);
    let far = far_from(q, m, tol, q.len() as int);
    let extras = evenly_spaced(far, p.n - m.len());
    lemma_far_from_within(q, m, tol, q.len() as int);
    lemma_evenly_spaced_within(far, p.n - m.len());
    lemma_evenly_spaced_within(q, p.n as int);
    lemma_strike_set_within(m + extras);
    assert forall|x: i64| #[trigger] quantile_grid_strikes(p, quantiles, market).contains(x)
        implies quantiles.contains(x) || (p.include_market_strikes && market.contains(x)) by {
        assert(sm.contains(x));
        assert(merged.contains(x));
        if p.include_market_strikes {
            if m.len() < p.n {
                assert((m + extras).contains(x));
                lemma_concat_contains(m, extras, x);
                if !m.contains(x) {
                    assert(far.contains(x));
                    assert(q.contains(x));
                }
            }
        } else if q.len() > p.n {
            assert(q.contains(x));
        }
    }
    if !p.include_market_strikes {
        lemma_strike_set_len(merged);
        lemma_strike_set_len(sm);
        lemma_evenly_spaced_len(q, p.n as int);
    }
}


/// A quantile grid respects its hard caps: every strike is at least
/// `k_min` (when given and not above `k_max`) and at most `k_max` (when
/// given).
pub proof fn lemma_quantile_grid_within_caps(
    p: LogMoneynessQuantiles,
    quantiles: Seq<i64>,
    market: Seq<i64>,
)
    ensures
        forall|x: i64| #[trigger] quantile_grid_strikes(p, quantiles, market).contains(x) ==> {
            &&& (p.k_max matches Some(h) ==> x <= h)
            &&& (p.k_min matches Some(l) ==> (p.k_max matches Some(h) && h < l) || l <= x)
        },
{
    let sq = strike_set(quantiles);
    let q = spaced(sq, p.min_spacing);
    let merged = if p.include_market_strikes {
        merged_strikes(market, q, p.n as int, merge_tolerance(p.min_spacing))
    } else if q.len() > p.n {
        evenly_spaced(q, p.n as int)
    } else {
        q
    };
    let c = strike_set(merged).map_values(|k: i64| capped(k, p.k_min, p.k_max));
    lemma_strike_set_within(c);
    assert forall|x: i64| #[trigger] quantile_grid_strikes(p, quantiles, market).contains(x)
        implies {
        &&& (p.k_max matches Some(h) ==> x <= h)
        &&& (p.k_min matches Some(l) ==> (p.k_max matches Some(h) && h < l) || l <= x)
    } by {
        assert(c.contains(x));
        let i = choose|i: int| 0 <= i < c.len() && c[i] == x;
        assert(x == capped(strike_set(merged)[i], p.k_min, p.k_max));
    }
}

} // verus!
