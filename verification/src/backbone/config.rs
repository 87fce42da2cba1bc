//! Configuration of the Black-Scholes time-changed backbone.
use vstd::prelude::*;
use crate::error::{outcome, SanosError, SanosResult};

verus! {

/// How the ATM mid price of a chain is read from its quotes.
#[derive(Debug, Clone, Copy, PartialEq, Eq)]
pub enum AtmMidPolicyConfig {
    /// The quote at strike 1 (within `tol_log` in log strike), else linear
    /// interpolation in log strike between the two strikes around 1, else
    /// the nearest strike.
    NearestOrLinearLogMoneyness { tol_log: i64 },
}

impl Default for AtmMidPolicyConfig {
    fn default() -> (r: Self)
        ensures
            r == (AtmMidPolicyConfig::NearestOrLinearLogMoneyness { tol_log: 100 }),
    {
        AtmMidPolicyConfig::NearestOrLinearLogMoneyness { tol_log: 100 }
    }
}

/// The tolerance must be non-negative.
pub open spec fn atm_policy_error(c: AtmMidPolicyConfig) -> Option<SanosError> {
    match c {
        AtmMidPolicyConfig::NearestOrLinearLogMoneyness { tol_log } => if tol_log < 0 {
            Some(
                SanosError::InvalidBound {
                    field: "atm_policy.tol_log",
                    value: tol_log,
                    min: 0,
                    max: i64::MAX,
                },
            )
        } else {
            None
        },
    }
}

impl AtmMidPolicyConfig {
    /// Checks the tolerance.
    pub fn validate(&self) -> (r: SanosResult<()>)
        ensures
            r == outcome(atm_policy_error(*self)),
    {
        match *self {
            AtmMidPolicyConfig::NearestOrLinearLogMoneyness { tol_log } => {
                if tol_log < 0 {
                    return Err(
                        SanosError::InvalidBound {
                            field: "atm_policy.tol_log",
                            value: tol_log,
                            min: 0,
                            max: i64::MAX,
                        },
                    );
                }
                Ok(())
            },
        }
    }
}

/// Black-Scholes backbone in time-changed lognormal form: ATM total variances
/// read from the book, floored at `var_floor`, optionally made
/// non-decreasing in maturity, and scaled by `eta`.
#[derive(Debug, Clone, PartialEq, Eq)]
pub struct BsTimeChangedConfig {
    pub atm_policy: AtmMidPolicyConfig,
    pub var_floor: i64,
    pub enforce_non_decreasing: bool,
    pub eta: i64,
}

/// The floor must be non-negative, then the ATM policy valid.
pub open spec fn bs_time_changed_error(c: BsTimeChangedConfig) -> Option<SanosError> {
    if c.var_floor < 0 {
        Some(
            SanosError::InvalidBound {
                field: "bs_time_changed.var_floor",
                value: c.var_floor,
                min: 0,
                max: i64::MAX,
            },
        )
    } else {
        atm_policy_error(c.atm_policy)
    }
}

impl BsTimeChangedConfig {
    /// Checks the variance floor, then the ATM policy.
    pub fn validate(&self) -> (r: SanosResult<()>)
        ensures
            r == outcome(bs_time_changed_error(*self)),
    {
        if self.var_floor < 0 {
            return Err(
                SanosError::InvalidBound {
                    field: "bs_time_changed.var_floor",
                    value: self.var_floor,
                    min: 0,
                    max: i64::MAX,
                },
            );
        }
        self.atm_policy.validate()
    }
}

/// Backbone model of the calibration.
#[derive(Debug, Clone, PartialEq, Eq)]
pub enum BackboneConfig {
    /// Black-Scholes backbone in time-changed lognormal form.
    BsTimeChanged(BsTimeChangedConfig),
}

impl BackboneConfig {
    /// Variance scaling of the backbone.
    pub fn eta(&self) -> (r: i64)
        ensures
            r == match *self {
                BackboneConfig::BsTimeChanged(c) => c.eta,
            },
    {
        match self {
            BackboneConfig::BsTimeChanged(c) => c.eta,
        }
    }

    /// Checks the configuration of the backbone.
    pub fn validate(&self) -> (r: SanosResult<()>)
        ensures
            r == outcome(
                match *self {
                    BackboneConfig::BsTimeChanged(c) => bs_time_changed_error(c),
                },
            ),
    {
        match self {
            BackboneConfig::BsTimeChanged(c) => c.validate(),
        }
    }
}

/// Largest of the floored variances of the first `n` knots (the floor when
/// there are none).
pub open spec fn running_max(ws: Seq<(i64, i64)>, floor: i64, n: int) -> int
    decreases n,
{
    if n <= 0 {
        floor as int
    } else {
        let prev = running_max(ws, floor, n - 1);
        let w = if ws[n - 1].1 > floor {
            ws[n - 1].1 as int
        } else {
            floor as int
        };
        if w > prev {
            w
        } else {
            prev
        }
    }
}

/// Knot `i` of the ATM variance curve: its maturity, and its variance floored
/// at `var_floor`, raised to the largest earlier one when the curve must not
/// decrease.
pub open spec fn variance_knot(ws: Seq<(i64, i64)>, c: BsTimeChangedConfig, i: int) -> (i64, i64) {
    let floored = if ws[i].1 > c.var_floor {
        ws[i].1
    } else {
        c.var_floor
    };
    if c.enforce_non_decreasing {
        (ws[i].0, running_max(ws, c.var_floor, i + 1) as i64)
    } else {
        (ws[i].0, floored)
    }
}

/// `i` is the first knot with a non-positive maturity.
pub open spec fn is_first_bad_maturity(ws: Seq<(i64, i64)>, i: int) -> bool {
    &&& 0 <= i < ws.len()
    &&& ws[i].0 <= 0
    &&& forall|l: int| 0 <= l < i ==> (#[trigger] ws[l]).0 > 0
}

/// The first failing check of the variance knots, if any.
pub open spec fn variance_knots_error(ws: Seq<(i64, i64)>, c: BsTimeChangedConfig) -> Option<
    SanosError,
> {
    if bs_time_changed_error(c) is Some {
        bs_time_changed_error(c)
    } else if ws.len() == 0 {
        Some(SanosError::EmptyCollection { what: "OptionBook.atm_mids" })
    } else if exists|i: int| is_first_bad_maturity(ws, i) {
        let i = choose|i: int| is_first_bad_maturity(ws, i);
        Some(
            SanosError::InvalidBound {
                field: "maturity",
                value: ws[i].0,
                min: crate::MIN_POSITIVE,
                max: i64::MAX,
            },
        )
    } else {
        None
    }
}

proof fn lemma_running_max_bounds(ws: Seq<(i64, i64)>, floor: i64, n: int)
    ensures
        floor <= running_max(ws, floor, n) <= i64::MAX,
    decreases n,
{
    if n > 0 {
        lemma_running_max_bounds(ws, floor, n - 1);
    }
}

/// Knots `(T_j, W_j)` of the ATM total-variance curve from the ATM variances
/// `(T_j, w_j)` of the book: each variance floored at `var_floor` and, when
/// required, raised to the largest earlier one so that the curve does not
/// decrease.
pub fn atm_variance_knots(atm_vars: &[(i64, i64)], cfg: &BsTimeChangedConfig) -> (r: SanosResult<
    Vec<(i64, i64)>,
>)
    ensures
        match variance_knots_error(atm_vars@, *cfg) {
            Some(e) => r == Err::<Vec<(i64, i64)>, SanosError>(e),
            None => r matches Ok(k) && k@ == Seq::new(
                atm_vars@.len(),
                |i: int| variance_knot(atm_vars@, *cfg, i),
            ),
        },
{
    match cfg.validate() {
        Ok(()) => {},
        Err(e) => {
            return Err(e);
        },
    }
    let n = atm_vars.len();
    if n == 0 {
        return Err(SanosError::EmptyCollection { what: "OptionBook.atm_mids" });
    }
    let ghost ws = atm_vars@;
    let floor = cfg.var_floor;
    let mut knots: Vec<(i64, i64)> = Vec::new();
    let mut prev: i64 = floor;
    let mut i: usize = 0;
    while i < n
        invariant
            n == ws.len(),
            ws == atm_vars@,
            floor == cfg.var_floor,
            bs_time_changed_error(*cfg) is None,
            n > 0,
            i <= n,
            forall|l: int| 0 <= l < i ==> (#[trigger] ws[l]).0 > 0,
            prev == running_max(ws, floor, i as int),
            knots@ == Seq::new(i as nat, |l: int| variance_knot(ws, *cfg, l)),
        decreases n - i,
    {
        let (t, w0) = atm_vars[i];
        if t <= 0 {
            proof {
                assert(is_first_bad_maturity(ws, i as int));
                let b = choose|b: int| is_first_bad_maturity(ws, b);
                if b < i {
                    assert(ws[b].0 > 0);
                }
                if i < b {
                    assert(ws[i as int].0 > 0);
                }
            }
            return Err(
                SanosError::InvalidBound {
                    field: "maturity",
                    value: t,
                    min: crate::MIN_POSITIVE,
                    max: i64::MAX,
                },
            );
        }
        let w = if w0 > floor {
            w0
        } else {
            floor
        };
        if w > prev {
            prev = w;
        }
        if cfg.enforce_non_decreasing {
            knots.push((t, prev));
        } else {
            knots.push((t, w));
        }
        proof {
            lemma_running_max_bounds(ws, floor, (i + 1) as int);
            assert(knots@ =~= Seq::new((i + 1) as nat, |l: int| variance_knot(ws, *cfg, l)));
        }
        i = i + 1;
    }
    proof {
        assert(!exists|b: int| is_first_bad_maturity(ws, b));
    }
    Ok(knots)
}

/// With the curve made non-decreasing, the knot variances do not decrease,
/// and every knot variance is at least the floor.
pub proof fn lemma_variance_knots_monotone(ws: Seq<(i64, i64)>, c: BsTimeChangedConfig, i: int, j: int)
    requires
        0 <= i <= j < ws.len(),
    ensures
        variance_knot(ws, c, i).1 >= c.var_floor,
        c.enforce_non_decreasing ==> variance_knot(ws, c, i).1 <= variance_knot(ws, c, j).1,
    decreases j - i,
{
    lemma_running_max_bounds(ws, c.var_floor, i + 1);
    lemma_running_max_bounds(ws, c.var_floor, j + 1);
    if i < j {
        lemma_variance_knots_monotone(ws, c, i, j - 1);
        lemma_running_max_bounds(ws, c.var_floor, j);
    }
}

} // verus!
