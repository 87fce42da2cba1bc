//! Configuration of the calibration fit and its validation.
use vstd::prelude::*;
use vstd::arithmetic::div_mod::{lemma_div_by_multiple, lemma_div_is_ordered};
use crate::error::{outcome, SanosError, SanosResult};
use crate::market::completion::{completion_failure, default_completion_config, CompletionConfig};
use crate::{MIN_POSITIVE, UNIT};

verus! {

/// Finite-difference order for smoothing regularization.
#[derive(Debug, Clone, Copy, PartialEq, Eq, Default)]
pub enum SmoothingOrder {
    /// First-order differences: penalizes jumps in density.
    #[default]
    D1,
    /// Second-order differences: penalizes changes in curvature.
    D2,
}

/// Tikhonov regularization mode: adds `lambda / 2 * ||L x - x_ref||^2`.
#[derive(Debug, Clone, Copy, PartialEq, Eq, Default)]
pub enum RegularizationMode {
    /// No regularization.
    #[default]
    Off,
    /// Ridge: `L = I`, `x_ref = 0`.
    Ridge,
    /// Smoothing: block-diagonal finite differences, `x_ref = 0`.
    Smoothing { order: SmoothingOrder },
}

/// Per-maturity lambda scaling: `(maturity, scale)` knots (fixed point),
/// interpolated piecewise-linearly with flat extrapolation; no knots means a
/// scale of one everywhere.
#[derive(Debug, Clone, PartialEq, Eq, Default)]
pub struct LambdaScaling {
    pub knots: Vec<(i64, i64)>,
}

/// `a / b` rounded toward zero (`b > 0`).
pub open spec fn div_toward_zero(a: int, b: int) -> int {
    if a >= 0 {
        a / b
    } else {
        -((-a) / b)
    }
}

/// Linear interpolation between knots `a` and `b` at `m`, rounded toward
/// `a`'s scale (the scale of `a` when both knots share a maturity).
pub open spec fn interpolate_knots(a: (i64, i64), b: (i64, i64), m: int) -> int {
    if b.0 == a.0 {
        a.1 as int
    } else {
        a.1 + div_toward_zero((b.1 - a.1) * (m - a.0), b.0 - a.0)
    }
}

/// `j` is the first window `[t_j, t_{j+1}]` containing `m`.
pub open spec fn is_first_bracket(knots: Seq<(i64, i64)>, m: int, j: int) -> bool {
    &&& 0 <= j < knots.len() - 1
    &&& knots[j].0 <= m <= knots[j + 1].0
    &&& forall|l: int| 0 <= l < j ==> !(knots[l].0 <= m <= (#[trigger] knots[l + 1]).0)
}

/// Scale at maturity `m`: one without knots, flat outside the knots,
/// interpolated in the first window containing `m` otherwise.
pub open spec fn scale_at_spec(knots: Seq<(i64, i64)>, m: int) -> int {
    if knots.len() == 0 {
        UNIT as int
    } else if knots.len() == 1 || m <= knots[0].0 {
        knots[0].1 as int
    } else if m >= knots[knots.len() - 1].0 {
        knots[knots.len() - 1].1 as int
    } else if exists|j: int| is_first_bracket(knots, m, j) {
        let j = choose|j: int| is_first_bracket(knots, m, j);
        interpolate_knots(knots[j], knots[j + 1], m)
    } else {
        UNIT as int
    }
}

/// The knot at `i` has positive maturity and scale and a maturity above its
/// predecessor's.
pub open spec fn knot_ok(knots: Seq<(i64, i64)>, i: int) -> bool {
    &&& knots[i].0 > 0
    &&& knots[i].1 > 0
    &&& i > 0 ==> knots[i - 1].0 < knots[i].0
}

/// `i` is the first knot that fails its checks.
pub open spec fn is_first_bad_knot(knots: Seq<(i64, i64)>, i: int) -> bool {
    &&& 0 <= i < knots.len()
    &&& !knot_ok(knots, i)
    &&& forall|l: int| 0 <= l < i ==> knot_ok(knots, l)
}

/// Error raised by a knot that fails its checks.
pub open spec fn knot_error(knots: Seq<(i64, i64)>, i: int) -> SanosError {
    if knots[i].0 <= 0 {
        SanosError::InvalidBound {
            field: "regularization.lambda_scaling.maturity",
            value: knots[i].0,
            min: MIN_POSITIVE,
            max: i64::MAX,
        }
    } else if knots[i].1 <= 0 {
        SanosError::InvalidBound {
            field: "regularization.lambda_scaling.scale",
            value: knots[i].1,
            min: MIN_POSITIVE,
            max: i64::MAX,
        }
    } else {
        SanosError::InvalidOrdering {
            msg: "lambda_scaling knots must be strictly increasing in maturity",
        }
    }
}

/// First failing check of the knots.
pub open spec fn lambda_scaling_error(knots: Seq<(i64, i64)>) -> Option<SanosError> {
    if exists|i: int| is_first_bad_knot(knots, i) {
        Some(knot_error(knots, choose|i: int| is_first_bad_knot(knots, i)))
    } else {
        None
    }
}

proof fn lemma_first_bad_knot_unique(knots: Seq<(i64, i64)>, i: int, j: int)
    requires
        is_first_bad_knot(knots, i),
        is_first_bad_knot(knots, j),
    ensures
        i == j,
{
    if i < j {
        assert(knot_ok(knots, i));
    }
    if j < i {
        assert(knot_ok(knots, j));
    }
}

proof fn lemma_first_bracket_unique(knots: Seq<(i64, i64)>, m: int, i: int, j: int)
    requires
        is_first_bracket(knots, m, i),
        is_first_bracket(knots, m, j),
    ensures
        i == j,
{
    if i < j {
        assert(!(knots[i].0 <= m <= knots[i + 1].0));
    }
    if j < i {
        assert(!(knots[j].0 <= m <= knots[j + 1].0));
    }
}

/// Interpolation between `(ta, sa)` and `(tb, sb)` at `ta <= m <= tb`.
fn interpolate(ta: i64, sa: i64, tb: i64, sb: i64, m: i64) -> (r: i64)
    requires
        ta <= m <= tb,
    ensures
        r == interpolate_knots((ta, sa), (tb, sb), m as int),
{
    if tb == ta {
        return sa;
    }
    let d: i128 = (sb as i128) - (sa as i128);
    let x: u128 = ((m as i128) - (ta as i128)) as u128;
    let y: u128 = ((tb as i128) - (ta as i128)) as u128;
    let dm: u128 = if d >= 0 { d as u128 } else { (-d) as u128 };
    assert(dm * x <= dm * y) by (nonlinear_arith)
        requires
            x <= y,
    ;
    assert(dm * y <= 0xffff_ffff_ffff_ffff * 0xffff_ffff_ffff_ffff) by (nonlinear_arith)
        requires
            dm <= 0xffff_ffff_ffff_ffff,
            y <= 0xffff_ffff_ffff_ffff,
    ;
    let prod: u128 = dm * x;
    let q: u128 = prod / y;
    proof {
        lemma_div_is_ordered(prod as int, (dm * y) as int, y as int);
        lemma_div_by_multiple(dm as int, y as int);
        assert(q <= dm);
        if d >= 0 {
            assert(prod == d * (m - ta));
        } else {
            assert(-(d * (m - ta)) == prod) by (nonlinear_arith)
                requires
                    dm == -d,
                    x == m - ta,
                    prod == dm * x,
            ;
        }
    }
    if d >= 0 {
        ((sa as i128) + (q as i128)) as i64
    } else {
        ((sa as i128) - (q as i128)) as i64
    }
}

/// `a + (b - a) * x / y` rounded toward zero lies between `a` and `b` when
/// `0 <= x <= y`; it is `a` at `x = 0` and `b` at `x = y`.
proof fn lemma_interpolation_between(a: int, b: int, x: int, y: int)
    requires
        0 <= x <= y,
        y > 0,
    ensures
        ({
            let v = a + div_toward_zero((b - a) * x, y);
            &&& (a <= b ==> a <= v <= b)
            &&& (b <= a ==> b <= v <= a)
            &&& (x == 0 ==> v == a)
            &&& (x == y ==> v == b)
        }),
{
    let d = b - a;
    if d >= 0 {
        assert(0 <= d * x <= d * y) by (nonlinear_arith)
            requires
                d >= 0,
                0 <= x <= y,
        ;
        assert(0 <= (d * x) / y <= d) by (nonlinear_arith)
            requires
                0 <= d * x <= d * y,
                y > 0,
        ;
        assert(x == y ==> (d * x) / y == d) by (nonlinear_arith)
            requires
                y > 0,
        ;
    } else {
        let e = -d;
        assert((-d) * x == -(d * x)) by (nonlinear_arith);
        assert(0 <= e * x <= e * y) by (nonlinear_arith)
            requires
                e >= 0,
                0 <= x <= y,
        ;
        assert(0 <= (e * x) / y <= e) by (nonlinear_arith)
            requires
                0 <= e * x <= e * y,
                y > 0,
        ;
        assert(x == y ==> (e * x) / y == e) by (nonlinear_arith)
            requires
                y > 0,
        ;
        assert(d * x == -(e * x));
    }
    assert(x == 0 ==> d * x == 0) by (nonlinear_arith);
}

proof fn lemma_has_first_bracket(knots: Seq<(i64, i64)>, m: int, j: int)
    requires
        0 <= j < knots.len() - 1,
        knots[j].0 <= m <= knots[j + 1].0,
    ensures
        exists|f: int| is_first_bracket(knots, m, f) && f <= j,
    decreases j,
{
    if forall|l: int| 0 <= l < j ==> !(knots[l].0 <= m <= (#[trigger] knots[l + 1]).0) {
        assert(is_first_bracket(knots, m, j));
    } else {
        let l = choose|l: int| 0 <= l < j && knots[l].0 <= m <= (#[trigger] knots[l + 1]).0;
        lemma_has_first_bracket(knots, m, l);
    }
}

/// The lambda scale is the piecewise linear curve through the knots. For
/// knots with strictly increasing maturities and any window
/// `[t_j, t_{j+1}]` containing `m`, the scale at `m` is the linear
/// interpolation of the two knots of that window (rounded toward zero),
/// so it lies between their scales and equals a knot's scale at the
/// knot's maturity; before the first knot it is the first scale and after
/// the last knot the last scale.
pub proof fn lemma_scale_interpolates_bracketing_knots(knots: Seq<(i64, i64)>, m: int, j: int)
    requires
        forall|a: int, b: int| 0 <= a < b < knots.len() ==> knots[a].0 < knots[b].0,
        0 <= j < knots.len() - 1,
        knots[j].0 <= m <= knots[j + 1].0,
    ensures
        scale_at_spec(knots, m) == knots[j].1 + div_toward_zero(
            (knots[j + 1].1 - knots[j].1) * (m - knots[j].0),
            knots[j + 1].0 - knots[j].0,
        ),
        knots[j].1 <= knots[j + 1].1 ==> knots[j].1 <= scale_at_spec(knots, m) <= knots[j + 1].1,
        knots[j + 1].1 <= knots[j].1 ==> knots[j + 1].1 <= scale_at_spec(knots, m) <= knots[j].1,
        m == knots[j].0 ==> scale_at_spec(knots, m) == knots[j].1,
        m == knots[j + 1].0 ==> scale_at_spec(knots, m) == knots[j + 1].1,
{
    let ta = knots[j].0 as int;
    let tb = knots[j + 1].0 as int;
    let sa = knots[j].1 as int;
    let sb = knots[j + 1].1 as int;
    let last = knots.len() - 1;
    lemma_interpolation_between(sa, sb, m - ta, tb - ta);
    if m <= knots[0].0 {
        // Only the first window reaches down to the first maturity.
        if j > 0 {
            assert(knots[0].0 < knots[j].0);
        }
        assert(j == 0 && m == ta);
    } else if m >= knots[last].0 {
        if j + 1 < last {
            assert(knots[j + 1].0 < knots[last].0);
        }
        assert(j + 1 == last && m == tb);
    } else {
        lemma_has_first_bracket(knots, m, j);
        let f = choose|f: int| is_first_bracket(knots, m, f);
        let g = choose|g: int| is_first_bracket(knots, m, g) && g <= j;
        if f != g {
            if f < g {
                assert(!(knots[f].0 <= m <= knots[f + 1].0));
            } else {
                assert(!(knots[g].0 <= m <= knots[g + 1].0));
            }
        }
        assert(f == g);
        if f < j {
            // Windows `f` and `j` share only the maturity `t_{f+1} = t_j = m`.
            if f + 1 < j {
                assert(knots[f + 1].0 < knots[j].0);
            }
            assert(f + 1 == j);
            assert(m == knots[f + 1].0 && m == ta);
            lemma_interpolation_between(
                knots[f].1 as int,
                knots[f + 1].1 as int,
                m - knots[f].0,
                knots[f + 1].0 - knots[f].0,
            );
        }
        assert(scale_at_spec(knots, m) == interpolate_knots(knots[f], knots[f + 1], m));
    }
}

/// Outside the knots the lambda scale is flat: without knots it is one,
/// at or before the first knot's maturity it is the first scale, and at or
/// after the last knot's maturity it is the last scale.
pub proof fn lemma_scale_flat_outside_knots(knots: Seq<(i64, i64)>, m: int)
    requires
        forall|a: int, b: int| 0 <= a < b < knots.len() ==> knots[a].0 < knots[b].0,
    ensures
        knots.len() == 0 ==> scale_at_spec(knots, m) == UNIT,
        knots.len() > 0 && m <= knots[0].0 ==> scale_at_spec(knots, m) == knots[0].1,
        knots.len() > 0 && m >= knots[knots.len() - 1].0 ==> scale_at_spec(knots, m)
            == knots[knots.len() - 1].1,
{
    if knots.len() > 1 && m >= knots[knots.len() - 1].0 {
        assert(knots[0].0 < knots[knots.len() - 1].0);
    }
}

impl LambdaScaling {
    /// Scale factor at the given maturity (fixed point).
    pub fn scale_at(&self, maturity: i64) -> (r: i64)
        ensures
            r == scale_at_spec(self.knots@, maturity as int),
    {
        let n = self.knots.len();
        if n == 0 {
            return UNIT;
        }
        if n == 1 || maturity <= self.knots[0].0 {
            return self.knots[0].1;
        }
        let last = n - 1;
        if maturity >= self.knots[last].0 {
            return self.knots[last].1;
        }
        let mut j: usize = 0;
        while j < n - 1
            invariant
                n == self.knots@.len(),
                n >= 2,
                j <= n - 1,
                !(n == 1 || maturity <= self.knots@[0].0),
                !(maturity >= self.knots@[n - 1].0),
                forall|l: int|
                    0 <= l < j ==> !(self.knots@[l].0 <= maturity <= (#[trigger] self.knots@[l
                        + 1]).0),
            decreases n - 1 - j,
        {
            let (ta, sa) = self.knots[j];
            let (tb, sb) = self.knots[j + 1];
            if ta <= maturity && maturity <= tb {
                proof {
                    assert(is_first_bracket(self.knots@, maturity as int, j as int));
                    let c = choose|c: int| is_first_bracket(self.knots@, maturity as int, c);
                    lemma_first_bracket_unique(self.knots@, maturity as int, j as int, c);
                }
                return interpolate(ta, sa, tb, sb, maturity);
            }
            j = j + 1;
        }
        UNIT
    }

    /// Whether no knot is given (scale one everywhere).
    pub fn is_uniform(&self) -> (r: bool)
        ensures
            r == (self.knots@.len() == 0),
    {
        self.knots.len() == 0
    }

    /// Checks every knot in order: positive maturity, positive scale,
    /// maturities strictly increasing.
    pub fn validate(&self) -> (r: SanosResult<()>)
        ensures
            r == outcome(lambda_scaling_error(self.knots@)),
    {
        let n = self.knots.len();
        let mut i: usize = 0;
        while i < n
            invariant
                n == self.knots@.len(),
                i <= n,
                forall|l: int| 0 <= l < i ==> knot_ok(self.knots@, l),
            decreases n - i,
        {
            let (t, s) = self.knots[i];
            let bad = t <= 0 || s <= 0 || (i > 0 && t <= self.knots[i - 1].0);
            if bad {
                proof {
                    assert(is_first_bad_knot(self.knots@, i as int));
                    let c = choose|c: int| is_first_bad_knot(self.knots@, c);
                    lemma_first_bad_knot_unique(self.knots@, i as int, c);
                }
                if t <= 0 {
                    return Err(
                        SanosError::InvalidBound {
                            field: "regularization.lambda_scaling.maturity",
                            value: t,
                            min: MIN_POSITIVE,
                            max: i64::MAX,
                        },
                    );
                }
                if s <= 0 {
                    return Err(
                        SanosError::InvalidBound {
                            field: "regularization.lambda_scaling.scale",
                            value: s,
                            min: MIN_POSITIVE,
                            max: i64::MAX,
                        },
                    );
                }
                return Err(
                    SanosError::InvalidOrdering {
                        msg: "lambda_scaling knots must be strictly increasing in maturity",
                    },
                );
            }
            i = i + 1;
        }
        proof {
            assert(!exists|c: int| is_first_bad_knot(self.knots@, c));
        }
        Ok(())
    }
}

/// Configuration of Tikhonov regularization (`lambda` in fixed point).
#[derive(Debug, Clone, PartialEq, Eq)]
pub struct RegularizationConfig {
    pub mode: RegularizationMode,
    pub lambda: i64,
    pub lambda_scaling: LambdaScaling,
}

/// First failing check of a regularization configuration: nothing is
/// checked when inactive; otherwise `lambda > 0` and the knots.
pub open spec fn regularization_error(c: RegularizationConfig) -> Option<SanosError> {
    if c.mode is Off {
        None
    } else if c.lambda <= 0 {
        Some(
            SanosError::InvalidBound {
                field: "regularization.lambda",
                value: c.lambda,
                min: MIN_POSITIVE,
                max: i64::MAX,
            },
        )
    } else {
        lambda_scaling_error(c.lambda_scaling.knots@)
    }
}

impl Default for RegularizationConfig {
    fn default() -> (r: Self)
        ensures
            r.mode is Off,
            r.lambda == 100_000_000,
            r.lambda_scaling.knots@.len() == 0,
    {
        RegularizationConfig {
            mode: RegularizationMode::Off,
            lambda: 100_000_000,
            lambda_scaling: LambdaScaling { knots: Vec::new() },
        }
    }
}

impl RegularizationConfig {
    /// Whether a regularization term is added.
    pub fn is_active(&self) -> (r: bool)
        ensures
            r == !(self.mode is Off),
    {
        !matches!(self.mode, RegularizationMode::Off)
    }

    /// Checks `lambda > 0` and the knots, when active.
    pub fn validate(&self) -> (r: SanosResult<()>)
        ensures
            r == outcome(regularization_error(*self)),
    {
        if !self.is_active() {
            return Ok(());
        }
        if self.lambda <= 0 {
            return Err(
                SanosError::InvalidBound {
                    field: "regularization.lambda",
                    value: self.lambda,
                    min: MIN_POSITIVE,
                    max: i64::MAX,
                },
            );
        }
        self.lambda_scaling.validate()
    }
}

/// Which kernel constraints are enforced.
#[derive(Debug, Clone, Copy, PartialEq, Eq, Default)]
pub enum OmegaConfig {
    Zero,
    #[default]
    One,
    Both,
}

/// Kernel configuration: `omega = Zero` uses linear-call constraints,
/// `One` call constraints, `Both` both blocks.
#[derive(Debug, Clone, Copy, PartialEq, Eq, Default)]
pub struct KernelConfig {
    pub omega: OmegaConfig,
}

/// Constraints of the calibration problem.
#[derive(Debug, Clone, Copy, PartialEq, Eq)]
pub struct ConstraintConfig {
    /// `sum_i q_{j,i} = 1`
    pub enforce_simplex: bool,
    /// `q_{j,i} >= 0`
    pub enforce_nonnegativity: bool,
    /// Calendar (U/R) blocks.
    pub include_time_constraints: bool,
}

impl Default for ConstraintConfig {
    fn default() -> (r: Self)
        ensures
            r == (ConstraintConfig {
                enforce_simplex: true,
                enforce_nonnegativity: true,
                include_time_constraints: true,
            }),
    {
        ConstraintConfig {
            enforce_simplex: true,
            enforce_nonnegativity: true,
            include_time_constraints: true,
        }
    }
}

/// Market quote proxy used for the raw call curve.
#[derive(Debug, Clone, Copy, PartialEq, Eq, Default)]
pub enum InitPriceProxyConfig {
    #[default]
    Mid,
    Bid,
    Ask,
}

/// Source of the warm start.
#[derive(Debug, Clone, Copy, PartialEq, Eq, Default)]
pub enum WarmStartMode {
    /// No warm start.
    #[default]
    Off,
    /// Warm start from synthetic backbone calls at the grid strikes.
    BackboneSynthetic,
}

/// Warm-start configuration (`feasibility_tol` in fixed point).
#[derive(Debug, Clone, Copy, PartialEq, Eq)]
pub struct InitializationConfig {
    pub mode: WarmStartMode,
    pub price_proxy: InitPriceProxyConfig,
    pub feasibility_tol: i64,
    pub market_completion: CompletionConfig,
}

/// `r` is the outcome of checking the completion configuration `c`: success
/// exactly when every check passes, an `External` error with the message of
/// the first failing check otherwise.
pub open spec fn completion_outcome(r: SanosResult<()>, c: CompletionConfig) -> bool {
    &&& r is Ok <==> completion_failure(c) is None
    &&& r matches Err(e) ==> (e matches SanosError::External { msg } && Some(msg@)
        == completion_failure(c))
}

/// Whether checking an initialization configuration fails.
pub open spec fn initialization_fails(c: InitializationConfig) -> bool {
    c.feasibility_tol < 0 || (c.mode is BackboneSynthetic && completion_failure(
        c.market_completion,
    ) is Some)
}

/// `r` is the outcome of checking the initialization configuration `c`:
/// `feasibility_tol >= 0`, then the completion configuration when the
/// synthetic warm start is selected.
pub open spec fn initialization_outcome(r: SanosResult<()>, c: InitializationConfig) -> bool {
    if c.feasibility_tol < 0 {
        r == Err::<(), SanosError>(
            SanosError::InvalidBound {
                field: "initialization.feasibility_tol",
                value: c.feasibility_tol,
                min: 0,
                max: i64::MAX,
            },
        )
    } else if c.mode is BackboneSynthetic {
        completion_outcome(r, c.market_completion)
    } else {
        r is Ok
    }
}

impl Default for InitializationConfig {
    fn default() -> (r: Self)
        ensures
            r == (InitializationConfig {
                mode: WarmStartMode::Off,
                price_proxy: InitPriceProxyConfig::Mid,
                feasibility_tol: 10_000,
                market_completion: default_completion_config(),
            }),
    {
        InitializationConfig {
            mode: WarmStartMode::Off,
            price_proxy: InitPriceProxyConfig::Mid,
            feasibility_tol: 10_000,
            market_completion: CompletionConfig::default(),
        }
    }
}

impl InitializationConfig {
    /// Whether a warm start is built.
    pub fn uses_warm_start(&self) -> (r: bool)
        ensures
            r == !(self.mode is Off),
    {
        !matches!(self.mode, WarmStartMode::Off)
    }

    /// Checks the feasibility tolerance and, for the synthetic warm start,
    /// the completion configuration.
    pub fn validate(&self) -> (r: SanosResult<()>)
        ensures
            initialization_outcome(r, *self),
            r is Ok <==> !initialization_fails(*self),
    {
        if self.feasibility_tol < 0 {
            return Err(
                SanosError::InvalidBound {
                    field: "initialization.feasibility_tol",
                    value: self.feasibility_tol,
                    min: 0,
                    max: i64::MAX,
                },
            );
        }
        if matches!(self.mode, WarmStartMode::BackboneSynthetic) {
            self.market_completion.validate()?;
        }
        Ok(())
    }
}

/// How quote residuals are weighted.
#[derive(Debug, Clone, Copy, PartialEq, Eq, Default)]
pub enum QuoteWeightMode {
    /// Equal weighting up to the per-quote weight.
    Identity,
    /// Inverse bid/ask spread.
    #[default]
    BidAskSpread,
    /// Black vega of the quote mid.
    Vega,
    /// Combined vega/spread weighting.
    BidAskVega,
}

/// Quote weighting configuration (floors in fixed point).
#[derive(Debug, Clone, Copy, PartialEq, Eq)]
pub struct QuoteWeightingConfig {
    pub mode: QuoteWeightMode,
    pub spread_floor: i64,
    pub vega_floor: i64,
}

/// First failing check of a weighting configuration: both floors positive.
pub open spec fn weighting_error(c: QuoteWeightingConfig) -> Option<SanosError> {
    if c.spread_floor <= 0 {
        Some(
            SanosError::InvalidBound {
                field: "weighting.spread_floor",
                value: c.spread_floor,
                min: MIN_POSITIVE,
                max: i64::MAX,
            },
        )
    } else if c.vega_floor <= 0 {
        Some(
            SanosError::InvalidBound {
                field: "weighting.vega_floor",
                value: c.vega_floor,
                min: MIN_POSITIVE,
                max: i64::MAX,
            },
        )
    } else {
        None
    }
}

impl Default for QuoteWeightingConfig {
    fn default() -> (r: Self)
        ensures
            r == (QuoteWeightingConfig {
                mode: QuoteWeightMode::BidAskSpread,
                spread_floor: 1,
                vega_floor: 1,
            }),
    {
        QuoteWeightingConfig { mode: QuoteWeightMode::BidAskSpread, spread_floor: 1, vega_floor: 1 }
    }
}

impl QuoteWeightingConfig {
    /// Both floors must be positive.
    pub fn validate(&self) -> (r: SanosResult<()>)
        ensures
            r == outcome(weighting_error(*self)),
    {
        if self.spread_floor <= 0 {
            return Err(
                SanosError::InvalidBound {
                    field: "weighting.spread_floor",
                    value: self.spread_floor,
                    min: MIN_POSITIVE,
                    max: i64::MAX,
                },
            );
        }
        if self.vega_floor <= 0 {
            return Err(
                SanosError::InvalidBound {
                    field: "weighting.vega_floor",
                    value: self.vega_floor,
                    min: MIN_POSITIVE,
                    max: i64::MAX,
                },
            );
        }
        Ok(())
    }

    /// Rejects the modes that weight by Black vega (see
    /// [`weighting_mode_error`]).
    pub fn check_mode(&self) -> (r: SanosResult<()>)
        ensures
            r == outcome(weighting_mode_error(*self)),
    {
        match self.mode {
            QuoteWeightMode::Vega | QuoteWeightMode::BidAskVega => Err(
                SanosError::InvalidOrdering { msg: VEGA_WEIGHTING_MSG },
            ),
            _ => Ok(()),
        }
    }
}

/// Message of the error for a weighting mode that needs the Black vega of
/// the quote mid, which this library does not compute.
pub const VEGA_WEIGHTING_MSG: &'static str =
    "vega quote weighting is not supported: it needs the Black vega of the quote mid";

/// The error for a weighting mode the fit cannot apply: `Vega` and
/// `BidAskVega` need Black vega; `Identity` and `BidAskSpread` are applied.
pub open spec fn weighting_mode_error(c: QuoteWeightingConfig) -> Option<SanosError> {
    match c.mode {
        QuoteWeightMode::Vega | QuoteWeightMode::BidAskVega => Some(
            SanosError::InvalidOrdering { msg: VEGA_WEIGHTING_MSG },
        ),
        _ => None,
    }
}

/// Full fit configuration.
#[derive(Debug, Clone, PartialEq, Eq)]
pub struct FitConfig {
    pub kernel: KernelConfig,
    pub constraints: ConstraintConfig,
    pub initialization: InitializationConfig,
    pub weighting: QuoteWeightingConfig,
    pub regularization: RegularizationConfig,
}

/// `r` is the outcome of checking a fit configuration: initialization, then
/// weighting, then regularization.
pub open spec fn fit_outcome(r: SanosResult<()>, c: FitConfig) -> bool {
    if initialization_fails(c.initialization) {
        initialization_outcome(r, c.initialization)
    } else if weighting_error(c.weighting) is Some {
        r == outcome(weighting_error(c.weighting))
    } else {
        r == outcome(regularization_error(c.regularization))
    }
}

impl Default for FitConfig {
    fn default() -> (r: Self)
        ensures
            r.kernel.omega is One,
            r.constraints == (ConstraintConfig {
                enforce_simplex: true,
                enforce_nonnegativity: true,
                include_time_constraints: true,
            }),
            r.initialization == (InitializationConfig {
                mode: WarmStartMode::Off,
                price_proxy: InitPriceProxyConfig::Mid,
                feasibility_tol: 10_000,
                market_completion: default_completion_config(),
            }),
            r.weighting == (QuoteWeightingConfig {
                mode: QuoteWeightMode::BidAskSpread,
                spread_floor: 1,
                vega_floor: 1,
            }),
            r.regularization.mode is Off,
            r.regularization.lambda == 100_000_000,
            r.regularization.lambda_scaling.knots@.len() == 0,
    {
        FitConfig {
            kernel: KernelConfig { omega: OmegaConfig::One },
            constraints: ConstraintConfig::default(),
            initialization: InitializationConfig::default(),
            weighting: QuoteWeightingConfig::default(),
            regularization: RegularizationConfig::default(),
        }
    }
}

impl FitConfig {
    /// Whether a warm start is built.
    pub fn uses_warm_start(&self) -> (r: bool)
        ensures
            r == !(self.initialization.mode is Off),
    {
        self.initialization.uses_warm_start()
    }

    /// Checks initialization, weighting and regularization, in this order.
    pub fn validate(&self) -> (r: SanosResult<()>)
        ensures
            fit_outcome(r, *self),
    {
        self.initialization.validate()?;
        self.weighting.validate()?;
        self.regularization.validate()?;
        Ok(())
    }
}

/// Objective of the linear program (penalties and weights in fixed point).
#[derive(Debug, Clone, Copy, PartialEq, Eq)]
pub enum ObjectiveConfig {
    /// Model prices must lie within `[bid, ask]`; no objective.
    HardBidAsk,
    /// Prices outside `[bid, ask]` are penalized by `slack_penalty`, distance
    /// to the mid by `epsilon_inside`.
    HingeBidAsk { slack_penalty: i64, epsilon_inside: i64 },
    /// Weighted absolute distance to the mid.
    L1Mid { weight: i64 },
}

impl Default for ObjectiveConfig {
    fn default() -> (r: Self)
        ensures
            r is HardBidAsk,
    {
        ObjectiveConfig::HardBidAsk
    }
}

/// The first invalid parameter of an objective, if any.
pub open spec fn objective_error(o: ObjectiveConfig) -> Option<SanosError> {
    match o {
        ObjectiveConfig::HardBidAsk => None,
        ObjectiveConfig::HingeBidAsk { slack_penalty, epsilon_inside } => if slack_penalty <= 0 {
            Some(
                SanosError::InvalidBound {
                    field: "objective.slack_penalty",
                    value: slack_penalty,
                    min: MIN_POSITIVE,
                    max: i64::MAX,
                },
            )
        } else if epsilon_inside < 0 {
            Some(
                SanosError::InvalidBound {
                    field: "objective.epsilon_inside",
                    value: epsilon_inside,
                    min: 0,
                    max: i64::MAX,
                },
            )
        } else {
            None
        },
        ObjectiveConfig::L1Mid { weight } => if weight <= 0 {
            Some(
                SanosError::InvalidBound {
                    field: "objective.weight",
                    value: weight,
                    min: MIN_POSITIVE,
                    max: i64::MAX,
                },
            )
        } else {
            None
        },
    }
}

impl ObjectiveConfig {
    /// Checks the penalties: `slack_penalty > 0`, `epsilon_inside >= 0`,
    /// `weight > 0`.
    pub fn validate(&self) -> (r: SanosResult<()>)
        ensures
            r == outcome(objective_error(*self)),
    {
        match *self {
            ObjectiveConfig::HardBidAsk => Ok(()),
            ObjectiveConfig::HingeBidAsk { slack_penalty, epsilon_inside } => {
                if slack_penalty <= 0 {
                    return Err(
                        SanosError::InvalidBound {
                            field: "objective.slack_penalty",
                            value: slack_penalty,
                            min: MIN_POSITIVE,
                            max: i64::MAX,
                        },
                    );
                }
                if epsilon_inside < 0 {
                    return Err(
                        SanosError::InvalidBound {
                            field: "objective.epsilon_inside",
                            value: epsilon_inside,
                            min: 0,
                            max: i64::MAX,
                        },
                    );
                }
                Ok(())
            },
            ObjectiveConfig::L1Mid { weight } => {
                if weight <= 0 {
                    return Err(
                        SanosError::InvalidBound {
                            field: "objective.weight",
                            value: weight,
                            min: MIN_POSITIVE,
                            max: i64::MAX,
                        },
                    );
                }
                Ok(())
            },
        }
    }
}

} // verus!
