//! The two first stages of the linear program: the density variables with
//! their simplex rows, then, maturity by maturity, the rows (and slack
//! variables and objective terms) of every quote followed by the mean row.
use vstd::prelude::*;
use crate::error::{outcome, SanosError, SanosResult};
use crate::fit::config::{ConstraintConfig, ObjectiveConfig, QuoteWeightMode, QuoteWeightingConfig};
use crate::fit::kernels::{dense_wf, KernelC};
use crate::fit::layout::{lemma_model_count_monotone, model_strike_count};
use crate::fit::lp_model::{
    block_name, cviews, ids_view, indexed_name, lemma_row_terms_vars, make_block_name,
    make_indexed_name, push_row_terms, row_terms, terms_within, vviews, ConstraintView, LinTerm,
    LpModel, Sense, VarView,
};
use crate::market::chain::OptionChain;
use crate::market::quote::{half_toward_zero, CallQuote};
use crate::UNIT;

verus! {

/// Identifiers of the density variables of maturity `j`: they follow those of
/// the earlier maturities.
pub open spec fn density_ids(kc: Seq<KernelC>, j: int) -> Seq<usize> {
    Seq::new(kc[j].model_strikes@.len(), |i: int| (model_strike_count(kc, j) + i) as usize)
}

/// Identifiers of the density variables, maturity by maturity.
pub open spec fn density_id_blocks(kc: Seq<KernelC>) -> Seq<Seq<usize>> {
    Seq::new(kc.len(), |j: int| density_ids(kc, j))
}

/// Density variable `q_j_i`, bounded below by zero when non-negativity is
/// enforced.
pub open spec fn density_var(j: int, i: int, nonneg: bool) -> VarView {
    (
        indexed_name("q"@, j as usize, i as usize),
        if nonneg {
            Some(0i64)
        } else {
            None
        },
        None,
    )
}

/// Density variables of the first `n` maturities.
pub open spec fn density_vars(kc: Seq<KernelC>, nonneg: bool, n: int) -> Seq<VarView>
    decreases n,
{
    if n <= 0 {
        Seq::empty()
    } else {
        density_vars(kc, nonneg, n - 1) + Seq::new(
            kc[n - 1].model_strikes@.len(),
            |i: int| density_var(n - 1, i, nonneg),
        )
    }
}

/// `sum_i q_{j,i} = 1`, named `simplex_j`.
pub open spec fn simplex_row(kc: Seq<KernelC>, j: int) -> ConstraintView {
    (
        block_name("simplex"@, j as usize),
        density_ids(kc, j).map_values(|v: usize| LinTerm { var: v, coef: UNIT as i128 }),
        Sense::Eq,
        UNIT as i128,
    )
}

/// Simplex rows of the first `n` maturities, when enforced.
pub open spec fn simplex_rows(kc: Seq<KernelC>, enforce: bool, n: int) -> Seq<ConstraintView> {
    if enforce {
        Seq::new(n as nat, |j: int| simplex_row(kc, j))
    } else {
        Seq::empty()
    }
}

/// `sum_i k_i q_{j,i} = 1` over the model strikes `k_i`, named `mean_j`.
pub open spec fn mean_row(kc: Seq<KernelC>, j: int) -> ConstraintView {
    (
        block_name("mean"@, j as usize),
        Seq::new(
            kc[j].model_strikes@.len(),
            |i: int|
                LinTerm { var: density_ids(kc, j)[i], coef: kc[j].model_strikes@[i] as i128 },
        ),
        Sense::Eq,
        UNIT as i128,
    )
}

/// `sign * p` for the model price `p = sum_i C_j[m][i] q_{j,i}` of quote `m`
/// (zero kernel entries left out).
pub open spec fn price_terms(kc: Seq<KernelC>, j: int, m: int, sign: int) -> Seq<LinTerm> {
    row_terms(kc[j].c, m, density_ids(kc, j), kc[j].model_strikes@.len() as int, sign)
}

/// Divisor of a quote's weight under the weighting `w`: one whole unit for
/// `Identity` (the quote weight alone), else the bid/ask spread floored at
/// `w.spread_floor`. The floor is at least one unit: the configuration check
/// refuses a floor below it, and such a floor counts as one unit here.
pub open spec fn weight_divisor(q: CallQuote, w: QuoteWeightingConfig) -> int {
    let floor: int = if w.spread_floor >= 1 {
        w.spread_floor as int
    } else {
        1
    };
    match w.mode {
        QuoteWeightMode::Identity => UNIT as int,
        _ => if q.ask - q.bid >= floor {
            q.ask - q.bid
        } else {
            floor
        },
    }
}

/// Objective weight `weight * scale / divisor` of a quote (fixed point,
/// rounded toward zero; see [`weight_divisor`]).
pub open spec fn objective_weight(q: CallQuote, scale: int, w: QuoteWeightingConfig) -> int {
    let num = q.weight * scale;
    if num >= 0 {
        num / weight_divisor(q, w)
    } else {
        -((-num) / weight_divisor(q, w))
    }
}

/// The objective term `c * x[var]` with `c = objective_weight(q, scale, w)`,
/// present when `w` is positive.
pub open spec fn weighted_term(var: int, q: CallQuote, scale: int, w: QuoteWeightingConfig) -> Seq<
    LinTerm,
> {
    if objective_weight(q, scale, w) > 0 {
        seq![LinTerm { var: var as usize, coef: objective_weight(q, scale, w) as i128 }]
    } else {
        Seq::empty()
    }
}

/// Slack variables added for quote `m` of maturity `j`.
pub open spec fn quote_vars(o: ObjectiveConfig, j: int, m: int) -> Seq<VarView> {
    let (ju, mu) = (j as usize, m as usize);
    match o {
        ObjectiveConfig::HardBidAsk => Seq::empty(),
        ObjectiveConfig::HingeBidAsk { .. } => seq![
            (indexed_name("e_mid"@, ju, mu), Some(0i64), None),
            (indexed_name("s_bid"@, ju, mu), Some(0i64), None),
            (indexed_name("s_ask"@, ju, mu), Some(0i64), None),
        ],
        ObjectiveConfig::L1Mid { .. } => seq![(indexed_name("e"@, ju, mu), Some(0i64), None)],
    }
}

/// Rows of quote `m` of maturity `j`, whose slack variables start at `base`.
pub open spec fn quote_rows(
    o: ObjectiveConfig,
    kc: Seq<KernelC>,
    q: CallQuote,
    j: int,
    m: int,
    base: int,
) -> Seq<ConstraintView> {
    let (ju, mu) = (j as usize, m as usize);
    let p = price_terms(kc, j, m, 1);
    let n = price_terms(kc, j, m, -1);
    let mid = half_toward_zero(q.bid + q.ask);
    let one = UNIT as i128;
    let neg_one = (-UNIT) as i128;
    match o {
        ObjectiveConfig::HardBidAsk => seq![
            (indexed_name("hard_bid"@, ju, mu), p, Sense::Ge, q.bid as i128),
            (indexed_name("hard_ask"@, ju, mu), p, Sense::Le, q.ask as i128),
        ],
        ObjectiveConfig::HingeBidAsk { .. } => seq![
            (
                indexed_name("hinge_mid_pos"@, ju, mu),
                p.push(LinTerm { var: base as usize, coef: neg_one }),
                Sense::Le,
                mid as i128,
            ),
            (
                indexed_name("hinge_mid_neg"@, ju, mu),
                n.push(LinTerm { var: base as usize, coef: neg_one }),
                Sense::Le,
                -mid as i128,
            ),
            (
                indexed_name("hinge_bid"@, ju, mu),
                p.push(LinTerm { var: (base + 1) as usize, coef: one }),
                Sense::Ge,
                q.bid as i128,
            ),
            (
                indexed_name("hinge_ask"@, ju, mu),
                p.push(LinTerm { var: (base + 2) as usize, coef: neg_one }),
                Sense::Le,
                q.ask as i128,
            ),
        ],
        ObjectiveConfig::L1Mid { .. } => seq![
            (
                indexed_name("l1_pos"@, ju, mu),
                p.push(LinTerm { var: base as usize, coef: neg_one }),
                Sense::Le,
                mid as i128,
            ),
            (
                indexed_name("l1_neg"@, ju, mu),
                n.push(LinTerm { var: base as usize, coef: neg_one }),
                Sense::Le,
                -mid as i128,
            ),
        ],
    }
}

/// Objective terms of a quote whose slack variables start at `base`.
pub open spec fn quote_objective(
    o: ObjectiveConfig,
    w: QuoteWeightingConfig,
    q: CallQuote,
    base: int,
) -> Seq<LinTerm> {
    match o {
        ObjectiveConfig::HardBidAsk => Seq::empty(),
        ObjectiveConfig::HingeBidAsk { slack_penalty, epsilon_inside } => weighted_term(
            base,
            q,
            epsilon_inside as int,
            w,
        ) + weighted_term(base + 1, q, slack_penalty as int, w) + weighted_term(
            base + 2,
            q,
            slack_penalty as int,
            w,
        ),
        ObjectiveConfig::L1Mid { weight } => weighted_term(base, q, weight as int, w),
    }
}

/// Variables, constraints and objective terms of a program.
pub type ProgramView = (Seq<VarView>, Seq<ConstraintView>, Seq<LinTerm>);

/// Contents of a program.
pub open spec fn program_view(lp: LpModel) -> ProgramView {
    (vviews(lp.vars@), cviews(lp.constraints@), lp.objective.terms@)
}

/// `s` after the first `m` quotes of maturity `j`.
pub open spec fn after_quotes(
    o: ObjectiveConfig,
    w: QuoteWeightingConfig,
    kc: Seq<KernelC>,
    quotes: Seq<CallQuote>,
    j: int,
    m: int,
    s: ProgramView,
) -> ProgramView
    decreases m,
{
    if m <= 0 {
        s
    } else {
        let p = after_quotes(o, w, kc, quotes, j, m - 1, s);
        let base = p.0.len() as int;
        (
            p.0 + quote_vars(o, j, m - 1),
            p.1 + quote_rows(o, kc, quotes[m - 1], j, m - 1, base),
            p.2 + quote_objective(o, w, quotes[m - 1], base),
        )
    }
}

/// `s` after the quotes and the mean row of the first `n` maturities.
pub open spec fn after_chains(
    o: ObjectiveConfig,
    w: QuoteWeightingConfig,
    chains: Seq<OptionChain>,
    kc: Seq<KernelC>,
    n: int,
    s: ProgramView,
) -> ProgramView
    decreases n,
{
    if n <= 0 {
        s
    } else {
        let p = after_chains(o, w, chains, kc, n - 1, s);
        let quotes = chains[n - 1].quotes_spec();
        let c = after_quotes(o, w, kc, quotes, n - 1, quotes.len() as int, p);
        (c.0, c.1.push(mean_row(kc, n - 1)), c.2)
    }
}

/// Message of the alignment check of a chain against its kernel, if it fails.
pub open spec fn alignment_error(chain: OptionChain, k: KernelC) -> Option<&'static str> {
    let n = chain.quotes_spec().len();
    if k.market_strikes@.len() != n {
        Some("kernel market_strikes must align with chain quotes")
    } else if k.c.nrows != n || k.c.ncols != k.model_strikes@.len() {
        Some("kernel matrix dims mismatch")
    } else {
        None
    }
}

/// `j` is the first chain that fails its alignment check.
pub open spec fn is_first_misaligned(chains: Seq<OptionChain>, kc: Seq<KernelC>, j: int) -> bool {
    &&& 0 <= j < chains.len()
    &&& alignment_error(chains[j], kc[j]) is Some
    &&& forall|l: int| 0 <= l < j ==> (#[trigger] alignment_error(chains[l], kc[l])) is None
}

/// Error of the first misaligned chain, if any.
pub open spec fn misalignment(chains: Seq<OptionChain>, kc: Seq<KernelC>) -> Option<SanosError> {
    if exists|j: int| is_first_misaligned(chains, kc, j) {
        let j = choose|j: int| is_first_misaligned(chains, kc, j);
        Some(SanosError::InvalidOrdering { msg: alignment_error(chains[j], kc[j])->Some_0 })
    } else {
        None
    }
}

/// Every kernel matrix is well formed.
pub open spec fn kernels_wf(kc: Seq<KernelC>) -> bool {
    forall|j: int| 0 <= j < kc.len() ==> dense_wf((#[trigger] kc[j]).c)
}

proof fn lemma_first_misaligned_unique(
    chains: Seq<OptionChain>,
    kc: Seq<KernelC>,
    a: int,
    b: int,
)
    requires
        is_first_misaligned(chains, kc, a),
        is_first_misaligned(chains, kc, b),
    ensures
        a == b,
{
    if a < b {
        assert(alignment_error(chains[a], kc[a]) is None);
    }
    if b < a {
        assert(alignment_error(chains[b], kc[b]) is None);
    }
}

/// Density identifiers lie below the total count of model strikes.
pub proof fn lemma_density_ids_below(kc: Seq<KernelC>, j: int)
    requires
        0 <= j < kc.len(),
    ensures
        0 <= model_strike_count(kc, j),
        model_strike_count(kc, j) + kc[j].model_strikes@.len() <= model_strike_count(
            kc,
            kc.len() as int,
        ),
{
    lemma_model_count_monotone(kc, 0, j);
    lemma_model_count_monotone(kc, j + 1, kc.len() as int);
}

/// Adds the density variables `q_j_i` of every maturity (with the simplex row
/// of each maturity when enforced) to an empty program; every maturity needs
/// at least one model strike.
pub fn add_density_vars(lp: &mut LpModel, kc: &Vec<KernelC>, cc: &ConstraintConfig) -> (r:
    SanosResult<Vec<Vec<usize>>>)
    requires
        old(lp).vars@.len() == 0,
        old(lp).constraints@.len() == 0,
    ensures
        r is Ok <==> forall|j: int|
            0 <= j < kc@.len() ==> (#[trigger] kc@[j]).model_strikes@.len() > 0,
        r is Err ==> r == Err::<Vec<Vec<usize>>, SanosError>(
            SanosError::EmptyCollection { what: "model_strikes" },
        ),
        r matches Ok(q) ==> {
            &&& ids_view(q@) == density_id_blocks(kc@)
            &&& final(lp).vars@.len() == model_strike_count(kc@, kc@.len() as int)
            &&& vviews(final(lp).vars@) == density_vars(
                kc@,
                cc.enforce_nonnegativity,
                kc@.len() as int,
            )
            &&& cviews(final(lp).constraints@) == simplex_rows(
                kc@,
                cc.enforce_simplex,
                kc@.len() as int,
            )
            &&& final(lp).objective == old(lp).objective
        },
{
    let nk = kc.len();
    let mut q_var_ids: Vec<Vec<usize>> = Vec::new();
    let mut j: usize = 0;
    let lb: Option<i64> = if cc.enforce_nonnegativity {
        Some(0)
    } else {
        None
    };
    assert(cviews(lp.constraints@) =~= simplex_rows(kc@, cc.enforce_simplex, 0));
    assert(vviews(lp.vars@) =~= density_vars(kc@, cc.enforce_nonnegativity, 0));
    while j < nk
        invariant
            nk == kc@.len(),
            j <= nk,
            lb == (if cc.enforce_nonnegativity {
                Some(0i64)
            } else {
                None
            }),
            forall|l: int| 0 <= l < j ==> (#[trigger] kc@[l]).model_strikes@.len() > 0,
            lp.vars@.len() == model_strike_count(kc@, j as int),
            vviews(lp.vars@) == density_vars(kc@, cc.enforce_nonnegativity, j as int),
            cviews(lp.constraints@) == simplex_rows(kc@, cc.enforce_simplex, j as int),
            ids_view(q_var_ids@) == Seq::new(j as nat, |l: int| density_ids(kc@, l)),
            lp.objective == old(lp).objective,
        decreases nk - j,
    {
        let n_mod = kc[j].model_strikes.len();
        if n_mod == 0 {
            return Err(SanosError::EmptyCollection { what: "model_strikes" });
        }
        let ghost v0 = vviews(lp.vars@);
        let mut qj: Vec<usize> = Vec::new();
        let mut i: usize = 0;
        while i < n_mod
            invariant
                nk == kc@.len(),
                j < nk,
                n_mod == kc@[j as int].model_strikes@.len(),
                i <= n_mod,
                lb == (if cc.enforce_nonnegativity {
                    Some(0i64)
                } else {
                    None
                }),
                lp.vars@.len() == model_strike_count(kc@, j as int) + i,
                vviews(lp.vars@) == v0 + Seq::new(
                    i as nat,
                    |l: int| density_var(j as int, l, cc.enforce_nonnegativity),
                ),
                qj@ == density_ids(kc@, j as int).take(i as int),
                cviews(lp.constraints@) == simplex_rows(kc@, cc.enforce_simplex, j as int),
                lp.objective == old(lp).objective,
            decreases n_mod - i,
        {
            let name = make_indexed_name("q", j, i);
            let ghost nm = name@;
            let ghost vv = vviews(lp.vars@);
            let vid = lp.add_var(name, lb, None);
            match vid {
                Ok(id) => {
                    qj.push(id);
                },
                Err(_) => {
                    proof {
                        assert(false);
                    }
                },
            }
            proof {
                assert(vviews(lp.vars@) =~= v0 + Seq::new(
                    (i + 1) as nat,
                    |l: int| density_var(j as int, l, cc.enforce_nonnegativity),
                ));
                assert(qj@ =~= density_ids(kc@, j as int).take((i + 1) as int));
            }
            i = i + 1;
        }
        proof {
            assert(qj@ =~= density_ids(kc@, j as int));
            assert(vviews(lp.vars@) =~= density_vars(
                kc@,
                cc.enforce_nonnegativity,
                (j + 1) as int,
            ));
        }
        if cc.enforce_simplex {
            let mut terms: Vec<LinTerm> = Vec::new();
            let mut i: usize = 0;
            while i < n_mod
                invariant
                    n_mod == qj@.len(),
                    i <= n_mod,
                    terms@ == qj@.take(i as int).map_values(
                        |v: usize| LinTerm { var: v, coef: UNIT as i128 },
                    ),
                decreases n_mod - i,
            {
                terms.push(LinTerm { var: qj[i], coef: UNIT as i128 });
                proof {
                    assert(terms@ =~= qj@.take((i + 1) as int).map_values(
                        |v: usize| LinTerm { var: v, coef: UNIT as i128 },
                    ));
                }
                i = i + 1;
            }
            proof {
                assert(qj@.take(n_mod as int) =~= qj@);
                assert forall|t: int| 0 <= t < terms@.len() implies (#[trigger] terms@[t]).var
                    < lp.vars@.len() by {
                    assert(terms@[t].var == qj@[t]);
                }
            }
            let name = make_block_name("simplex", j);
            let _ = lp.add_constraint(name, terms, Sense::Eq, UNIT as i128);
            proof {
                assert(cviews(lp.constraints@) =~= simplex_rows(
                    kc@,
                    cc.enforce_simplex,
                    (j + 1) as int,
                ));
            }
        } else {
            proof {
                assert(cviews(lp.constraints@) =~= simplex_rows(
                    kc@,
                    cc.enforce_simplex,
                    (j + 1) as int,
                ));
            }
        }
        let ghost qv = ids_view(q_var_ids@);
        let ghost qjv = qj@;
        q_var_ids.push(qj);
        proof {
            assert(ids_view(q_var_ids@) =~= qv.push(qjv));
            assert(ids_view(q_var_ids@) =~= Seq::new(
                (j + 1) as nat,
                |l: int| density_ids(kc@, l),
            ));
        }
        j = j + 1;
    }
    proof {
        assert(ids_view(q_var_ids@) =~= density_id_blocks(kc@));
    }
    Ok(q_var_ids)
}

/// Divisor of a quote's weight (see [`weight_divisor`]).
pub fn weight_divisor_of(q: &CallQuote, w: &QuoteWeightingConfig) -> (r: i128)
    ensures
        r == weight_divisor(*q, *w),
        r >= 1,
{
    match w.mode {
        QuoteWeightMode::Identity => UNIT as i128,
        _ => {
            let floor: i128 = if w.spread_floor >= 1 {
                w.spread_floor as i128
            } else {
                1
            };
            let diff: i128 = (q.ask as i128) - (q.bid as i128);
            if diff >= floor {
                diff
            } else {
                floor
            }
        },
    }
}

/// Objective weight of a quote (see [`objective_weight`]).
pub fn objective_weight_of(q: &CallQuote, scale: i64, w: &QuoteWeightingConfig) -> (r: i128)
    requires
    ensures
        r == objective_weight(*q, scale as int, *w),
{
    let spread: i128 = weight_divisor_of(q, w);
    proof {
        let a = q.weight as int;
        let b = scale as int;
        assert(-0x4000_0000_0000_0000_0000_0000_0000_0000 <= a * b
            <= 0x4000_0000_0000_0000_0000_0000_0000_0000) by (nonlinear_arith)
            requires
                -0x8000_0000_0000_0000 <= a < 0x8000_0000_0000_0000,
                -0x8000_0000_0000_0000 <= b < 0x8000_0000_0000_0000,
        ;
    }
    let num: i128 = (q.weight as i128) * (scale as i128);
    proof {
        let a = num as int;
        let b = spread as int;
        assert(a >= 0 ==> 0 <= a / b <= a) by (nonlinear_arith)
            requires
                b >= 1,
        ;
        assert(a < 0 ==> 0 <= (-a) / b <= -a) by (nonlinear_arith)
            requires
                b >= 1,
        ;
    }
    if num >= 0 {
        num / spread
    } else {
        -((-num) / spread)
    }
}

/// Adds the objective term `objective_weight(q, scale, w) * x[var]` when
/// the weight is positive.
fn add_weighted_term(lp: &mut LpModel, var: usize, q: &CallQuote, scale: i64, w: &QuoteWeightingConfig)
    requires
        var < old(lp).vars@.len(),
    ensures
        final(lp).vars == old(lp).vars,
        final(lp).constraints == old(lp).constraints,
        final(lp).objective.terms@ == old(lp).objective.terms@ + weighted_term(
            var as int,
            *q,
            scale as int,
            *w,
        ),
{
    let c = objective_weight_of(q, scale, w);
    if c > 0 {
        let _ = lp.add_obj_term(var, c);
        assert(lp.objective.terms@ =~= old(lp).objective.terms@ + weighted_term(
            var as int,
            *q,
            scale as int,
            *w,
        ));
    } else {
        assert(old(lp).objective.terms@ =~= old(lp).objective.terms@ + weighted_term(
            var as int,
            *q,
            scale as int,
            *w,
        ));
    }
}

/// `sign * p` for quote `m` (see [`price_terms`]).
fn price_row(kc: &KernelC, m: usize, qj: &Vec<usize>, negate: bool, bound: usize) -> (r: Vec<
    LinTerm,
>)
    requires
        dense_wf(kc.c),
        m < kc.c.nrows,
        qj@.len() == kc.c.ncols,
        forall|l: int| 0 <= l < qj@.len() ==> (#[trigger] qj@[l]) < bound,
    ensures
        r@ == row_terms(kc.c, m as int, qj@, qj@.len() as int, if negate {
            -1
        } else {
            1
        }),
        terms_within(r@, bound as int),
{
    let mut terms: Vec<LinTerm> = Vec::new();
    push_row_terms(&mut terms, &kc.c, m, qj.as_slice(), negate);
    proof {
        lemma_row_terms_vars(kc.c, m as int, qj@, qj@.len() as int, if negate {
            -1
        } else {
            1
        }, bound as int);
        assert(terms@ =~= row_terms(kc.c, m as int, qj@, qj@.len() as int, if negate {
            -1
        } else {
            1
        }));
    }
    terms
}

/// `sign * p` for quote `m` followed by the term `extra`.
fn price_row_with(
    kc: &KernelC,
    m: usize,
    qj: &Vec<usize>,
    negate: bool,
    bound: usize,
    extra: LinTerm,
) -> (r: Vec<LinTerm>)
    requires
        dense_wf(kc.c),
        m < kc.c.nrows,
        qj@.len() == kc.c.ncols,
        forall|l: int| 0 <= l < qj@.len() ==> (#[trigger] qj@[l]) < bound,
        extra.var < bound,
    ensures
        r@ == row_terms(kc.c, m as int, qj@, qj@.len() as int, if negate {
            -1
        } else {
            1
        }).push(extra),
        terms_within(r@, bound as int),
{
    let mut t = price_row(kc, m, qj, negate, bound);
    let ghost tv = t@;
    t.push(extra);
    proof {
        assert forall|i: int| 0 <= i < t@.len() implies (#[trigger] t@[i]).var < bound by {
            if i < tv.len() {
                assert(t@[i] == tv[i]);
            }
        }
    }
    t
}

/// Adds a slack variable `prefix_j_m` in `[0, inf)` and returns its index.
fn add_slack(lp: &mut LpModel, prefix: &str, j: usize, m: usize) -> (r: usize)
    ensures
        r == old(lp).vars@.len(),
        vviews(final(lp).vars@) == vviews(old(lp).vars@).push(
            (indexed_name(prefix@, j, m), Some(0i64), None),
        ),
        final(lp).vars@.len() == old(lp).vars@.len() + 1,
        final(lp).constraints == old(lp).constraints,
        final(lp).objective == old(lp).objective,
{
    let n0 = lp.vars.len();
    let name = make_indexed_name(prefix, j, m);
    let lb: Option<i64> = Some(0);
    let ub: Option<i64> = None;
    let r = lp.add_var(name, lb, ub);
    assert(!(lb matches Some(l) && ub matches Some(u) && l > u));
    assert(r == Ok::<usize, SanosError>(n0));
    assert(vviews(lp.vars@).len() == lp.vars@.len());
    match r {
        Ok(id) => id,
        Err(_) => {
            proof {
                assert(false);
            }
            0
        },
    }
}

/// Adds the row `terms + extra  (sense)  rhs` named `prefix_j_m`.
fn add_row(
    lp: &mut LpModel,
    prefix: &str,
    j: usize,
    m: usize,
    terms: Vec<LinTerm>,
    sense: Sense,
    rhs: i128,
)
    requires
        terms_within(terms@, old(lp).vars@.len() as int),
    ensures
        cviews(final(lp).constraints@) == cviews(old(lp).constraints@).push(
            (indexed_name(prefix@, j, m), terms@, sense, rhs),
        ),
        final(lp).vars == old(lp).vars,
        final(lp).objective == old(lp).objective,
{
    let name = make_indexed_name(prefix, j, m);
    let _ = lp.add_constraint(name, terms, sense, rhs);
}

/// Adds the rows, slack variables and objective terms of quote `m` of
/// maturity `j`.
fn add_quote(
    lp: &mut LpModel,
    kcs: Ghost<Seq<KernelC>>,
    kcj: &KernelC,
    qj: &Vec<usize>,
    quote: &CallQuote,
    j: usize,
    m: usize,
    o: &ObjectiveConfig,
    w: &QuoteWeightingConfig,
)
    requires
        0 <= j < kcs@.len(),
        kcs@[j as int] == *kcj,
        dense_wf(kcj.c),
        m < kcj.c.nrows,
        qj@ == density_ids(kcs@, j as int),
        qj@.len() == kcj.c.ncols,
        forall|l: int| 0 <= l < qj@.len() ==> (#[trigger] qj@[l]) < old(lp).vars@.len(),
    ensures
        program_view(*final(lp)) == ({
            let s = program_view(*old(lp));
            let base = s.0.len() as int;
            (
                s.0 + quote_vars(*o, j as int, m as int),
                s.1 + quote_rows(*o, kcs@, *quote, j as int, m as int, base),
                s.2 + quote_objective(*o, *w, *quote, base),
            )
        }),
        final(lp).vars@.len() >= old(lp).vars@.len(),
{
    let ghost s = program_view(*lp);
    let ghost base = s.0.len() as int;
    let bound = lp.vars.len();
    let ghost p = price_terms(kcs@, j as int, m as int, 1);
    let ghost n = price_terms(kcs@, j as int, m as int, -1);
    let mid = quote.mid();
    match *o {
        ObjectiveConfig::HardBidAsk => {
            let t1 = price_row(kcj, m, qj, false, bound);
            add_row(lp, "hard_bid", j, m, t1, Sense::Ge, quote.bid as i128);
            let t2 = price_row(kcj, m, qj, false, bound);
            add_row(lp, "hard_ask", j, m, t2, Sense::Le, quote.ask as i128);
            proof {
                assert(vviews(lp.vars@) =~= s.0 + quote_vars(*o, j as int, m as int));
                assert(cviews(lp.constraints@) =~= s.1 + quote_rows(
                    *o,
                    kcs@,
                    *quote,
                    j as int,
                    m as int,
                    base,
                ));
                assert(lp.objective.terms@ =~= s.2 + quote_objective(*o, *w, *quote, base));
            }
        },
        ObjectiveConfig::HingeBidAsk { slack_penalty, epsilon_inside } => {
            let e_mid = add_slack(lp, "e_mid", j, m);
            let s_bid = add_slack(lp, "s_bid", j, m);
            let s_ask = add_slack(lp, "s_ask", j, m);
            let nv = lp.vars.len();
            let t1 = price_row_with(kcj, m, qj, false, nv, LinTerm { var: e_mid, coef: -(UNIT as i128) });
            add_row(lp, "hinge_mid_pos", j, m, t1, Sense::Le, mid as i128);
            let t2 = price_row_with(kcj, m, qj, true, nv, LinTerm { var: e_mid, coef: -(UNIT as i128) });
            add_row(lp, "hinge_mid_neg", j, m, t2, Sense::Le, -(mid as i128));
            let t3 = price_row_with(kcj, m, qj, false, nv, LinTerm { var: s_bid, coef: UNIT as i128 });
            add_row(lp, "hinge_bid", j, m, t3, Sense::Ge, quote.bid as i128);
            let t4 = price_row_with(kcj, m, qj, false, nv, LinTerm { var: s_ask, coef: -(UNIT as i128) });
            add_row(lp, "hinge_ask", j, m, t4, Sense::Le, quote.ask as i128);
            add_weighted_term(lp, e_mid, quote, epsilon_inside, w);
            add_weighted_term(lp, s_bid, quote, slack_penalty, w);
            add_weighted_term(lp, s_ask, quote, slack_penalty, w);
            proof {
                assert(vviews(lp.vars@) =~= s.0 + quote_vars(*o, j as int, m as int));
                assert(cviews(lp.constraints@) =~= s.1 + quote_rows(
                    *o,
                    kcs@,
                    *quote,
                    j as int,
                    m as int,
                    base,
                ));
                assert(lp.objective.terms@ =~= s.2 + quote_objective(*o, *w, *quote, base));
            }
        },
        ObjectiveConfig::L1Mid { weight } => {
            let e = add_slack(lp, "e", j, m);
            let nv = lp.vars.len();
            let t1 = price_row_with(kcj, m, qj, false, nv, LinTerm { var: e, coef: -(UNIT as i128) });
            add_row(lp, "l1_pos", j, m, t1, Sense::Le, mid as i128);
            let t2 = price_row_with(kcj, m, qj, true, nv, LinTerm { var: e, coef: -(UNIT as i128) });
            add_row(lp, "l1_neg", j, m, t2, Sense::Le, -(mid as i128));
            add_weighted_term(lp, e, quote, weight, w);
            proof {
                assert(vviews(lp.vars@) =~= s.0 + quote_vars(*o, j as int, m as int));
                assert(cviews(lp.constraints@) =~= s.1 + quote_rows(
                    *o,
                    kcs@,
                    *quote,
                    j as int,
                    m as int,
                    base,
                ));
                assert(lp.objective.terms@ =~= s.2 + quote_objective(*o, *w, *quote, base));
            }
        },
    }
}

/// Adds, maturity by maturity, the rows of every quote for the objective `o`
/// (with their slack variables and objective terms), then the mean row of the
/// maturity; each chain must align with its kernel.
pub fn add_quote_stage(
    lp: &mut LpModel,
    chains: &[OptionChain],
    kc: &Vec<KernelC>,
    q_var_ids: &Vec<Vec<usize>>,
    o: &ObjectiveConfig,
    w: &QuoteWeightingConfig,
) -> (r: SanosResult<()>)
    requires
        chains@.len() == kc@.len(),
        kernels_wf(kc@),
        ids_view(q_var_ids@) == density_id_blocks(kc@),
        model_strike_count(kc@, kc@.len() as int) <= old(lp).vars@.len(),
    ensures
        r == outcome(misalignment(chains@, kc@)),
        model_strike_count(kc@, kc@.len() as int) <= final(lp).vars@.len(),
        r is Ok ==> program_view(*final(lp)) == after_chains(
            *o,
            *w,
            chains@,
            kc@,
            kc@.len() as int,
            program_view(*old(lp)),
        ),
{
    let ghost s0 = program_view(*lp);
    let ghost q = ids_view(q_var_ids@);
    let nc = chains.len();
    let mut j: usize = 0;
    assert(ids_view(q_var_ids@).len() == q_var_ids@.len());
    while j < nc
        invariant
            nc == chains@.len(),
            q_var_ids@.len() == nc,
            nc == kc@.len(),
            j <= nc,
            kernels_wf(kc@),
            q == ids_view(q_var_ids@),
            q == density_id_blocks(kc@),
            s0 == program_view(*old(lp)),
            model_strike_count(kc@, kc@.len() as int) <= lp.vars@.len(),
            forall|l: int| 0 <= l < j ==> (#[trigger] alignment_error(chains@[l], kc@[l])) is None,
            program_view(*lp) == after_chains(*o, *w, chains@, kc@, j as int, s0),
        decreases nc - j,
    {
        let quotes = chains[j].quotes();
        let kcj = &kc[j];
        let qj = &q_var_ids[j];
        let n_mkt = quotes.len();
        proof {
            assert(ids_view(q_var_ids@)[j as int] == q_var_ids@[j as int]@);
            assert(qj@ == q[j as int]);
            assert(qj@ == density_ids(kc@, j as int));
            assert(dense_wf(kc@[j as int].c));
        }
        if kcj.market_strikes.len() != n_mkt {
            proof {
                self_first_misaligned(chains@, kc@, j as int);
            }
            return Err(
                SanosError::InvalidOrdering {
                    msg: "kernel market_strikes must align with chain quotes",
                },
            );
        }
        if kcj.c.nrows != n_mkt || kcj.c.ncols != qj.len() {
            proof {
                self_first_misaligned(chains@, kc@, j as int);
            }
            return Err(SanosError::InvalidOrdering { msg: "kernel matrix dims mismatch" });
        }
        proof {
            lemma_density_ids_below(kc@, j as int);
        }
        let ghost p = program_view(*lp);
        let mut m: usize = 0;
        while m < n_mkt
            invariant
                n_mkt == quotes@.len(),
                j < chains@.len(),
                quotes@ == chains@[j as int].quotes_spec(),
                m <= n_mkt,
                0 <= model_strike_count(kc@, j as int),
                j < kc@.len(),
                kc@[j as int] == *kcj,
                dense_wf(kcj.c),
                kcj.c.nrows == n_mkt,
                qj@ == density_ids(kc@, j as int),
                qj@.len() == kcj.c.ncols,
                model_strike_count(kc@, j as int) + kc@[j as int].model_strikes@.len()
                    <= model_strike_count(kc@, kc@.len() as int),
                model_strike_count(kc@, kc@.len() as int) <= lp.vars@.len(),
                program_view(*lp) == after_quotes(*o, *w, kc@, quotes@, j as int, m as int, p),
            decreases n_mkt - m,
        {
            let nv = lp.vars.len();
            proof {
                assert forall|l: int| 0 <= l < qj@.len() implies (#[trigger] qj@[l])
                    < lp.vars@.len() by {
                    assert(qj@[l] == density_ids(kc@, j as int)[l]);
                    assert(model_strike_count(kc@, j as int) + l < nv);
                }
            }
            add_quote(lp, Ghost(kc@), kcj, qj, &quotes[m], j, m, o, w);
            m = m + 1;
        }
        let mut mean_terms: Vec<LinTerm> = Vec::new();
        let n_mod = qj.len();
        let mut i: usize = 0;
        while i < n_mod
            invariant
                n_mod == qj@.len(),
                j < kc@.len(),
                kc@[j as int] == *kcj,
                qj@ == density_ids(kc@, j as int),
                i <= n_mod,
                mean_terms@ == mean_row(kc@, j as int).1.take(i as int),
            decreases n_mod - i,
        {
            mean_terms.push(LinTerm { var: qj[i], coef: kcj.model_strikes[i] as i128 });
            proof {
                assert(mean_terms@ =~= mean_row(kc@, j as int).1.take((i + 1) as int));
            }
            i = i + 1;
        }
        let nv = lp.vars.len();
        proof {
            assert(mean_terms@ =~= mean_row(kc@, j as int).1);
            assert forall|t: int| 0 <= t < mean_terms@.len() implies (#[trigger] mean_terms@[t]).var
                < lp.vars@.len() by {
                assert(mean_terms@[t].var == density_ids(kc@, j as int)[t]);
                assert(model_strike_count(kc@, j as int) + t < nv);
            }
        }
        let name = make_block_name("mean", j);
        let _ = lp.add_constraint(name, mean_terms, Sense::Eq, UNIT as i128);
        proof {
            assert(program_view(*lp) =~= after_chains(*o, *w, chains@, kc@, (j + 1) as int, s0));
        }
        j = j + 1;
    }
    proof {
        assert(!exists|b: int| is_first_misaligned(chains@, kc@, b));
    }
    Ok(())
}

/// `j` is the first misaligned chain, and `misalignment` reports it.
proof fn self_first_misaligned(chains: Seq<OptionChain>, kc: Seq<KernelC>, j: int)
    requires
        0 <= j < chains.len(),
        alignment_error(chains[j], kc[j]) is Some,
        forall|l: int| 0 <= l < j ==> (#[trigger] alignment_error(chains[l], kc[l])) is None,
    ensures
        misalignment(chains, kc) == Some(
            SanosError::InvalidOrdering { msg: alignment_error(chains[j], kc[j])->Some_0 },
        ),
{
    assert(is_first_misaligned(chains, kc, j));
    let b = choose|b: int| is_first_misaligned(chains, kc, b);
    lemma_first_misaligned_unique(chains, kc, j, b);
}

} // verus!
