//! The calibration problem as a weighted least-squares residual problem:
//! minimize `||W (A x - b)||^2` over the concatenated density vector `x`,
//! subject to simplex and mean equalities, calendar inequalities
//! `-U_j q_j + R_j q_{j-1} <= 0` and, optionally, `x >= 0`. The matrices
//! are held as plain row-major data (fixed point).
use vstd::prelude::*;
use crate::error::{SanosError, SanosResult};
use crate::fit::config::{
    div_toward_zero, weighting_mode_error, FitConfig, QuoteWeightingConfig,
};
use crate::fit::kernels::{dense_wf, entry, DenseMat, KernelC, KernelSet, KernelTransition};
use crate::fit::layout::{layout_of, model_strike_count, size_sum, QLayout};
use crate::fit::lp_builder::{
    is_first_bad_transition, time_error, transition_error, transition_ok, transitions_wf,
};
use crate::fit::lp_stages::{
    alignment_error, density_id_blocks, is_first_misaligned, weight_divisor, weight_divisor_of,
    kernels_wf, misalignment,
};
use crate::market::book::OptionBook;
use crate::market::chain::OptionChain;
use crate::market::quote::{half_toward_zero, CallQuote};
use crate::UNIT;

verus! {

/// A row-major matrix of fixed-point entries.
#[derive(Debug, Clone, PartialEq, Eq)]
pub struct RowMatrix {
    pub nrows: usize,
    pub ncols: usize,
    pub data: Vec<i128>,
}

/// The residual problem: weighted residual `A x - b`, equalities
/// `eq x = eq_rhs`, inequalities `ineq x <= ineq_rhs`, and `x >= 0` when
/// `nonnegative`.
#[derive(Debug, Clone, PartialEq, Eq)]
pub struct ResidualProblem {
    pub a: RowMatrix,
    pub b: Vec<i128>,
    pub eq: RowMatrix,
    pub eq_rhs: Vec<i128>,
    pub ineq: RowMatrix,
    pub ineq_rhs: Vec<i128>,
    pub nonnegative: bool,
}

/// Column `col` lies in block `j` of the layout.
pub open spec fn in_block(l: QLayout, j: int, col: int) -> bool {
    l.offsets@[j] <= col < l.offsets@[j] + l.sizes@[j]
}

/// `weight * c / divisor` of a quote under the weighting `w` (rounded
/// toward zero; see [`weight_divisor`]).
pub open spec fn weighted(q: CallQuote, c: int, w: QuoteWeightingConfig) -> int {
    div_toward_zero(q.weight * c, weight_divisor(q, w))
}

/// Residual row of quote `r` of maturity `j`: the kernel row, weighted, on
/// the columns of block `j`.
pub open spec fn residual_row(
    w: QuoteWeightingConfig,
    l: QLayout,
    k: KernelC,
    q: CallQuote,
    j: int,
    r: int,
) -> Seq<i128> {
    Seq::new(
        l.total as nat,
        |col: int|
            if in_block(l, j, col) {
                weighted(q, entry(k.c, r, col - l.offsets@[j]) as int, w) as i128
            } else {
                0i128
            },
    )
}

/// Residual rows of the first `m` quotes of maturity `j`.
pub open spec fn chain_residual_rows(
    w: QuoteWeightingConfig,
    l: QLayout,
    k: KernelC,
    quotes: Seq<CallQuote>,
    j: int,
    m: int,
) -> Seq<i128>
    decreases m,
{
    if m <= 0 {
        Seq::empty()
    } else {
        chain_residual_rows(w, l, k, quotes, j, m - 1) + residual_row(w, l, k, quotes[m - 1], j, m - 1)
    }
}

/// Weighted mids of the first `m` quotes.
pub open spec fn weighted_mids(w: QuoteWeightingConfig, quotes: Seq<CallQuote>, m: int) -> Seq<i128>
    decreases m,
{
    if m <= 0 {
        Seq::empty()
    } else {
        weighted_mids(w, quotes, m - 1).push(
            weighted(quotes[m - 1], half_toward_zero(quotes[m - 1].bid + quotes[m - 1].ask), w)
                as i128,
        )
    }
}

/// Residual matrix data over the first `n` maturities.
pub open spec fn residual_data(
    w: QuoteWeightingConfig,
    l: QLayout,
    chains: Seq<OptionChain>,
    kc: Seq<KernelC>,
    n: int,
) -> Seq<i128>
    decreases n,
{
    if n <= 0 {
        Seq::empty()
    } else {
        let quotes = chains[n - 1].quotes_spec();
        residual_data(w, l, chains, kc, n - 1) + chain_residual_rows(
            w,
            l,
            kc[n - 1],
            quotes,
            n - 1,
            quotes.len() as int,
        )
    }
}

/// Residual targets over the first `n` maturities.
pub open spec fn residual_targets(w: QuoteWeightingConfig, chains: Seq<OptionChain>, n: int) -> Seq<
    i128,
>
    decreases n,
{
    if n <= 0 {
        Seq::empty()
    } else {
        let quotes = chains[n - 1].quotes_spec();
        residual_targets(w, chains, n - 1) + weighted_mids(w, quotes, quotes.len() as int)
    }
}

/// Number of quotes of the first `n` chains.
pub open spec fn quote_count(chains: Seq<OptionChain>, n: int) -> int
    decreases n,
{
    if n <= 0 {
        0
    } else {
        quote_count(chains, n - 1) + chains[n - 1].quotes_spec().len()
    }
}

/// Row with `v(i)` on the columns of block `j`.
pub open spec fn block_row(l: QLayout, j: int, v: spec_fn(int) -> i128) -> Seq<i128> {
    Seq::new(
        l.total as nat,
        |col: int|
            if in_block(l, j, col) {
                v(col - l.offsets@[j])
            } else {
                0i128
            },
    )
}

/// Simplex rows of the first `n` maturities.
pub open spec fn simplex_data(l: QLayout, n: int) -> Seq<i128>
    decreases n,
{
    if n <= 0 {
        Seq::empty()
    } else {
        simplex_data(l, n - 1) + block_row(l, n - 1, |i: int| UNIT as i128)
    }
}

/// Mean rows of the first `n` maturities.
pub open spec fn mean_data(l: QLayout, kc: Seq<KernelC>, n: int) -> Seq<i128>
    decreases n,
{
    if n <= 0 {
        Seq::empty()
    } else {
        mean_data(l, kc, n - 1) + block_row(
            l,
            n - 1,
            |i: int| kc[n - 1].model_strikes@[i] as i128,
        )
    }
}

/// Calendar row `row` of transition `j`: `-U[row]` on block `j`, `R[row]` on
/// block `j - 1`.
pub open spec fn calendar_row(l: QLayout, u: DenseMat, r: DenseMat, j: int, row: int) -> Seq<
    i128,
> {
    Seq::new(
        l.total as nat,
        |col: int|
            if in_block(l, j, col) {
                (-entry(u, row, col - l.offsets@[j])) as i128
            } else if in_block(l, j - 1, col) {
                entry(r, row, col - l.offsets@[j - 1]) as i128
            } else {
                0i128
            },
    )
}

/// The first `m` calendar rows of one block.
pub open spec fn calendar_block(l: QLayout, u: DenseMat, r: DenseMat, j: int, m: int) -> Seq<
    i128,
>
    decreases m,
{
    if m <= 0 {
        Seq::empty()
    } else {
        calendar_block(l, u, r, j, m - 1) + calendar_row(l, u, r, j, m - 1)
    }
}

/// Calendar rows of the first `n` transitions (second blocks included).
pub open spec fn calendar_data(l: QLayout, ks: KernelSet, n: int) -> Seq<i128>
    decreases n,
{
    if n <= 0 {
        Seq::empty()
    } else {
        let tr = ks.transitions@[n - 1];
        let main = calendar_block(l, tr.u, tr.r, n, tr.u.nrows as int);
        let both = if tr.u_alt is Some && tr.r_alt is Some {
            main + calendar_block(
                l,
                tr.u_alt->Some_0,
                tr.r_alt->Some_0,
                n,
                tr.u_alt->Some_0.nrows as int,
            )
        } else {
            main
        };
        calendar_data(l, ks, n - 1) + both
    }
}

/// Number of calendar rows of the first `n` transitions.
pub open spec fn calendar_count(ks: KernelSet, n: int) -> int
    decreases n,
{
    if n <= 0 {
        0
    } else {
        let tr = ks.transitions@[n - 1];
        calendar_count(ks, n - 1) + tr.u.nrows + if tr.u_alt is Some && tr.r_alt is Some {
            tr.u_alt->Some_0.nrows as int
        } else {
            0
        }
    }
}

/// The first failing check of the residual problem, in the order they are
/// run, if any: the kernels against the book (count, model strikes,
/// alignment, transitions), then the weighting mode.
pub open spec fn residual_error(chains: Seq<OptionChain>, ks: KernelSet, cfg: FitConfig) -> Option<
    SanosError,
> {
    let kc = ks.c@;
    if kc.len() != chains.len() {
        Some(SanosError::InvalidOrdering { msg: "kernels.c.len() must match book.len()" })
    } else if exists|j: int| 0 <= j < kc.len() && (#[trigger] kc[j]).model_strikes@.len() == 0 {
        Some(SanosError::EmptyCollection { what: "model_strikes" })
    } else if misalignment(chains, kc) is Some {
        misalignment(chains, kc)
    } else if cfg.constraints.include_time_constraints && ks.transitions@.len() + 1 != kc.len() {
        Some(
            SanosError::InvalidOrdering {
                msg: "time constraints require transitions.len() = q.len()-1",
            },
        )
    } else if cfg.constraints.include_time_constraints && time_error(
        ks.transitions@,
        density_id_blocks(kc),
    ) is Some {
        time_error(ks.transitions@, density_id_blocks(kc))
    } else {
        weighting_mode_error(cfg.weighting)
    }
}

/// `p` is the residual problem of the book and kernels on the layout `l`.
pub open spec fn residual_problem_of(
    p: ResidualProblem,
    l: QLayout,
    chains: Seq<OptionChain>,
    ks: KernelSet,
    cfg: FitConfig,
) -> bool {
    let kc = ks.c@;
    let n = kc.len() as int;
    let eq_rows = (if cfg.constraints.enforce_simplex {
        n
    } else {
        0
    }) + n;
    let eq_data = (if cfg.constraints.enforce_simplex {
        simplex_data(l, n)
    } else {
        Seq::empty()
    }) + mean_data(l, kc, n);
    let nt = ks.transitions@.len() as int;
    &&& layout_of(l, kc)
    &&& p.a.nrows == quote_count(chains, n) && p.a.ncols == l.total
    &&& p.a.data@ == residual_data(cfg.weighting, l, chains, kc, n)
    &&& p.b@ == residual_targets(cfg.weighting, chains, n)
    &&& p.eq.nrows == eq_rows && p.eq.ncols == l.total && p.eq.data@ == eq_data
    &&& p.eq_rhs@ == Seq::new(eq_rows as nat, |i: int| UNIT as i128)
    &&& p.ineq.ncols == l.total
    &&& if cfg.constraints.include_time_constraints {
        &&& p.ineq.nrows == calendar_count(ks, nt)
        &&& p.ineq.data@ == calendar_data(l, ks, nt)
        &&& p.ineq_rhs@ == Seq::new(calendar_count(ks, nt) as nat, |i: int| 0i128)
    } else {
        &&& p.ineq.nrows == 0
        &&& p.ineq.data@.len() == 0
        &&& p.ineq_rhs@.len() == 0
    }
    &&& p.nonnegative == cfg.constraints.enforce_nonnegativity
}

/// The layout places every block inside the decision vector.
pub open spec fn blocks_fit(l: QLayout) -> bool {
    &&& l.offsets@.len() == l.sizes@.len()
    &&& forall|j: int|
        0 <= j < l.sizes@.len() ==> l.offsets@[j] + (#[trigger] l.sizes@[j]) <= l.total
}

proof fn lemma_layout_blocks_fit(l: QLayout, kc: Seq<KernelC>)
    requires
        layout_of(l, kc),
    ensures
        blocks_fit(l),
{
    assert forall|j: int| 0 <= j < l.sizes@.len() implies l.offsets@[j] + (
    #[trigger] l.sizes@[j]) <= l.total by {
        lemma_sum_monotone(l.sizes@, j + 1, l.sizes@.len() as int);
    }
}

proof fn lemma_sum_monotone(sizes: Seq<usize>, a: int, b: int)
    requires
        0 <= a <= b <= sizes.len(),
    ensures
        size_sum(sizes, a) <= size_sum(sizes, b),
    decreases b,
{
    if a < b {
        lemma_sum_monotone(sizes, a, b - 1);
    }
}

/// `weight * c / divisor` of a quote (see [`weighted`]).
fn weighted_of(q: &CallQuote, c: i64, w: &QuoteWeightingConfig) -> (r: i128)
    requires
    ensures
        r == weighted(*q, c as int, *w),
{
    let spread: i128 = weight_divisor_of(q, w);
    proof {
        let a = q.weight as int;
        let x = c as int;
        assert(-0x4000_0000_0000_0000_0000_0000_0000_0000 <= a * x
            <= 0x4000_0000_0000_0000_0000_0000_0000_0000) by (nonlinear_arith)
            requires
                -0x8000_0000_0000_0000 <= a < 0x8000_0000_0000_0000,
                -0x8000_0000_0000_0000 <= x < 0x8000_0000_0000_0000,
        ;
    }
    let num: i128 = (q.weight as i128) * (c as i128);
    proof {
        let a = num as int;
        let b = spread as int;
        assert(a >= 0 ==> 0 <= a / b <= a) by (nonlinear_arith)
            requires
                b >= 1,
        ;
        assert(a < 0 ==> 0 <= (-a) / b <= -a) by (nonlinear_arith)
            requires
                b >= 1,
        ;
    }
    if num >= 0 {
        num / spread
    } else {
        -((-num) / spread)
    }
}

/// Appends the residual row of quote `r` of maturity `j`.
fn push_residual_row(
    data: &mut Vec<i128>,
    w: &QuoteWeightingConfig,
    l: &QLayout,
    k: &KernelC,
    q: &CallQuote,
    j: usize,
    r: usize,
)
    requires
        blocks_fit(*l),
        j < l.sizes@.len(),
        dense_wf(k.c),
        r < k.c.nrows,
        k.c.ncols == l.sizes@[j as int],
    ensures
        final(data)@ == old(data)@ + residual_row(*w, *l, *k, *q, j as int, r as int),
{
    let ghost d0 = data@;
    let ghost row = residual_row(*w, *l, *k, *q, j as int, r as int);
    let total = l.total;
    let off = l.offsets[j];
    let n = l.sizes[j];
    let mut col: usize = 0;
    while col < total
        invariant
            total == l.total,
            off == l.offsets@[j as int],
            n == l.sizes@[j as int],
            off + n <= total,
            dense_wf(k.c),
            r < k.c.nrows,
            k.c.ncols == n,
            col <= total,
            row == residual_row(*w, *l, *k, *q, j as int, r as int),
            data@ == d0 + row.take(col as int),
        decreases total - col,
    {
        if off <= col && col < off + n {
            let c = k.c.get(r, col - off);
            let v = weighted_of(q, c, w);
            data.push(v);
        } else {
            data.push(0);
        }
        proof {
            assert(data@ =~= d0 + row.take((col + 1) as int));
        }
        col = col + 1;
    }
    proof {
        assert(row.take(total as int) =~= row);
    }
}

/// Appends the row holding `v` on block `j` (simplex row).
fn push_constant_row(data: &mut Vec<i128>, l: &QLayout, j: usize)
    requires
        blocks_fit(*l),
        j < l.sizes@.len(),
    ensures
        final(data)@ == old(data)@ + block_row(*l, j as int, |i: int| UNIT as i128),
{
    let ghost d0 = data@;
    let ghost row = block_row(*l, j as int, |i: int| UNIT as i128);
    let total = l.total;
    let off = l.offsets[j];
    let n = l.sizes[j];
    let mut col: usize = 0;
    while col < total
        invariant
            total == l.total,
            off == l.offsets@[j as int],
            n == l.sizes@[j as int],
            off + n <= total,
            col <= total,
            row == block_row(*l, j as int, |i: int| UNIT as i128),
            data@ == d0 + row.take(col as int),
        decreases total - col,
    {
        if off <= col && col < off + n {
            data.push(UNIT as i128);
        } else {
            data.push(0);
        }
        proof {
            assert(data@ =~= d0 + row.take((col + 1) as int));
        }
        col = col + 1;
    }
    proof {
        assert(row.take(total as int) =~= row);
    }
}

/// Appends the mean row of block `j`: the model strikes on the block.
fn push_mean_row(data: &mut Vec<i128>, l: &QLayout, j: usize, k: &KernelC, kcs: Ghost<Seq<KernelC>>)
    requires
        blocks_fit(*l),
        j < l.sizes@.len(),
        j < kcs@.len(),
        kcs@[j as int] == *k,
        k.model_strikes@.len() == l.sizes@[j as int],
    ensures
        final(data)@ == old(data)@ + block_row(
            *l,
            j as int,
            |i: int| kcs@[j as int].model_strikes@[i] as i128,
        ),
{
    let ghost d0 = data@;
    let ghost row = block_row(*l, j as int, |i: int| kcs@[j as int].model_strikes@[i] as i128);
    let total = l.total;
    let off = l.offsets[j];
    let n = l.sizes[j];
    let mut col: usize = 0;
    while col < total
        invariant
            total == l.total,
            off == l.offsets@[j as int],
            n == l.sizes@[j as int],
            off + n <= total,
            k.model_strikes@.len() == n,
            j < kcs@.len(),
            kcs@[j as int] == *k,
            col <= total,
            row == block_row(*l, j as int, |i: int| kcs@[j as int].model_strikes@[i] as i128),
            data@ == d0 + row.take(col as int),
        decreases total - col,
    {
        if off <= col && col < off + n {
            data.push(k.model_strikes[col - off] as i128);
        } else {
            data.push(0);
        }
        proof {
            assert(data@ =~= d0 + row.take((col + 1) as int));
        }
        col = col + 1;
    }
    proof {
        assert(row.take(total as int) =~= row);
    }
}

/// Appends the calendar rows `-U q_j + R q_{j-1}` of one block.
fn push_calendar_block(data: &mut Vec<i128>, l: &QLayout, u: &DenseMat, r: &DenseMat, j: usize)
    requires
        blocks_fit(*l),
        1 <= j < l.sizes@.len(),
        dense_wf(*u),
        dense_wf(*r),
        u.ncols == l.sizes@[j as int],
        r.nrows == u.nrows,
        r.ncols == l.sizes@[j - 1],
    ensures
        final(data)@ == old(data)@ + calendar_block(*l, *u, *r, j as int, u.nrows as int),
{
    let ghost d0 = data@;
    let total = l.total;
    let off = l.offsets[j];
    let n = l.sizes[j];
    let off_prev = l.offsets[j - 1];
    let n_prev = l.sizes[j - 1];
    let mut row: usize = 0;
    while row < u.nrows
        invariant
            total == l.total,
            off == l.offsets@[j as int],
            n == l.sizes@[j as int],
            off_prev == l.offsets@[j - 1],
            n_prev == l.sizes@[j - 1],
            off + n <= total,
            off_prev + n_prev <= total,
            dense_wf(*u),
            dense_wf(*r),
            u.ncols == n,
            r.nrows == u.nrows,
            r.ncols == n_prev,
            row <= u.nrows,
            data@ == d0 + calendar_block(*l, *u, *r, j as int, row as int),
        decreases u.nrows - row,
    {
        let ghost d1 = data@;
        let ghost cr = calendar_row(*l, *u, *r, j as int, row as int);
        let mut col: usize = 0;
        while col < total
            invariant
                total == l.total,
                off == l.offsets@[j as int],
                n == l.sizes@[j as int],
                off_prev == l.offsets@[j - 1],
                n_prev == l.sizes@[j - 1],
                off + n <= total,
                off_prev + n_prev <= total,
                dense_wf(*u),
                dense_wf(*r),
                u.ncols == n,
                r.nrows == u.nrows,
                r.ncols == n_prev,
                row < u.nrows,
                col <= total,
                cr == calendar_row(*l, *u, *r, j as int, row as int),
                data@ == d1 + cr.take(col as int),
            decreases total - col,
        {
            if off <= col && col < off + n {
                let v = u.get(row, col - off);
                data.push(-(v as i128));
            } else if off_prev <= col && col < off_prev + n_prev {
                let v = r.get(row, col - off_prev);
                data.push(v as i128);
            } else {
                data.push(0);
            }
            proof {
                assert(data@ =~= d1 + cr.take((col + 1) as int));
            }
            col = col + 1;
        }
        proof {
            assert(cr.take(total as int) =~= cr);
            assert(data@ =~= d0 + calendar_block(*l, *u, *r, j as int, (row + 1) as int));
        }
        row = row + 1;
    }
}

/// Appends `n` zeros.
fn push_zeros(v: &mut Vec<i128>, n: usize)
    ensures
        final(v)@ == old(v)@ + Seq::new(n as nat, |i: int| 0i128),
{
    let ghost v0 = v@;
    let mut i: usize = 0;
    while i < n
        invariant
            i <= n,
            v@ == v0 + Seq::new(i as nat, |l: int| 0i128),
        decreases n - i,
    {
        v.push(0);
        proof {
            assert(v@ =~= v0 + Seq::new((i + 1) as nat, |l: int| 0i128));
        }
        i = i + 1;
    }
}

proof fn lemma_weighted_mids_len(w: QuoteWeightingConfig, quotes: Seq<CallQuote>, m: int)
    requires
        m >= 0,
    ensures
        weighted_mids(w, quotes, m).len() == m,
    decreases m,
{
    if m > 0 {
        lemma_weighted_mids_len(w, quotes, m - 1);
    }
}

/// Message of the first failing dimension check of a transition, if any.
fn transition_check(tr: &KernelTransition, n_cur: usize, n_prev: usize) -> (r: Option<
    &'static str,
>)
    ensures
        r == transition_error(*tr, n_cur as int, n_prev as int),
{
    if tr.u.nrows != n_cur || tr.u.ncols != n_cur {
        return Some("U dimensions must be Nj x Nj");
    }
    if tr.r.nrows != n_cur || tr.r.ncols != n_prev {
        return Some("R dimensions must be Nj x N(j-1)");
    }
    match (&tr.u_alt, &tr.r_alt) {
        (Some(u_alt), Some(r_alt)) => {
            if u_alt.nrows != n_cur || u_alt.ncols != n_cur {
                return Some("U_alt dimensions must be Nj x Nj");
            }
            if r_alt.nrows != n_cur || r_alt.ncols != n_prev {
                return Some("R_alt dimensions must be Nj x N(j-1)");
            }
            None
        },
        (None, None) => None,
        _ => Some("u_alt and r_alt must both be present or both absent"),
    }
}

/// Appends the calendar rows of a transition whose checks pass, with their
/// zero right-hand sides.
fn push_transition_rows(
    data: &mut Vec<i128>,
    rhs: &mut Vec<i128>,
    l: &QLayout,
    tr: &KernelTransition,
    j: usize,
)
    requires
        blocks_fit(*l),
        1 <= j < l.sizes@.len(),
        dense_wf(tr.u),
        dense_wf(tr.r),
        tr.u_alt matches Some(m) ==> dense_wf(m),
        tr.r_alt matches Some(m) ==> dense_wf(m),
        transition_error(*tr, l.sizes@[j as int] as int, l.sizes@[j - 1] as int) is None,
    ensures
        final(data)@ == old(data)@ + ({
            let main = calendar_block(*l, tr.u, tr.r, j as int, tr.u.nrows as int);
            if tr.u_alt is Some && tr.r_alt is Some {
                main + calendar_block(
                    *l,
                    tr.u_alt->Some_0,
                    tr.r_alt->Some_0,
                    j as int,
                    tr.u_alt->Some_0.nrows as int,
                )
            } else {
                main
            }
        }),
        final(rhs)@ == old(rhs)@ + Seq::new(
            (tr.u.nrows + if tr.u_alt is Some && tr.r_alt is Some {
                tr.u_alt->Some_0.nrows as int
            } else {
                0
            }) as nat,
            |i: int| 0i128,
        ),
{
    let ghost d0 = data@;
    let ghost r0 = rhs@;
    push_calendar_block(data, l, &tr.u, &tr.r, j);
    push_zeros(rhs, tr.u.nrows);
    match (&tr.u_alt, &tr.r_alt) {
        (Some(u_alt), Some(r_alt)) => {
            push_calendar_block(data, l, u_alt, r_alt, j);
            push_zeros(rhs, u_alt.nrows);
            proof {
                assert(data@ =~= d0 + calendar_block(*l, tr.u, tr.r, j as int, tr.u.nrows as int)
                    + calendar_block(*l, *u_alt, *r_alt, j as int, u_alt.nrows as int));
                assert(rhs@ =~= r0 + Seq::new(
                    (tr.u.nrows + u_alt.nrows) as nat,
                    |i: int| 0i128,
                ));
            }
        },
        _ => {},
    }
}

/// `j` is the first misaligned chain, and `misalignment` reports it.
proof fn lemma_misaligned_at(chains: Seq<OptionChain>, kc: Seq<KernelC>, j: int)
    requires
        0 <= j < chains.len(),
        alignment_error(chains[j], kc[j]) is Some,
        forall|l: int| 0 <= l < j ==> (#[trigger] alignment_error(chains[l], kc[l])) is None,
    ensures
        misalignment(chains, kc) == Some(
            SanosError::InvalidOrdering { msg: alignment_error(chains[j], kc[j])->Some_0 },
        ),
{
    assert(is_first_misaligned(chains, kc, j));
    let b = choose|b: int| is_first_misaligned(chains, kc, b);
    if b < j {
        assert(alignment_error(chains[b], kc[b]) is None);
    }
    if j < b {
        assert(alignment_error(chains[j], kc[j]) is None);
    }
}

/// `idx` is the first bad transition, and `time_error` reports it.
proof fn lemma_bad_transition_at(
    trs: Seq<crate::fit::kernels::KernelTransition>,
    q: Seq<Seq<usize>>,
    idx: int,
)
    requires
        0 <= idx < trs.len(),
        !transition_ok(trs, q, idx),
        forall|l: int| 0 <= l < idx ==> #[trigger] transition_ok(trs, q, l),
    ensures
        time_error(trs, q) == Some(
            SanosError::InvalidOrdering {
                msg: transition_error(trs[idx], q[idx + 1].len() as int, q[idx].len() as int)->Some_0,
            },
        ),
{
    assert(is_first_bad_transition(trs, q, idx));
    let b = choose|b: int| is_first_bad_transition(trs, q, b);
    crate::fit::lp_builder::lemma_first_bad_transition_unique(trs, q, idx, b);
}

proof fn lemma_calendar_count_nonneg(ks: KernelSet, n: int)
    ensures
        calendar_count(ks, n) >= 0,
    decreases n,
{
    if n > 0 {
        lemma_calendar_count_nonneg(ks, n - 1);
    }
}

/// Calendar rows of every transition (second blocks included) with zero
/// right-hand sides, after the dimension checks of each transition.
fn calendar_rows(layout: &QLayout, kernels: &KernelSet) -> (r: SanosResult<(Vec<i128>, Vec<i128>)>)
    requires
        layout_of(*layout, kernels.c@),
        blocks_fit(*layout),
        transitions_wf(kernels.transitions@),
        kernels.transitions@.len() + 1 == kernels.c@.len(),
    ensures
        match time_error(kernels.transitions@, density_id_blocks(kernels.c@)) {
            Some(e) => r == Err::<(Vec<i128>, Vec<i128>), SanosError>(e),
            None => r matches Ok((d, z)) && d@ == calendar_data(
                *layout,
                *kernels,
                kernels.transitions@.len() as int,
            ) && z@ == Seq::new(
                calendar_count(*kernels, kernels.transitions@.len() as int) as nat,
                |i: int| 0i128,
            ),
        },
{
    let ghost kc = kernels.c@;
    let m = kernels.c.len();
    let nt = kernels.transitions.len();
    let ghost trs = kernels.transitions@;
    let ghost q = density_id_blocks(kc);
    let mut ineq_data: Vec<i128> = Vec::new();
    let mut ineq_rhs: Vec<i128> = Vec::new();
    let mut idx: usize = 0;
    while idx < nt
        invariant
            nt == trs.len(),
            trs == kernels.transitions@,
            nt + 1 == m,
            m == layout.sizes@.len(),
            m == kc.len(),
            kc == kernels.c@,
            q == density_id_blocks(kc),
            layout_of(*layout, kc),
            blocks_fit(*layout),
            transitions_wf(trs),
            idx <= nt,
            forall|l: int| 0 <= l < idx ==> #[trigger] transition_ok(trs, q, l),
            ineq_data@ == calendar_data(*layout, *kernels, idx as int),
            ineq_rhs@ == Seq::new(calendar_count(*kernels, idx as int) as nat, |i: int| 0i128),
        decreases nt - idx,
    {
        let jt = idx + 1;
        let tr = &kernels.transitions[idx];
        let n_cur = layout.sizes[jt];
        let n_prev = layout.sizes[idx];
        proof {
            assert(q[jt as int].len() == n_cur);
            assert(q[idx as int].len() == n_prev);
            assert(trs[idx as int] == *tr);
        }
        match transition_check(tr, n_cur, n_prev) {
            Some(msg) => {
                proof {
                    lemma_bad_transition_at(trs, q, idx as int);
                }
                return Err(SanosError::InvalidOrdering { msg });
            },
            None => {},
        }
        proof {
            assert(dense_wf(trs[idx as int].u));
        }
        push_transition_rows(&mut ineq_data, &mut ineq_rhs, layout, tr, jt);
        proof {
            lemma_calendar_count_nonneg(*kernels, idx as int);
            assert(transition_ok(trs, q, idx as int));
            assert(ineq_data@ =~= calendar_data(*layout, *kernels, (idx + 1) as int));
            assert(ineq_rhs@ =~= Seq::new(
                calendar_count(*kernels, (idx + 1) as int) as nat,
                |i: int| 0i128,
            ));
        }
        idx = idx + 1;
    }
    proof {
        assert(!exists|b: int| is_first_bad_transition(trs, q, b));
    }
    Ok((ineq_data, ineq_rhs))
}

/// Assembles the residual problem of the book on the kernels: the weighted
/// residual rows of every quote, the simplex and mean equalities, the
/// calendar inequalities and the sign bound.
pub fn build_residual_problem(book: &OptionBook, kernels: &KernelSet, cfg: &FitConfig) -> (r:
    SanosResult<(ResidualProblem, QLayout)>)
    requires
        kernels_wf(kernels.c@),
        transitions_wf(kernels.transitions@),
        model_strike_count(kernels.c@, kernels.c@.len() as int) <= usize::MAX,
    ensures
        match residual_error(book.chains_spec(), *kernels, *cfg) {
            Some(e) => r == Err::<(ResidualProblem, QLayout), SanosError>(e),
            None => r matches Ok((p, l)) && residual_problem_of(
                p,
                l,
                book.chains_spec(),
                *kernels,
                *cfg,
            ),
        },
{
    let chains = book.chains();
    let m = kernels.c.len();
    if m != chains.len() {
        return Err(SanosError::InvalidOrdering { msg: "kernels.c.len() must match book.len()" });
    }
    let layout = match QLayout::from_kernels(&kernels.c) {
        Ok(l) => l,
        Err(e) => {
            return Err(e);
        },
    };
    let ghost kc = kernels.c@;
    proof {
        lemma_layout_blocks_fit(layout, kc);
    }
    let total = layout.total;
    let mut a_data: Vec<i128> = Vec::new();
    let mut b_data: Vec<i128> = Vec::new();
    let mut j: usize = 0;
    while j < m
        invariant
            m == kc.len(),
            m == chains@.len(),
            kc == kernels.c@,
            chains@ == book.chains_spec(),
            kernels_wf(kc),
            layout_of(layout, kc),
            blocks_fit(layout),
            total == layout.total,
            j <= m,
            forall|l: int| 0 <= l < kc.len() ==> (#[trigger] kc[l]).model_strikes@.len() > 0,
            forall|l: int| 0 <= l < j ==> (#[trigger] alignment_error(chains@[l], kc[l])) is None,
            a_data@ == residual_data(cfg.weighting, layout, chains@, kc, j as int),
            b_data@ == residual_targets(cfg.weighting, chains@, j as int),
            b_data@.len() == quote_count(chains@, j as int),
        decreases m - j,
    {
        let quotes = chains[j].quotes();
        let k = &kernels.c[j];
        let n_mkt = quotes.len();
        proof {
            assert(layout.sizes@[j as int] == kc[j as int].model_strikes@.len());
            assert(dense_wf(kc[j as int].c));
        }
        if k.market_strikes.len() != n_mkt {
            proof {
                lemma_misaligned_at(chains@, kc, j as int);
            }
            return Err(
                SanosError::InvalidOrdering {
                    msg: "kernel market_strikes must align with chain quotes",
                },
            );
        }
        if k.c.nrows != n_mkt || k.c.ncols != layout.sizes[j] {
            proof {
                lemma_misaligned_at(chains@, kc, j as int);
            }
            return Err(SanosError::InvalidOrdering { msg: "kernel matrix dims mismatch" });
        }
        let ghost a0 = a_data@;
        let ghost b0 = b_data@;
        let mut r: usize = 0;
        while r < n_mkt
            invariant
                n_mkt == quotes@.len(),
                quotes@ == chains@[j as int].quotes_spec(),
                j < m,
                m == chains@.len(),
                m == kc.len(),
                m == layout.sizes@.len(),
                blocks_fit(layout),
                kc[j as int] == *k,
                dense_wf(k.c),
                k.c.nrows == n_mkt,
                k.c.ncols == layout.sizes@[j as int],
                r <= n_mkt,
                a_data@ == a0 + chain_residual_rows(cfg.weighting, layout, *k, quotes@, j as int, r as int),
                b_data@ == b0 + weighted_mids(cfg.weighting, quotes@, r as int),
            decreases n_mkt - r,
        {
            let q = &quotes[r];
            push_residual_row(&mut a_data, &cfg.weighting, &layout, k, q, j, r);
            let mid = q.mid();
            let wm = weighted_of(q, mid, &cfg.weighting);
            b_data.push(wm);
            proof {
                assert(a_data@ =~= a0 + chain_residual_rows(
                    cfg.weighting,
                    layout,
                    *k,
                    quotes@,
                    j as int,
                    (r + 1) as int,
                ));
                assert(b_data@ =~= b0 + weighted_mids(cfg.weighting, quotes@, (r + 1) as int));
            }
            r = r + 1;
        }
        proof {
            assert(a_data@ =~= residual_data(cfg.weighting, layout, chains@, kc, (j + 1) as int));
            assert(b_data@ =~= residual_targets(cfg.weighting, chains@, (j + 1) as int));
            lemma_weighted_mids_len(cfg.weighting, quotes@, n_mkt as int);
            assert(b_data@.len() == quote_count(chains@, (j + 1) as int));
        }
        j = j + 1;
    }
    proof {
        assert(!exists|b: int| is_first_misaligned(chains@, kc, b));
    }
    let nres = b_data.len();
    let mut eq_data: Vec<i128> = Vec::new();
    let mut eq_rhs: Vec<i128> = Vec::new();
    if cfg.constraints.enforce_simplex {
        let mut jj: usize = 0;
        while jj < m
            invariant
                m == layout.sizes@.len(),
                blocks_fit(layout),
                jj <= m,
                eq_data@ == simplex_data(layout, jj as int),
                eq_rhs@ == Seq::new(jj as nat, |i: int| UNIT as i128),
            decreases m - jj,
        {
            push_constant_row(&mut eq_data, &layout, jj);
            eq_rhs.push(UNIT as i128);
            proof {
                assert(eq_rhs@ =~= Seq::new((jj + 1) as nat, |i: int| UNIT as i128));
            }
            jj = jj + 1;
        }
    }
    let ghost e0 = eq_data@;
    let ghost r0 = eq_rhs@;
    let mut jm: usize = 0;
    while jm < m
        invariant
            m == layout.sizes@.len(),
            m == kc.len(),
            kc == kernels.c@,
            layout_of(layout, kc),
            blocks_fit(layout),
            jm <= m,
            eq_data@ == e0 + mean_data(layout, kc, jm as int),
            eq_rhs@ == r0 + Seq::new(jm as nat, |i: int| UNIT as i128),
        decreases m - jm,
    {
        proof {
            assert(layout.sizes@[jm as int] == kc[jm as int].model_strikes@.len());
        }
        push_mean_row(&mut eq_data, &layout, jm, &kernels.c[jm], Ghost(kc));
        eq_rhs.push(UNIT as i128);
        proof {
            assert(eq_data@ =~= e0 + mean_data(layout, kc, (jm + 1) as int));
            assert(eq_rhs@ =~= r0 + Seq::new((jm + 1) as nat, |i: int| UNIT as i128));
        }
        jm = jm + 1;
    }
    let n_eq = eq_rhs.len();
    let mut ineq_data: Vec<i128> = Vec::new();
    let mut ineq_rhs: Vec<i128> = Vec::new();
    if cfg.constraints.include_time_constraints {
        if kernels.transitions.len() != m - 1 {
            return Err(
                SanosError::InvalidOrdering {
                    msg: "time constraints require transitions.len() = q.len()-1",
                },
            );
        }
        match calendar_rows(&layout, kernels) {
            Ok((d, z)) => {
                ineq_data = d;
                ineq_rhs = z;
            },
            Err(e) => {
                return Err(e);
            },
        }
    }
    match cfg.weighting.check_mode() {
        Ok(()) => {},
        Err(e) => {
            return Err(e);
        },
    }
    let n_ineq = ineq_rhs.len();
    proof {
        assert(eq_rhs@ =~= Seq::new(
            ((if cfg.constraints.enforce_simplex {
                m as int
            } else {
                0
            }) + m) as nat,
            |i: int| UNIT as i128,
        ));
        if !cfg.constraints.enforce_simplex {
            assert(e0 =~= Seq::<i128>::empty());
        }
    }
    let p = ResidualProblem {
        a: RowMatrix { nrows: nres, ncols: total, data: a_data },
        b: b_data,
        eq: RowMatrix { nrows: n_eq, ncols: total, data: eq_data },
        eq_rhs,
        ineq: RowMatrix { nrows: n_ineq, ncols: total, data: ineq_data },
        ineq_rhs,
        nonnegative: cfg.constraints.enforce_nonnegativity,
    };
    proof {
        assert(p.a.data@ == residual_data(cfg.weighting, layout, chains@, kc, m as int));
        assert(p.b@ == residual_targets(cfg.weighting, chains@, m as int));
        assert(p.a.nrows == quote_count(chains@, m as int));
        assert(p.eq.data@ == (if cfg.constraints.enforce_simplex {
            simplex_data(layout, m as int)
        } else {
            Seq::empty()
        }) + mean_data(layout, kc, m as int));
        assert(residual_error(book.chains_spec(), *kernels, *cfg) is None);
        lemma_calendar_count_nonneg(*kernels, kernels.transitions@.len() as int);
        assert(p.eq.nrows == (if cfg.constraints.enforce_simplex {
            m as int
        } else {
            0
        }) + m);
    }
    Ok((p, layout))
}

} // verus!
