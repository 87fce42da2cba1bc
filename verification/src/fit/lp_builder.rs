//! Assembly of the SANOS linear program: density variables, quote
//! constraints or slacks, mean and simplex constraints, and the calendar
//! (time) constraints `U_j q_j - R_j q_{j-1} >= 0`.
use vstd::prelude::*;
use crate::error::{outcome, SanosError, SanosResult};
use crate::fit::config::{
    fit_outcome, objective_error, weighting_mode_error, FitConfig, ObjectiveConfig,
};
use crate::fit::kernels::{dense_wf, kernel_set_error, DenseMat, KernelC, KernelSet, KernelTransition};
use crate::fit::layout::model_strike_count;
use crate::fit::lp_stages::{
    add_density_vars, add_quote_stage, after_chains, density_id_blocks, density_ids,
    density_vars, kernels_wf, lemma_density_ids_below, misalignment, program_view, simplex_rows,
    ProgramView,
};
use crate::market::book::OptionBook;
use crate::market::chain::OptionChain;
use crate::fit::lp_model::{
    cviews, ids_view, indexed_name, lemma_row_terms_vars, make_indexed_name, push_row_terms, row_terms,
    terms_within, ConstraintView, LinTerm, LpModel, Sense, UNKNOWN_VAR_MSG,
};

verus! {

/// Identifiers of the density variables: `q_var_ids[j][i]` is the variable of
/// atom `i` at maturity `j`.
#[derive(Debug, Clone, PartialEq, Eq)]
pub struct LpLayout {
    pub q_var_ids: Vec<Vec<usize>>,
}

/// A linear program together with the layout of its density variables.
#[derive(Debug, Clone, PartialEq, Eq)]
pub struct BuiltLp {
    pub model: LpModel,
    pub layout: LpLayout,
}

/// Builder of the SANOS linear program.
#[derive(Debug, Default, Clone, Copy)]
pub struct SanosLpBuilder;

/// Constraints of one time block: for every row of `u`,
/// `sum u[row][.] q_cur - sum r[row][.] q_prev >= 0` named `prefix_j_row`.
pub open spec fn time_block(
    prefix: Seq<char>,
    j: usize,
    u: DenseMat,
    r: DenseMat,
    q_cur: Seq<usize>,
    q_prev: Seq<usize>,
) -> Seq<ConstraintView> {
    Seq::new(
        q_cur.len(),
        |row: int|
            (
                indexed_name(prefix, j, row as usize),
                row_terms(u, row, q_cur, q_cur.len() as int, 1) + row_terms(
                    r,
                    row,
                    q_prev,
                    q_prev.len() as int,
                    -1,
                ),
                Sense::Ge,
                0i128,
            ),
    )
}

/// Message of the first failing dimension check of a transition, if any.
pub open spec fn transition_error(tr: KernelTransition, n_cur: int, n_prev: int) -> Option<
    &'static str,
> {
    if tr.u.nrows != n_cur || tr.u.ncols != n_cur {
        Some("U dimensions must be Nj x Nj")
    } else if tr.r.nrows != n_cur || tr.r.ncols != n_prev {
        Some("R dimensions must be Nj x N(j-1)")
    } else if tr.u_alt is Some && tr.r_alt is Some {
        if tr.u_alt->Some_0.nrows != n_cur || tr.u_alt->Some_0.ncols != n_cur {
            Some("U_alt dimensions must be Nj x Nj")
        } else if tr.r_alt->Some_0.nrows != n_cur || tr.r_alt->Some_0.ncols != n_prev {
            Some("R_alt dimensions must be Nj x N(j-1)")
        } else {
            None
        }
    } else if tr.u_alt is Some || tr.r_alt is Some {
        Some("u_alt and r_alt must both be present or both absent")
    } else {
        None
    }
}

/// The dimension checks of transition `idx` pass.
pub open spec fn transition_ok(trs: Seq<KernelTransition>, q: Seq<Seq<usize>>, idx: int) -> bool {
    transition_error(trs[idx], q[idx + 1].len() as int, q[idx].len() as int) is None
}

/// Constraints produced by transition `idx` (whose checks pass).
pub open spec fn transition_blocks(trs: Seq<KernelTransition>, q: Seq<Seq<usize>>, idx: int) -> Seq<
    ConstraintView,
> {
    let tr = trs[idx];
    let j = (idx + 1) as usize;
    let main = time_block("time"@, j, tr.u, tr.r, q[idx + 1], q[idx]);
    if tr.u_alt is Some && tr.r_alt is Some {
        main + time_block(
            "time_alt"@,
            j,
            tr.u_alt->Some_0,
            tr.r_alt->Some_0,
            q[idx + 1],
            q[idx],
        )
    } else {
        main
    }
}

/// Constraints produced by the first `n` transitions.
pub open spec fn time_constraints_upto(
    trs: Seq<KernelTransition>,
    q: Seq<Seq<usize>>,
    n: int,
) -> Seq<ConstraintView>
    decreases n,
{
    if n <= 0 {
        Seq::empty()
    } else {
        time_constraints_upto(trs, q, n - 1) + transition_blocks(trs, q, n - 1)
    }
}

/// `idx` is the first transition whose checks fail.
pub open spec fn is_first_bad_transition(
    trs: Seq<KernelTransition>,
    q: Seq<Seq<usize>>,
    idx: int,
) -> bool {
    &&& 0 <= idx < trs.len()
    &&& !transition_ok(trs, q, idx)
    &&& forall|l: int| 0 <= l < idx ==> #[trigger] transition_ok(trs, q, l)
}

/// Every matrix of the transitions is well formed.
pub open spec fn transitions_wf(trs: Seq<KernelTransition>) -> bool {
    forall|t: int|
        0 <= t < trs.len() ==> {
            &&& dense_wf((#[trigger] trs[t]).u)
            &&& dense_wf(trs[t].r)
            &&& (trs[t].u_alt matches Some(m) ==> dense_wf(m))
            &&& (trs[t].r_alt matches Some(m) ==> dense_wf(m))
        }
}

/// Every identifier of `q` is below `n`.
pub open spec fn ids_below(q: Seq<Seq<usize>>, n: int) -> bool {
    forall|j: int, i: int| 0 <= j < q.len() && 0 <= i < q[j].len() ==> (#[trigger] q[j][i]) < n
}

pub proof fn lemma_first_bad_transition_unique(
    trs: Seq<KernelTransition>,
    q: Seq<Seq<usize>>,
    a: int,
    b: int,
)
    requires
        is_first_bad_transition(trs, q, a),
        is_first_bad_transition(trs, q, b),
    ensures
        a == b,
{
    if a < b {
        assert(transition_ok(trs, q, a));
    }
    if b < a {
        assert(transition_ok(trs, q, b));
    }
}

/// The error of adding a constraint whose terms name an unknown variable.
pub open spec fn unknown_var_error() -> SanosError {
    SanosError::InvalidOrdering { msg: UNKNOWN_VAR_MSG }
}

/// Adding the first `n` constraints of `block`, in order, to a program with
/// `nvars` variables: the first one whose terms name an unknown variable
/// stops with an error, after the ones before it have been added. Gives the
/// error, if any, and the constraints added.
pub open spec fn block_run_upto(block: Seq<ConstraintView>, nvars: int, n: int) -> (
    Option<SanosError>,
    Seq<ConstraintView>,
)
    decreases n,
{
    if n <= 0 {
        (None, Seq::empty())
    } else {
        let p = block_run_upto(block, nvars, n - 1);
        if p.0 is Some {
            p
        } else if terms_within(block[n - 1].1, nvars) {
            (None, p.1.push(block[n - 1]))
        } else {
            (Some(unknown_var_error()), p.1)
        }
    }
}

/// Adding every constraint of `block` (see [`block_run_upto`]).
pub open spec fn block_run(block: Seq<ConstraintView>, nvars: int) -> (
    Option<SanosError>,
    Seq<ConstraintView>,
) {
    block_run_upto(block, nvars, block.len() as int)
}

/// The calendar step of one transition `tr` between the blocks `q_prev` and
/// `q_cur` (maturity `j`) on a program with `nvars` variables: the dimension
/// checks of `U` and `R`, the main block, then the checks and the block of
/// the second pair when both are present. Gives the error, if any, and the
/// constraints added before it.
pub open spec fn transition_run(
    tr: KernelTransition,
    q_cur: Seq<usize>,
    q_prev: Seq<usize>,
    j: usize,
    nvars: int,
) -> (Option<SanosError>, Seq<ConstraintView>) {
    let nc = q_cur.len() as int;
    let np = q_prev.len() as int;
    if tr.u.nrows != nc || tr.u.ncols != nc || tr.r.nrows != nc || tr.r.ncols != np {
        (
            Some(SanosError::InvalidOrdering { msg: transition_error(tr, nc, np)->Some_0 }),
            Seq::empty(),
        )
    } else {
        let m = block_run(time_block("time"@, j, tr.u, tr.r, q_cur, q_prev), nvars);
        if m.0 is Some {
            m
        } else if transition_error(tr, nc, np) is Some {
            (Some(SanosError::InvalidOrdering { msg: transition_error(tr, nc, np)->Some_0 }), m.1)
        } else if tr.u_alt is Some && tr.r_alt is Some {
            let a = block_run(
                time_block("time_alt"@, j, tr.u_alt->Some_0, tr.r_alt->Some_0, q_cur, q_prev),
                nvars,
            );
            (a.0, m.1 + a.1)
        } else {
            (None, m.1)
        }
    }
}

/// The calendar steps of the first `n` transitions, in order, on a program
/// with `nvars` variables: the first failing step stops with its error.
/// Gives the error, if any, and the constraints added.
pub open spec fn time_run(trs: Seq<KernelTransition>, q: Seq<Seq<usize>>, nvars: int, n: int) -> (
    Option<SanosError>,
    Seq<ConstraintView>,
)
    decreases n,
{
    if n <= 0 {
        (None, Seq::empty())
    } else {
        let p = time_run(trs, q, nvars, n - 1);
        if p.0 is Some {
            p
        } else {
            let t = transition_run(trs[n - 1], q[n], q[n - 1], n as usize, nvars);
            (t.0, p.1 + t.1)
        }
    }
}

/// A block whose identifiers are all known is added whole.
proof fn lemma_block_run_known(
    prefix: Seq<char>,
    j: usize,
    u: DenseMat,
    r: DenseMat,
    q_cur: Seq<usize>,
    q_prev: Seq<usize>,
    nvars: int,
    n: int,
)
    requires
        0 <= n <= q_cur.len(),
        forall|i: int| 0 <= i < q_cur.len() ==> (#[trigger] q_cur[i]) < nvars,
        forall|i: int| 0 <= i < q_prev.len() ==> (#[trigger] q_prev[i]) < nvars,
    ensures
        block_run_upto(time_block(prefix, j, u, r, q_cur, q_prev), nvars, n) == (
            None::<SanosError>,
            time_block(prefix, j, u, r, q_cur, q_prev).take(n),
        ),
    decreases n,
{
    let block = time_block(prefix, j, u, r, q_cur, q_prev);
    if n == 0 {
        assert(block.take(0) =~= Seq::<ConstraintView>::empty());
    } else {
        lemma_block_run_known(prefix, j, u, r, q_cur, q_prev, nvars, n - 1);
        lemma_row_terms_vars(u, n - 1, q_cur, q_cur.len() as int, 1, nvars);
        lemma_row_terms_vars(r, n - 1, q_prev, q_prev.len() as int, -1, nvars);
        let t = block[n - 1].1;
        assert(terms_within(t, nvars)) by {
            let a = row_terms(u, n - 1, q_cur, q_cur.len() as int, 1);
            let b = row_terms(r, n - 1, q_prev, q_prev.len() as int, -1);
            assert(t == a + b);
            assert forall|x: int| 0 <= x < t.len() implies (#[trigger] t[x]).var < nvars by {
                if x < a.len() {
                    assert(t[x] == a[x]);
                } else {
                    assert(t[x] == b[x - a.len()]);
                }
            }
        }
        assert(block.take(n - 1).push(block[n - 1]) =~= block.take(n));
    }
}

/// With every identifier known, the calendar steps fail exactly at the
/// first transition whose dimension checks fail, and otherwise add the
/// calendar constraints.
proof fn lemma_time_run_known(trs: Seq<KernelTransition>, q: Seq<Seq<usize>>, nvars: int, n: int)
    requires
        0 <= n <= trs.len(),
        trs.len() + 1 == q.len(),
        ids_below(q, nvars),
    ensures
        (forall|l: int| 0 <= l < n ==> #[trigger] transition_ok(trs, q, l)) ==> time_run(
            trs,
            q,
            nvars,
            n,
        ) == (None::<SanosError>, time_constraints_upto(trs, q, n)),
        forall|b: int|
            0 <= b < n && #[trigger] is_first_bad_transition(trs, q, b) ==> time_run(
                trs,
                q,
                nvars,
                n,
            ).0 == Some(
                SanosError::InvalidOrdering {
                    msg: transition_error(trs[b], q[b + 1].len() as int, q[b].len() as int)->Some_0,
                },
            ),
    decreases n,
{
    if n > 0 {
        lemma_time_run_known(trs, q, nvars, n - 1);
        let idx = n - 1;
        let tr = trs[idx];
        let qc = q[n];
        let qp = q[idx];
        assert forall|i: int| 0 <= i < qc.len() implies (#[trigger] qc[i]) < nvars by {
            assert(q[n][i] < nvars);
        }
        assert forall|i: int| 0 <= i < qp.len() implies (#[trigger] qp[i]) < nvars by {
            assert(q[idx][i] < nvars);
        }
        lemma_block_run_known("time"@, n as usize, tr.u, tr.r, qc, qp, nvars, qc.len() as int);
        assert(time_block("time"@, n as usize, tr.u, tr.r, qc, qp).take(qc.len() as int)
            =~= time_block("time"@, n as usize, tr.u, tr.r, qc, qp));
        if tr.u_alt is Some && tr.r_alt is Some {
            lemma_block_run_known(
                "time_alt"@,
                n as usize,
                tr.u_alt->Some_0,
                tr.r_alt->Some_0,
                qc,
                qp,
                nvars,
                qc.len() as int,
            );
            assert(time_block("time_alt"@, n as usize, tr.u_alt->Some_0, tr.r_alt->Some_0, qc, qp).take(
                qc.len() as int,
            ) =~= time_block("time_alt"@, n as usize, tr.u_alt->Some_0, tr.r_alt->Some_0, qc, qp));
        }
        if forall|l: int| 0 <= l < n ==> #[trigger] transition_ok(trs, q, l) {
            assert(transition_ok(trs, q, idx));
            assert(forall|l: int| 0 <= l < n - 1 ==> #[trigger] transition_ok(trs, q, l));
            assert(q[idx + 1] == qc);
            if tr.u_alt is Some && tr.r_alt is Some {
                assert(transition_run(tr, qc, qp, n as usize, nvars).1 == transition_blocks(
                    trs,
                    q,
                    idx,
                ));
            } else {
                assert(transition_run(tr, qc, qp, n as usize, nvars).1 == transition_blocks(
                    trs,
                    q,
                    idx,
                ));
            }
        }
        assert forall|b: int|
            0 <= b < n && #[trigger] is_first_bad_transition(trs, q, b) implies time_run(
            trs,
            q,
            nvars,
            n,
        ).0 == Some(
            SanosError::InvalidOrdering {
                msg: transition_error(trs[b], q[b + 1].len() as int, q[b].len() as int)->Some_0,
            },
        ) by {
            if b < n - 1 {
                assert(is_first_bad_transition(trs, q, b));
            } else {
                assert(forall|l: int| 0 <= l < n - 1 ==> #[trigger] transition_ok(trs, q, l));
            }
        }
    }
}

proof fn lemma_bad_transition_has_first(trs: Seq<KernelTransition>, q: Seq<Seq<usize>>, i: int)
    requires
        0 <= i < trs.len(),
        !transition_ok(trs, q, i),
    ensures
        exists|b: int| is_first_bad_transition(trs, q, b) && b <= i,
    decreases i,
{
    if forall|l: int| 0 <= l < i ==> #[trigger] transition_ok(trs, q, l) {
        assert(is_first_bad_transition(trs, q, i));
    } else {
        let l = choose|l: int| 0 <= l < i && !transition_ok(trs, q, l);
        lemma_bad_transition_has_first(trs, q, l);
    }
}

/// With every identifier known, the calendar steps report `time_error` and,
/// when it is `None`, add the calendar constraints.
proof fn lemma_time_run_matches(trs: Seq<KernelTransition>, q: Seq<Seq<usize>>, nvars: int)
    requires
        trs.len() + 1 == q.len(),
        ids_below(q, nvars),
    ensures
        time_run(trs, q, nvars, trs.len() as int).0 == time_error(trs, q),
        time_error(trs, q) is None ==> time_run(trs, q, nvars, trs.len() as int).1
            == time_constraints_upto(trs, q, trs.len() as int),
{
    let n = trs.len() as int;
    lemma_time_run_known(trs, q, nvars, n);
    if forall|l: int| 0 <= l < n ==> #[trigger] transition_ok(trs, q, l) {
        if exists|b: int| is_first_bad_transition(trs, q, b) {
            let b = choose|b: int| is_first_bad_transition(trs, q, b);
            assert(transition_ok(trs, q, b));
        }
    } else {
        let i = choose|i: int| 0 <= i < n && !transition_ok(trs, q, i);
        lemma_bad_transition_has_first(trs, q, i);
        let b = choose|b: int| is_first_bad_transition(trs, q, b) && b <= i;
        let c = choose|c: int| is_first_bad_transition(trs, q, c);
        lemma_first_bad_transition_unique(trs, q, b, c);
        assert(is_first_bad_transition(trs, q, b));
    }
}

impl SanosLpBuilder {
    /// Adds, for every row of `u`, the constraint
    /// `sum_col u[row][col] q_cur[col] - sum_col r[row][col] q_prev[col] >= 0`
    /// named `prefix_j_row` (zero coefficients are left out). A row whose
    /// terms name an unknown variable stops with that error, after the rows
    /// before it (see [`block_run`]).
    pub fn add_one_time_block(
        &self,
        lp: &mut LpModel,
        j: usize,
        name_prefix: &str,
        u: &DenseMat,
        r: &DenseMat,
        q_cur: &[usize],
        q_prev: &[usize],
    ) -> (res: SanosResult<()>)
        requires
            dense_wf(*u),
            dense_wf(*r),
            u.nrows == q_cur@.len(),
            u.ncols == q_cur@.len(),
            r.nrows == q_cur@.len(),
            r.ncols == q_prev@.len(),
        ensures
            res == outcome(
                block_run(
                    time_block(name_prefix@, j, *u, *r, q_cur@, q_prev@),
                    old(lp).vars@.len() as int,
                ).0,
            ),
            cviews(final(lp).constraints@) == cviews(old(lp).constraints@) + block_run(
                time_block(name_prefix@, j, *u, *r, q_cur@, q_prev@),
                old(lp).vars@.len() as int,
            ).1,
            final(lp).vars == old(lp).vars,
            final(lp).objective == old(lp).objective,
    {
        let ghost c0 = cviews(lp.constraints@);
        let ghost block = time_block(name_prefix@, j, *u, *r, q_cur@, q_prev@);
        let ghost nv = lp.vars@.len() as int;
        let n = q_cur.len();
        let mut row: usize = 0;
        assert(c0 + Seq::<ConstraintView>::empty() =~= c0);
        while row < n
            invariant
                n == q_cur@.len(),
                row <= n,
                dense_wf(*u),
                dense_wf(*r),
                u.nrows == n,
                u.ncols == n,
                r.nrows == n,
                r.ncols == q_prev@.len(),
                lp.vars == old(lp).vars,
                lp.objective == old(lp).objective,
                nv == old(lp).vars@.len(),
                c0 == cviews(old(lp).constraints@),
                block == time_block(name_prefix@, j, *u, *r, q_cur@, q_prev@),
                block_run_upto(block, nv, row as int).0 is None,
                cviews(lp.constraints@) == c0 + block_run_upto(block, nv, row as int).1,
            decreases n - row,
        {
            let mut terms: Vec<LinTerm> = Vec::new();
            push_row_terms(&mut terms, u, row, q_cur, false);
            push_row_terms(&mut terms, r, row, q_prev, true);
            proof {
                assert(terms@ =~= row_terms(*u, row as int, q_cur@, q_cur@.len() as int, 1)
                    + row_terms(*r, row as int, q_prev@, q_prev@.len() as int, -1));
            }
            let name = make_indexed_name(name_prefix, j, row);
            let ghost tv = terms@;
            let ghost before = cviews(lp.constraints@);
            let added = lp.add_constraint(name, terms, Sense::Ge, 0);
            proof {
                assert(block[row as int] == (name@, tv, Sense::Ge, 0i128));
            }
            match added {
                Err(e) => {
                    proof {
                        assert(!terms_within(tv, nv));
                        assert(cviews(lp.constraints@) == before);
                        assert(block_run_upto(block, nv, (row + 1) as int) == (
                            Some(unknown_var_error()),
                            block_run_upto(block, nv, row as int).1,
                        ));
                        lemma_block_run_stops(block, nv, row + 1, n as int);
                        assert(block.len() == n);
                    }
                    return Err(e);
                },
                Ok(()) => {},
            }
            proof {
                assert(cviews(lp.constraints@) =~= c0 + block_run_upto(
                    block,
                    nv,
                    (row + 1) as int,
                ).1);
            }
            row = row + 1;
        }
        Ok(())
    }

    /// Adds the calendar constraints of every transition (and of the second
    /// block when present) when time constraints are enabled, after checking
    /// the dimensions of each transition against the blocks `q_{j-1}`, `q_j`
    /// (see [`time_run`]).
    pub fn add_time_constraints(
        &self,
        lp: &mut LpModel,
        kernels: &KernelSet,
        q_var_ids: &Vec<Vec<usize>>,
        cfg: &FitConfig,
    ) -> (res: SanosResult<()>)
        requires
            cfg.constraints.include_time_constraints ==> transitions_wf(kernels.transitions@),
        ensures
            final(lp).vars == old(lp).vars,
            final(lp).objective == old(lp).objective,
            !cfg.constraints.include_time_constraints ==> res is Ok && final(lp).constraints
                == old(lp).constraints,
            cfg.constraints.include_time_constraints && kernels.transitions@.len() + 1
                != q_var_ids@.len() ==> res == Err::<(), SanosError>(
                SanosError::InvalidOrdering {
                    msg: "time constraints require transitions.len() = q.len()-1",
                },
            ) && final(lp).constraints == old(lp).constraints,
            cfg.constraints.include_time_constraints && kernels.transitions@.len() + 1
                == q_var_ids@.len() ==> {
                let o = time_run(
                    kernels.transitions@,
                    ids_view(q_var_ids@),
                    old(lp).vars@.len() as int,
                    kernels.transitions@.len() as int,
                );
                &&& res == outcome(o.0)
                &&& cviews(final(lp).constraints@) == cviews(old(lp).constraints@) + o.1
            },
    {
        if !cfg.constraints.include_time_constraints {
            return Ok(());
        }
        if q_var_ids.len() == 0 || kernels.transitions.len() != q_var_ids.len() - 1 {
            return Err(
                SanosError::InvalidOrdering {
                    msg: "time constraints require transitions.len() = q.len()-1",
                },
            );
        }
        let ghost c0 = cviews(lp.constraints@);
        let ghost trs = kernels.transitions@;
        let ghost q = ids_view(q_var_ids@);
        let ghost nv = lp.vars@.len() as int;
        let nt = kernels.transitions.len();
        let mut idx: usize = 0;
        assert(c0 + Seq::<ConstraintView>::empty() =~= c0);
        while idx < nt
            invariant
                cfg.constraints.include_time_constraints,
                c0 == cviews(old(lp).constraints@),
                nv == old(lp).vars@.len(),
                nt == trs.len(),
                trs == kernels.transitions@,
                q == ids_view(q_var_ids@),
                q_var_ids@.len() == q.len(),
                nt + 1 == q.len(),
                idx <= nt,
                transitions_wf(trs),
                lp.vars == old(lp).vars,
                lp.objective == old(lp).objective,
                time_run(trs, q, nv, idx as int).0 is None,
                cviews(lp.constraints@) == c0 + time_run(trs, q, nv, idx as int).1,
            decreases nt - idx,
        {
            let j = idx + 1;
            let tr = &kernels.transitions[idx];
            let q_prev = &q_var_ids[j - 1];
            let q_cur = &q_var_ids[j];
            let n_cur = q_cur.len();
            let n_prev = q_prev.len();
            let ghost tr_run = transition_run(trs[idx as int], q[j as int], q[idx as int], j, nv);
            let ghost before = cviews(lp.constraints@);
            proof {
                assert(q[j as int] == q_cur@);
                assert(q[idx as int] == q_prev@);
                assert(dense_wf(trs[idx as int].u));
                assert(time_run(trs, q, nv, j as int) == (
                    tr_run.0,
                    time_run(trs, q, nv, idx as int).1 + tr_run.1,
                ));
            }
            if tr.u.nrows != n_cur || tr.u.ncols != n_cur {
                proof {
                    assert(before + tr_run.1 =~= before);
                    lemma_time_run_stops(trs, q, nv, j as int, nt as int);
                }
                return Err(SanosError::InvalidOrdering { msg: "U dimensions must be Nj x Nj" });
            }
            if tr.r.nrows != n_cur || tr.r.ncols != n_prev {
                proof {
                    assert(before + tr_run.1 =~= before);
                    lemma_time_run_stops(trs, q, nv, j as int, nt as int);
                }
                return Err(
                    SanosError::InvalidOrdering { msg: "R dimensions must be Nj x N(j-1)" },
                );
            }
            let main = self.add_one_time_block(
                lp,
                j,
                "time",
                &tr.u,
                &tr.r,
                q_cur.as_slice(),
                q_prev.as_slice(),
            );
            match main {
                Err(e) => {
                    proof {
                        lemma_time_run_stops(trs, q, nv, j as int, nt as int);
                    }
                    return Err(e);
                },
                Ok(()) => {},
            }
            let ghost after_main = cviews(lp.constraints@);
            match (&tr.u_alt, &tr.r_alt) {
                (Some(u_alt), Some(r_alt)) => {
                    if u_alt.nrows != n_cur || u_alt.ncols != n_cur {
                        proof {
                            lemma_time_run_stops(trs, q, nv, j as int, nt as int);
                        }
                        return Err(
                            SanosError::InvalidOrdering { msg: "U_alt dimensions must be Nj x Nj" },
                        );
                    }
                    if r_alt.nrows != n_cur || r_alt.ncols != n_prev {
                        proof {
                            lemma_time_run_stops(trs, q, nv, j as int, nt as int);
                        }
                        return Err(
                            SanosError::InvalidOrdering {
                                msg: "R_alt dimensions must be Nj x N(j-1)",
                            },
                        );
                    }
                    let alt = self.add_one_time_block(
                        lp,
                        j,
                        "time_alt",
                        u_alt,
                        r_alt,
                        q_cur.as_slice(),
                        q_prev.as_slice(),
                    );
                    proof {
                        assert(cviews(lp.constraints@) =~= c0 + time_run(trs, q, nv, j as int).1);
                    }
                    match alt {
                        Err(e) => {
                            proof {
                                lemma_time_run_stops(trs, q, nv, j as int, nt as int);
                            }
                            return Err(e);
                        },
                        Ok(()) => {},
                    }
                },
                (None, None) => {
                    proof {
                        assert(cviews(lp.constraints@) =~= c0 + time_run(trs, q, nv, j as int).1);
                    }
                },
                _ => {
                    proof {
                        lemma_time_run_stops(trs, q, nv, j as int, nt as int);
                    }
                    return Err(
                        SanosError::InvalidOrdering {
                            msg: "u_alt and r_alt must both be present or both absent",
                        },
                    );
                },
            }
            idx = idx + 1;
        }
        Ok(())
    }
}

/// Once a block run has stopped, later rows change nothing.
proof fn lemma_block_run_stops(block: Seq<ConstraintView>, nvars: int, m: int, n: int)
    requires
        0 <= m <= n,
        block_run_upto(block, nvars, m).0 is Some,
    ensures
        block_run_upto(block, nvars, n) == block_run_upto(block, nvars, m),
    decreases n - m,
{
    if m < n {
        lemma_block_run_stops(block, nvars, m, n - 1);
    }
}

/// Once the calendar steps have stopped, later transitions change nothing.
proof fn lemma_time_run_stops(trs: Seq<KernelTransition>, q: Seq<Seq<usize>>, nvars: int, m: int, n: int)
    requires
        0 <= m <= n,
        time_run(trs, q, nvars, m).0 is Some,
    ensures
        time_run(trs, q, nvars, n) == time_run(trs, q, nvars, m),
    decreases n - m,
{
    if m < n {
        lemma_time_run_stops(trs, q, nvars, m, n - 1);
    }
}

/// Rows of the calendar blocks of the first `n` transitions: one per row of
/// `U`, twice as many when the second block is present.
pub open spec fn calendar_row_count(trs: Seq<KernelTransition>, n: int) -> int
    decreases n,
{
    if n <= 0 {
        0
    } else {
        let tr = trs[n - 1];
        calendar_row_count(trs, n - 1) + if tr.u_alt is Some && tr.r_alt is Some {
            2 * tr.u.nrows
        } else {
            tr.u.nrows as int
        }
    }
}

/// When every transition passes its checks, the calendar constraints have
/// one row per row of `U`, doubled when the second block is present.
pub proof fn lemma_calendar_row_count(trs: Seq<KernelTransition>, q: Seq<Seq<usize>>, n: int)
    requires
        0 <= n <= trs.len(),
        q.len() == trs.len() + 1,
        forall|l: int| 0 <= l < n ==> #[trigger] transition_ok(trs, q, l),
    ensures
        time_constraints_upto(trs, q, n).len() == calendar_row_count(trs, n),
    decreases n,
{
    if n > 0 {
        lemma_calendar_row_count(trs, q, n - 1);
        assert(transition_ok(trs, q, n - 1));
    }
}

/// Error of the first transition whose dimension checks fail, if any.
pub open spec fn time_error(trs: Seq<KernelTransition>, q: Seq<Seq<usize>>) -> Option<SanosError> {
    if exists|idx: int| is_first_bad_transition(trs, q, idx) {
        let idx = choose|idx: int| is_first_bad_transition(trs, q, idx);
        Some(
            SanosError::InvalidOrdering {
                msg: transition_error(trs[idx], q[idx + 1].len() as int, q[idx].len() as int)->Some_0,
            },
        )
    } else {
        None
    }
}

/// The first failing check of the assembly of the program for `o`, in the
/// order the builder runs them, if any.
pub open spec fn assembly_error(
    chains: Seq<OptionChain>,
    ks: KernelSet,
    cfg: FitConfig,
    o: ObjectiveConfig,
) -> Option<SanosError> {
    let kc = ks.c@;
    if objective_error(o) is Some {
        objective_error(o)
    } else if kc.len() != chains.len() {
        Some(SanosError::InvalidOrdering { msg: "kernels.c.len() must match book.len()" })
    } else if exists|j: int| 0 <= j < kc.len() && (#[trigger] kc[j]).model_strikes@.len() == 0 {
        Some(SanosError::EmptyCollection { what: "model_strikes" })
    } else if misalignment(chains, kc) is Some {
        misalignment(chains, kc)
    } else if cfg.constraints.include_time_constraints && time_error(
        ks.transitions@,
        density_id_blocks(kc),
    ) is Some {
        time_error(ks.transitions@, density_id_blocks(kc))
    } else {
        weighting_mode_error(cfg.weighting)
    }
}

/// The program assembled for `o`: density variables and simplex rows, the
/// rows of every quote and the mean rows, then the calendar rows.
pub open spec fn assembled_program(
    chains: Seq<OptionChain>,
    ks: KernelSet,
    cfg: FitConfig,
    o: ObjectiveConfig,
) -> ProgramView {
    let kc = ks.c@;
    let n = kc.len() as int;
    let s1 = (
        density_vars(kc, cfg.constraints.enforce_nonnegativity, n),
        simplex_rows(kc, cfg.constraints.enforce_simplex, n),
        Seq::empty(),
    );
    let s2 = after_chains(o, cfg.weighting, chains, kc, n, s1);
    if cfg.constraints.include_time_constraints {
        (
            s2.0,
            s2.1 + time_constraints_upto(
                ks.transitions@,
                density_id_blocks(kc),
                ks.transitions@.len() as int,
            ),
            s2.2,
        )
    } else {
        s2
    }
}

/// `r` is the assembly of the program for `o`: the first failing check, or
/// the assembled program with the layout of its density variables.
pub open spec fn assembly_outcome(
    r: SanosResult<BuiltLp>,
    chains: Seq<OptionChain>,
    ks: KernelSet,
    cfg: FitConfig,
    o: ObjectiveConfig,
) -> bool {
    match assembly_error(chains, ks, cfg, o) {
        Some(e) => r == Err::<BuiltLp, SanosError>(e),
        None => r matches Ok(b) && program_view(b.model) == assembled_program(chains, ks, cfg, o)
            && ids_view(b.layout.q_var_ids@) == density_id_blocks(ks.c@),
    }
}

/// `r` is what building the program yields: the first error of the fit
/// configuration, then of the kernel set, then of the assembly.
pub open spec fn build_outcome(
    r: SanosResult<BuiltLp>,
    chains: Seq<OptionChain>,
    ks: KernelSet,
    cfg: FitConfig,
    o: ObjectiveConfig,
) -> bool {
    if !fit_outcome(Ok(()), cfg) {
        r is Err && fit_outcome(Err(r->Err_0), cfg)
    } else if kernel_set_error(ks) is Some {
        r == Err::<BuiltLp, SanosError>(kernel_set_error(ks)->Some_0)
    } else {
        assembly_outcome(r, chains, ks, cfg, o)
    }
}

/// Density identifiers lie below `n` when `n` covers every model strike.
proof fn lemma_density_ids_within(kc: Seq<KernelC>, n: int)
    requires
        model_strike_count(kc, kc.len() as int) <= n <= usize::MAX,
    ensures
        ids_below(density_id_blocks(kc), n),
{
    assert forall|j: int, i: int|
        0 <= j < density_id_blocks(kc).len() && 0 <= i < density_id_blocks(kc)[j].len()
        implies (#[trigger] density_id_blocks(kc)[j][i]) < n by {
        lemma_density_ids_below(kc, j);
        assert(density_id_blocks(kc)[j] == density_ids(kc, j));
    }
}

impl SanosLpBuilder {
    /// Assembles the program for a validated objective `o`.
    fn assemble(
        &self,
        book: &OptionBook,
        kernels: &KernelSet,
        cfg: &FitConfig,
        o: &ObjectiveConfig,
    ) -> (r: SanosResult<BuiltLp>)
        requires
            objective_error(*o) is None,
            kernel_set_error(*kernels) is None,
            kernels_wf(kernels.c@),
            transitions_wf(kernels.transitions@),
        ensures
            assembly_outcome(r, book.chains_spec(), *kernels, *cfg, *o),
    {
        let chains = book.chains();
        if kernels.c.len() != chains.len() {
            return Err(
                SanosError::InvalidOrdering { msg: "kernels.c.len() must match book.len()" },
            );
        }
        let mut lp = LpModel::new();
        let q_var_ids = match add_density_vars(&mut lp, &kernels.c, &cfg.constraints) {
            Ok(q) => q,
            Err(e) => {
                return Err(e);
            },
        };
        let ghost s1 = program_view(lp);
        proof {
            assert(lp.objective.terms@ =~= Seq::<LinTerm>::empty());
        }
        match add_quote_stage(&mut lp, chains, &kernels.c, &q_var_ids, o, &cfg.weighting) {
            Ok(()) => {},
            Err(e) => {
                return Err(e);
            },
        }
        let nv = lp.vars.len();
        proof {
            lemma_density_ids_within(kernels.c@, nv as int);
        }
        let ghost c2 = cviews(lp.constraints@);
        assert(ids_view(q_var_ids@).len() == kernels.c@.len());
        assert(kernels.transitions@.len() + 1 == ids_view(q_var_ids@).len());
        proof {
            lemma_time_run_matches(kernels.transitions@, ids_view(q_var_ids@), nv as int);
        }
        match self.add_time_constraints(&mut lp, kernels, &q_var_ids, cfg) {
            Ok(()) => {},
            Err(e) => {
                return Err(e);
            },
        }
        match cfg.weighting.check_mode() {
            Ok(()) => {},
            Err(e) => {
                return Err(e);
            },
        }
        proof {
            if cfg.constraints.include_time_constraints {
                assert(program_view(lp) =~= assembled_program(
                    book.chains_spec(),
                    *kernels,
                    *cfg,
                    *o,
                ));
            } else {
                assert(program_view(lp) =~= assembled_program(
                    book.chains_spec(),
                    *kernels,
                    *cfg,
                    *o,
                ));
            }
        }
        Ok(BuiltLp { model: lp, layout: LpLayout { q_var_ids } })
    }
}

impl SanosLpBuilder {
    /// Program with hard bid/ask rows `bid <= p <= ask` for every quote.
    fn build_hard_bid_ask(&self, book: &OptionBook, kernels: &KernelSet, cfg: &FitConfig) -> (r:
        SanosResult<BuiltLp>)
        requires
            kernel_set_error(*kernels) is None,
            kernels_wf(kernels.c@),
            transitions_wf(kernels.transitions@),
        ensures
            assembly_outcome(r, book.chains_spec(), *kernels, *cfg, ObjectiveConfig::HardBidAsk),
    {
        self.assemble(book, kernels, cfg, &ObjectiveConfig::HardBidAsk)
    }

    /// Program with hinge slacks outside `[bid, ask]` penalized by
    /// `slack_penalty` and the distance to the mid by `epsilon_inside`, both
    /// weighted by the quote weight over its weight divisor (see
    /// `lp_stages::weight_divisor`).
    fn build_hinge_bid_ask(
        &self,
        book: &OptionBook,
        kernels: &KernelSet,
        slack_penalty: i64,
        epsilon_inside: i64,
        cfg: &FitConfig,
    ) -> (r: SanosResult<BuiltLp>)
        requires
            kernel_set_error(*kernels) is None,
            kernels_wf(kernels.c@),
            transitions_wf(kernels.transitions@),
        ensures
            assembly_outcome(
                r,
                book.chains_spec(),
                *kernels,
                *cfg,
                ObjectiveConfig::HingeBidAsk { slack_penalty, epsilon_inside },
            ),
    {
        let o = ObjectiveConfig::HingeBidAsk { slack_penalty, epsilon_inside };
        match o.validate() {
            Ok(()) => {},
            Err(e) => {
                return Err(e);
            },
        }
        self.assemble(book, kernels, cfg, &o)
    }

    /// Program with an absolute-deviation slack per quote around the mid,
    /// weighted by `global_weight` times the quote weight over its weight divisor.
    fn build_l1_mid(
        &self,
        book: &OptionBook,
        kernels: &KernelSet,
        global_weight: i64,
        cfg: &FitConfig,
    ) -> (r: SanosResult<BuiltLp>)
        requires
            kernel_set_error(*kernels) is None,
            kernels_wf(kernels.c@),
            transitions_wf(kernels.transitions@),
        ensures
            assembly_outcome(
                r,
                book.chains_spec(),
                *kernels,
                *cfg,
                ObjectiveConfig::L1Mid { weight: global_weight },
            ),
    {
        let o = ObjectiveConfig::L1Mid { weight: global_weight };
        match o.validate() {
            Ok(()) => {},
            Err(e) => {
                return Err(e);
            },
        }
        self.assemble(book, kernels, cfg, &o)
    }

    /// Validates the fit configuration and the kernel set, then builds the
    /// program for the objective `objective`.
    pub fn build(
        &self,
        book: &OptionBook,
        kernels: &KernelSet,
        cfg: &FitConfig,
        objective: &ObjectiveConfig,
    ) -> (r: SanosResult<BuiltLp>)
        requires
            kernels_wf(kernels.c@),
            transitions_wf(kernels.transitions@),
        ensures
            build_outcome(r, book.chains_spec(), *kernels, *cfg, *objective),
    {
        match cfg.validate() {
            Ok(()) => {},
            Err(e) => {
                return Err(e);
            },
        }
        match kernels.validate() {
            Ok(()) => {},
            Err(e) => {
                return Err(e);
            },
        }
        match *objective {
            ObjectiveConfig::HardBidAsk => self.build_hard_bid_ask(book, kernels, cfg),
            ObjectiveConfig::HingeBidAsk { slack_penalty, epsilon_inside } => {
                self.build_hinge_bid_ask(book, kernels, slack_penalty, epsilon_inside, cfg)
            },
            ObjectiveConfig::L1Mid { weight } => self.build_l1_mid(book, kernels, weight, cfg),
        }
    }
}

} // verus!
