//! A linear program held as plain data: variables with bounds, named linear
//! constraints and a linear objective (fixed-point coefficients).
use vstd::prelude::*;
use crate::error::{SanosError, SanosResult};
use crate::fit::kernels::{dense_wf, entry, DenseMat};
use crate::text::decimal;

verus! {

/// Direction of a constraint: `terms <= rhs`, `terms >= rhs` or
/// `terms = rhs`.
#[derive(Debug, Clone, Copy, PartialEq, Eq)]
pub enum Sense {
    Le,
    Ge,
    Eq,
}

/// `coef * x[var]`.
#[derive(Debug, Clone, Copy, PartialEq, Eq)]
pub struct LinTerm {
    pub var: usize,
    pub coef: i128,
}

/// A decision variable; a missing bound is infinite.
#[derive(Debug, Clone, PartialEq, Eq)]
pub struct LpVar {
    pub name: String,
    pub lb: Option<i64>,
    pub ub: Option<i64>,
}

/// A named linear constraint.
#[derive(Debug, Clone, PartialEq, Eq)]
pub struct LpConstraint {
    pub name: String,
    pub terms: Vec<LinTerm>,
    pub sense: Sense,
    pub rhs: i128,
}

/// Linear objective (minimized).
#[derive(Debug, Clone, PartialEq, Eq)]
pub struct LpObjective {
    pub terms: Vec<LinTerm>,
}

/// A linear program.
#[derive(Debug, Clone, PartialEq, Eq)]
pub struct LpModel {
    pub vars: Vec<LpVar>,
    pub constraints: Vec<LpConstraint>,
    pub objective: LpObjective,
}

/// Contents of a constraint: name, terms, sense, right-hand side.
pub type ConstraintView = (Seq<char>, Seq<LinTerm>, Sense, i128);

/// Contents of a variable: name and bounds.
pub type VarView = (Seq<char>, Option<i64>, Option<i64>);

/// Contents of a constraint.
pub open spec fn cview(c: LpConstraint) -> ConstraintView {
    (c.name@, c.terms@, c.sense, c.rhs)
}

/// Contents of a sequence of constraints.
pub open spec fn cviews(s: Seq<LpConstraint>) -> Seq<ConstraintView> {
    s.map_values(|c: LpConstraint| cview(c))
}

/// Contents of a variable.
pub open spec fn vview(v: LpVar) -> VarView {
    (v.name@, v.lb, v.ub)
}

/// Contents of a sequence of variables.
pub open spec fn vviews(s: Seq<LpVar>) -> Seq<VarView> {
    s.map_values(|v: LpVar| vview(v))
}

/// Name `prefix_j_i`, with `j` and `i` in decimal.
pub open spec fn indexed_name(prefix: Seq<char>, j: usize, i: usize) -> Seq<char> {
    prefix + seq!['_'] + decimal(j as nat) + seq!['_'] + decimal(i as nat)
}

/// Name `prefix_j`, with `j` in decimal.
pub open spec fn block_name(prefix: Seq<char>, j: usize) -> Seq<char> {
    prefix + seq!['_'] + decimal(j as nat)
}

/// `format!` of `prefix_j_i`.
#[verifier::external_body]
pub(crate) fn make_indexed_name(prefix: &str, j: usize, i: usize) -> (r: String)
    ensures
        r@ == indexed_name(prefix@, j, i),
{
    format!("{}_{}_{}", prefix, j, i)
}

/// `format!` of `prefix_j`.
#[verifier::external_body]
pub(crate) fn make_block_name(prefix: &str, j: usize) -> (r: String)
    ensures
        r@ == block_name(prefix@, j),
{
    format!("{}_{}", prefix, j)
}

/// The identifier sequences held by `q`.
pub open spec fn ids_view(q: Seq<Vec<usize>>) -> Seq<Seq<usize>> {
    q.map_values(|v: Vec<usize>| v@)
}

/// Every term refers to one of the first `n` variables.
pub open spec fn terms_within(terms: Seq<LinTerm>, n: int) -> bool {
    forall|t: int| 0 <= t < terms.len() ==> (#[trigger] terms[t]).var < n
}

/// Message of the error for a term naming an unknown variable.
pub const UNKNOWN_VAR_MSG: &'static str = "term references an unknown variable";

impl LpModel {
    /// An empty program.
    pub fn new() -> (r: LpModel)
        ensures
            r.vars@.len() == 0,
            r.constraints@.len() == 0,
            r.objective.terms@.len() == 0,
    {
        LpModel { vars: Vec::new(), constraints: Vec::new(), objective: LpObjective { terms: Vec::new() } }
    }

    /// Appends a variable and returns its index; the lower bound must not
    /// exceed the upper bound.
    pub fn add_var(&mut self, name: String, lb: Option<i64>, ub: Option<i64>) -> (r: SanosResult<
        usize,
    >)
        ensures
            (lb matches Some(l) && ub matches Some(u) && l > u) ==> r == Err::<usize, SanosError>(
                SanosError::InvalidOrdering { msg: "variable lower bound exceeds upper bound" },
            ) && *final(self) == *old(self),
            !(lb matches Some(l) && ub matches Some(u) && l > u) ==> {
                &&& r == Ok::<usize, SanosError>(old(self).vars@.len() as usize)
                &&& vviews(final(self).vars@) == vviews(old(self).vars@).push((name@, lb, ub))
                &&& final(self).constraints == old(self).constraints
                &&& final(self).objective == old(self).objective
            },
    {
        if let (Some(l), Some(u)) = (lb, ub) {
            if l > u {
                return Err(
                    SanosError::InvalidOrdering { msg: "variable lower bound exceeds upper bound" },
                );
            }
        }
        let id = self.vars.len();
        let ghost v0 = self.vars@;
        self.vars.push(LpVar { name, lb, ub });
        proof {
            assert(vviews(self.vars@) =~= vviews(v0).push((name@, lb, ub)));
        }
        Ok(id)
    }

    /// Appends a constraint whose terms refer to existing variables.
    pub fn add_constraint(&mut self, name: String, terms: Vec<LinTerm>, sense: Sense, rhs: i128) -> (r:
        SanosResult<()>)
        ensures
            !terms_within(terms@, old(self).vars@.len() as int) ==> r == Err::<(), SanosError>(
                SanosError::InvalidOrdering { msg: UNKNOWN_VAR_MSG },
            ) && *final(self) == *old(self),
            terms_within(terms@, old(self).vars@.len() as int) ==> {
                &&& r is Ok
                &&& cviews(final(self).constraints@) == cviews(old(self).constraints@).push(
                    (name@, terms@, sense, rhs),
                )
                &&& final(self).vars == old(self).vars
                &&& final(self).objective == old(self).objective
            },
    {
        let n = self.vars.len();
        let mut t: usize = 0;
        while t < terms.len()
            invariant
                n == self.vars@.len(),
                t <= terms@.len(),
                forall|l: int| 0 <= l < t ==> (#[trigger] terms@[l]).var < n,
            decreases terms@.len() - t,
        {
            if terms[t].var >= n {
                return Err(SanosError::InvalidOrdering { msg: UNKNOWN_VAR_MSG });
            }
            t = t + 1;
        }
        let ghost c0 = self.constraints@;
        let ghost tv = terms@;
        self.constraints.push(LpConstraint { name, terms, sense, rhs });
        proof {
            assert(cviews(self.constraints@) =~= cviews(c0).push((name@, tv, sense, rhs)));
        }
        Ok(())
    }

    /// Appends `coef * x[var]` to the objective.
    pub fn add_obj_term(&mut self, var: usize, coef: i128) -> (r: SanosResult<()>)
        ensures
            var >= old(self).vars@.len() ==> r == Err::<(), SanosError>(
                SanosError::InvalidOrdering { msg: UNKNOWN_VAR_MSG },
            ) && *final(self) == *old(self),
            var < old(self).vars@.len() ==> {
                &&& r is Ok
                &&& final(self).objective.terms@ == old(self).objective.terms@.push(
                    LinTerm { var, coef },
                )
                &&& final(self).vars == old(self).vars
                &&& final(self).constraints == old(self).constraints
            },
    {
        if var >= self.vars.len() {
            return Err(SanosError::InvalidOrdering { msg: UNKNOWN_VAR_MSG });
        }
        self.objective.terms.push(LinTerm { var, coef });
        Ok(())
    }
}

/// Terms `sign * m[row][col] * x[ids[col]]` for the first `n` columns, skipping
/// zero entries.
pub open spec fn row_terms(m: DenseMat, row: int, ids: Seq<usize>, n: int, sign: int) -> Seq<
    LinTerm,
>
    decreases n,
{
    if n <= 0 {
        Seq::empty()
    } else {
        let prev = row_terms(m, row, ids, n - 1, sign);
        let c = entry(m, row, n - 1);
        if c != 0 {
            prev.push(LinTerm { var: ids[n - 1], coef: (sign * c) as i128 })
        } else {
            prev
        }
    }
}

/// Every term of `row_terms` refers to an entry of `ids`.
pub proof fn lemma_row_terms_vars(m: DenseMat, row: int, ids: Seq<usize>, n: int, sign: int, bound: int)
    requires
        0 <= n <= ids.len(),
        forall|l: int| 0 <= l < ids.len() ==> (#[trigger] ids[l]) < bound,
    ensures
        terms_within(row_terms(m, row, ids, n, sign), bound),
    decreases n,
{
    if n > 0 {
        lemma_row_terms_vars(m, row, ids, n - 1, sign, bound);
    }
}

/// Appends the nonzero terms `sign * m[row][col] * x[ids[col]]` of one row.
pub(crate) fn push_row_terms(
    terms: &mut Vec<LinTerm>,
    m: &DenseMat,
    row: usize,
    ids: &[usize],
    negate: bool,
)
    requires
        dense_wf(*m),
        row < m.nrows,
        ids@.len() == m.ncols,
    ensures
        final(terms)@ == old(terms)@ + row_terms(*m, row as int, ids@, ids@.len() as int, if negate {
            -1
        } else {
            1
        }),
{
    let ghost sign: int = if negate {
        -1
    } else {
        1
    };
    let ghost t0 = old(terms)@;
    let n = ids.len();
    let mut col: usize = 0;
    assert(t0 + row_terms(*m, row as int, ids@, 0, sign) =~= t0);
    while col < n
        invariant
            n == ids@.len(),
            n == m.ncols,
            dense_wf(*m),
            row < m.nrows,
            col <= n,
            sign == (if negate {
                -1int
            } else {
                1int
            }),
            terms@ == t0 + row_terms(*m, row as int, ids@, col as int, sign),
        decreases n - col,
    {
        let c = m.get(row, col);
        if c != 0 {
            let coef: i128 = if negate { -(c as i128) } else { c as i128 };
            terms.push(LinTerm { var: ids[col], coef });
            proof {
                assert(terms@ =~= t0 + row_terms(*m, row as int, ids@, (col + 1) as int, sign));
            }
        } else {
            proof {
                assert(terms@ =~= t0 + row_terms(*m, row as int, ids@, (col + 1) as int, sign));
            }
        }
        col = col + 1;
    }
}

} // verus!
