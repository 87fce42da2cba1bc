//! Position of each maturity block `q_j` within the concatenated decision
//! vector, and the size of the finite-difference blocks.
use vstd::prelude::*;
use crate::error::{SanosError, SanosResult};
use crate::fit::config::SmoothingOrder;
use crate::fit::kernels::KernelC;

verus! {

/// Sum of the first `n` block sizes.
pub open spec fn size_sum(sizes: Seq<usize>, n: int) -> int
    decreases n,
{
    if n <= 0 {
        0
    } else {
        size_sum(sizes, n - 1) + sizes[n - 1]
    }
}

/// Number of model strikes of the first `n` kernels.
pub open spec fn model_strike_count(c: Seq<KernelC>, n: int) -> int
    decreases n,
{
    if n <= 0 {
        0
    } else {
        model_strike_count(c, n - 1) + c[n - 1].model_strikes@.len()
    }
}

/// Maps each block `q_j` within the decision vector `x`.
#[derive(Debug, Clone, PartialEq, Eq)]
pub struct QLayout {
    /// `offsets[j]` = starting index of `q_j` in `x`.
    pub offsets: Vec<usize>,
    /// `sizes[j]` = number of model strikes at maturity `j`.
    pub sizes: Vec<usize>,
    /// Maturity of block `j` (fixed point).
    pub maturities: Vec<i64>,
    /// Total number of decision variables.
    pub total: usize,
}

/// `l` is the layout of the kernels `c`: one block per kernel, sized by its
/// model strikes, placed one after the other.
pub open spec fn layout_of(l: QLayout, c: Seq<KernelC>) -> bool {
    &&& l.sizes@.len() == c.len()
    &&& l.offsets@.len() == c.len()
    &&& l.maturities@.len() == c.len()
    &&& forall|j: int|
        0 <= j < c.len() ==> {
            &&& (#[trigger] l.sizes@[j]) == c[j].model_strikes@.len()
            &&& l.offsets@[j] == size_sum(l.sizes@, j)
            &&& l.maturities@[j] == c[j].maturity
        }
    &&& l.total == size_sum(l.sizes@, c.len() as int)
}

proof fn lemma_size_sum_matches(sizes: Seq<usize>, c: Seq<KernelC>, n: int)
    requires
        0 <= n <= sizes.len(),
        n <= c.len(),
        forall|j: int| 0 <= j < n ==> (#[trigger] sizes[j]) == c[j].model_strikes@.len(),
    ensures
        size_sum(sizes, n) == model_strike_count(c, n),
    decreases n,
{
    if n > 0 {
        lemma_size_sum_matches(sizes, c, n - 1);
    }
}

pub proof fn lemma_model_count_monotone(c: Seq<KernelC>, a: int, b: int)
    requires
        0 <= a <= b <= c.len(),
    ensures
        model_strike_count(c, a) <= model_strike_count(c, b),
    decreases b,
{
    if a < b {
        lemma_model_count_monotone(c, a, b - 1);
    }
}

impl QLayout {
    /// Lays the blocks out one after the other; every kernel needs at least
    /// one model strike.
    pub fn from_kernels(c: &Vec<KernelC>) -> (r: SanosResult<QLayout>)
        requires
            model_strike_count(c@, c@.len() as int) <= usize::MAX,
        ensures
            r is Ok <==> forall|j: int| 0 <= j < c@.len() ==> (#[trigger] c@[j]).model_strikes@.len()
                > 0,
            r is Err ==> r == Err::<QLayout, SanosError>(
                SanosError::EmptyCollection { what: "model_strikes" },
            ),
            r matches Ok(l) ==> layout_of(l, c@),
    {
        let m = c.len();
        let mut offsets: Vec<usize> = Vec::new();
        let mut sizes: Vec<usize> = Vec::new();
        let mut maturities: Vec<i64> = Vec::new();
        let mut total: usize = 0;
        let mut j: usize = 0;
        while j < m
            invariant
                m == c@.len(),
                j <= m,
                model_strike_count(c@, m as int) <= usize::MAX,
                sizes@.len() == j,
                offsets@.len() == j,
                maturities@.len() == j,
                forall|l: int|
                    0 <= l < j ==> {
                        &&& (#[trigger] sizes@[l]) == c@[l].model_strikes@.len()
                        &&& sizes@[l] > 0
                        &&& offsets@[l] == size_sum(sizes@, l)
                        &&& maturities@[l] == c@[l].maturity
                    },
                total == size_sum(sizes@, j as int),
            decreases m - j,
        {
            let nj = c[j].model_strikes.len();
            if nj == 0 {
                return Err(SanosError::EmptyCollection { what: "model_strikes" });
            }
            proof {
                lemma_size_sum_matches(sizes@, c@, j as int);
                lemma_model_count_monotone(c@, (j + 1) as int, m as int);
            }
            let ghost s0 = sizes@;
            let ghost o0 = offsets@;
            let ghost m0 = maturities@;
            offsets.push(total);
            sizes.push(nj);
            maturities.push(c[j].maturity);
            proof {
                assert forall|l: int| 0 <= l <= j implies size_sum(sizes@, l) == size_sum(s0, l) by {
                    lemma_size_sum_prefix(sizes@, s0, l);
                }
                assert forall|l: int| 0 <= l < j + 1 implies {
                    &&& (#[trigger] sizes@[l]) == c@[l].model_strikes@.len()
                    &&& sizes@[l] > 0
                    &&& offsets@[l] == size_sum(sizes@, l)
                    &&& maturities@[l] == c@[l].maturity
                } by {
                    if l < j {
                        assert(sizes@[l] == s0[l]);
                        assert(offsets@[l] == o0[l]);
                        assert(maturities@[l] == m0[l]);
                    }
                }
            }
            total = total + nj;
            j = j + 1;
        }
        proof {
            assert forall|l: int| 0 <= l < c@.len() implies (#[trigger] c@[l]).model_strikes@.len()
                > 0 by {
                assert(sizes@[l] == c@[l].model_strikes@.len());
            }
        }
        Ok(QLayout { offsets, sizes, maturities, total })
    }
}

proof fn lemma_size_sum_prefix(a: Seq<usize>, b: Seq<usize>, n: int)
    requires
        0 <= n <= b.len(),
        n <= a.len(),
        forall|l: int| 0 <= l < n ==> a[l] == b[l],
    ensures
        size_sum(a, n) == size_sum(b, n),
    decreases n,
{
    if n > 0 {
        lemma_size_sum_prefix(a, b, n - 1);
    }
}

/// Number of rows of the finite-difference block for `nj` strikes.
pub open spec fn diff_rows_spec(nj: int, order: SmoothingOrder) -> int {
    match order {
        SmoothingOrder::D1 => if nj >= 1 {
            nj - 1
        } else {
            0
        },
        SmoothingOrder::D2 => if nj >= 2 {
            nj - 2
        } else {
            0
        },
    }
}

/// Number of rows produced by the finite-difference matrix for a block of
/// size `nj`: `nj - 1` for first differences, `nj - 2` for second ones
/// (never below zero).
pub fn diff_rows(nj: usize, order: SmoothingOrder) -> (r: usize)
    ensures
        r == diff_rows_spec(nj as int, order),
{
    match order {
        SmoothingOrder::D1 => nj.saturating_sub(1),
        SmoothingOrder::D2 => nj.saturating_sub(2),
    }
}

/// Total number of finite-difference rows over the first `n` blocks.
pub open spec fn total_diff_rows(sizes: Seq<usize>, order: SmoothingOrder, n: int) -> int
    decreases n,
{
    if n <= 0 {
        0
    } else {
        total_diff_rows(sizes, order, n - 1) + diff_rows_spec(sizes[n - 1] as int, order)
    }
}

proof fn lemma_total_diff_rows_bounded(sizes: Seq<usize>, order: SmoothingOrder, n: int)
    requires
        0 <= n <= sizes.len(),
    ensures
        0 <= total_diff_rows(sizes, order, n) <= size_sum(sizes, n),
    decreases n,
{
    if n > 0 {
        lemma_total_diff_rows_bounded(sizes, order, n - 1);
    }
}

/// Total number of rows of the block-diagonal smoothing matrix; fails when
/// no block yields a row.
pub fn smoothing_rows(layout: &QLayout, order: SmoothingOrder) -> (r: SanosResult<usize>)
    requires
        layout.total == size_sum(layout.sizes@, layout.sizes@.len() as int),
    ensures
        r matches Ok(n) ==> n == total_diff_rows(
            layout.sizes@,
            order,
            layout.sizes@.len() as int,
        ) && n > 0,
        r is Err <==> total_diff_rows(layout.sizes@, order, layout.sizes@.len() as int) == 0,
        r matches Err(e) ==> (e matches SanosError::External { msg } && msg@
            == "smoothing regularization requires at least 2 strikes per maturity (D1) or 3 (D2)"@),
{
    let n = layout.sizes.len();
    let mut rows: usize = 0;
    let mut j: usize = 0;
    while j < n
        invariant
            n == layout.sizes@.len(),
            j <= n,
            layout.total == size_sum(layout.sizes@, n as int),
            rows == total_diff_rows(layout.sizes@, order, j as int),
        decreases n - j,
    {
        proof {
            lemma_total_diff_rows_bounded(layout.sizes@, order, (j + 1) as int);
            lemma_size_sum_monotone(layout.sizes@, (j + 1) as int, n as int);
        }
        rows = rows + diff_rows(layout.sizes[j], order);
        j = j + 1;
    }
    if rows == 0 {
        return Err(
            SanosError::External {
                msg: "smoothing regularization requires at least 2 strikes per maturity (D1) or 3 (D2)".to_owned(),
            },
        );
    }
    Ok(rows)
}

pub proof fn lemma_size_sum_monotone(sizes: Seq<usize>, a: int, b: int)
    requires
        0 <= a <= b <= sizes.len(),
    ensures
        size_sum(sizes, a) <= size_sum(sizes, b),
    decreases b,
{
    if a < b {
        lemma_size_sum_monotone(sizes, a, b - 1);
    }
}

} // verus!
