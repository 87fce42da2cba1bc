//! Location of a maturity within a grid of maturity nodes.
use vstd::prelude::*;
use crate::error::{SanosError, SanosResult};
use crate::MIN_POSITIVE;

verus! {

/// `j` is the first interval `[ms[j], ms[j + 1]]` that contains `t`.
pub open spec fn is_first_bracket(ms: Seq<i64>, t: i64, j: int) -> bool {
    &&& 0 <= j < ms.len() - 1
    &&& ms[j] <= t <= ms[j + 1]
    &&& forall|l: int| 0 <= l < j ==> !(ms[l] <= t && t <= #[trigger] ms[l + 1])
}

/// Node `i + 1` lies above node `i`.
pub open spec fn step_up(ms: Seq<i64>, i: int) -> bool {
    ms[i] < ms[i + 1]
}

/// The nodes are strictly increasing.
pub open spec fn nodes_increasing(ms: Seq<i64>) -> bool {
    forall|i: int| 0 <= i < ms.len() - 1 ==> #[trigger] step_up(ms, i)
}

/// The first failing check of `bracket_maturity`, if any.
pub open spec fn bracket_error(t: i64, ms: Seq<i64>) -> Option<SanosError> {
    if t <= 0 {
        Some(
            SanosError::InvalidBound {
                field: "maturity",
                value: t,
                min: MIN_POSITIVE,
                max: i64::MAX,
            },
        )
    } else if ms.len() < 2 {
        Some(SanosError::InvalidOrdering { msg: "need at least 2 maturities for interpolation" })
    } else if !nodes_increasing(ms) {
        Some(SanosError::InvalidOrdering { msg: "maturities must be strictly increasing" })
    } else {
        None
    }
}

/// Index `j` of the interval `[T_j, T_{j+1}]` used for maturity `t`: the first
/// interval below `T_0`, the last one above the last node, else the first
/// interval that contains `t`.
pub fn bracket_maturity(maturity: i64, maturities: &[i64]) -> (r: SanosResult<usize>)
    ensures
        bracket_error(maturity, maturities@) is Some ==> r == Err::<usize, SanosError>(
            bracket_error(maturity, maturities@)->Some_0,
        ),
        bracket_error(maturity, maturities@) is None ==> r is Ok,
        r matches Ok(j) ==> {
            &&& maturity <= maturities@[0] ==> j == 0
            &&& maturities@[0] < maturity && maturity >= maturities@.last() ==> j
                == maturities@.len() - 2
            &&& maturities@[0] < maturity < maturities@.last() ==> is_first_bracket(
                maturities@,
                maturity,
                j as int,
            )
        },
{
    if maturity <= 0 {
        return Err(
            SanosError::InvalidBound {
                field: "maturity",
                value: maturity,
                min: MIN_POSITIVE,
                max: i64::MAX,
            },
        );
    }
    let n = maturities.len();
    if n < 2 {
        return Err(
            SanosError::InvalidOrdering { msg: "need at least 2 maturities for interpolation" },
        );
    }
    let mut i: usize = 0;
    while i + 1 < n
        invariant
            n == maturities@.len(),
            n >= 2,
            maturity > 0,
            i + 1 <= n,
            forall|l: int| 0 <= l < i ==> #[trigger] step_up(maturities@, l),
        decreases n - i,
    {
        if maturities[i + 1] <= maturities[i] {
            proof {
                assert(!step_up(maturities@, i as int));
            }
            return Err(
                SanosError::InvalidOrdering { msg: "maturities must be strictly increasing" },
            );
        }
        i = i + 1;
    }
    assert(nodes_increasing(maturities@));
    if maturity <= maturities[0] {
        return Ok(0);
    }
    if maturity >= maturities[n - 1] {
        return Ok(n - 2);
    }
    let mut j: usize = 0;
    while j + 1 < n
        invariant
            n == maturities@.len(),
            n >= 2,
            maturity > 0,
            j + 1 <= n,
            maturities@[0] < maturity < maturities@[n - 1],
            nodes_increasing(maturities@),
            forall|l: int| 0 <= l < j ==> !(maturities@[l] <= maturity && maturity
                <= #[trigger] maturities@[l + 1]),
            j == 0 || maturities@[j as int] <= maturity,
        decreases n - j,
    {
        if maturities[j] <= maturity && maturity <= maturities[j + 1] {
            return Ok(j);
        }
        j = j + 1;
    }
    proof {
        assert(maturities@[n - 1] <= maturity);
    }
    Err(SanosError::InvalidOrdering { msg: "failed to bracket maturity" })
}

} // verus!
