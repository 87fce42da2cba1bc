//! Kernel matrices of the calibration problem.
use vstd::prelude::*;
use crate::error::{outcome, SanosError, SanosResult};

verus! {

/// Dense matrix in row-major layout (fixed-point entries).
#[derive(Debug, Clone, PartialEq, Eq)]
pub struct DenseMat {
    pub nrows: usize,
    pub ncols: usize,
    pub data: Vec<i64>,
}

/// `m` is a non-empty matrix whose data holds exactly `nrows * ncols` entries.
pub open spec fn dense_wf(m: DenseMat) -> bool {
    m.nrows > 0 && m.ncols > 0 && m.data@.len() == m.nrows * m.ncols
}

/// Entry `(r, c)` of `m`.
pub open spec fn entry(m: DenseMat, r: int, c: int) -> i64 {
    m.data@[r * m.ncols + c]
}

/// Row-major index of `(r, c)` lies inside the data.
pub proof fn lemma_index_in_bounds(nrows: int, ncols: int, r: int, c: int)
    requires
        0 <= r < nrows,
        0 <= c < ncols,
    ensures
        0 <= r * ncols + c < nrows * ncols,
{
    assert(r * ncols + c < nrows * ncols) by (nonlinear_arith)
        requires
            0 <= r < nrows,
            0 <= c < ncols,
    ;
    assert(0 <= r * ncols) by (nonlinear_arith)
        requires
            0 <= r,
            0 <= ncols,
    ;
}

impl DenseMat {
    /// Builds a matrix; both dimensions must be positive and the data must
    /// hold `nrows * ncols` entries.
    pub fn new(nrows: usize, ncols: usize, data: Vec<i64>) -> (r: SanosResult<Self>)
        ensures
            nrows == 0 || ncols == 0 ==> r == Err::<Self, SanosError>(
                SanosError::InvalidOrdering { msg: "DenseMat dims must be > 0" },
            ),
            nrows > 0 && ncols > 0 && data@.len() != nrows * ncols ==> r == Err::<
                Self,
                SanosError,
            >(SanosError::InvalidOrdering { msg: "DenseMat data length mismatch" }),
            r is Ok <==> nrows > 0 && ncols > 0 && data@.len() == nrows * ncols,
            r matches Ok(m) ==> m.nrows == nrows && m.ncols == ncols && m.data@ == data@,
    {
        if nrows == 0 || ncols == 0 {
            return Err(SanosError::InvalidOrdering { msg: "DenseMat dims must be > 0" });
        }
        let len = data.len();
        if len % ncols != 0 || len / ncols != nrows {
            proof {
                let l = len as int;
                let c = ncols as int;
                let rr = nrows as int;
                if l == rr * c {
                    assert(l % c == 0 && l / c == rr) by (nonlinear_arith)
                        requires
                            l == rr * c,
                            c > 0,
                    ;
                }
            }
            return Err(SanosError::InvalidOrdering { msg: "DenseMat data length mismatch" });
        }
        proof {
            let l = len as int;
            let c = ncols as int;
            let rr = nrows as int;
            assert(l == rr * c) by (nonlinear_arith)
                requires
                    l % c == 0,
                    l / c == rr,
                    c > 0,
            ;
        }
        Ok(DenseMat { nrows, ncols, data })
    }

    /// Row-major index `r * ncols + c`.
    pub fn idx(&self, r: usize, c: usize) -> (i: usize)
        requires
            dense_wf(*self),
            r < self.nrows,
            c < self.ncols,
        ensures
            i == r * self.ncols + c,
            i < self.data@.len(),
    {
        let len = self.data.len();
        proof {
            lemma_index_in_bounds(self.nrows as int, self.ncols as int, r as int, c as int);
            assert(r * self.ncols <= r * self.ncols + c);
        }
        r * self.ncols + c
    }

    /// Entry at row `r`, column `c`.
    pub fn get(&self, r: usize, c: usize) -> (v: i64)
        requires
            dense_wf(*self),
            r < self.nrows,
            c < self.ncols,
        ensures
            v == entry(*self, r as int, c as int),
    {
        self.data[self.idx(r, c)]
    }
}

/// Kernel matrix for one expiry:
/// `C_j[market strike index, model strike index] = kernel price`.
#[derive(Debug, Clone, PartialEq, Eq)]
pub struct KernelC {
    pub maturity: i64,
    pub market_strikes: Vec<i64>,
    pub model_strikes: Vec<i64>,
    pub c: DenseMat,
}

/// Transition kernels between maturities `j - 1` and `j`: `u` is
/// `N_j x N_j`, `r` is `N_j x N_{j-1}`, with an optional second block (used
/// when both constraint kinds are enforced).
#[derive(Debug, Clone, PartialEq, Eq)]
pub struct KernelTransition {
    pub maturity: i64,
    pub u: DenseMat,
    pub r: DenseMat,
    pub u_alt: Option<DenseMat>,
    pub r_alt: Option<DenseMat>,
}

/// All kernels: one `KernelC` per maturity and one transition per adjacent
/// pair of maturities.
#[derive(Debug, Clone, PartialEq, Eq)]
pub struct KernelSet {
    pub c: Vec<KernelC>,
    pub transitions: Vec<KernelTransition>,
}

/// The first failing structural check of a kernel set, if any.
pub open spec fn kernel_set_error(k: KernelSet) -> Option<SanosError> {
    if k.c@.len() == 0 {
        Some(SanosError::EmptyCollection { what: "KernelSet.c" })
    } else if k.transitions@.len() + 1 != k.c@.len() {
        Some(
            SanosError::InvalidOrdering { msg: "KernelSet.transitions must have len = c.len()-1" },
        )
    } else {
        None
    }
}

impl KernelSet {
    /// At least one maturity, and one transition fewer than maturities.
    pub fn validate(&self) -> (r: SanosResult<()>)
        ensures
            r == outcome(kernel_set_error(*self)),
    {
        if self.c.len() == 0 {
            return Err(SanosError::EmptyCollection { what: "KernelSet.c" });
        }
        if self.transitions.len() != self.c.len() - 1 {
            return Err(
                SanosError::InvalidOrdering {
                    msg: "KernelSet.transitions must have len = c.len()-1",
                },
            );
        }
        Ok(())
    }
}

} // verus!
