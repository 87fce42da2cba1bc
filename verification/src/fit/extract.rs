//! The martingale density held by a solution vector of the calibration
//! problem: block `j` of the vector gives the probabilities of the model
//! strikes of maturity `j`.
use vstd::prelude::*;
use crate::density::marginal::{construction_error, MarginalDensity};
use crate::density::martingale::MartingaleDensity;
use crate::density::tol::DensityTolerances;
use crate::error::{SanosError, SanosResult};
use crate::fit::kernels::{KernelC, KernelSet};
use crate::fit::layout::QLayout;
use crate::sorting::{has_repeated_key, is_least_repeated_key, strictly_sorted_by_key};

verus! {

/// Tolerance of the extracted marginals (fixed point).
pub const EXTRACT_TOL: i64 = 1_000_000;

/// Atoms of block `j`: model strikes with the probabilities read from `x`.
pub open spec fn slice_atoms(l: QLayout, x: Seq<i64>, k: KernelC, j: int) -> Seq<(i64, i64)> {
    Seq::new(l.sizes@[j] as nat, |i: int| (k.model_strikes@[i], x[l.offsets@[j] + i]))
}

/// Error of block `j`, if any: a size that differs from the kernel, or the
/// failed construction of its marginal.
pub open spec fn slice_error(l: QLayout, x: Seq<i64>, k: KernelC, j: int, tol: DensityTolerances) -> Option<
    SanosError,
> {
    if l.sizes@[j] != k.model_strikes@.len() {
        Some(
            SanosError::InvalidOrdering {
                msg: "q vector length must equal kernel model strikes length",
            },
        )
    } else {
        construction_error(k.maturity, slice_atoms(l, x, k, j), tol)
    }
}

/// `j` is the first block with an error.
pub open spec fn is_first_bad_slice(
    l: QLayout,
    x: Seq<i64>,
    kc: Seq<KernelC>,
    j: int,
    tol: DensityTolerances,
) -> bool {
    &&& 0 <= j < kc.len()
    &&& slice_error(l, x, kc[j], j, tol) is Some
    &&& forall|i: int| 0 <= i < j ==> (#[trigger] slice_error(l, x, kc[i], i, tol)) is None
}

/// `ms` are the marginals of the blocks.
pub open spec fn slices_of(
    ms: Seq<MarginalDensity>,
    l: QLayout,
    x: Seq<i64>,
    kc: Seq<KernelC>,
) -> bool {
    &&& ms.len() == kc.len()
    &&& forall|j: int|
        0 <= j < kc.len() ==> (#[trigger] ms[j]).maturity_spec() == kc[j].maturity
            && ms[j].atoms_spec() == slice_atoms(l, x, kc[j], j)
}

/// `r` is what `MartingaleDensity::new` gives on `ms`.
pub open spec fn martingale_outcome(r: SanosResult<MartingaleDensity>, ms: Seq<MarginalDensity>) -> bool {
    &&& ms.len() > 0 ==> (r is Ok <==> !has_repeated_key(ms))
    &&& ms.len() == 0 ==> r == Err::<MartingaleDensity, SanosError>(
        SanosError::EmptyCollection { what: "MartingaleDensity.marginals" },
    )
    &&& r matches Ok(d) ==> {
        &&& d.marginals_spec().to_multiset() == ms.to_multiset()
        &&& d.marginals_spec().len() == ms.len()
        &&& strictly_sorted_by_key(d.marginals_spec())
    }
    &&& ms.len() > 0 && r is Err ==> (r matches Err(SanosError::DuplicateKey { what, value })
        && what == "maturity" && is_least_repeated_key(ms, value as int))
}

/// The blocks fit in the layout.
pub open spec fn layout_blocks_fit(l: QLayout) -> bool {
    &&& l.offsets@.len() == l.sizes@.len()
    &&& forall|j: int|
        0 <= j < l.sizes@.len() ==> l.offsets@[j] + (#[trigger] l.sizes@[j]) <= l.total
}

proof fn lemma_first_bad_slice_unique(
    l: QLayout,
    x: Seq<i64>,
    kc: Seq<KernelC>,
    a: int,
    b: int,
    tol: DensityTolerances,
)
    requires
        is_first_bad_slice(l, x, kc, a, tol),
        is_first_bad_slice(l, x, kc, b, tol),
    ensures
        a == b,
{
    if a < b {
        assert(slice_error(l, x, kc[a], a, tol) is None);
    }
    if b < a {
        assert(slice_error(l, x, kc[b], b, tol) is None);
    }
}

/// Builds the martingale density of the solution vector `x`: one marginal
/// per maturity from block `j` of `x` and the model strikes of kernel `j`.
pub fn extract_density(layout: &QLayout, x: &[i64], kernels: &KernelSet) -> (r: SanosResult<
    MartingaleDensity,
>)
    requires
        layout_blocks_fit(*layout),
    ensures
        layout.sizes@.len() != kernels.c@.len() ==> r == Err::<MartingaleDensity, SanosError>(
            SanosError::InvalidOrdering { msg: "layout sizes must align with kernel slices" },
        ),
        layout.sizes@.len() == kernels.c@.len() && x@.len() < layout.total ==> r == Err::<
            MartingaleDensity,
            SanosError,
        >(SanosError::InvalidOrdering { msg: "solution vector too short for layout" }),
        layout.sizes@.len() == kernels.c@.len() && x@.len() >= layout.total ==> {
            let tol = DensityTolerances::spec_of(EXTRACT_TOL);
            if exists|j: int| is_first_bad_slice(*layout, x@, kernels.c@, j, tol) {
                let j = choose|j: int| is_first_bad_slice(*layout, x@, kernels.c@, j, tol);
                r == Err::<MartingaleDensity, SanosError>(
                    slice_error(*layout, x@, kernels.c@[j], j, tol)->Some_0,
                )
            } else {
                exists|ms: Seq<MarginalDensity>|
                    slices_of(ms, *layout, x@, kernels.c@) && #[trigger] martingale_outcome(r, ms)
            }
        },
{
    if layout.sizes.len() != kernels.c.len() {
        return Err(
            SanosError::InvalidOrdering { msg: "layout sizes must align with kernel slices" },
        );
    }
    if x.len() < layout.total {
        return Err(SanosError::InvalidOrdering { msg: "solution vector too short for layout" });
    }
    let tol = match DensityTolerances::from_tol(EXTRACT_TOL) {
        Ok(t) => t,
        Err(e) => {
            return Err(e);
        },
    };
    let ghost kc = kernels.c@;
    let n = kernels.c.len();
    let mut marginals: Vec<MarginalDensity> = Vec::new();
    let mut j: usize = 0;
    while j < n
        invariant
            n == kc.len(),
            kc == kernels.c@,
            n == layout.sizes@.len(),
            layout_blocks_fit(*layout),
            x@.len() >= layout.total,
            tol == DensityTolerances::spec_of(EXTRACT_TOL),
            j <= n,
            marginals@.len() == j,
            forall|i: int| 0 <= i < j ==> (#[trigger] slice_error(*layout, x@, kc[i], i, tol)) is None,
            forall|i: int|
                0 <= i < j ==> (#[trigger] marginals@[i]).maturity_spec() == kc[i].maturity
                    && marginals@[i].atoms_spec() == slice_atoms(*layout, x@, kc[i], i),
        decreases n - j,
    {
        let k = &kernels.c[j];
        let size = layout.sizes[j];
        if size != k.model_strikes.len() {
            proof {
                lemma_report_slice(*layout, x@, kc, j as int, tol);
            }
            return Err(
                SanosError::InvalidOrdering {
                    msg: "q vector length must equal kernel model strikes length",
                },
            );
        }
        let offset = layout.offsets[j];
        let mut atoms: Vec<(i64, i64)> = Vec::new();
        let mut i: usize = 0;
        while i < size
            invariant
                size == layout.sizes@[j as int],
                offset == layout.offsets@[j as int],
                offset + size <= layout.total,
                x@.len() >= layout.total,
                size == k.model_strikes@.len(),
                i <= size,
                atoms@ == slice_atoms(*layout, x@, *k, j as int).take(i as int),
            decreases size - i,
        {
            atoms.push((k.model_strikes[i], x[offset + i]));
            proof {
                assert(atoms@ =~= slice_atoms(*layout, x@, *k, j as int).take((i + 1) as int));
            }
            i = i + 1;
        }
        proof {
            assert(atoms@ =~= slice_atoms(*layout, x@, *k, j as int));
        }
        let ghost av = atoms@;
        match MarginalDensity::new(k.maturity, atoms, tol) {
            Ok(m) => {
                marginals.push(m);
            },
            Err(e) => {
                proof {
                    lemma_report_slice(*layout, x@, kc, j as int, tol);
                }
                return Err(e);
            },
        }
        j = j + 1;
    }
    proof {
        assert(!exists|b: int| is_first_bad_slice(*layout, x@, kc, b, tol));
    }
    let ghost ms = marginals@;
    let r = MartingaleDensity::new(marginals);
    proof {
        assert(slices_of(ms, *layout, x@, kc));
        assert(martingale_outcome(r, ms));
    }
    r
}

/// Block `j` is the first to fail, and it is the one the contract names.
proof fn lemma_report_slice(
    l: QLayout,
    x: Seq<i64>,
    kc: Seq<KernelC>,
    j: int,
    tol: DensityTolerances,
)
    requires
        0 <= j < kc.len(),
        slice_error(l, x, kc[j], j, tol) is Some,
        forall|i: int| 0 <= i < j ==> (#[trigger] slice_error(l, x, kc[i], i, tol)) is None,
    ensures
        exists|b: int| is_first_bad_slice(l, x, kc, b, tol),
        (choose|b: int| is_first_bad_slice(l, x, kc, b, tol)) == j,
{
    assert(is_first_bad_slice(l, x, kc, j, tol));
    let b = choose|b: int| is_first_bad_slice(l, x, kc, b, tol);
    lemma_first_bad_slice_unique(l, x, kc, j, b, tol);
}

} // verus!
