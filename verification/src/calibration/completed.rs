//! Completed strike grids and the martingale density read from completed
//! backbone call slices (Remark 2.8), used to warm-start a calibration.
use vstd::prelude::*;
use crate::density::marginal::construction_error;
use crate::density::martingale::{convex_ordered, is_first_invalid, CONVEX_ORDER_MSG};
use crate::density::{DensityTolerances, MarginalDensity, MartingaleDensity};
use crate::error::{SanosError, SanosResult};
use crate::market::completion::CompletionConfig;
use crate::market::slice_completion::{complete_slice_remark_2_8, completion_outcome, CompletionModel};
use crate::sorting::{has_repeated_key, is_least_repeated_key, is_repeated_key, strictly_sorted_by_key, SortKey};

verus! {

broadcast use vstd::seq_lib::group_to_multiset_ensures;

/// Atoms `(K_i, p_i)` of a completed slice: its strikes after `K0 = 0`, with
/// the node density.
pub open spec fn slice_atoms(m: CompletionModel) -> Seq<(i64, i64)> {
    Seq::new((m.k.len() - 1) as nat, |i: int| (m.k[i + 1], m.density[i] as i64))
}

/// Why a slice could not be turned into a marginal.
pub enum SliceFailure {
    /// The completion failed with this message.
    Completion(Seq<char>),
    /// The marginal built from the completed slice was refused.
    Marginal(SanosError),
}

/// The completed slice of `(strikes, calls)` under `cfg`, when the
/// completion succeeds.
#[verifier::opaque]
pub open spec fn completed_model(strikes: Seq<i64>, calls: Seq<i64>, cfg: CompletionConfig) -> CompletionModel {
    completion_outcome(strikes, calls, cfg)->Ok_0
}

/// The failure (if any) of completing the slice `(strikes, calls)` at
/// `maturity` and building its marginal with tolerances `tol`.
#[verifier::opaque]
pub open spec fn slice_failure(
    maturity: i64,
    strikes: Seq<i64>,
    calls: Seq<i64>,
    cfg: CompletionConfig,
    tol: DensityTolerances,
) -> Option<SliceFailure> {
    match completion_outcome(strikes, calls, cfg) {
        Err(m) => Some(SliceFailure::Completion(m)),
        Ok(model) => match construction_error(maturity, slice_atoms(model), tol) {
            Some(e) => Some(SliceFailure::Marginal(e)),
            None => None,
        },
    }
}

/// `e` is the error that reports `f`.
pub open spec fn reports(e: SanosError, f: SliceFailure) -> bool {
    match f {
        SliceFailure::Completion(m) => e matches SanosError::External { msg } && msg@ == m,
        SliceFailure::Marginal(x) => e == x,
    }
}

/// The failure of the first of the first `n` grids whose slice fails.
pub open spec fn grids_failure(
    grids: Seq<(i64, Vec<i64>)>,
    calls: Seq<Vec<i64>>,
    cfg: CompletionConfig,
    tol: DensityTolerances,
    n: int,
) -> Option<SliceFailure>
    decreases n,
{
    if n <= 0 {
        None
    } else {
        match grids_failure(grids, calls, cfg, tol, n - 1) {
            Some(f) => Some(f),
            None => slice_failure(grids[n - 1].0, grids[n - 1].1@, calls[n - 1]@, cfg, tol),
        }
    }
}

/// Maturities of the grids.
pub open spec fn grid_maturities(grids: Seq<(i64, Vec<i64>)>) -> Seq<i64> {
    grids.map_values(|g: (i64, Vec<i64>)| g.0)
}

/// The tolerance used for the completed marginals: `feasibility_tol`, at
/// least one unit.
pub open spec fn completion_tolerance(feasibility_tol: i64) -> i64 {
    if feasibility_tol < 1 {
        1
    } else {
        feasibility_tol
    }
}

proof fn lemma_grids_failure_sticky(
    grids: Seq<(i64, Vec<i64>)>,
    calls: Seq<Vec<i64>>,
    cfg: CompletionConfig,
    tol: DensityTolerances,
    m: int,
    n: int,
)
    requires
        0 <= m <= n,
        grids_failure(grids, calls, cfg, tol, m) is Some,
    ensures
        grids_failure(grids, calls, cfg, tol, n) == grids_failure(grids, calls, cfg, tol, m),
    decreases n - m,
{
    if m < n {
        lemma_grids_failure_sticky(grids, calls, cfg, tol, m, n - 1);
    }
}

proof fn lemma_grids_ok(
    grids: Seq<(i64, Vec<i64>)>,
    calls: Seq<Vec<i64>>,
    cfg: CompletionConfig,
    tol: DensityTolerances,
    n: int,
    j: int,
)
    requires
        0 <= j < n,
        grids_failure(grids, calls, cfg, tol, n) is None,
    ensures
        slice_failure(grids[j].0, grids[j].1@, calls[j]@, cfg, tol) is None,
    decreases n,
{
    if j < n - 1 {
        lemma_grids_ok(grids, calls, cfg, tol, n - 1, j);
    }
}

/// Completes one slice and builds its marginal: the model grid (the
/// completed strikes after `K0 = 0`) and the marginal at `maturity`.
fn completed_marginal(
    maturity: i64,
    strikes: &[i64],
    calls: &[i64],
    cfg: &CompletionConfig,
    tol: DensityTolerances,
) -> (r: SanosResult<(Vec<i64>, MarginalDensity)>)
    ensures
        r is Ok <==> slice_failure(maturity, strikes@, calls@, *cfg, tol) is None,
        r matches Err(e) ==> reports(e, slice_failure(maturity, strikes@, calls@, *cfg, tol)->0),
        r matches Ok(v) ==> {
            &&& v.0@ == completed_model(strikes@, calls@, *cfg).k.drop_first()
            &&& v.1.maturity_spec() == maturity
            &&& v.1.atoms_spec() == slice_atoms(completed_model(strikes@, calls@, *cfg))
            &&& construction_error(maturity, v.1.atoms_spec(), tol) is None
        },
{
    proof {
        reveal(slice_failure);
        reveal(completed_model);
    }
    let slice = match complete_slice_remark_2_8(strikes, calls, cfg) {
        Err(e) => {
            return Err(e);
        },
        Ok(s) => s,
    };
    let ghost model = slice@;
    let n = slice.density.len();
    let mut grid: Vec<i64> = Vec::new();
    let mut atoms: Vec<(i64, i64)> = Vec::new();
    let mut i: usize = 0;
    while i < n
        invariant
            n == slice.density@.len(),
            slice.k@.len() == n + 1,
            model == slice@,
            forall|j: int| 0 <= j < n ==> 0 <= #[trigger] slice.density@[j] <= crate::UNIT,
            i <= n,
            grid@ == model.k.drop_first().take(i as int),
            atoms@ == slice_atoms(model).take(i as int),
        decreases n - i,
    {
        let k = slice.k[i + 1];
        let p = slice.density[i] as i64;
        grid.push(k);
        atoms.push((k, p));
        assert(grid@ =~= model.k.drop_first().take(i + 1));
        assert(atoms@ =~= slice_atoms(model).take(i + 1));
        i = i + 1;
    }
    assert(grid@ =~= model.k.drop_first());
    assert(atoms@ =~= slice_atoms(model));
    match MarginalDensity::new(maturity, atoms, tol) {
        Err(e) => Err(e),
        Ok(d) => Ok((grid, d)),
    }
}

proof fn lemma_repeated_keys_match(ms: Seq<MarginalDensity>, mats: Seq<i64>)
    requires
        ms.len() == mats.len(),
        forall|j: int| 0 <= j < ms.len() ==> #[trigger] ms[j].maturity_spec() == mats[j],
    ensures
        forall|x: int| is_repeated_key(ms, x) <==> is_repeated_key(mats, x),
        has_repeated_key(ms) <==> has_repeated_key(mats),
{
    assert forall|x: int| is_repeated_key(ms, x) <==> is_repeated_key(mats, x) by {
        if is_repeated_key(ms, x) {
            let (i, j) = choose|i: int, j: int|
                0 <= i < j < ms.len() && #[trigger] ms[i].key_spec() == x && #[trigger] ms[j].key_spec()
                    == x;
            assert(ms[i].maturity_spec() == mats[i] && ms[j].maturity_spec() == mats[j]);
            assert(mats[i].key_spec() == x && mats[j].key_spec() == x);
        }
        if is_repeated_key(mats, x) {
            let (i, j) = choose|i: int, j: int|
                0 <= i < j < mats.len() && #[trigger] mats[i].key_spec() == x
                    && #[trigger] mats[j].key_spec() == x;
            assert(ms[i].maturity_spec() == mats[i] && ms[j].maturity_spec() == mats[j]);
            assert(ms[i].key_spec() == x && ms[j].key_spec() == x);
        }
    }
    if has_repeated_key(ms) {
        let x = choose|x: int| is_repeated_key(ms, x);
        assert(is_repeated_key(mats, x));
    }
    if has_repeated_key(mats) {
        let x = choose|x: int| is_repeated_key(mats, x);
        assert(is_repeated_key(ms, x));
    }
}

/// Completes every grid's backbone call slice (`calls[j]` holds the backbone
/// calls at the strikes of `grids[j]`) and builds the martingale density of
/// the completed slices, with tolerance [`completion_tolerance`]: the first
/// slice that fails is reported; then an empty input, a repeated maturity
/// (the least one) or a convex-order violation is reported. On success the
/// completed grids keep the input order and the density holds one marginal
/// per grid, by increasing maturity, with the atoms of its completed slice.
pub fn build_completed_grids_and_density(
    grids: &[(i64, Vec<i64>)],
    calls: &[Vec<i64>],
    completion_cfg: &CompletionConfig,
    feasibility_tol: i64,
) -> (r: SanosResult<(Vec<(i64, Vec<i64>)>, MartingaleDensity)>)
    requires
        calls@.len() == grids@.len(),
    ensures
        ({
            let tol = DensityTolerances::spec_of(completion_tolerance(feasibility_tol));
            let f = grids_failure(grids@, calls@, *completion_cfg, tol, grids@.len() as int);
            &&& f is Some ==> (r matches Err(e) && reports(e, f->0))
            &&& f is None && grids@.len() == 0 ==> r == Err::<
                (Vec<(i64, Vec<i64>)>, MartingaleDensity),
                SanosError,
            >(SanosError::EmptyCollection { what: "MartingaleDensity.marginals" })
            &&& f is None && grids@.len() > 0 && has_repeated_key(grid_maturities(grids@)) ==> (
            r matches Err(SanosError::DuplicateKey { what, value }) && what == "maturity"
                && is_least_repeated_key(grid_maturities(grids@), value as int))
            &&& f is None && grids@.len() > 0 && !has_repeated_key(grid_maturities(grids@))
                && r is Err ==> r == Err::<(Vec<(i64, Vec<i64>)>, MartingaleDensity), SanosError>(
                SanosError::InvalidOrdering { msg: CONVEX_ORDER_MSG },
            )
            &&& r matches Ok(v) ==> {
                &&& f is None
                &&& !has_repeated_key(grid_maturities(grids@))
                &&& v.0@.len() == grids@.len()
                &&& forall|j: int|
                    0 <= j < grids@.len() ==> (#[trigger] v.0@[j]).0 == grids@[j].0 && v.0@[j].1@
                        == completed_model(grids@[j].1@, calls@[j]@, *completion_cfg).k.drop_first()
                &&& v.1.marginals_spec().len() == grids@.len()
                &&& strictly_sorted_by_key(v.1.marginals_spec())
                &&& forall|j: int|
                    #![trigger grids@[j]]
                    0 <= j < grids@.len() ==> exists|i: int|
                        0 <= i < grids@.len() && (#[trigger] v.1.marginals_spec()[i]).maturity_spec()
                            == grids@[j].0 && v.1.marginals_spec()[i].atoms_spec() == slice_atoms(
                            completed_model(grids@[j].1@, calls@[j]@, *completion_cfg),
                        )
                &&& convex_ordered(v.1.marginals_spec(), tol.order_spec() as int)
            }
        }),
{
    let t: i64 = if feasibility_tol < 1 {
        1
    } else {
        feasibility_tol
    };
    let tol = match DensityTolerances::from_tol(t) {
        Ok(x) => x,
        Err(e) => {
            return Err(e);
        },
    };
    let ghost g = grids@;
    let ghost cv = calls@;
    let n = grids.len();
    let mut out_grids: Vec<(i64, Vec<i64>)> = Vec::new();
    let mut marginals: Vec<MarginalDensity> = Vec::new();
    let mut j: usize = 0;
    while j < n
        invariant
            n == g.len(),
            n == cv.len(),
            g == grids@,
            cv == calls@,
            tol == DensityTolerances::spec_of(completion_tolerance(feasibility_tol)),
            j <= n,
            grids_failure(g, cv, *completion_cfg, tol, j as int) is None,
            out_grids@.len() == j,
            marginals@.len() == j,
            forall|l: int|
                0 <= l < j ==> (#[trigger] out_grids@[l]).0 == g[l].0 && out_grids@[l].1@
                    == completed_model(g[l].1@, cv[l]@, *completion_cfg).k.drop_first(),
            forall|l: int|
                0 <= l < j ==> (#[trigger] marginals@[l]).maturity_spec() == g[l].0
                    && marginals@[l].atoms_spec() == slice_atoms(
                    completed_model(g[l].1@, cv[l]@, *completion_cfg),
                ) && construction_error(g[l].0, marginals@[l].atoms_spec(), tol) is None,
        decreases n - j,
    {
        let maturity = grids[j].0;
        match completed_marginal(maturity, grids[j].1.as_slice(), calls[j].as_slice(), completion_cfg, tol) {
            Err(e) => {
                proof {
                    lemma_grids_failure_sticky(g, cv, *completion_cfg, tol, j + 1, n as int);
                }
                return Err(e);
            },
            Ok((grid, d)) => {
                out_grids.push((maturity, grid));
                marginals.push(d);
            },
        }
        j = j + 1;
    }
    proof {
        lemma_repeated_keys_match(marginals@, grid_maturities(g));
    }
    let ghost ms = marginals@;
    let density = match MartingaleDensity::new(marginals) {
        Err(e) => {
            return Err(e);
        },
        Ok(d) => d,
    };
    let ghost dm = density.marginals_spec();
    proof {
        assert forall|i: int| 0 <= i < dm.len() implies ms.contains(#[trigger] dm[i]) by {
            assert(dm.to_multiset().count(dm[i]) > 0);
        }
        assert forall|j: int| 0 <= j < ms.len() implies dm.contains(#[trigger] ms[j]) by {
            assert(ms.to_multiset().count(ms[j]) > 0);
        }
    }
    match density.validate_marginals(tol) {
        Err(e) => {
            proof {
                let i = choose|i: int| is_first_invalid(dm, tol, i);
                assert(ms.contains(dm[i]));
                let l = choose|l: int| 0 <= l < ms.len() && ms[l] == dm[i];
                assert(construction_error(g[l].0, ms[l].atoms_spec(), tol) is None);
            }
            return Err(e);
        },
        Ok(()) => {},
    }
    match density.validate_convex_order(tol) {
        Err(e) => {
            return Err(e);
        },
        Ok(()) => {},
    }
    proof {
        assert forall|jj: int| #![trigger g[jj]] 0 <= jj < g.len() implies exists|i: int|
            0 <= i < g.len() && (#[trigger] dm[i]).maturity_spec() == g[jj].0
                && dm[i].atoms_spec() == slice_atoms(
                completed_model(g[jj].1@, cv[jj]@, *completion_cfg),
            ) by {
            assert(dm.contains(ms[jj]));
            let i = choose|i: int| 0 <= i < dm.len() && dm[i] == ms[jj];
            assert(dm[i].maturity_spec() == g[jj].0);
        }
    }
    Ok((out_grids, density))
}

} // verus!
