//! Time-indexed sequence of marginal densities.
use vstd::prelude::*;
use crate::density::marginal::{
    call_transform, call_upto, pos_part, strikes_valid, tolerance_check, MarginalDensity,
    MOMENT_LIMIT,
};
use crate::density::tol::DensityTolerances;
use crate::error::{SanosError, SanosResult};
use crate::sorting::{
    first_adjacent_repeat, has_repeated_key, is_least_repeated_key, lemma_first_repeat_is_least,
    lemma_repeated_keys_transfer, lemma_same_items_no_repeat, lemma_sorted_arrangement_unique,
    lemma_strict_has_no_repeat, sort_by_key, strictly_sorted_by_key,
    SortKey,
};
use crate::UNIT;

verus! {

/// Message of the error for a violated convex order.
pub const CONVEX_ORDER_MSG: &'static str =
    "convex order violated: call-transform decreases with maturity";

/// `C_a(kappa) <= C_b(kappa) + slack` (slack in fixed-point units).
pub open spec fn dominated_at(
    a: Seq<(i64, i64)>,
    b: Seq<(i64, i64)>,
    kappa: int,
    slack: int,
) -> bool {
    call_transform(a, kappa) <= call_transform(b, kappa) + slack * UNIT
}

/// `a` is dominated by `b` at every strike of `grid`.
pub open spec fn dominated_on_grid(
    a: Seq<(i64, i64)>,
    b: Seq<(i64, i64)>,
    grid: Seq<(i64, i64)>,
    slack: int,
) -> bool {
    forall|i: int| 0 <= i < grid.len() ==> dominated_at(a, b, (#[trigger] grid[i]).0 as int, slack)
}

/// Discrete convex order between two marginals: the call transform of `a` is
/// below that of `b` (up to `slack`) on the union of their strikes.
pub open spec fn pair_convex_ordered(a: Seq<(i64, i64)>, b: Seq<(i64, i64)>, slack: int) -> bool {
    dominated_on_grid(a, b, a, slack) && dominated_on_grid(a, b, b, slack)
}

/// Every pair of adjacent marginals is in discrete convex order.
pub open spec fn convex_ordered(ms: Seq<MarginalDensity>, slack: int) -> bool {
    forall|j: int|
        0 <= j < ms.len() - 1 ==> pair_convex_ordered(
            (#[trigger] ms[j]).atoms_spec(),
            ms[j + 1].atoms_spec(),
            slack,
        )
}

/// `j` is the first marginal that fails the tolerance checks.
pub open spec fn is_first_invalid(ms: Seq<MarginalDensity>, tol: DensityTolerances, j: int) -> bool {
    &&& 0 <= j < ms.len()
    &&& tolerance_check(ms[j].atoms_spec(), tol.mass_spec() as int, tol.mean_spec() as int) is Err
    &&& forall|l: int|
        0 <= l < j ==> tolerance_check(
            (#[trigger] ms[l]).atoms_spec(),
            tol.mass_spec() as int,
            tol.mean_spec() as int,
        ) is Ok
}

/// Time-indexed sequence of marginal densities, sorted by maturity.
///
/// Convex order constraint (discrete check): for each adjacent pair
/// `(j, j+1)`, `C_j(kappa) <= C_{j+1}(kappa)` for every `kappa` in
/// `strikes_j ∪ strikes_{j+1}`, where `C_j` is the call transform of the
/// marginal at maturity `T_j`.
#[derive(Debug)]
pub struct MartingaleDensity {
    marginals: Vec<MarginalDensity>,
}

impl MartingaleDensity {
    #[verifier::type_invariant]
    spec fn inv(self) -> bool {
        self.marginals@.len() > 0 && strictly_sorted_by_key(self.marginals@)
    }

    /// The marginals, in increasing maturity.
    pub closed spec fn marginals_spec(self) -> Seq<MarginalDensity> {
        self.marginals@
    }

    /// Sorts the marginals by maturity; rejects an empty input and repeated
    /// maturities (reporting the least repeated one).
    pub fn new(marginals: Vec<MarginalDensity>) -> (r: SanosResult<Self>)
        ensures
            marginals@.len() == 0 ==> r == Err::<Self, SanosError>(
                SanosError::EmptyCollection { what: "MartingaleDensity.marginals" },
            ),
            marginals@.len() > 0 ==> (r is Ok <==> !has_repeated_key(marginals@)),
            r matches Ok(d) ==> {
                &&& d.marginals_spec().to_multiset() == marginals@.to_multiset()
                &&& d.marginals_spec().len() == marginals@.len()
                &&& strictly_sorted_by_key(d.marginals_spec())
            },
            marginals@.len() > 0 && r is Err ==> (r matches Err(
                SanosError::DuplicateKey { what, value },
            ) && what == "maturity" && is_least_repeated_key(marginals@, value as int)),
    {
        if marginals.len() == 0 {
            return Err(SanosError::EmptyCollection { what: "MartingaleDensity.marginals" });
        }
        let ghost input = marginals@;
        let sorted = sort_by_key(marginals);
        proof {
            lemma_repeated_keys_transfer(sorted@, input);
        }
        match first_adjacent_repeat(&sorted) {
            Some(i) => {
                proof {
                    lemma_first_repeat_is_least(sorted@, i as int);
                    assert(has_repeated_key(sorted@));
                }
                let value = sorted[i].maturity();
                Err(SanosError::DuplicateKey { what: "maturity", value })
            },
            None => {
                proof {
                    lemma_strict_has_no_repeat(sorted@);
                }
                Ok(MartingaleDensity { marginals: sorted })
            },
        }
    }

    /// The marginals, in increasing maturity.
    pub fn marginals(&self) -> (r: &[MarginalDensity])
        ensures
            r@ == self.marginals_spec(),
            r@.len() > 0,
            strictly_sorted_by_key(r@),
    {
        proof {
            use_type_invariant(self);
        }
        self.marginals.as_slice()
    }

    /// Checks every marginal against the tolerances, in maturity order;
    /// reports the error of the first one that fails.
    pub fn validate_marginals(&self, tol: DensityTolerances) -> (r: SanosResult<()>)
        ensures
            r is Ok <==> forall|j: int|
                0 <= j < self.marginals_spec().len() ==> tolerance_check(
                    (#[trigger] self.marginals_spec()[j]).atoms_spec(),
                    tol.mass_spec() as int,
                    tol.mean_spec() as int,
                ) is Ok,
            r matches Err(e) ==> exists|j: int|
                is_first_invalid(self.marginals_spec(), tol, j) && tolerance_check(
                    self.marginals_spec()[j].atoms_spec(),
                    tol.mass_spec() as int,
                    tol.mean_spec() as int,
                ) == Err::<(), SanosError>(e),
    {
        let n = self.marginals.len();
        let mut j: usize = 0;
        while j < n
            invariant
                n == self.marginals@.len(),
                j <= n,
                forall|l: int|
                    0 <= l < j ==> tolerance_check(
                        (#[trigger] self.marginals@[l]).atoms_spec(),
                        tol.mass_spec() as int,
                        tol.mean_spec() as int,
                    ) is Ok,
            decreases n - j,
        {
            let res = self.marginals[j].validate(tol);
            if res.is_err() {
                proof {
                    assert(is_first_invalid(self.marginals@, tol, j as int));
                }
                return res;
            }
            j = j + 1;
        }
        Ok(())
    }

    /// Checks the discrete convex order between adjacent marginals with slack
    /// `tol.order`.
    pub fn validate_convex_order(&self, tol: DensityTolerances) -> (r: SanosResult<()>)
        ensures
            r is Ok <==> convex_ordered(self.marginals_spec(), tol.order_spec() as int),
            r is Err ==> r == Err::<(), SanosError>(
                SanosError::InvalidOrdering { msg: CONVEX_ORDER_MSG },
            ),
    {
        let n = self.marginals.len();
        if n < 2 {
            return Ok(());
        }
        let order = tol.order();
        let mut j: usize = 0;
        while j < n - 1
            invariant
                n == self.marginals@.len(),
                n >= 2,
                j <= n - 1,
                order == tol.order_spec(),
                order >= 0,
                forall|l: int|
                    0 <= l < j ==> pair_convex_ordered(
                        (#[trigger] self.marginals@[l]).atoms_spec(),
                        self.marginals@[l + 1].atoms_spec(),
                        order as int,
                    ),
            decreases n - 1 - j,
        {
            let m0 = &self.marginals[j];
            let m1 = &self.marginals[j + 1];
            let ok0 = dominated_on_strikes_of(m0, m1, m0, order);
            let ok1 = dominated_on_strikes_of(m0, m1, m1, order);
            if !(ok0 && ok1) {
                return Err(SanosError::InvalidOrdering { msg: CONVEX_ORDER_MSG });
            }
            j = j + 1;
        }
        Ok(())
    }
}

/// Whether `C_a(k) <= C_b(k) + order` at every strike `k` of `grid`.
fn dominated_on_strikes_of(
    a: &MarginalDensity,
    b: &MarginalDensity,
    grid: &MarginalDensity,
    order: i64,
) -> (r: bool)
    requires
        order >= 0,
    ensures
        r <==> dominated_on_grid(a.atoms_spec(), b.atoms_spec(), grid.atoms_spec(), order as int),
{
    let strikes = grid.atoms();
    assert(0 <= (order as int) * 1_000_000_000_000 <= 0x8000_0000_0000_0000 * 1_000_000_000_000)
        by (nonlinear_arith)
        requires
            0 <= order <= 0x7fff_ffff_ffff_ffff,
    ;
    let slack = (order as i128) * (UNIT as i128);
    let n = strikes.len();
    let mut i: usize = 0;
    while i < n
        invariant
            n == strikes@.len(),
            strikes@ == grid.atoms_spec(),
            crate::density::marginal::marginal_wf(grid.maturity_spec(), grid.atoms_spec()),
            i <= n,
            order >= 0,
            slack == order * UNIT,
            forall|l: int|
                0 <= l < i ==> dominated_at(
                    a.atoms_spec(),
                    b.atoms_spec(),
                    (#[trigger] strikes@[l]).0 as int,
                    order as int,
                ),
        decreases n - i,
    {
        let kappa = strikes[i].0;
        let c0 = a.call(kappa).unwrap();
        let c1 = b.call(kappa).unwrap();
        assert(c1 + slack <= MOMENT_LIMIT + 0x8000_0000_0000_0000 * UNIT);
        if c0 > c1 + slack {
            return false;
        }
        i = i + 1;
    }
    true
}

/// Index splitting the strikes of `atoms` into those at or below `kappa` and
/// those above it.
proof fn lemma_split_index(atoms: Seq<(i64, i64)>, kappa: int) -> (i: int)
    requires
        strikes_valid(atoms),
    ensures
        0 <= i <= atoms.len(),
        forall|l: int| 0 <= l < i ==> (#[trigger] atoms[l]).0 <= kappa,
        forall|l: int| i <= l < atoms.len() ==> (#[trigger] atoms[l]).0 > kappa,
    decreases atoms.len(),
{
    if atoms.len() == 0 {
        0
    } else {
        let t = atoms.drop_last();
        assert(strikes_valid(t)) by {
            assert forall|l: int| 0 <= l < t.len() implies (#[trigger] t[l]).0 > 0 by {
                assert(t[l] == atoms[l]);
            }
            assert forall|x: int, y: int| 0 <= x < y < t.len() implies t[x].0 < t[y].0 by {
                assert(t[x] == atoms[x] && t[y] == atoms[y]);
            }
        }
        let j = lemma_split_index(t, kappa);
        assert forall|l: int| 0 <= l < t.len() implies #[trigger] atoms[l] == t[l] by {}
        if j == t.len() && atoms[atoms.len() - 1].0 <= kappa {
            atoms.len() as int
        } else {
            if j < t.len() {
                assert(atoms[j].0 > kappa);
                assert forall|l: int| j <= l < atoms.len() implies (#[trigger] atoms[l]).0
                    > kappa by {
                    if l > j {
                        assert(atoms[j].0 < atoms[l].0);
                    }
                }
            }
            j
        }
    }
}

/// The call transform vanishes at a strike above every atom.
proof fn lemma_call_zero_above(atoms: Seq<(i64, i64)>, kappa: int, n: int)
    requires
        0 <= n <= atoms.len(),
        forall|l: int| 0 <= l < n ==> (#[trigger] atoms[l]).0 <= kappa,
    ensures
        call_upto(atoms, kappa, n) == 0,
    decreases n,
{
    if n > 0 {
        lemma_call_zero_above(atoms, kappa, n - 1);
        assert(atoms[n - 1].0 <= kappa);
        assert(pos_part(atoms[n - 1].0 - kappa) == 0);
    }
}

/// Between two strikes with no atom strictly in between, the call transform
/// is affine in the strike.
proof fn lemma_call_affine_between(atoms: Seq<(i64, i64)>, lo: int, hi: int, kappa: int, n: int)
    requires
        0 <= n <= atoms.len(),
        lo <= kappa <= hi,
        forall|l: int| 0 <= l < atoms.len() ==> !(lo < (#[trigger] atoms[l]).0 < hi),
    ensures
        call_upto(atoms, kappa, n) * (hi - lo) == call_upto(atoms, lo, n) * (hi - kappa)
            + call_upto(atoms, hi, n) * (kappa - lo),
    decreases n,
{
    if n > 0 {
        lemma_call_affine_between(atoms, lo, hi, kappa, n - 1);
        let q = atoms[n - 1].1 as int;
        let k = atoms[n - 1].0 as int;
        assert(!(lo < k < hi));
        let tk = q * pos_part(k - kappa);
        let tl = q * pos_part(k - lo);
        let th = q * pos_part(k - hi);
        if k <= lo {
            assert(pos_part(k - kappa) == 0 && pos_part(k - lo) == 0 && pos_part(k - hi) == 0);
            assert(tk == 0 && tl == 0 && th == 0) by (nonlinear_arith)
                requires
                    tk == q * 0,
                    tl == q * 0,
                    th == q * 0,
            ;
        } else {
            assert(k >= hi);
            assert(pos_part(k - kappa) == k - kappa);
            assert(pos_part(k - lo) == k - lo);
            assert(pos_part(k - hi) == k - hi);
            assert(tk * (hi - lo) == tl * (hi - kappa) + th * (kappa - lo)) by (nonlinear_arith)
                requires
                    tk == q * (k - kappa),
                    tl == q * (k - lo),
                    th == q * (k - hi),
            ;
        }
        let ck = call_upto(atoms, kappa, n - 1);
        let cl = call_upto(atoms, lo, n - 1);
        let ch = call_upto(atoms, hi, n - 1);
        assert((ck + tk) * (hi - lo) == (cl + tl) * (hi - kappa) + (ch + th) * (kappa - lo))
            by (nonlinear_arith)
            requires
                ck * (hi - lo) == cl * (hi - kappa) + ch * (kappa - lo),
                tk * (hi - lo) == tl * (hi - kappa) + th * (kappa - lo),
        ;
    }
}

/// Law: the discrete convex-order check on the union of the strikes of two
/// marginals certifies `C_a(kappa) <= C_b(kappa) + slack` at every strike
/// `kappa` from the smallest grid strike on, not only on the grid.
pub proof fn lemma_grid_order_extends(
    a: Seq<(i64, i64)>,
    b: Seq<(i64, i64)>,
    slack: int,
    kappa: int,
)
    requires
        strikes_valid(a),
        strikes_valid(b),
        slack >= 0,
        pair_convex_ordered(a, b, slack),
        (a.len() > 0 && a[0].0 <= kappa) || (b.len() > 0 && b[0].0 <= kappa),
    ensures
        dominated_at(a, b, kappa, slack),
{
    let ia = lemma_split_index(a, kappa);
    let ib = lemma_split_index(b, kappa);
    let s = slack * UNIT;
    assert(s >= 0);
    if ia == a.len() && ib == b.len() {
        lemma_call_zero_above(a, kappa, a.len() as int);
        lemma_call_zero_above(b, kappa, b.len() as int);
    } else {
        // greatest grid strike at or below kappa
        let lo: int = if ia > 0 && (ib == 0 || a[ia - 1].0 >= b[ib - 1].0) {
            a[ia - 1].0 as int
        } else {
            b[ib - 1].0 as int
        };
        // least grid strike above kappa
        let hi: int = if ia < a.len() && (ib == b.len() || a[ia].0 <= b[ib].0) {
            a[ia].0 as int
        } else {
            b[ib].0 as int
        };
        assert(ia > 0 || ib > 0) by {
            if a.len() > 0 && a[0].0 <= kappa {
                assert(ia > 0);
            } else {
                assert(b[0].0 <= kappa);
                assert(ib > 0);
            }
        }
        assert(lo <= kappa < hi);
        assert forall|l: int| 0 <= l < a.len() implies !(lo < (#[trigger] a[l]).0 < hi) by {
            if l < ia {
                if l < ia - 1 {
                    assert(a[l].0 < a[ia - 1].0);
                }
            } else {
                if l > ia {
                    assert(a[ia].0 < a[l].0);
                }
            }
        }
        assert forall|l: int| 0 <= l < b.len() implies !(lo < (#[trigger] b[l]).0 < hi) by {
            if l < ib {
                if l < ib - 1 {
                    assert(b[l].0 < b[ib - 1].0);
                }
            } else {
                if l > ib {
                    assert(b[ib].0 < b[l].0);
                }
            }
        }
        assert(dominated_at(a, b, lo, slack)) by {
            if ia > 0 && (ib == 0 || a[ia - 1].0 >= b[ib - 1].0) {
                assert(dominated_at(a, b, a[ia - 1].0 as int, slack));
            } else {
                assert(dominated_at(a, b, b[ib - 1].0 as int, slack));
            }
        }
        assert(dominated_at(a, b, hi, slack)) by {
            if ia < a.len() && (ib == b.len() || a[ia].0 <= b[ib].0) {
                assert(dominated_at(a, b, a[ia].0 as int, slack));
            } else {
                assert(dominated_at(a, b, b[ib].0 as int, slack));
            }
        }
        lemma_call_affine_between(a, lo, hi, kappa, a.len() as int);
        lemma_call_affine_between(b, lo, hi, kappa, b.len() as int);
        let ak = call_transform(a, kappa);
        let al = call_transform(a, lo);
        let ah = call_transform(a, hi);
        let bk = call_transform(b, kappa);
        let bl = call_transform(b, lo);
        let bh = call_transform(b, hi);
        assert(ak <= bk + s) by (nonlinear_arith)
            requires
                ak * (hi - lo) == al * (hi - kappa) + ah * (kappa - lo),
                bk * (hi - lo) == bl * (hi - kappa) + bh * (kappa - lo),
                al <= bl + s,
                ah <= bh + s,
                lo <= kappa < hi,
        ;
    }
}

/// Law: a sequence of marginals that passes the discrete convex-order check
/// has, for every adjacent pair, call transforms ordered in maturity at every
/// strike from the smallest strike of the pair on.
pub proof fn lemma_convex_order_everywhere(ms: Seq<MarginalDensity>, slack: int, j: int, kappa: int)
    requires
        convex_ordered(ms, slack),
        slack >= 0,
        0 <= j < ms.len() - 1,
        strikes_valid(ms[j].atoms_spec()),
        strikes_valid(ms[j + 1].atoms_spec()),
        (ms[j].atoms_spec().len() > 0 && ms[j].atoms_spec()[0].0 <= kappa) || (ms[j
            + 1].atoms_spec().len() > 0 && ms[j + 1].atoms_spec()[0].0 <= kappa),
    ensures
        call_transform(ms[j].atoms_spec(), kappa) <= call_transform(ms[j + 1].atoms_spec(), kappa)
            + slack * UNIT,
{
    assert(pair_convex_ordered(ms[j].atoms_spec(), ms[j + 1].atoms_spec(), slack));
    lemma_grid_order_extends(ms[j].atoms_spec(), ms[j + 1].atoms_spec(), slack, kappa);
}

impl Clone for MartingaleDensity {
    fn clone(&self) -> (r: Self)
        ensures
            r.marginals_spec().len() == self.marginals_spec().len(),
            forall|j: int|
                0 <= j < self.marginals_spec().len() ==> (#[trigger] r.marginals_spec()[j]).maturity_spec()
                    == self.marginals_spec()[j].maturity_spec() && r.marginals_spec()[j].atoms_spec()
                    == self.marginals_spec()[j].atoms_spec(),
    {
        proof {
            use_type_invariant(self);
        }
        let n = self.marginals.len();
        let mut out: Vec<MarginalDensity> = Vec::new();
        let mut i: usize = 0;
        while i < n
            invariant
                n == self.marginals@.len(),
                i <= n,
                out@.len() == i,
                forall|j: int|
                    0 <= j < i ==> (#[trigger] out@[j]).maturity_spec()
                        == self.marginals@[j].maturity_spec() && out@[j].atoms_spec()
                        == self.marginals@[j].atoms_spec(),
            decreases n - i,
        {
            out.push(self.marginals[i].clone());
            i = i + 1;
        }
        proof {
            assert forall|a: int, b: int| 0 <= a < b < out@.len() implies out@[a].key_spec()
                < out@[b].key_spec() by {
                assert(self.marginals@[a].key_spec() < self.marginals@[b].key_spec());
            }
        }
        MartingaleDensity { marginals: out }
    }
}


/// Rebuilding a martingale density from its marginals, in any order (their
/// own order included), succeeds and gives back the same marginals in the
/// same order. A sequence `w` holding the marginals `a` of a density (which
/// are strictly sorted by maturity) is not empty and repeats no maturity, so
/// `MartingaleDensity::new(w)` succeeds; its result `b`, a strictly sorted
/// arrangement of `w`, is `a` itself.
pub proof fn lemma_rebuild_gives_same_marginals(
    a: Seq<MarginalDensity>,
    w: Seq<MarginalDensity>,
    b: Seq<MarginalDensity>,
)
    requires
        a.len() > 0,
        strictly_sorted_by_key(a),
        w.to_multiset() == a.to_multiset(),
        strictly_sorted_by_key(b),
        b.to_multiset() == w.to_multiset(),
    ensures
        w.len() > 0,
        !has_repeated_key(w),
        b == a,
{
    lemma_same_items_no_repeat(a, w);
    lemma_sorted_arrangement_unique(a, b);
}

} // verus!
