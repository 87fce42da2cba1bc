//! Discrete marginal density at one maturity.
use vstd::prelude::*;
use crate::density::tol::DensityTolerances;
use crate::error::{SanosError, SanosResult};
use crate::sorting::SortKey;
use crate::{MIN_POSITIVE, UNIT};

verus! {

/// Bound on the absolute first moment of a marginal, in squared fixed-point
/// units (2^125). Within it every sum the library forms fits in `i128`.
pub const MOMENT_LIMIT: i128 = 42535295865117307932921825928971026432;

/// Message of the error for atoms whose strikes do not increase.
pub const STRIKE_ORDER_MSG: &'static str = "atom strikes must be strictly increasing";

/// Message of the error for a total mass away from one.
pub const MASS_MSG: &'static str = "marginal mass must equal 1 within tolerance";

/// Message of the error for a mean away from one.
pub const MEAN_MSG: &'static str = "marginal mean must equal 1 within tolerance";

/// `max(x, 0)`.
pub open spec fn pos_part(x: int) -> int {
    if x > 0 {
        x
    } else {
        0
    }
}

/// `|x|`.
pub open spec fn abs_int(x: int) -> int {
    if x >= 0 {
        x
    } else {
        -x
    }
}

/// Total mass of the first `n` atoms (units).
pub open spec fn mass_upto(atoms: Seq<(i64, i64)>, n: int) -> int
    decreases n,
{
    if n <= 0 {
        0
    } else {
        mass_upto(atoms, n - 1) + atoms[n - 1].1
    }
}

/// First moment of the first `n` atoms (squared units).
pub open spec fn moment_upto(atoms: Seq<(i64, i64)>, n: int) -> int
    decreases n,
{
    if n <= 0 {
        0
    } else {
        moment_upto(atoms, n - 1) + atoms[n - 1].1 * atoms[n - 1].0
    }
}

/// Absolute first moment of the first `n` atoms (squared units).
pub open spec fn abs_moment_upto(atoms: Seq<(i64, i64)>, n: int) -> int
    decreases n,
{
    if n <= 0 {
        0
    } else {
        abs_moment_upto(atoms, n - 1) + abs_int(atoms[n - 1].1 as int) * atoms[n - 1].0
    }
}

/// Call transform of the first `n` atoms at strike `kappa`:
/// `sum q_i (k_i - kappa)^+` (squared units).
pub open spec fn call_upto(atoms: Seq<(i64, i64)>, kappa: int, n: int) -> int
    decreases n,
{
    if n <= 0 {
        0
    } else {
        call_upto(atoms, kappa, n - 1) + atoms[n - 1].1 * pos_part(atoms[n - 1].0 - kappa)
    }
}

/// Call transform `C(kappa) = sum_i q_i (k_i - kappa)^+` of a marginal.
pub open spec fn call_transform(atoms: Seq<(i64, i64)>, kappa: int) -> int {
    call_upto(atoms, kappa, atoms.len() as int)
}

/// Strikes are positive and strictly increasing.
pub open spec fn strikes_valid(atoms: Seq<(i64, i64)>) -> bool {
    &&& forall|i: int| 0 <= i < atoms.len() ==> (#[trigger] atoms[i]).0 > 0
    &&& forall|i: int, j: int| 0 <= i < j < atoms.len() ==> atoms[i].0 < atoms[j].0
}

/// The strike at index `i` is positive and above its predecessor.
pub open spec fn strike_ok(atoms: Seq<(i64, i64)>, i: int) -> bool {
    &&& atoms[i].0 > 0
    &&& i > 0 ==> atoms[i - 1].0 < atoms[i].0
}

/// `i` is the first index whose strike is not acceptable.
pub open spec fn is_first_bad_strike(atoms: Seq<(i64, i64)>, i: int) -> bool {
    &&& 0 <= i < atoms.len()
    &&& !strike_ok(atoms, i)
    &&& forall|l: int| 0 <= l < i ==> strike_ok(atoms, l)
}

/// Outcome of the strike checks.
pub open spec fn strike_check(atoms: Seq<(i64, i64)>) -> SanosResult<()> {
    if exists|i: int| is_first_bad_strike(atoms, i) {
        let i = choose|i: int| is_first_bad_strike(atoms, i);
        if atoms[i].0 <= 0 {
            Err(
                SanosError::InvalidBound {
                    field: "strike",
                    value: atoms[i].0,
                    min: MIN_POSITIVE,
                    max: i64::MAX,
                },
            )
        } else {
            Err(SanosError::InvalidOrdering { msg: STRIKE_ORDER_MSG })
        }
    } else {
        Ok(())
    }
}

/// `i` is the first atom more negative than `-bound`.
pub open spec fn is_first_negative(atoms: Seq<(i64, i64)>, bound: int, i: int) -> bool {
    &&& 0 <= i < atoms.len()
    &&& atoms[i].1 < -bound
    &&& forall|l: int| 0 <= l < i ==> atoms[l].1 >= -bound
}

/// Outcome of the tolerance checks: no atom below `-mass`, total mass within
/// `mass` of one, mean within `mean` of one (checked in this order).
pub open spec fn tolerance_check(atoms: Seq<(i64, i64)>, mass: int, mean: int) -> SanosResult<()> {
    if exists|i: int| is_first_negative(atoms, mass, i) {
        let i = choose|i: int| is_first_negative(atoms, mass, i);
        Err(
            SanosError::InvalidBound {
                field: "probability",
                value: atoms[i].1,
                min: (-mass) as i64,
                max: i64::MAX,
            },
        )
    } else if abs_int(mass_upto(atoms, atoms.len() as int) - UNIT) > mass {
        Err(SanosError::InvalidOrdering { msg: MASS_MSG })
    } else if abs_int(moment_upto(atoms, atoms.len() as int) - UNIT * UNIT) > mean * UNIT {
        Err(SanosError::InvalidOrdering { msg: MEAN_MSG })
    } else {
        Ok(())
    }
}

/// Error (if any) raised when building a marginal from these inputs.
pub open spec fn construction_error(
    maturity: i64,
    atoms: Seq<(i64, i64)>,
    tol: DensityTolerances,
) -> Option<SanosError> {
    if maturity <= 0 {
        Some(
            SanosError::InvalidBound {
                field: "maturity",
                value: maturity,
                min: MIN_POSITIVE,
                max: i64::MAX,
            },
        )
    } else if atoms.len() == 0 {
        Some(SanosError::EmptyCollection { what: "MarginalDensity.atoms" })
    } else if strike_check(atoms) is Err {
        Some(strike_check(atoms)->Err_0)
    } else if abs_moment_upto(atoms, atoms.len() as int) > MOMENT_LIMIT {
        Some(SanosError::NonFinite { field: "mean", value: i64::MAX })
    } else if tolerance_check(atoms, tol.mass_spec() as int, tol.mean_spec() as int) is Err {
        Some(tolerance_check(atoms, tol.mass_spec() as int, tol.mean_spec() as int)->Err_0)
    } else {
        None
    }
}

/// Well-formedness kept by every marginal.
pub open spec fn marginal_wf(maturity: i64, atoms: Seq<(i64, i64)>) -> bool {
    &&& maturity > 0
    &&& atoms.len() > 0
    &&& strikes_valid(atoms)
    &&& abs_moment_upto(atoms, atoms.len() as int) <= MOMENT_LIMIT
}

/// A discrete probability distribution on positive strikes at one maturity:
/// atoms `(k_i, q_i)` with strictly increasing `k_i`, unit mass and unit mean
/// (within tolerance).
#[derive(Debug)]
pub struct MarginalDensity {
    maturity: i64,
    atoms: Vec<(i64, i64)>,
}

proof fn lemma_abs_moment_nonneg_monotone(atoms: Seq<(i64, i64)>, a: int, b: int)
    requires
        0 <= a <= b <= atoms.len(),
        forall|i: int| 0 <= i < atoms.len() ==> (#[trigger] atoms[i]).0 > 0,
    ensures
        0 <= abs_moment_upto(atoms, a) <= abs_moment_upto(atoms, b),
    decreases b,
{
    if b > 0 {
        if a < b {
            lemma_abs_moment_nonneg_monotone(atoms, a, b - 1);
        } else {
            lemma_abs_moment_nonneg_monotone(atoms, a - 1, b - 1);
        }
        let q = atoms[b - 1].1 as int;
        let k = atoms[b - 1].0 as int;
        assert(abs_int(q) * k >= 0) by (nonlinear_arith)
            requires
                k > 0,
                abs_int(q) >= 0,
        ;
    }
}

proof fn lemma_term_bounds(q: int, k: int, kappa: int)
    requires
        k > 0,
        kappa >= 0,
        -0x8000_0000_0000_0000 <= q < 0x8000_0000_0000_0000,
        k < 0x8000_0000_0000_0000,
    ensures
        abs_int(q * k) == abs_int(q) * k,
        abs_int(q * pos_part(k - kappa)) <= abs_int(q) * k,
        abs_int(q) * k <= 0x4000_0000_0000_0000_0000_0000_0000_0000,
{
    let p = pos_part(k - kappa);
    assert(0 <= p <= k);
    if q >= 0 {
        assert(q * p <= q * k) by (nonlinear_arith)
            requires
                q >= 0,
                p <= k,
        ;
        assert(q * p >= 0) by (nonlinear_arith)
            requires
                q >= 0,
                p >= 0,
        ;
        assert(q * k >= 0) by (nonlinear_arith)
            requires
                q >= 0,
                k >= 0,
        ;
        assert(q * k <= 0x4000_0000_0000_0000_0000_0000_0000_0000) by (nonlinear_arith)
            requires
                q < 0x8000_0000_0000_0000,
                0 <= q,
                0 < k < 0x8000_0000_0000_0000,
        ;
    } else {
        let a = -q;
        assert(a * p <= a * k) by (nonlinear_arith)
            requires
                a >= 0,
                p <= k,
        ;
        assert(a * p >= 0) by (nonlinear_arith)
            requires
                a >= 0,
                p >= 0,
        ;
        assert(q * p == -(a * p)) by (nonlinear_arith)
            requires
                a == -q,
        ;
        assert(q * k == -(a * k)) by (nonlinear_arith)
            requires
                a == -q,
        ;
        assert(a * k >= 0) by (nonlinear_arith)
            requires
                a >= 0,
                k >= 0,
        ;
        assert(a * k <= 0x4000_0000_0000_0000_0000_0000_0000_0000) by (nonlinear_arith)
            requires
                a <= 0x8000_0000_0000_0000,
                0 <= a,
                0 < k < 0x8000_0000_0000_0000,
        ;
    }
}

/// Partial first moments and partial call transforms are bounded by the
/// absolute first moment.
proof fn lemma_partial_sums_bounded(atoms: Seq<(i64, i64)>, kappa: int, n: int)
    requires
        0 <= n <= atoms.len(),
        kappa >= 0,
        forall|i: int| 0 <= i < atoms.len() ==> (#[trigger] atoms[i]).0 > 0,
    ensures
        abs_int(moment_upto(atoms, n)) <= abs_moment_upto(atoms, n),
        abs_int(call_upto(atoms, kappa, n)) <= abs_moment_upto(atoms, n),
    decreases n,
{
    if n > 0 {
        lemma_partial_sums_bounded(atoms, kappa, n - 1);
        lemma_term_bounds(atoms[n - 1].1 as int, atoms[n - 1].0 as int, kappa);
    }
}

proof fn lemma_first_bad_strike_unique(atoms: Seq<(i64, i64)>, i: int, j: int)
    requires
        is_first_bad_strike(atoms, i),
        is_first_bad_strike(atoms, j),
    ensures
        i == j,
{
    if i < j {
        assert(strike_ok(atoms, i));
    }
    if j < i {
        assert(strike_ok(atoms, j));
    }
}

proof fn lemma_first_negative_unique(atoms: Seq<(i64, i64)>, bound: int, i: int, j: int)
    requires
        is_first_negative(atoms, bound, i),
        is_first_negative(atoms, bound, j),
    ensures
        i == j,
{
    if i < j {
        assert(atoms[i].1 >= -bound);
    }
    if j < i {
        assert(atoms[j].1 >= -bound);
    }
}

proof fn lemma_adjacent_strikes_valid(atoms: Seq<(i64, i64)>)
    requires
        forall|l: int| 0 <= l < atoms.len() ==> strike_ok(atoms, l),
    ensures
        strikes_valid(atoms),
    decreases atoms.len(),
{
    if atoms.len() > 0 {
        let t = atoms.drop_last();
        assert forall|l: int| 0 <= l < t.len() implies strike_ok(t, l) by {
            assert(strike_ok(atoms, l));
        }
        lemma_adjacent_strikes_valid(t);
        assert forall|i: int, j: int| 0 <= i < j < atoms.len() implies atoms[i].0
            < atoms[j].0 by {
            if j < atoms.len() - 1 {
                assert(t[i] == atoms[i] && t[j] == atoms[j]);
            } else {
                assert(strike_ok(atoms, j));
                if i < j - 1 {
                    assert(t[i] == atoms[i] && t[j - 1] == atoms[j - 1]);
                }
            }
        }
        assert forall|i: int| 0 <= i < atoms.len() implies (#[trigger] atoms[i]).0 > 0 by {
            assert(strike_ok(atoms, i));
        }
    }
}

/// Checks the tolerance conditions on atoms with valid strikes and bounded
/// absolute moment.
fn check_tolerances(atoms: &Vec<(i64, i64)>, tol: &DensityTolerances) -> (r: SanosResult<()>)
    requires
        strikes_valid(atoms@),
        abs_moment_upto(atoms@, atoms@.len() as int) <= MOMENT_LIMIT,
    ensures
        r == tolerance_check(atoms@, tol.mass_spec() as int, tol.mean_spec() as int),
{
    let mass_tol = tol.mass();
    let mean_tol = tol.mean();
    let n = atoms.len();
    let mut i: usize = 0;
    while i < n
        invariant
            n == atoms@.len(),
            i <= n,
            mass_tol == tol.mass_spec(),
            mass_tol >= 0,
            forall|l: int| 0 <= l < i ==> atoms@[l].1 >= -mass_tol,
        decreases n - i,
    {
        if atoms[i].1 < -mass_tol {
            proof {
                assert(is_first_negative(atoms@, mass_tol as int, i as int));
                let j = choose|j: int| is_first_negative(atoms@, mass_tol as int, j);
                lemma_first_negative_unique(atoms@, mass_tol as int, i as int, j);
            }
            return Err(
                SanosError::InvalidBound {
                    field: "probability",
                    value: atoms[i].1,
                    min: -mass_tol,
                    max: i64::MAX,
                },
            );
        }
        i = i + 1;
    }
    proof {
        assert(!exists|j: int| is_first_negative(atoms@, mass_tol as int, j));
    }
    let mut mass: i128 = 0;
    let mut moment: i128 = 0;
    let mut k: usize = 0;
    proof {
        lemma_abs_moment_nonneg_monotone(atoms@, 0, n as int);
    }
    while k < n
        invariant
            n == atoms@.len(),
            k <= n,
            strikes_valid(atoms@),
            abs_moment_upto(atoms@, n as int) <= MOMENT_LIMIT,
            mass == mass_upto(atoms@, k as int),
            moment == moment_upto(atoms@, k as int),
            -(k as int) * 0x8000_0000_0000_0000 <= mass <= (k as int) * 0x8000_0000_0000_0000,
        decreases n - k,
    {
        proof {
            lemma_partial_sums_bounded(atoms@, 0, (k + 1) as int);
            lemma_abs_moment_nonneg_monotone(atoms@, (k + 1) as int, n as int);
            lemma_term_bounds(atoms@[k as int].1 as int, atoms@[k as int].0 as int, 0);
        }
        let (s, q) = atoms[k];
        mass = mass + q as i128;
        moment = moment + (q as i128) * (s as i128);
        k = k + 1;
    }
    let unit = UNIT as i128;
    let dev_mass = if mass >= unit { mass - unit } else { unit - mass };
    if dev_mass > mass_tol as i128 {
        return Err(SanosError::InvalidOrdering { msg: MASS_MSG });
    }
    proof {
        lemma_partial_sums_bounded(atoms@, 0, n as int);
    }
    let unit2 = unit * unit;
    let dev_mean = if moment >= unit2 { moment - unit2 } else { unit2 - moment };
    if dev_mean > (mean_tol as i128) * unit {
        return Err(SanosError::InvalidOrdering { msg: MEAN_MSG });
    }
    Ok(())
}

impl MarginalDensity {
    #[verifier::type_invariant]
    spec fn inv(self) -> bool {
        marginal_wf(self.maturity, self.atoms@)
    }

    /// Maturity of the marginal.
    pub closed spec fn maturity_spec(self) -> i64 {
        self.maturity
    }

    /// Atoms `(strike, probability)` of the marginal.
    pub closed spec fn atoms_spec(self) -> Seq<(i64, i64)> {
        self.atoms@
    }

    /// Builds a marginal from atoms `(strike, probability)` and checks it:
    /// positive maturity, at least one atom, positive strictly increasing
    /// strikes, representable moments, and the tolerance checks of `validate`.
    pub fn new(maturity: i64, atoms: Vec<(i64, i64)>, tol: DensityTolerances) -> (r: SanosResult<
        Self,
    >)
        ensures
            match r {
                Ok(d) => construction_error(maturity, atoms@, tol) is None && d.maturity_spec()
                    == maturity && d.atoms_spec() == atoms@,
                Err(e) => construction_error(maturity, atoms@, tol) == Some(e),
            },
    {
        if maturity <= 0 {
            return Err(
                SanosError::InvalidBound {
                    field: "maturity",
                    value: maturity,
                    min: MIN_POSITIVE,
                    max: i64::MAX,
                },
            );
        }
        if atoms.len() == 0 {
            return Err(SanosError::EmptyCollection { what: "MarginalDensity.atoms" });
        }
        let n = atoms.len();
        let mut i: usize = 0;
        while i < n
            invariant
                n == atoms@.len(),
                n > 0,
                maturity > 0,
                i <= n,
                forall|l: int| 0 <= l < i ==> strike_ok(atoms@, l),
            decreases n - i,
        {
            let bad_sign = atoms[i].0 <= 0;
            let bad_order = i > 0 && atoms[i - 1].0 >= atoms[i].0;
            if bad_sign || bad_order {
                proof {
                    assert(is_first_bad_strike(atoms@, i as int));
                    let j = choose|j: int| is_first_bad_strike(atoms@, j);
                    lemma_first_bad_strike_unique(atoms@, i as int, j);
                }
                if bad_sign {
                    return Err(
                        SanosError::InvalidBound {
                            field: "strike",
                            value: atoms[i].0,
                            min: MIN_POSITIVE,
                            max: i64::MAX,
                        },
                    );
                }
                return Err(SanosError::InvalidOrdering { msg: STRIKE_ORDER_MSG });
            }
            i = i + 1;
        }
        proof {
            assert(!exists|j: int| is_first_bad_strike(atoms@, j));
            lemma_adjacent_strikes_valid(atoms@);
        }
        // absolute first moment, with an explicit bound check
        let mut acc: i128 = 0;
        let mut k: usize = 0;
        while k < n
            invariant
                n == atoms@.len(),
                n > 0,
                maturity > 0,
                k <= n,
                strikes_valid(atoms@),
                strike_check(atoms@) is Ok,
                acc == abs_moment_upto(atoms@, k as int),
                acc <= MOMENT_LIMIT,
            decreases n - k,
        {
            let (s, q) = atoms[k];
            proof {
                lemma_term_bounds(q as int, s as int, 0);
                lemma_abs_moment_nonneg_monotone(atoms@, k as int, k as int);
            }
            let aq: i128 = if q >= 0 { q as i128 } else { -(q as i128) };
            let term = aq * (s as i128);
            if term > MOMENT_LIMIT - acc {
                proof {
                    lemma_abs_moment_nonneg_monotone(atoms@, (k + 1) as int, n as int);
                }
                return Err(SanosError::NonFinite { field: "mean", value: i64::MAX });
            }
            acc = acc + term;
            k = k + 1;
        }
        check_tolerances(&atoms, &tol)?;
        Ok(MarginalDensity { maturity, atoms })
    }

    /// Checks the density against tolerances: no atom below `-tol.mass`,
    /// `|sum q_i - 1| <= tol.mass`, `|sum q_i k_i - 1| <= tol.mean`.
    pub fn validate(&self, tol: DensityTolerances) -> (r: SanosResult<()>)
        ensures
            r == tolerance_check(self.atoms_spec(), tol.mass_spec() as int, tol.mean_spec() as int),
    {
        proof {
            use_type_invariant(self);
        }
        check_tolerances(&self.atoms, &tol)
    }

    /// Maturity of the marginal.
    pub fn maturity(&self) -> (r: i64)
        ensures
            r == self.maturity_spec(),
            marginal_wf(self.maturity_spec(), self.atoms_spec()),
    {
        proof {
            use_type_invariant(self);
        }
        self.maturity
    }

    /// Atoms `(strike, probability)`.
    pub fn atoms(&self) -> (r: &Vec<(i64, i64)>)
        ensures
            r@ == self.atoms_spec(),
            marginal_wf(self.maturity_spec(), self.atoms_spec()),
    {
        proof {
            use_type_invariant(self);
        }
        &self.atoms
    }

    /// Probabilities of the atoms, in strike order.
    pub fn probabilities(&self) -> (r: Vec<i64>)
        ensures
            r@.len() == self.atoms_spec().len(),
            forall|i: int| 0 <= i < r@.len() ==> r@[i] == self.atoms_spec()[i].1,
    {
        let mut out: Vec<i64> = Vec::new();
        let mut i: usize = 0;
        while i < self.atoms.len()
            invariant
                i <= self.atoms@.len(),
                out@.len() == i,
                forall|l: int| 0 <= l < i ==> out@[l] == self.atoms@[l].1,
            decreases self.atoms@.len() - i,
        {
            out.push(self.atoms[i].1);
            i = i + 1;
        }
        out
    }

    /// Call transform `C(kappa) = sum_i q_i (k_i - kappa)^+`, in squared
    /// fixed-point units (`UNIT * UNIT` stands for one). `kappa` must not be
    /// negative.
    pub fn call(&self, kappa: i64) -> (r: SanosResult<i128>)
        ensures
            kappa < 0 ==> r == Err::<i128, SanosError>(
                SanosError::InvalidBound { field: "kappa", value: kappa, min: 0, max: i64::MAX },
            ),
            kappa >= 0 ==> r == Ok::<i128, SanosError>(
                call_transform(self.atoms_spec(), kappa as int) as i128,
            ),
            kappa >= 0 ==> abs_int(call_transform(self.atoms_spec(), kappa as int))
                <= MOMENT_LIMIT,
    {
        proof {
            use_type_invariant(self);
        }
        if kappa < 0 {
            return Err(SanosError::InvalidBound { field: "kappa", value: kappa, min: 0, max: i64::MAX });
        }
        let n = self.atoms.len();
        let mut acc: i128 = 0;
        let mut i: usize = 0;
        proof {
            lemma_partial_sums_bounded(self.atoms@, kappa as int, n as int);
        }
        while i < n
            invariant
                n == self.atoms@.len(),
                i <= n,
                kappa >= 0,
                marginal_wf(self.maturity, self.atoms@),
                acc == call_upto(self.atoms@, kappa as int, i as int),
            decreases n - i,
        {
            proof {
                lemma_partial_sums_bounded(self.atoms@, kappa as int, (i + 1) as int);
                lemma_abs_moment_nonneg_monotone(self.atoms@, (i + 1) as int, n as int);
                lemma_term_bounds(
                    self.atoms@[i as int].1 as int,
                    self.atoms@[i as int].0 as int,
                    kappa as int,
                );
            }
            let (s, q) = self.atoms[i];
            let gap: i128 = if s > kappa { (s as i128) - (kappa as i128) } else { 0 };
            acc = acc + (q as i128) * gap;
            i = i + 1;
        }
        Ok(acc)
    }
}

impl Clone for MarginalDensity {
    fn clone(&self) -> (r: Self)
        ensures
            r.maturity_spec() == self.maturity_spec(),
            r.atoms_spec() == self.atoms_spec(),
    {
        proof {
            use_type_invariant(self);
        }
        let mut atoms: Vec<(i64, i64)> = Vec::new();
        let mut i: usize = 0;
        while i < self.atoms.len()
            invariant
                i <= self.atoms@.len(),
                atoms@ == self.atoms@.take(i as int),
            decreases self.atoms@.len() - i,
        {
            atoms.push(self.atoms[i]);
            i = i + 1;
            assert(atoms@ =~= self.atoms@.take(i as int));
        }
        assert(atoms@ =~= self.atoms@);
        MarginalDensity { maturity: self.maturity, atoms }
    }
}

impl SortKey for MarginalDensity {
    open spec fn key_spec(&self) -> int {
        self.maturity_spec() as int
    }

    fn sort_key(&self) -> (k: i64) {
        self.maturity()
    }
}

} // verus!
