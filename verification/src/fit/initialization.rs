//! Raw linear-discrete densities from call prices: node masses from the
//! second differences of the call curve, `p_0 = 1 + d_0`,
//! `p_i = d_i - d_{i-1}`, `p_{n-1} = -d_{n-2}` with slopes
//! `d_i = (C_{i+1} - C_i) / (K_{i+1} - K_i)`.
use vstd::prelude::*;
use crate::density::marginal::{construction_error, tolerance_check, MarginalDensity};
use crate::density::martingale::{convex_ordered, MartingaleDensity, CONVEX_ORDER_MSG};
use crate::density::tol::DensityTolerances;
use crate::market::book::OptionBook;
use crate::market::chain::OptionChain;
use crate::sorting::{lemma_strict_has_no_repeat, strictly_sorted_by_key, SortKey};
use crate::error::{SanosError, SanosResult};
use crate::fit::config::{div_toward_zero, InitPriceProxyConfig};
use crate::market::quote::{half_toward_zero, CallQuote};
use crate::{MIN_POSITIVE, UNIT};

verus! {

/// Node `i` has a positive strike above its predecessor.
pub open spec fn node_ok(k: Seq<i64>, i: int) -> bool {
    &&& k[i] > 0
    &&& i > 0 ==> k[i - 1] < k[i]
}

/// `i` is the first node whose strike is not acceptable.
pub open spec fn is_first_bad_node(k: Seq<i64>, i: int) -> bool {
    &&& 0 <= i < k.len()
    &&& !node_ok(k, i)
    &&& forall|l: int| 0 <= l < i ==> #[trigger] node_ok(k, l)
}

/// The first failing check of strikes and calls, in the order they are run.
pub open spec fn strikes_calls_error(k: Seq<i64>, c: Seq<i64>) -> Option<SanosError> {
    if k.len() != c.len() {
        Some(SanosError::InvalidOrdering { msg: "strikes and calls must have same length" })
    } else if k.len() < 2 {
        Some(SanosError::InvalidOrdering { msg: "at least 2 strike nodes are required" })
    } else if exists|i: int| is_first_bad_node(k, i) {
        let i = choose|i: int| is_first_bad_node(k, i);
        if k[i] <= 0 {
            Some(
                SanosError::InvalidBound {
                    field: "strike",
                    value: k[i],
                    min: MIN_POSITIVE,
                    max: i64::MAX,
                },
            )
        } else {
            Some(SanosError::InvalidOrdering { msg: "strikes must be strictly increasing" })
        }
    } else {
        None
    }
}

proof fn lemma_first_bad_node_unique(k: Seq<i64>, a: int, b: int)
    requires
        is_first_bad_node(k, a),
        is_first_bad_node(k, b),
    ensures
        a == b,
{
    if a < b {
        assert(node_ok(k, a));
    }
    if b < a {
        assert(node_ok(k, b));
    }
}

/// Checks that strikes and calls have the same length, at least two nodes,
/// and positive strictly increasing strikes.
pub fn validate_strikes_and_calls(strikes: &[i64], calls: &[i64]) -> (r: SanosResult<()>)
    ensures
        match strikes_calls_error(strikes@, calls@) {
            Some(e) => r == Err::<(), SanosError>(e),
            None => r is Ok,
        },
{
    if strikes.len() != calls.len() {
        return Err(SanosError::InvalidOrdering { msg: "strikes and calls must have same length" });
    }
    if strikes.len() < 2 {
        return Err(SanosError::InvalidOrdering { msg: "at least 2 strike nodes are required" });
    }
    let n = strikes.len();
    let mut i: usize = 0;
    while i < n
        invariant
            n == strikes@.len(),
            n == calls@.len(),
            n >= 2,
            i <= n,
            forall|l: int| 0 <= l < i ==> #[trigger] node_ok(strikes@, l),
        decreases n - i,
    {
        let k = strikes[i];
        if k <= 0 || (i > 0 && strikes[i] <= strikes[i - 1]) {
            proof {
                assert(is_first_bad_node(strikes@, i as int));
                let b = choose|b: int| is_first_bad_node(strikes@, b);
                lemma_first_bad_node_unique(strikes@, i as int, b);
            }
            if k <= 0 {
                return Err(
                    SanosError::InvalidBound {
                        field: "strike",
                        value: k,
                        min: MIN_POSITIVE,
                        max: i64::MAX,
                    },
                );
            }
            return Err(SanosError::InvalidOrdering { msg: "strikes must be strictly increasing" });
        }
        i = i + 1;
    }
    proof {
        assert(!exists|b: int| is_first_bad_node(strikes@, b));
    }
    Ok(())
}

/// Slope of the call curve on `[K_i, K_{i+1}]` (fixed point, rounded toward
/// zero).
pub open spec fn slope(k: Seq<i64>, c: Seq<i64>, i: int) -> int {
    div_toward_zero((c[i + 1] - c[i]) * UNIT, k[i + 1] - k[i])
}

/// Mass of node `i` of the raw linear density.
pub open spec fn raw_mass(k: Seq<i64>, c: Seq<i64>, i: int) -> int {
    if i == 0 {
        UNIT + slope(k, c, 0)
    } else if i == k.len() - 1 {
        -slope(k, c, i - 1)
    } else {
        slope(k, c, i) - slope(k, c, i - 1)
    }
}

/// Every node mass is representable.
pub open spec fn masses_representable(k: Seq<i64>, c: Seq<i64>) -> bool {
    forall|i: int| 0 <= i < k.len() ==> i64::MIN <= #[trigger] raw_mass(k, c, i) <= i64::MAX
}

/// Atoms `(K_i, p_i)` of the raw linear density.
pub open spec fn raw_atoms(k: Seq<i64>, c: Seq<i64>) -> Seq<(i64, i64)> {
    Seq::new(k.len(), |i: int| (k[i], raw_mass(k, c, i) as i64))
}

/// `r` is the raw linear density of the nodes: the first failing check of
/// the nodes, an unrepresentable mass, or the marginal built from the atoms.
pub open spec fn raw_density_outcome(
    r: SanosResult<MarginalDensity>,
    maturity: i64,
    k: Seq<i64>,
    c: Seq<i64>,
    tol: DensityTolerances,
) -> bool {
    match strikes_calls_error(k, c) {
        Some(e) => r == Err::<MarginalDensity, SanosError>(e),
        None => if !masses_representable(k, c) {
            r == Err::<MarginalDensity, SanosError>(
                SanosError::NonFinite { field: "density", value: i64::MAX },
            )
        } else {
            match r {
                Ok(d) => construction_error(maturity, raw_atoms(k, c), tol) is None
                    && d.maturity_spec() == maturity && d.atoms_spec() == raw_atoms(k, c),
                Err(e) => construction_error(maturity, raw_atoms(k, c), tol) == Some(e),
            }
        },
    }
}

/// Slope of the call curve between nodes `i` and `i + 1`.
fn slope_at(strikes: &[i64], calls: &[i64], i: usize) -> (r: i128)
    requires
        i + 1 < strikes@.len(),
        strikes@.len() == calls@.len(),
        strikes@[i as int] < strikes@[i + 1],
    ensures
        r == slope(strikes@, calls@, i as int),
        -0x10_0000_0000_0000_0000_0000_0000_0000 <= r <= 0x10_0000_0000_0000_0000_0000_0000_0000,
{
    let len = strikes.len();
    assert(i + 1 < len);
    let i1 = i + 1;
    let dc: i128 = (calls[i1] as i128) - (calls[i] as i128);
    let dk: i128 = (strikes[i1] as i128) - (strikes[i] as i128);
    proof {
        assert(-0x1_0000_0000_0000_0000 * UNIT <= dc * UNIT <= 0x1_0000_0000_0000_0000 * UNIT) by (
        nonlinear_arith)
            requires
                -0x1_0000_0000_0000_0000 <= dc <= 0x1_0000_0000_0000_0000,
                UNIT == 1_000_000_000_000,
        ;
    }
    let num: i128 = dc * (UNIT as i128);
    proof {
        let a = num as int;
        let b = dk as int;
        assert(a >= 0 ==> 0 <= a / b <= a) by (nonlinear_arith)
            requires
                b >= 1,
        ;
        assert(a < 0 ==> 0 <= (-a) / b <= -a) by (nonlinear_arith)
            requires
                b >= 1,
        ;
    }
    if num >= 0 {
        num / dk
    } else {
        -((-num) / dk)
    }
}

/// Builds the raw linear-discrete marginal density of the call nodes
/// `(strikes[i], calls[i])`.
pub fn compute_raw_linear_density(
    maturity: i64,
    strikes: &[i64],
    calls: &[i64],
    tol: DensityTolerances,
) -> (r: SanosResult<MarginalDensity>)
    ensures
        raw_density_outcome(r, maturity, strikes@, calls@, tol),
{
    match validate_strikes_and_calls(strikes, calls) {
        Ok(()) => {},
        Err(e) => {
            return Err(e);
        },
    }
    proof {
        assert(forall|i: int| 0 <= i < strikes@.len() ==> #[trigger] node_ok(strikes@, i)) by {
            assert(!exists|b: int| is_first_bad_node(strikes@, b));
            assert forall|i: int| 0 <= i < strikes@.len() implies #[trigger] node_ok(
                strikes@,
                i,
            ) by {
                if !node_ok(strikes@, i) {
                    lemma_has_first_bad_node(strikes@, i);
                }
            }
        }
    }
    let n = strikes.len();
    let mut atoms: Vec<(i64, i64)> = Vec::new();
    let mut i: usize = 0;
    while i < n
        invariant
            n == strikes@.len(),
            n == calls@.len(),
            n >= 2,
            i <= n,
            forall|l: int| 0 <= l < n ==> #[trigger] node_ok(strikes@, l),
            forall|l: int| 0 <= l < i ==> i64::MIN <= #[trigger] raw_mass(strikes@, calls@, l)
                <= i64::MAX,
            atoms@ == raw_atoms(strikes@, calls@).take(i as int),
        decreases n - i,
    {
        proof {
            if i + 1 < n {
                assert(node_ok(strikes@, i + 1));
            }
            if i > 0 {
                assert(node_ok(strikes@, i as int));
            }
        }
        let m: i128 = if i == 0 {
            (UNIT as i128) + slope_at(strikes, calls, 0)
        } else if i == n - 1 {
            -slope_at(strikes, calls, i - 1)
        } else {
            slope_at(strikes, calls, i) - slope_at(strikes, calls, i - 1)
        };
        if m < (i64::MIN as i128) || m > (i64::MAX as i128) {
            proof {
                assert(!(i64::MIN <= raw_mass(strikes@, calls@, i as int) <= i64::MAX));
            }
            return Err(SanosError::NonFinite { field: "density", value: i64::MAX });
        }
        atoms.push((strikes[i], m as i64));
        proof {
            assert(atoms@ =~= raw_atoms(strikes@, calls@).take((i + 1) as int));
        }
        i = i + 1;
    }
    proof {
        assert(atoms@ =~= raw_atoms(strikes@, calls@));
    }
    MarginalDensity::new(maturity, atoms, tol)
}

/// A node that fails its check leads to a first failing node.
proof fn lemma_has_first_bad_node(k: Seq<i64>, i: int)
    requires
        0 <= i < k.len(),
        !node_ok(k, i),
    ensures
        exists|b: int| is_first_bad_node(k, b),
    decreases i,
{
    if forall|l: int| 0 <= l < i ==> #[trigger] node_ok(k, l) {
        assert(is_first_bad_node(k, i));
    } else {
        let l = choose|l: int| 0 <= l < i && !node_ok(k, l);
        lemma_has_first_bad_node(k, l);
    }
}

/// The price of a quote used for the raw call curve.
pub open spec fn proxy_value(q: CallQuote, proxy: InitPriceProxyConfig) -> int {
    match proxy {
        InitPriceProxyConfig::Mid => half_toward_zero(q.bid + q.ask),
        InitPriceProxyConfig::Bid => q.bid as int,
        InitPriceProxyConfig::Ask => q.ask as int,
    }
}

/// The mid, bid or ask of a quote.
pub fn quote_proxy_value(quote: CallQuote, proxy: InitPriceProxyConfig) -> (r: i64)
    ensures
        r == proxy_value(quote, proxy),
{
    match proxy {
        InitPriceProxyConfig::Mid => quote.mid(),
        InitPriceProxyConfig::Bid => quote.bid,
        InitPriceProxyConfig::Ask => quote.ask,
    }
}

/// Total mass of the first `m` nodes of the raw linear density.
pub open spec fn mass_sum(k: Seq<i64>, c: Seq<i64>, m: int) -> int
    decreases m,
{
    if m <= 0 {
        0
    } else {
        mass_sum(k, c, m - 1) + raw_mass(k, c, m - 1)
    }
}

/// The raw linear density carries total mass exactly one, whatever the calls:
/// the second differences of the call curve telescope.
pub proof fn lemma_raw_mass_total(k: Seq<i64>, c: Seq<i64>)
    requires
        k.len() >= 2,
    ensures
        mass_sum(k, c, k.len() as int) == UNIT,
{
    lemma_raw_mass_prefix(k, c, k.len() - 1);
}

/// Mass of the first `m` nodes (`1 <= m < n`): one plus the slope on the
/// interval that follows them.
proof fn lemma_raw_mass_prefix(k: Seq<i64>, c: Seq<i64>, m: int)
    requires
        k.len() >= 2,
        1 <= m <= k.len() - 1,
    ensures
        mass_sum(k, c, m) == UNIT + slope(k, c, m - 1),
    decreases m,
{
    assert(mass_sum(k, c, 0) == 0);
    if m > 1 {
        lemma_raw_mass_prefix(k, c, m - 1);
        assert(raw_mass(k, c, m - 1) == slope(k, c, m - 1) - slope(k, c, m - 2));
    } else {
        assert(raw_mass(k, c, 0) == UNIT + slope(k, c, 0));
    }
}

/// The first failing step of the raw linear density of the nodes, if any.
pub open spec fn raw_density_error(
    maturity: i64,
    k: Seq<i64>,
    c: Seq<i64>,
    tol: DensityTolerances,
) -> Option<SanosError> {
    if strikes_calls_error(k, c) is Some {
        strikes_calls_error(k, c)
    } else if !masses_representable(k, c) {
        Some(SanosError::NonFinite { field: "density", value: i64::MAX })
    } else {
        construction_error(maturity, raw_atoms(k, c), tol)
    }
}

/// Strikes of the quotes of a chain.
pub open spec fn chain_strikes(c: OptionChain) -> Seq<i64> {
    c.quotes_spec().map_values(|q: CallQuote| q.k)
}

/// Proxy prices of the quotes of a chain.
pub open spec fn chain_calls(c: OptionChain, proxy: InitPriceProxyConfig) -> Seq<i64> {
    c.quotes_spec().map_values(|q: CallQuote| proxy_value(q, proxy) as i64)
}

/// Error of the raw density of chain `c`, if any.
pub open spec fn chain_error(c: OptionChain, proxy: InitPriceProxyConfig, tol: DensityTolerances) -> Option<
    SanosError,
> {
    raw_density_error(c.maturity_spec(), chain_strikes(c), chain_calls(c, proxy), tol)
}

/// `j` is the first chain whose raw density fails.
pub open spec fn is_first_bad_chain(
    chains: Seq<OptionChain>,
    proxy: InitPriceProxyConfig,
    tol: DensityTolerances,
    j: int,
) -> bool {
    &&& 0 <= j < chains.len()
    &&& chain_error(chains[j], proxy, tol) is Some
    &&& forall|i: int| 0 <= i < j ==> (#[trigger] chain_error(chains[i], proxy, tol)) is None
}

/// `ms` are the raw densities of the chains.
pub open spec fn raw_marginals_of(
    ms: Seq<MarginalDensity>,
    chains: Seq<OptionChain>,
    proxy: InitPriceProxyConfig,
) -> bool {
    &&& ms.len() == chains.len()
    &&& forall|j: int|
        0 <= j < chains.len() ==> (#[trigger] ms[j]).maturity_spec() == chains[j].maturity_spec()
            && ms[j].atoms_spec() == raw_atoms(chain_strikes(chains[j]), chain_calls(chains[j], proxy))
}

/// `r` holds the martingale density of the marginals `ms` (sorted by
/// maturity) when it is convex ordered with slack `order`, else the
/// convex-order error.
pub open spec fn strict_outcome(r: SanosResult<MartingaleDensity>, ms: Seq<MarginalDensity>, order: int) -> bool {
    exists|d: MartingaleDensity|
        {
            &&& (#[trigger] d.marginals_spec()).to_multiset() == ms.to_multiset()
            &&& d.marginals_spec().len() == ms.len()
            &&& strictly_sorted_by_key(d.marginals_spec())
            &&& if convex_ordered(d.marginals_spec(), order) {
                r == Ok::<MartingaleDensity, SanosError>(d)
            } else {
                r == Err::<MartingaleDensity, SanosError>(
                    SanosError::InvalidOrdering { msg: CONVEX_ORDER_MSG },
                )
            }
        }
}

/// Tolerance of the strict density: the feasibility tolerance, at least the
/// smallest positive value.
pub open spec fn strict_tol(feasibility_tol: i64) -> DensityTolerances {
    DensityTolerances::spec_of(
        if feasibility_tol >= 1 {
            feasibility_tol
        } else {
            1
        },
    )
}

proof fn lemma_first_bad_chain_unique(
    chains: Seq<OptionChain>,
    proxy: InitPriceProxyConfig,
    tol: DensityTolerances,
    a: int,
    b: int,
)
    requires
        is_first_bad_chain(chains, proxy, tol, a),
        is_first_bad_chain(chains, proxy, tol, b),
    ensures
        a == b,
{
    if a < b {
        assert(chain_error(chains[a], proxy, tol) is None);
    }
    if b < a {
        assert(chain_error(chains[b], proxy, tol) is None);
    }
}

/// The raw density outcome states its error exactly.
proof fn lemma_raw_outcome_error(
    r: SanosResult<MarginalDensity>,
    maturity: i64,
    k: Seq<i64>,
    c: Seq<i64>,
    tol: DensityTolerances,
)
    requires
        raw_density_outcome(r, maturity, k, c, tol),
    ensures
        r matches Err(e) ==> raw_density_error(maturity, k, c, tol) == Some(e),
        r matches Ok(d) ==> raw_density_error(maturity, k, c, tol) is None && d.maturity_spec()
            == maturity && d.atoms_spec() == raw_atoms(k, c),
{
}

/// Strict martingale density of a book from the raw linear densities of its
/// chains (quote prices taken by `price_proxy`): the marginals are checked
/// against the tolerances, then for convex order.
pub fn build_strict_linear_martingale_density(
    book: &OptionBook,
    price_proxy: InitPriceProxyConfig,
    feasibility_tol: i64,
) -> (r: SanosResult<MartingaleDensity>)
    ensures
        ({
            let tol = strict_tol(feasibility_tol);
            let chains = book.chains_spec();
            if exists|j: int| is_first_bad_chain(chains, price_proxy, tol, j) {
                let j = choose|j: int| is_first_bad_chain(chains, price_proxy, tol, j);
                r == Err::<MartingaleDensity, SanosError>(
                    chain_error(chains[j], price_proxy, tol)->Some_0,
                )
            } else {
                exists|ms: Seq<MarginalDensity>|
                    raw_marginals_of(ms, chains, price_proxy) && #[trigger] strict_outcome(
                        r,
                        ms,
                        tol.order_spec() as int,
                    )
            }
        }),
{
    let ft: i64 = if feasibility_tol >= 1 {
        feasibility_tol
    } else {
        1
    };
    let tol = match DensityTolerances::from_tol(ft) {
        Ok(t) => t,
        Err(e) => {
            return Err(e);
        },
    };
    let chains = book.chains();
    let n = chains.len();
    let mut marginals: Vec<MarginalDensity> = Vec::new();
    let mut j: usize = 0;
    while j < n
        invariant
            n == chains@.len(),
            chains@ == book.chains_spec(),
            tol == strict_tol(feasibility_tol),
            j <= n,
            marginals@.len() == j,
            forall|i: int| 0 <= i < j ==> (#[trigger] chain_error(chains@[i], price_proxy, tol)) is None,
            forall|i: int|
                0 <= i < j ==> (#[trigger] marginals@[i]).maturity_spec() == chains@[i].maturity_spec()
                    && marginals@[i].atoms_spec() == raw_atoms(
                    chain_strikes(chains@[i]),
                    chain_calls(chains@[i], price_proxy),
                ),
            forall|i: int| 0 <= i < j ==> construction_error(
                (#[trigger] marginals@[i]).maturity_spec(),
                marginals@[i].atoms_spec(),
                tol,
            ) is None,
        decreases n - j,
    {
        let chain = &chains[j];
        let quotes = chain.quotes();
        let nq = quotes.len();
        let mut strikes: Vec<i64> = Vec::new();
        let mut calls: Vec<i64> = Vec::new();
        let mut i: usize = 0;
        while i < nq
            invariant
                nq == quotes@.len(),
                quotes@ == chain.quotes_spec(),
                i <= nq,
                strikes@ == chain_strikes(*chain).take(i as int),
                calls@ == chain_calls(*chain, price_proxy).take(i as int),
            decreases nq - i,
        {
            strikes.push(quotes[i].k);
            calls.push(quote_proxy_value(quotes[i], price_proxy));
            proof {
                assert(strikes@ =~= chain_strikes(*chain).take((i + 1) as int));
                assert(calls@ =~= chain_calls(*chain, price_proxy).take((i + 1) as int));
            }
            i = i + 1;
        }
        proof {
            assert(strikes@ =~= chain_strikes(*chain));
            assert(calls@ =~= chain_calls(*chain, price_proxy));
        }
        let res = compute_raw_linear_density(chain.maturity(), strikes.as_slice(), calls.as_slice(), tol);
        proof {
            lemma_raw_outcome_error(res, chain.maturity_spec(), strikes@, calls@, tol);
        }
        match res {
            Ok(m) => {
                marginals.push(m);
            },
            Err(e) => {
                proof {
                    assert(is_first_bad_chain(chains@, price_proxy, tol, j as int));
                    let b = choose|b: int| is_first_bad_chain(chains@, price_proxy, tol, b);
                    lemma_first_bad_chain_unique(chains@, price_proxy, tol, j as int, b);
                }
                return Err(e);
            },
        }
        j = j + 1;
    }
    proof {
        assert(!exists|b: int| is_first_bad_chain(chains@, price_proxy, tol, b));
        assert(strictly_sorted_by_key(marginals@)) by {
            assert forall|a: int, b: int| 0 <= a < b < marginals@.len() implies marginals@[a].key_spec()
                < marginals@[b].key_spec() by {
                assert(chains@[a].key_spec() < chains@[b].key_spec());
            }
        }
        lemma_strict_has_no_repeat(marginals@);
    }
    let ghost ms = marginals@;
    let q = match MartingaleDensity::new(marginals) {
        Ok(d) => d,
        Err(e) => {
            return Err(e);
        },
    };
    proof {
        assert forall|a: int| 0 <= a < q.marginals_spec().len() implies tolerance_check(
            (#[trigger] q.marginals_spec()[a]).atoms_spec(),
            tol.mass_spec() as int,
            tol.mean_spec() as int,
        ) is Ok by {
            broadcast use vstd::seq_lib::group_to_multiset_ensures;

            let x = q.marginals_spec()[a];
            assert(q.marginals_spec().contains(x));
            assert(q.marginals_spec().to_multiset().count(x) > 0);
            assert(ms.to_multiset().count(x) > 0);
            assert(ms.contains(x));
            let i = choose|i: int| 0 <= i < ms.len() && ms[i] == x;
            assert(construction_error(ms[i].maturity_spec(), ms[i].atoms_spec(), tol) is None);
        }
    }
    match q.validate_marginals(tol) {
        Ok(()) => {},
        Err(e) => {
            return Err(e);
        },
    }
    let r = match q.validate_convex_order(tol) {
        Ok(()) => Ok(q),
        Err(e) => Err(e),
    };
    proof {
        assert(raw_marginals_of(ms, chains@, price_proxy));
        assert(strict_outcome(r, ms, tol.order_spec() as int));
    }
    r
}

} // verus!
