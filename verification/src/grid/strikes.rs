//! Exact steps of strike-grid construction on fixed-point strikes: sorting
//! with de-duplication, thinning to a minimum spacing, clamping to caps,
//! proximity tests, even down-sampling and the merge of market strikes with
//! quantile strikes.
use vstd::prelude::*;
use vstd::relations::{sorted_by, total_ordering};
use vstd::seq_lib::lemma_sorted_unique;
use crate::sorting::{sort_by_key, SortKey};

verus! {

broadcast use vstd::seq_lib::group_to_multiset_ensures;

/// Strikes closer than this (fixed point) count as one strike.
pub const UNIQUE_TOL: i64 = 1;

impl SortKey for i64 {
    open spec fn key_spec(&self) -> int {
        *self as int
    }

    fn sort_key(&self) -> (k: i64) {
        *self
    }
}

/// The positive entries among the first `n` of `s`, in order.
pub open spec fn positives(s: Seq<i64>, n: int) -> Seq<i64>
    decreases n,
{
    if n <= 0 {
        Seq::empty()
    } else {
        let p = positives(s, n - 1);
        if s[n - 1] > 0 {
            p.push(s[n - 1])
        } else {
            p
        }
    }
}

/// `s` in ascending order.
pub open spec fn ascending(s: Seq<i64>) -> Seq<i64> {
    s.sort_by(|a: i64, b: i64| a <= b)
}

/// Among the first `n` entries of `s`: the first, then each entry at least
/// `d` above the last one kept.
pub open spec fn thin(s: Seq<i64>, d: int, n: int) -> Seq<i64>
    decreases n,
{
    if n <= 0 {
        Seq::empty()
    } else {
        let p = thin(s, d, n - 1);
        if p.len() == 0 || s[n - 1] - p.last() >= d {
            p.push(s[n - 1])
        } else {
            p
        }
    }
}

/// Positive strikes of `s`, ascending, with strikes within `UNIQUE_TOL` of
/// the previous kept one removed.
pub open spec fn strike_set(s: Seq<i64>) -> Seq<i64> {
    let a = ascending(positives(s, s.len() as int));
    thin(a, UNIQUE_TOL + 1, a.len() as int)
}

/// Entries of `s` are strictly increasing.
pub open spec fn strictly_increasing(s: Seq<i64>) -> bool {
    forall|i: int, j: int| 0 <= i < j < s.len() ==> s[i] < s[j]
}

proof fn lemma_le_total_ordering()
    ensures
        total_ordering(|a: i64, b: i64| a <= b),
{
}

/// Sorts positive strikes and removes near-duplicates (see [`strike_set`]).
pub fn sort_and_dedup_strikes(strikes: Vec<i64>) -> (r: Vec<i64>)
    ensures
        r@ == strike_set(strikes@),
        strictly_increasing(r@),
{
    let n = strikes.len();
    let mut pos: Vec<i64> = Vec::new();
    let mut i: usize = 0;
    while i < n
        invariant
            n == strikes@.len(),
            i <= n,
            pos@ == positives(strikes@, i as int),
        decreases n - i,
    {
        if strikes[i] > 0 {
            pos.push(strikes[i]);
        }
        i = i + 1;
    }
    let ghost p = pos@;
    let sorted = sort_by_key(pos);
    let ghost leq = |a: i64, b: i64| a <= b;
    proof {
        lemma_le_total_ordering();
        p.lemma_sort_by_ensures(leq);
        assert(sorted_by(sorted@, leq)) by {
            assert forall|a: int, b: int| 0 <= a < b < sorted@.len() implies #[trigger] leq(
                sorted@[a],
                sorted@[b],
            ) by {
                assert(sorted@[a].key_spec() <= sorted@[b].key_spec());
            }
        }
        lemma_sorted_unique(sorted@, p.sort_by(leq), leq);
        assert(sorted@ == ascending(p));
    }
    let m = sorted.len();
    let mut out: Vec<i64> = Vec::new();
    let mut k: usize = 0;
    while k < m
        invariant
            m == sorted@.len(),
            k <= m,
            out@ == thin(sorted@, UNIQUE_TOL + 1, k as int),
            strictly_increasing(out@),
        decreases m - k,
    {
        let x = sorted[k];
        if out.len() == 0 {
            out.push(x);
        } else {
            let last = out[out.len() - 1];
            if (x as i128) - (last as i128) >= (UNIQUE_TOL as i128) + 1 {
                out.push(x);
            }
        }
        k = k + 1;
    }
    out
}

/// `s` thinned to spacing `v` when `min_spacing` is a positive `v`, else `s`.
pub open spec fn spaced(s: Seq<i64>, min_spacing: Option<i64>) -> Seq<i64> {
    match min_spacing {
        Some(v) => if v > 0 {
            thin(s, v as int, s.len() as int)
        } else {
            s
        },
        None => s,
    }
}

/// Keeps the first strike and each strike at least `min_spacing` above the
/// last kept one, when a positive spacing is given.
pub fn enforce_min_spacing(strikes: Vec<i64>, min_spacing: Option<i64>) -> (r: Vec<i64>)
    ensures
        r@ == spaced(strikes@, min_spacing),
{
    let spacing = match min_spacing {
        Some(v) => {
            if v > 0 {
                v
            } else {
                return strikes;
            }
        },
        None => {
            return strikes;
        },
    };
    let n = strikes.len();
    let mut out: Vec<i64> = Vec::new();
    let mut k: usize = 0;
    while k < n
        invariant
            n == strikes@.len(),
            k <= n,
            spacing > 0,
            min_spacing == Some(spacing),
            out@ == thin(strikes@, spacing as int, k as int),
        decreases n - k,
    {
        let x = strikes[k];
        if out.len() == 0 {
            out.push(x);
        } else {
            let last = out[out.len() - 1];
            if (x as i128) - (last as i128) >= spacing as i128 {
                out.push(x);
            }
        }
        k = k + 1;
    }
    out
}

/// `k` raised to `k_min` and lowered to `k_max`, where given (the upper cap
/// applied last).
pub open spec fn capped(k: i64, k_min: Option<i64>, k_max: Option<i64>) -> i64 {
    let lo = match k_min {
        Some(l) => if k < l {
            l
        } else {
            k
        },
        None => k,
    };
    match k_max {
        Some(h) => if lo > h {
            h
        } else {
            lo
        },
        None => lo,
    }
}

/// Clamps every strike to the optional caps, keeping the order.
pub fn apply_hard_caps(strikes: Vec<i64>, k_min: Option<i64>, k_max: Option<i64>) -> (r: Vec<i64>)
    ensures
        r@ == strikes@.map_values(|k: i64| capped(k, k_min, k_max)),
{
    let n = strikes.len();
    let mut out: Vec<i64> = Vec::new();
    let mut i: usize = 0;
    while i < n
        invariant
            n == strikes@.len(),
            i <= n,
            out@ == strikes@.take(i as int).map_values(|k: i64| capped(k, k_min, k_max)),
        decreases n - i,
    {
        let mut k = strikes[i];
        if let Some(lo) = k_min {
            if k < lo {
                k = lo;
            }
        }
        if let Some(hi) = k_max {
            if k > hi {
                k = hi;
            }
        }
        out.push(k);
        proof {
            assert(out@ =~= strikes@.take((i + 1) as int).map_values(
                |k: i64| capped(k, k_min, k_max),
            ));
        }
        i = i + 1;
    }
    proof {
        assert(strikes@.take(n as int) =~= strikes@);
    }
    out
}

/// Some entry of `values` lies within `tol` of `x`.
pub open spec fn near_any(values: Seq<i64>, x: i64, tol: i64) -> bool {
    exists|i: int| 0 <= i < values.len() && -tol <= #[trigger] values[i] - x <= tol
}

/// Whether some entry of the ascending `values` lies within `tol` of `x`;
/// only the two entries around `x` are looked at.
pub fn is_too_close_to_any_sorted(values: &[i64], x: i64, tol: i64) -> (r: bool)
    requires
        forall|i: int, j: int| 0 <= i <= j < values@.len() ==> values@[i] <= values@[j],
    ensures
        r == near_any(values@, x, tol),
{
    let n = values.len();
    if n == 0 {
        return false;
    }
    let mut idx: usize = 0;
    while idx < n && values[idx] < x
        invariant
            n == values@.len(),
            idx <= n,
            forall|l: int| 0 <= l < idx ==> values@[l] < x,
        decreases n - idx,
    {
        idx = idx + 1;
    }
    if idx < n && (values[idx] as i128) - (x as i128) <= tol as i128 && (values[idx] as i128) - (
    x as i128) >= -(tol as i128) {
        return true;
    }
    if idx > 0 && (x as i128) - (values[idx - 1] as i128) <= tol as i128 && (x as i128) - (
    values[idx - 1] as i128) >= -(tol as i128) {
        return true;
    }
    proof {
        assert forall|i: int| 0 <= i < values@.len() implies !(-tol <= #[trigger] values@[i] - x
            <= tol) by {
            if i >= idx {
                assert(values@[idx as int] >= x);
                assert(values@[idx as int] <= values@[i]);
            } else {
                assert(values@[idx - 1] < x);
                assert(values@[i] <= values@[idx - 1]);
            }
        }
    }
    false
}

/// `n` entries of `values` spread evenly over its range (entry
/// `i * (len - 1) / (n - 1)`), or all of `values` when it has at most `n`.
pub open spec fn evenly_spaced(values: Seq<i64>, n: int) -> Seq<i64> {
    let len = values.len() as int;
    if n <= 0 || len == 0 {
        Seq::empty()
    } else if len <= n {
        values
    } else if n == 1 {
        seq![values[len / 2]]
    } else {
        Seq::new(n as nat, |i: int| values[i * (len - 1) / (n - 1)])
    }
}

/// Picks `n` evenly spread entries of `values` (see [`evenly_spaced`]).
pub fn pick_evenly_spaced(values: &[i64], n: usize) -> (r: Vec<i64>)
    ensures
        r@ == evenly_spaced(values@, n as int),
{
    let len = values.len();
    if n == 0 || len == 0 {
        return Vec::new();
    }
    if len <= n {
        let mut out: Vec<i64> = Vec::new();
        let mut i: usize = 0;
        while i < len
            invariant
                len == values@.len(),
                i <= len,
                out@ == values@.take(i as int),
            decreases len - i,
        {
            out.push(values[i]);
            proof {
                assert(out@ =~= values@.take((i + 1) as int));
            }
            i = i + 1;
        }
        proof {
            assert(values@.take(len as int) =~= values@);
        }
        return out;
    }
    if n == 1 {
        let mut out: Vec<i64> = Vec::new();
        out.push(values[len / 2]);
        proof {
            assert(out@ =~= seq![values@[(len / 2) as int]]);
        }
        return out;
    }
    let len_minus_one = (len - 1) as u128;
    let n_minus_one = (n - 1) as u128;
    let mut out: Vec<i64> = Vec::new();
    let mut i: usize = 0;
    while i < n
        invariant
            len == values@.len(),
            len > n,
            n >= 2,
            len_minus_one == len - 1,
            n_minus_one == n - 1,
            i <= n,
            out@ == Seq::new(
                i as nat,
                |l: int| values@[l * (len - 1) / (n - 1)],
            ),
        decreases n - i,
    {
        proof {
            let a = i as int;
            let b = len_minus_one as int;
            let c = n_minus_one as int;
            assert(a * b <= c * b) by (nonlinear_arith)
                requires
                    0 <= a <= c,
                    0 <= b,
            ;
            assert(c * b < 0x1_0000_0000_0000_0000 * 0x1_0000_0000_0000_0000) by (
            nonlinear_arith)
                requires
                    0 <= c < 0x1_0000_0000_0000_0000,
                    0 <= b < 0x1_0000_0000_0000_0000,
            ;
            assert(a * b / c <= b) by (nonlinear_arith)
                requires
                    0 <= a <= c,
                    0 <= b,
                    c > 0,
            ;
            assert(0 <= a * b / c) by (nonlinear_arith)
                requires
                    0 <= a,
                    0 <= b,
                    c > 0,
            ;
        }
        let idx = ((i as u128) * len_minus_one / n_minus_one) as usize;
        out.push(values[idx]);
        proof {
            assert(out@ =~= Seq::new(
                (i + 1) as nat,
                |l: int| values@[l * (len - 1) / (n - 1)],
            ));
        }
        i = i + 1;
    }
    out
}

/// The first `n` entries of `q` that are farther than `tol` from every entry
/// of `m`.
pub open spec fn far_from(q: Seq<i64>, m: Seq<i64>, tol: i64, n: int) -> Seq<i64>
    decreases n,
{
    if n <= 0 {
        Seq::empty()
    } else {
        let p = far_from(q, m, tol, n - 1);
        if near_any(m, q[n - 1], tol) {
            p
        } else {
            p.push(q[n - 1])
        }
    }
}

/// Market strikes (sorted, de-duplicated), completed up to `target_n` points
/// by evenly spread quantile strikes that are not within `tol` of a market
/// strike.
pub open spec fn merged_strikes(
    market: Seq<i64>,
    quantiles: Seq<i64>,
    target_n: int,
    tol: i64,
) -> Seq<i64> {
    let m = strike_set(market);
    if m.len() >= target_n {
        m
    } else {
        let extras = evenly_spaced(
            far_from(quantiles, m, tol, quantiles.len() as int),
            target_n - m.len(),
        );
        strike_set(m + extras)
    }
}

/// Merges market strikes with quantile strikes (see [`merged_strikes`]).
pub fn merge_market_and_quantiles(
    market_strikes: &[i64],
    quantile_strikes: &[i64],
    target_n: usize,
    distance_tol: i64,
) -> (r: Vec<i64>)
    ensures
        r@ == merged_strikes(market_strikes@, quantile_strikes@, target_n as int, distance_tol),
{
    let mut market_copy: Vec<i64> = Vec::new();
    let nm = market_strikes.len();
    let mut i: usize = 0;
    while i < nm
        invariant
            nm == market_strikes@.len(),
            i <= nm,
            market_copy@ == market_strikes@.take(i as int),
        decreases nm - i,
    {
        market_copy.push(market_strikes[i]);
        proof {
            assert(market_copy@ =~= market_strikes@.take((i + 1) as int));
        }
        i = i + 1;
    }
    proof {
        assert(market_strikes@.take(nm as int) =~= market_strikes@);
    }
    let market = sort_and_dedup_strikes(market_copy);
    if market.len() >= target_n {
        return market;
    }
    let nq = quantile_strikes.len();
    let mut candidates: Vec<i64> = Vec::new();
    let mut t: usize = 0;
    while t < nq
        invariant
            nq == quantile_strikes@.len(),
            t <= nq,
            strictly_increasing(market@),
            candidates@ == far_from(quantile_strikes@, market@, distance_tol, t as int),
        decreases nq - t,
    {
        let k = quantile_strikes[t];
        if !is_too_close_to_any_sorted(market.as_slice(), k, distance_tol) {
            candidates.push(k);
        }
        t = t + 1;
    }
    let slots = target_n - market.len();
    let extras = pick_evenly_spaced(candidates.as_slice(), slots);
    let ghost mv = market@;
    let mut merged = market;
    let ne = extras.len();
    let mut e: usize = 0;
    while e < ne
        invariant
            ne == extras@.len(),
            e <= ne,
            merged@ == mv + extras@.take(e as int),
        decreases ne - e,
    {
        merged.push(extras[e]);
        proof {
            assert(merged@ =~= mv + extras@.take((e + 1) as int));
        }
        e = e + 1;
    }
    proof {
        assert(extras@.take(ne as int) =~= extras@);
    }
    sort_and_dedup_strikes(merged)
}


proof fn lemma_push_contains(s: Seq<i64>, a: i64, x: i64)
    requires
        s.push(a).contains(x),
        x != a,
    ensures
        s.contains(x),
{
    let i = choose|i: int| 0 <= i < s.push(a).len() && #[trigger] s.push(a)[i] == x;
    assert(i < s.len());
    assert(s[i] == x);
}

proof fn lemma_positives_within(s: Seq<i64>, n: int)
    requires
        0 <= n <= s.len(),
    ensures
        forall|x: i64| #[trigger] positives(s, n).contains(x) ==> x > 0 && s.contains(x),
    decreases n,
{
    if n > 0 {
        lemma_positives_within(s, n - 1);
        let p = positives(s, n - 1);
        assert forall|x: i64| #[trigger] positives(s, n).contains(x) implies x > 0 && s.contains(x) by {
            if s[n - 1] > 0 && x == s[n - 1] {
                assert(s[n - 1] == x);
            } else {
                if s[n - 1] > 0 {
                    lemma_push_contains(p, s[n - 1], x);
                }
                assert(p.contains(x));
            }
        }
    }
}

proof fn lemma_thin_within(s: Seq<i64>, d: int, n: int)
    requires
        0 <= n <= s.len(),
    ensures
        forall|x: i64| #[trigger] thin(s, d, n).contains(x) ==> s.contains(x),
    decreases n,
{
    if n > 0 {
        lemma_thin_within(s, d, n - 1);
        let p = thin(s, d, n - 1);
        assert forall|x: i64| #[trigger] thin(s, d, n).contains(x) implies s.contains(x) by {
            if x == s[n - 1] {
                assert(s[n - 1] == x);
            } else if p.len() == 0 || s[n - 1] - p.last() >= d {
                lemma_push_contains(p, s[n - 1], x);
                assert(p.contains(x));
            } else {
                assert(p.contains(x));
            }
        }
    }
}

/// Every strike of `strike_set(s)` is a positive strike of `s`.
pub proof fn lemma_strike_set_within(s: Seq<i64>)
    ensures
        forall|x: i64| #[trigger] strike_set(s).contains(x) ==> x > 0 && s.contains(x),
{
    let p = positives(s, s.len() as int);
    lemma_positives_within(s, s.len() as int);
    lemma_le_total_ordering();
    p.lemma_sort_by_ensures(|a: i64, b: i64| a <= b);
    let a = ascending(p);
    lemma_thin_within(a, UNIQUE_TOL + 1, a.len() as int);
    assert forall|x: i64| #[trigger] strike_set(s).contains(x) implies x > 0 && s.contains(x) by {
        assert(a.contains(x));
        assert(p.contains(x));
        assert(positives(s, s.len() as int).contains(x));
    }
}

/// A positive strictly increasing sequence whose strikes are more than
/// `UNIQUE_TOL` apart is its own strike set.
pub proof fn lemma_strike_set_of_clean(s: Seq<i64>)
    requires
        forall|i: int| 0 <= i < s.len() ==> #[trigger] s[i] > 0,
        forall|a: int, b: int| 0 <= a < b < s.len() ==> s[a] + UNIQUE_TOL < s[b],
    ensures
        strike_set(s) == s,
{
    lemma_positives_all(s, s.len() as int);
    assert(s.take(s.len() as int) =~= s);
    let leq = |a: i64, b: i64| a <= b;
    lemma_le_total_ordering();
    s.lemma_sort_by_ensures(leq);
    assert(sorted_by(s, leq)) by {
        assert forall|a: int, b: int| 0 <= a < b < s.len() implies #[trigger] leq(s[a], s[b]) by {
            assert(s[a] + UNIQUE_TOL < s[b]);
        }
    }
    lemma_sorted_unique(s, s.sort_by(leq), leq);
    assert(ascending(s) == s);
    lemma_thin_all(s, s.len() as int);
}

proof fn lemma_positives_all(s: Seq<i64>, n: int)
    requires
        0 <= n <= s.len(),
        forall|i: int| 0 <= i < s.len() ==> #[trigger] s[i] > 0,
    ensures
        positives(s, n) == s.take(n),
    decreases n,
{
    if n > 0 {
        lemma_positives_all(s, n - 1);
        assert(s.take(n - 1).push(s[n - 1]) =~= s.take(n));
    } else {
        assert(s.take(0) =~= Seq::<i64>::empty());
    }
}

proof fn lemma_thin_all(s: Seq<i64>, n: int)
    requires
        0 <= n <= s.len(),
        forall|a: int, b: int| 0 <= a < b < s.len() ==> s[a] + UNIQUE_TOL < s[b],
    ensures
        thin(s, UNIQUE_TOL + 1, n) == s.take(n),
    decreases n,
{
    if n > 0 {
        lemma_thin_all(s, n - 1);
        if n > 1 {
            assert(s.take(n - 1).last() == s[n - 2]);
            assert(s[n - 2] + UNIQUE_TOL < s[n - 1]);
        }
        assert(s.take(n - 1).push(s[n - 1]) =~= s.take(n));
    } else {
        assert(s.take(0) =~= Seq::<i64>::empty());
    }
}

/// Every entry of `evenly_spaced(values, n)` is an entry of `values`.
pub proof fn lemma_evenly_spaced_within(values: Seq<i64>, n: int)
    ensures
        forall|x: i64| #[trigger] evenly_spaced(values, n).contains(x) ==> values.contains(x),
{
    let len = values.len() as int;
    assert forall|x: i64| #[trigger] evenly_spaced(values, n).contains(x) implies values.contains(
        x,
    ) by {
        let e = evenly_spaced(values, n);
        let i = choose|i: int| 0 <= i < e.len() && e[i] == x;
        if n <= 0 || len == 0 {
        } else if len <= n {
        } else if n == 1 {
            assert(values[len / 2] == x);
        } else {
            let k = i * (len - 1) / (n - 1);
            assert(0 <= k < len) by (nonlinear_arith)
                requires
                    0 <= i < n,
                    n > 1,
                    len > n,
                    k == i * (len - 1) / (n - 1),
            ;
            assert(values[k] == x);
        }
    }
}

/// Every entry of `far_from(q, m, tol, n)` is an entry of `q` farther than
/// `tol` from every entry of `m`.
pub proof fn lemma_far_from_within(q: Seq<i64>, m: Seq<i64>, tol: i64, n: int)
    requires
        0 <= n <= q.len(),
    ensures
        forall|x: i64| #[trigger] far_from(q, m, tol, n).contains(x) ==> q.contains(x) && !near_any(
            m,
            x,
            tol,
        ),
    decreases n,
{
    if n > 0 {
        lemma_far_from_within(q, m, tol, n - 1);
        let p = far_from(q, m, tol, n - 1);
        assert forall|x: i64| #[trigger] far_from(q, m, tol, n).contains(x) implies q.contains(x)
            && !near_any(m, x, tol) by {
            if !near_any(m, q[n - 1], tol) && x == q[n - 1] {
                assert(q[n - 1] == x);
            } else if !near_any(m, q[n - 1], tol) {
                lemma_push_contains(p, q[n - 1], x);
                assert(p.contains(x));
            } else {
                assert(p.contains(x));
            }
        }
    }
}


proof fn lemma_positives_keeps(s: Seq<i64>, n: int)
    requires
        0 <= n <= s.len(),
    ensures
        forall|i: int| 0 <= i < n && s[i] > 0 ==> #[trigger] positives(s, n).contains(s[i]),
    decreases n,
{
    if n > 0 {
        lemma_positives_keeps(s, n - 1);
        let p = positives(s, n - 1);
        assert forall|i: int| 0 <= i < n && s[i] > 0 implies #[trigger] positives(s, n).contains(
            s[i],
        ) by {
            if i == n - 1 {
                assert(p.push(s[n - 1])[p.len() as int] == s[i]);
            } else {
                assert(p.contains(s[i]));
                let t = choose|t: int| 0 <= t < p.len() && p[t] == s[i];
                if s[n - 1] > 0 {
                    assert(p.push(s[n - 1])[t] == s[i]);
                }
            }
        }
    }
}

proof fn lemma_thin_prefix(s: Seq<i64>, d: int, n: int)
    requires
        0 <= n <= s.len(),
    ensures
        forall|x: i64| #[trigger] thin(s, d, n).contains(x) ==> exists|i: int|
            0 <= i < n && s[i] == x,
    decreases n,
{
    if n > 0 {
        lemma_thin_prefix(s, d, n - 1);
        let p = thin(s, d, n - 1);
        assert forall|x: i64| #[trigger] thin(s, d, n).contains(x) implies exists|i: int|
            0 <= i < n && s[i] == x by {
            if x == s[n - 1] {
                assert(s[n - 1] == x);
            } else if p.len() == 0 || s[n - 1] - p.last() >= d {
                lemma_push_contains(p, s[n - 1], x);
                let i = choose|i: int| 0 <= i < n - 1 && s[i] == x;
                assert(s[i] == x);
            } else {
                assert(p.contains(x));
                let i = choose|i: int| 0 <= i < n - 1 && s[i] == x;
                assert(s[i] == x);
            }
        }
    }
}

proof fn lemma_thin_keeps(a: Seq<i64>, y: i64, n: int)
    requires
        0 <= n <= a.len(),
        forall|i: int, j: int| 0 <= i <= j < a.len() ==> a[i] <= a[j],
        forall|z: i64| a.contains(z) && z < y ==> y - z >= UNIQUE_TOL + 1,
    ensures
        (exists|i: int| 0 <= i < n && a[i] == y) ==> thin(a, UNIQUE_TOL + 1, n).contains(y),
    decreases n,
{
    let d = UNIQUE_TOL + 1;
    if n > 0 {
        lemma_thin_keeps(a, y, n - 1);
        let p = thin(a, d, n - 1);
        if exists|i: int| 0 <= i < n && a[i] == y {
            if p.contains(y) {
                let t = choose|t: int| 0 <= t < p.len() && p[t] == y;
                if p.len() == 0 || a[n - 1] - p.last() >= d {
                    assert(p.push(a[n - 1])[t] == y);
                }
            } else {
                assert(a[n - 1] == y);
                if p.len() > 0 {
                    lemma_thin_prefix(a, d, n - 1);
                    assert(p.contains(p.last()));
                    let i = choose|i: int| 0 <= i < n - 1 && a[i] == p.last();
                    assert(a[i] <= a[n - 1]);
                    assert(a.contains(a[i]));
                    assert(a[i] != y);
                    assert(y - p.last() >= d);
                }
                assert(p.push(a[n - 1])[p.len() as int] == y);
            }
        }
    }
}

/// `strike_set(s)` keeps a positive strike `y` of `s` when no strike of `s`
/// lies less than `UNIQUE_TOL + 1` below it.
pub proof fn lemma_strike_set_keeps(s: Seq<i64>, y: i64)
    requires
        s.contains(y),
        y > 0,
        forall|z: i64| s.contains(z) && z < y ==> y - z >= UNIQUE_TOL + 1,
    ensures
        strike_set(s).contains(y),
{
    let p = positives(s, s.len() as int);
    lemma_positives_keeps(s, s.len() as int);
    lemma_positives_within(s, s.len() as int);
    let i = choose|i: int| 0 <= i < s.len() && s[i] == y;
    assert(p.contains(s[i]));
    let leq = |a: i64, b: i64| a <= b;
    lemma_le_total_ordering();
    p.lemma_sort_by_ensures(leq);
    let a = ascending(p);
    assert(p.to_multiset().count(y) > 0);
    assert(a.contains(y));
    assert forall|z: i64| a.contains(z) && z < y implies y - z >= UNIQUE_TOL + 1 by {
        assert(p.contains(z));
        assert(s.contains(z));
    }
    assert forall|x: int, w: int| 0 <= x <= w < a.len() implies a[x] <= a[w] by {
        if x < w {
            assert(leq(a[x], a[w]));
        }
    }
    let k = choose|k: int| 0 <= k < a.len() && a[k] == y;
    lemma_thin_keeps(a, y, a.len() as int);
}


/// Every strike of `spaced(s, min_spacing)` is a strike of `s`.
pub proof fn lemma_spaced_within(s: Seq<i64>, min_spacing: Option<i64>)
    ensures
        forall|x: i64| #[trigger] spaced(s, min_spacing).contains(x) ==> s.contains(x),
{
    if let Some(v) = min_spacing {
        if v > 0 {
            lemma_thin_within(s, v as int, s.len() as int);
        }
    }
}

proof fn lemma_positives_len(s: Seq<i64>, n: int)
    requires
        0 <= n <= s.len(),
    ensures
        positives(s, n).len() <= n,
    decreases n,
{
    if n > 0 {
        lemma_positives_len(s, n - 1);
    }
}

proof fn lemma_thin_len(s: Seq<i64>, d: int, n: int)
    requires
        0 <= n <= s.len(),
    ensures
        thin(s, d, n).len() <= n,
    decreases n,
{
    if n > 0 {
        lemma_thin_len(s, d, n - 1);
    }
}

/// `strike_set(s)` has at most as many strikes as `s`.
pub proof fn lemma_strike_set_len(s: Seq<i64>)
    ensures
        strike_set(s).len() <= s.len(),
{
    let p = positives(s, s.len() as int);
    lemma_positives_len(s, s.len() as int);
    lemma_le_total_ordering();
    p.lemma_sort_by_ensures(|a: i64, b: i64| a <= b);
    let a = ascending(p);
    assert(a.len() == a.to_multiset().len());
    assert(p.len() == p.to_multiset().len());
    lemma_thin_len(a, UNIQUE_TOL + 1, a.len() as int);
}

/// `evenly_spaced(values, n)` has at most `n` entries (none when `n <= 0`).
pub proof fn lemma_evenly_spaced_len(values: Seq<i64>, n: int)
    ensures
        evenly_spaced(values, n).len() <= if n > 0 {
            n
        } else {
            0
        },
{
}

} // verus!
