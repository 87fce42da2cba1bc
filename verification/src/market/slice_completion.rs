//! Practical completion of an internal call slice (Remark 2.8): outer strikes
//! `K1 < K2` and `KN > K_last` are chosen so that the completed piecewise
//! linear call curve through `(0, 1)`, `(K1, 1 - K1)`, the internal nodes and
//! `(KN, 0)` has strictly increasing slopes, and the node density is read from
//! the slope increments.
//!
//! Strikes and calls are fixed-point values; slopes are fixed-point values
//! rounded toward zero and held in `i128`.
use vstd::prelude::*;
use vstd::string::StringExecFns;
use crate::error::{SanosError, SanosResult};
use crate::market::completion::{completion_failure, CompletionConfig};
use crate::text::{count_digits, count_string, wide_string, wide_text};
use crate::UNIT;

verus! {

/// `a / b` rounded toward zero (for `b > 0`).
pub open spec fn quot(a: int, b: int) -> int {
    if a >= 0 {
        a / b
    } else {
        -((-a) / b)
    }
}

/// Slope of the call curve between the nodes `(k0, c0)` and `(k1, c1)`, in
/// fixed point, rounded toward zero.
pub open spec fn slope(k0: int, c0: int, k1: int, c1: int) -> int {
    quot((c1 - c0) * (UNIT as int), k1 - k0)
}

/// Slope of the internal slice between its nodes `i` and `i + 1`.
pub open spec fn internal_slope(k: Seq<i64>, c: Seq<i64>, i: int) -> int {
    slope(k[i] as int, c[i] as int, k[i + 1] as int, c[i + 1] as int)
}

/// Text of a fixed-point quantity.
pub open spec fn num(v: int) -> Seq<char> {
    wide_text(v as i128)
}

/// Text of a position or a count.
pub open spec fn pos(i: int) -> Seq<char> {
    count_digits(i as usize)
}

/// The check of node `i` of the internal slice: positive strike, call
/// strictly between 0 and 1, and (after the first node) strictly increasing
/// strikes and calls that do not rise by more than `tol`.
pub open spec fn point_failure(k: Seq<i64>, c: Seq<i64>, tol: i64, i: int) -> Option<Seq<char>> {
    if k[i] <= 0 {
        Some("invalid strike at i="@ + pos(i) + ": K="@ + num(k[i] as int) + " must be > 0"@)
    } else if !(0 < c[i] && c[i] < UNIT) {
        Some(
            "invalid call at i="@ + pos(i) + ": C="@ + num(c[i] as int)
                + " must satisfy 0 < C < 1"@,
        )
    } else if i > 0 && k[i] <= k[i - 1] {
        Some(
            "strikes not strictly increasing at i="@ + pos(i) + ": K_prev="@ + num(
                k[i - 1] as int,
            ) + ", K="@ + num(k[i] as int),
        )
    } else if i > 0 && c[i] > c[i - 1] + tol {
        Some(
            "calls not monotone decreasing at i="@ + pos(i) + ": C_prev="@ + num(c[i - 1] as int)
                + ", C="@ + num(c[i] as int) + ", tol="@ + num(tol as int),
        )
    } else {
        None
    }
}

/// The first failing node check among the first `n` nodes.
pub open spec fn first_point_failure(k: Seq<i64>, c: Seq<i64>, tol: i64, n: int) -> Option<
    Seq<char>,
>
    decreases n,
{
    if n <= 0 {
        None
    } else {
        match first_point_failure(k, c, tol, n - 1) {
            Some(m) => Some(m),
            None => point_failure(k, c, tol, n - 1),
        }
    }
}

/// The first interval `i` in `1..m` whose slope falls more than `tol` below
/// the slope of the interval before it.
pub open spec fn convexity_failure(k: Seq<i64>, c: Seq<i64>, tol: i64, m: int) -> Option<
    Seq<char>,
>
    decreases m,
{
    if m <= 1 {
        None
    } else {
        match convexity_failure(k, c, tol, m - 1) {
            Some(msg) => Some(msg),
            None => {
                let i = m - 1;
                if internal_slope(k, c, i) + tol < internal_slope(k, c, i - 1) {
                    Some(
                        "internal convexity violated between intervals "@ + pos(i - 1)
                            + " and "@ + pos(i) + ": slope_prev="@ + num(
                            internal_slope(k, c, i - 1),
                        ) + ", slope="@ + num(internal_slope(k, c, i)) + ", tol="@ + num(
                            tol as int,
                        ),
                    )
                } else {
                    None
                }
            },
        }
    }
}

/// Message of the first failing check of an internal slice, if any: equal
/// lengths, at least three nodes, the node checks in order, strikes that
/// straddle 1, then convexity within `tol`.
pub open spec fn internal_failure(k: Seq<i64>, c: Seq<i64>, tol: i64) -> Option<Seq<char>> {
    if k.len() != c.len() {
        Some(
            "internal slice length mismatch: strikes="@ + pos(k.len() as int) + ", calls="@ + pos(
                c.len() as int,
            ),
        )
    } else if k.len() < 3 {
        Some(
            "Remark 2.8 strict completion requires at least 3 internal strikes, got "@ + pos(
                k.len() as int,
            ),
        )
    } else if first_point_failure(k, c, tol, k.len() as int) is Some {
        first_point_failure(k, c, tol, k.len() as int)
    } else if !(k[0] < UNIT && k[k.len() - 1] > UNIT) {
        Some(
            "internal strikes must straddle 1.0: K_min="@ + num(k[0] as int) + ", K_max="@ + num(
                k[k.len() - 1] as int,
            ),
        )
    } else {
        convexity_failure(k, c, tol, k.len() - 1)
    }
}

proof fn lemma_no_point_failure(k: Seq<i64>, c: Seq<i64>, tol: i64, n: int, i: int)
    requires
        first_point_failure(k, c, tol, n) is None,
        0 <= i < n,
    ensures
        point_failure(k, c, tol, i) is None,
    decreases n,
{
    if i < n - 1 {
        lemma_no_point_failure(k, c, tol, n - 1, i);
    }
}

proof fn lemma_point_failure_sticky(k: Seq<i64>, c: Seq<i64>, tol: i64, m: int, n: int)
    requires
        0 <= m <= n,
        first_point_failure(k, c, tol, m) is Some,
    ensures
        first_point_failure(k, c, tol, n) == first_point_failure(k, c, tol, m),
    decreases n - m,
{
    if m < n {
        lemma_point_failure_sticky(k, c, tol, m, n - 1);
    }
}

proof fn lemma_convexity_failure_sticky(k: Seq<i64>, c: Seq<i64>, tol: i64, m: int, n: int)
    requires
        0 <= m <= n,
        convexity_failure(k, c, tol, m) is Some,
    ensures
        convexity_failure(k, c, tol, n) == convexity_failure(k, c, tol, m),
    decreases n - m,
{
    if m < n {
        lemma_convexity_failure_sticky(k, c, tol, m, n - 1);
    }
}

/// Fixed-point slope between two nodes, rounded toward zero.
fn slope_of(k0: i64, c0: i64, k1: i64, c1: i64) -> (r: i128)
    requires
        k0 < k1,
    ensures
        r == slope(k0 as int, c0 as int, k1 as int, c1 as int),
{
    let d: i128 = (c1 as i128) - (c0 as i128);
    proof {
        assert(-0x1_0000_0000_0000_0000 <= d <= 0x1_0000_0000_0000_0000);
        assert(-0x1_0000_0000_0000_0000_0000_0000_0000 <= d * 1_000_000_000_000
            <= 0x1_0000_0000_0000_0000_0000_0000_0000) by (nonlinear_arith)
            requires
                -0x1_0000_0000_0000_0000 <= d <= 0x1_0000_0000_0000_0000,
        ;
    }
    let num: i128 = d * (UNIT as i128);
    let den: i128 = (k1 as i128) - (k0 as i128);
    quot_of(num, den)
}

/// `a / b` rounded toward zero.
fn quot_of(a: i128, b: i128) -> (r: i128)
    requires
        b >= 1,
        a > i128::MIN,
    ensures
        r == quot(a as int, b as int),
{
    if a >= 0 {
        a / b
    } else {
        let m: i128 = -a;
        proof {
            assert(m / b <= m) by (nonlinear_arith)
                requires
                    m >= 0,
                    b >= 1,
            ;
        }
        -(m / b)
    }
}

/// Appends the text of a fixed-point quantity.
fn push_num(m: &mut String, v: i128)
    ensures
        final(m)@ == old(m)@ + wide_text(v),
{
    let t = wide_string(v);
    m.append(t.as_str());
}

/// Appends the text of a position or count.
fn push_pos(m: &mut String, i: usize)
    ensures
        final(m)@ == old(m)@ + count_digits(i),
{
    let t = count_string(i);
    m.append(t.as_str());
}

/// Checks an internal call slice: equal lengths, at least three nodes,
/// positive strictly increasing strikes, calls strictly between 0 and 1 that
/// rise by at most `tol`, strikes that straddle 1, and slopes that fall by at
/// most `tol` from one interval to the next. Failures are `External`, with
/// the message of [`internal_failure`].
pub fn validate_internal_slice(k: &[i64], c: &[i64], tol: i64) -> (r: SanosResult<()>)
    ensures
        r is Ok <==> internal_failure(k@, c@, tol) is None,
        r matches Err(e) ==> (e matches SanosError::External { msg } && Some(msg@)
            == internal_failure(k@, c@, tol)),
{
    if k.len() != c.len() {
        let mut m = "internal slice length mismatch: strikes=".to_owned();
        push_pos(&mut m, k.len());
        m.append(", calls=");
        push_pos(&mut m, c.len());
        return Err(SanosError::External { msg: m });
    }
    let n = k.len();
    if n < 3 {
        let mut m = "Remark 2.8 strict completion requires at least 3 internal strikes, got ".to_owned();
        push_pos(&mut m, n);
        return Err(SanosError::External { msg: m });
    }
    let mut i: usize = 0;
    while i < n
        invariant
            n == k@.len(),
            n == c@.len(),
            n >= 3,
            i <= n,
            first_point_failure(k@, c@, tol, i as int) is None,
        decreases n - i,
    {
        let ki = k[i];
        let ci = c[i];
        if ki <= 0 {
            let mut m = "invalid strike at i=".to_owned();
            push_pos(&mut m, i);
            m.append(": K=");
            push_num(&mut m, ki as i128);
            m.append(" must be > 0");
            proof {
                lemma_point_failure_sticky(k@, c@, tol, i + 1, n as int);
            }
            return Err(SanosError::External { msg: m });
        }
        if !(0 < ci && ci < UNIT) {
            let mut m = "invalid call at i=".to_owned();
            push_pos(&mut m, i);
            m.append(": C=");
            push_num(&mut m, ci as i128);
            m.append(" must satisfy 0 < C < 1");
            proof {
                lemma_point_failure_sticky(k@, c@, tol, i + 1, n as int);
            }
            return Err(SanosError::External { msg: m });
        }
        if i > 0 {
            let kp = k[i - 1];
            let cp = c[i - 1];
            if ki <= kp {
                let mut m = "strikes not strictly increasing at i=".to_owned();
                push_pos(&mut m, i);
                m.append(": K_prev=");
                push_num(&mut m, kp as i128);
                m.append(", K=");
                push_num(&mut m, ki as i128);
                proof {
                    lemma_point_failure_sticky(k@, c@, tol, i + 1, n as int);
                }
                return Err(SanosError::External { msg: m });
            }
            if (ci as i128) > (cp as i128) + (tol as i128) {
                let mut m = "calls not monotone decreasing at i=".to_owned();
                push_pos(&mut m, i);
                m.append(": C_prev=");
                push_num(&mut m, cp as i128);
                m.append(", C=");
                push_num(&mut m, ci as i128);
                m.append(", tol=");
                push_num(&mut m, tol as i128);
                proof {
                    lemma_point_failure_sticky(k@, c@, tol, i + 1, n as int);
                }
                return Err(SanosError::External { msg: m });
            }
        }
        i = i + 1;
    }
    if !(k[0] < UNIT && k[n - 1] > UNIT) {
        let mut m = "internal strikes must straddle 1.0: K_min=".to_owned();
        push_num(&mut m, k[0] as i128);
        m.append(", K_max=");
        push_num(&mut m, k[n - 1] as i128);
        return Err(SanosError::External { msg: m });
    }
    proof {
        lemma_no_point_failure(k@, c@, tol, n as int, 1);
    }
    let mut prev: i128 = slope_of(k[0], c[0], k[1], c[1]);
    let mut j: usize = 1;
    while j < n - 1
        invariant
            n == k@.len(),
            n == c@.len(),
            n >= 3,
            1 <= j <= n - 1,
            first_point_failure(k@, c@, tol, n as int) is None,
            k@[0] < UNIT,
            k@[n - 1] > UNIT,
            convexity_failure(k@, c@, tol, j as int) is None,
            prev == internal_slope(k@, c@, j - 1),
        decreases n - 1 - j,
    {
        proof {
            lemma_no_point_failure(k@, c@, tol, n as int, j + 1);
        }
        let s = slope_of(k[j], c[j], k[j + 1], c[j + 1]);
        if s + (tol as i128) < prev {
            let mut m = "internal convexity violated between intervals ".to_owned();
            push_pos(&mut m, j - 1);
            m.append(" and ");
            push_pos(&mut m, j);
            m.append(": slope_prev=");
            push_num(&mut m, prev);
            m.append(", slope=");
            push_num(&mut m, s);
            m.append(", tol=");
            push_num(&mut m, tol as i128);
            proof {
                lemma_convexity_failure_sticky(k@, c@, tol, j + 1, n - 1);
            }
            return Err(SanosError::External { msg: m });
        }
        prev = s;
        j = j + 1;
    }
    Ok(())
}


/// `x` raised to `lo` and then lowered to `hi`.
pub open spec fn clamp_to(x: int, lo: int, hi: int) -> int {
    let y = if x < lo {
        lo
    } else {
        x
    };
    if y > hi {
        hi
    } else {
        y
    }
}

/// `x` held within the hard caps on `K1`, when there are caps.
pub open spec fn left_capped(x: int, cfg: CompletionConfig) -> int {
    match cfg.hard_caps {
        Some(h) => clamp_to(x, h.k1_min as int, h.k1_max as int),
        None => x,
    }
}

/// `x` held within the hard caps on `KN`, when there are caps.
pub open spec fn right_capped(x: int, cfg: CompletionConfig) -> int {
    match cfg.hard_caps {
        Some(h) => clamp_to(x, h.k_n_min as int, h.k_n_max as int),
        None => x,
    }
}

/// Slope `dC1` between `(K1, 1 - K1)` and `(K2, C2)`.
pub open spec fn left_slope(k1: int, k2: int, c2: int) -> int {
    slope(k1, UNIT - k1, k2, c2)
}

/// `-1 + margin < dC1` and `dC1 + margin < dC2`.
pub open spec fn k1_admissible(k1: int, k2: int, c2: int, d_c2: int, margin: int) -> bool {
    -UNIT + margin < left_slope(k1, k2, c2) && left_slope(k1, k2, c2) + margin < d_c2
}

/// The search for `K1` from candidate `k1` with `iters` steps left: stop
/// at an admissible candidate, else halve it (within the caps) while the
/// result stays in `(0, K2)` and moves. Gives whether an admissible
/// candidate was found and the last candidate.
pub open spec fn k1_search(
    k1: int,
    k2: int,
    c2: int,
    d_c2: int,
    cfg: CompletionConfig,
    iters: nat,
) -> (bool, int)
    decreases iters,
{
    if iters == 0 {
        (false, k1)
    } else if k1_admissible(k1, k2, c2, d_c2, cfg.slope_margin as int) {
        (true, k1)
    } else {
        let next = left_capped(k1 / 2, cfg);
        if next <= 0 || next >= k2 || next == k1 {
            (false, k1)
        } else {
            k1_search(next, k2, c2, d_c2, cfg, (iters - 1) as nat)
        }
    }
}

/// First candidate for `K1`: `k1_ratio * K2`, within the caps.
pub open spec fn initial_k1(k2: int, cfg: CompletionConfig) -> int {
    left_capped(quot(cfg.k1_ratio * k2, UNIT as int), cfg)
}

/// The choice of `K1` for the internal node `(K2, C2)` whose right slope is
/// `dC2`, or the message of its failure.
pub open spec fn k1_outcome(k2: int, c2: int, d_c2: int, cfg: CompletionConfig) -> Result<
    int,
    Seq<char>,
> {
    let k1 = initial_k1(k2, cfg);
    if k1 <= 0 || k1 >= k2 {
        Err("invalid initial K1 candidate: K1="@ + num(k1) + ", K2="@ + num(k2))
    } else {
        let found = k1_search(k1, k2, c2, d_c2, cfg, cfg.max_iters as nat);
        if found.0 {
            Ok(found.1)
        } else {
            Err(
                "failed to find K1 satisfying -1 < dC1 < dC2 with margin: K1="@ + num(found.1)
                    + ", K2="@ + num(k2) + ", C2="@ + num(c2) + ", dC1="@ + num(
                    left_slope(found.1, k2, c2),
                ) + ", dC2="@ + num(d_c2) + ", margin="@ + num(cfg.slope_margin as int),
            )
        }
    }
}

/// Slope `dC_last1` between `(K_last, C_last)` and `(KN, 0)`.
pub open spec fn right_slope(kn: int, k_last: int, c_last: int) -> int {
    slope(k_last, c_last, kn, 0)
}

/// `dC_last2 + margin < dC_last1` and `dC_last1 + margin < 0`.
pub open spec fn kn_admissible(
    kn: int,
    k_last: int,
    c_last: int,
    d_last2: int,
    margin: int,
) -> bool {
    d_last2 + margin < right_slope(kn, k_last, c_last) && right_slope(kn, k_last, c_last)
        + margin < 0
}

/// The search for `KN` from candidate `kn` with `iters` steps left: stop
/// at an admissible candidate, else multiply it by 1.5 (within the caps)
/// while the result stays representable, above `K_last`, and moves.
pub open spec fn kn_search(
    kn: int,
    k_last: int,
    c_last: int,
    d_last2: int,
    cfg: CompletionConfig,
    iters: nat,
) -> (bool, int)
    decreases iters,
{
    if iters == 0 {
        (false, kn)
    } else if kn_admissible(kn, k_last, c_last, d_last2, cfg.slope_margin as int) {
        (true, kn)
    } else {
        let next = right_capped(kn + kn / 2, cfg);
        if next > i64::MAX || next <= k_last || next == kn {
            (false, kn)
        } else {
            kn_search(next, k_last, c_last, d_last2, cfg, (iters - 1) as nat)
        }
    }
}

/// First candidate for `KN`: `kN_ratio * K_last`, within the caps.
pub open spec fn initial_kn(k_last: int, cfg: CompletionConfig) -> int {
    right_capped(quot(cfg.k_n_ratio * k_last, UNIT as int), cfg)
}

/// The choice of `KN` for the last internal node `(K_last, C_last)` whose
/// left slope is `dC_last2`, or the message of its failure.
pub open spec fn kn_outcome(k_last: int, c_last: int, d_last2: int, cfg: CompletionConfig) -> Result<
    int,
    Seq<char>,
> {
    let kn = initial_kn(k_last, cfg);
    if kn > i64::MAX || kn <= k_last {
        Err("invalid initial KN candidate: KN="@ + num(kn) + ", K_last="@ + num(k_last))
    } else {
        let found = kn_search(kn, k_last, c_last, d_last2, cfg, cfg.max_iters as nat);
        if found.0 {
            Ok(found.1)
        } else {
            Err(
                "failed to find KN satisfying dC_last2 < dC_last1 < 0 with margin: KN="@ + num(
                    found.1,
                ) + ", K_last="@ + num(k_last) + ", C_last="@ + num(c_last) + ", dC_last2="@
                    + num(d_last2) + ", dC_last1="@ + num(right_slope(found.1, k_last, c_last))
                    + ", margin="@ + num(cfg.slope_margin as int),
            )
        }
    }
}

proof fn lemma_product_bound(a: i64, b: i64)
    ensures
        -0x4000_0000_0000_0000_0000_0000_0000_0000 <= (a as int) * (b as int)
            <= 0x4000_0000_0000_0000_0000_0000_0000_0000,
{
    assert(-0x4000_0000_0000_0000_0000_0000_0000_0000 <= (a as int) * (b as int)
        <= 0x4000_0000_0000_0000_0000_0000_0000_0000) by (nonlinear_arith)
        requires
            -0x8000_0000_0000_0000 <= a < 0x8000_0000_0000_0000,
            -0x8000_0000_0000_0000 <= b < 0x8000_0000_0000_0000,
    ;
}

/// `x` held within the caps `(lo, hi)`, when there are caps.
fn capped(x: i128, caps: Option<(i64, i64)>) -> (r: i128)
    ensures
        r == match caps {
            Some(b) => clamp_to(x as int, b.0 as int, b.1 as int),
            None => x as int,
        },
{
    match caps {
        Some(b) => {
            let y = if x < (b.0 as i128) {
                b.0 as i128
            } else {
                x
            };
            if y > (b.1 as i128) {
                b.1 as i128
            } else {
                y
            }
        },
        None => x,
    }
}

/// Chooses `K1` below the first internal strike `K2` (see [`k1_outcome`]).
fn choose_k1(k2: i64, c2: i64, d_c2: i128, cfg: &CompletionConfig) -> (r: SanosResult<i64>)
    requires
        k2 > 0,
    ensures
        r is Ok <==> k1_outcome(k2 as int, c2 as int, d_c2 as int, *cfg) is Ok,
        r matches Ok(v) ==> k1_outcome(k2 as int, c2 as int, d_c2 as int, *cfg) == Ok::<
            int,
            Seq<char>,
        >(v as int) && 0 < v < k2,
        r matches Err(e) ==> (e matches SanosError::External { msg } && k1_outcome(
            k2 as int,
            c2 as int,
            d_c2 as int,
            *cfg,
        ) == Err::<int, Seq<char>>(msg@)),
{
    let caps: Option<(i64, i64)> = match cfg.hard_caps {
        Some(h) => Some((h.k1_min, h.k1_max)),
        None => None,
    };
    proof {
        lemma_product_bound(cfg.k1_ratio, k2);
    }
    let prod: i128 = (cfg.k1_ratio as i128) * (k2 as i128);
    let mut k1: i128 = capped(quot_of(prod, UNIT as i128), caps);
    if k1 <= 0 || k1 >= (k2 as i128) {
        let mut m = "invalid initial K1 candidate: K1=".to_owned();
        push_num(&mut m, k1);
        m.append(", K2=");
        push_num(&mut m, k2 as i128);
        return Err(SanosError::External { msg: m });
    }
    let ghost k1_0 = k1 as int;
    let margin: i128 = cfg.slope_margin as i128;
    let mut it: usize = 0;
    loop
        invariant
            0 < k1 < k2,
            k1_0 == initial_k1(k2 as int, *cfg),
            0 < k1_0 < k2,
            it <= cfg.max_iters,
            margin == cfg.slope_margin,
            caps == (match cfg.hard_caps {
                Some(h) => Some((h.k1_min, h.k1_max)),
                None => None,
            }),
            k1_search(k1 as int, k2 as int, c2 as int, d_c2 as int, *cfg, (cfg.max_iters - it) as nat)
                == k1_search(k1_0, k2 as int, c2 as int, d_c2 as int, *cfg, cfg.max_iters as nat),
        ensures
            0 < k1 < k2,
            k1_search(k1_0, k2 as int, c2 as int, d_c2 as int, *cfg, cfg.max_iters as nat) == (
            false,
            k1 as int,
            ),
        decreases cfg.max_iters - it,
    {
        if it >= cfg.max_iters {
            break;
        }
        let d1 = slope_of(k1 as i64, (UNIT as i128 - k1) as i64, k2, c2);
        if -(UNIT as i128) + margin < d1 && d1 + margin < d_c2 {
            return Ok(k1 as i64);
        }
        let next = capped(k1 / 2, caps);
        if next <= 0 || next >= (k2 as i128) || next == k1 {
            break;
        }
        k1 = next;
        it = it + 1;
    }
    let d1 = slope_of(k1 as i64, (UNIT as i128 - k1) as i64, k2, c2);
    let mut m = "failed to find K1 satisfying -1 < dC1 < dC2 with margin: K1=".to_owned();
    push_num(&mut m, k1);
    m.append(", K2=");
    push_num(&mut m, k2 as i128);
    m.append(", C2=");
    push_num(&mut m, c2 as i128);
    m.append(", dC1=");
    push_num(&mut m, d1);
    m.append(", dC2=");
    push_num(&mut m, d_c2);
    m.append(", margin=");
    push_num(&mut m, margin);
    Err(SanosError::External { msg: m })
}

/// Chooses `KN` above the last internal strike `K_last` (see
/// [`kn_outcome`]).
fn choose_k_n(k_last: i64, c_last: i64, d_last2: i128, cfg: &CompletionConfig) -> (r: SanosResult<
    i64,
>)
    requires
        k_last > 0,
        -0x1_0000_0000_0000_0000_0000_0000_0000 <= d_last2 <= 0x1_0000_0000_0000_0000_0000_0000_0000,
    ensures
        r is Ok <==> kn_outcome(k_last as int, c_last as int, d_last2 as int, *cfg) is Ok,
        r matches Ok(v) ==> kn_outcome(k_last as int, c_last as int, d_last2 as int, *cfg)
            == Ok::<int, Seq<char>>(v as int) && k_last < v,
        r matches Err(e) ==> (e matches SanosError::External { msg } && kn_outcome(
            k_last as int,
            c_last as int,
            d_last2 as int,
            *cfg,
        ) == Err::<int, Seq<char>>(msg@)),
{
    let caps: Option<(i64, i64)> = match cfg.hard_caps {
        Some(h) => Some((h.k_n_min, h.k_n_max)),
        None => None,
    };
    proof {
        lemma_product_bound(cfg.k_n_ratio, k_last);
    }
    let prod: i128 = (cfg.k_n_ratio as i128) * (k_last as i128);
    let mut kn: i128 = capped(quot_of(prod, UNIT as i128), caps);
    if kn > (i64::MAX as i128) || kn <= (k_last as i128) {
        let mut m = "invalid initial KN candidate: KN=".to_owned();
        push_num(&mut m, kn);
        m.append(", K_last=");
        push_num(&mut m, k_last as i128);
        return Err(SanosError::External { msg: m });
    }
    let ghost kn_0 = kn as int;
    let margin: i128 = cfg.slope_margin as i128;
    let mut it: usize = 0;
    loop
        invariant
            0 < k_last < kn <= i64::MAX,
            kn_0 == initial_kn(k_last as int, *cfg),
            k_last < kn_0 <= i64::MAX,
            -0x1_0000_0000_0000_0000_0000_0000_0000 <= d_last2 <= 0x1_0000_0000_0000_0000_0000_0000_0000,
            it <= cfg.max_iters,
            margin == cfg.slope_margin,
            caps == (match cfg.hard_caps {
                Some(h) => Some((h.k_n_min, h.k_n_max)),
                None => None,
            }),
            kn_search(kn as int, k_last as int, c_last as int, d_last2 as int, *cfg, (cfg.max_iters - it) as nat)
                == kn_search(kn_0, k_last as int, c_last as int, d_last2 as int, *cfg, cfg.max_iters as nat),
        ensures
            k_last < kn <= i64::MAX,
            kn_search(kn_0, k_last as int, c_last as int, d_last2 as int, *cfg, cfg.max_iters as nat) == (
            false,
            kn as int,
            ),
        decreases cfg.max_iters - it,
    {
        if it >= cfg.max_iters {
            break;
        }
        let d1 = slope_of(k_last, c_last, kn as i64, 0);
        if d_last2 + margin < d1 && d1 + margin < 0 {
            return Ok(kn as i64);
        }
        let next = capped(kn + kn / 2, caps);
        if next > (i64::MAX as i128) || next <= (k_last as i128) || next == kn {
            break;
        }
        kn = next;
        it = it + 1;
    }
    let d1 = slope_of(k_last, c_last, kn as i64, 0);
    let mut m = "failed to find KN satisfying dC_last2 < dC_last1 < 0 with margin: KN=".to_owned();
    push_num(&mut m, kn);
    m.append(", K_last=");
    push_num(&mut m, k_last as i128);
    m.append(", C_last=");
    push_num(&mut m, c_last as i128);
    m.append(", dC_last2=");
    push_num(&mut m, d_last2);
    m.append(", dC_last1=");
    push_num(&mut m, d1);
    m.append(", margin=");
    push_num(&mut m, margin);
    Err(SanosError::External { msg: m })
}


/// Diagnostics of a completed slice: the outer strikes, the five slopes
/// around the wings, and the total, mean and smallest node probability
/// (fixed point).
#[derive(Debug, Clone, PartialEq, Eq)]
pub struct CompletionDiagnostics {
    pub k1: i64,
    pub k_n: i64,
    pub d_c0: i128,
    pub d_c1: i128,
    pub d_c2: i128,
    pub d_c_last2: i128,
    pub d_c_last1: i128,
    pub sum_p: i128,
    pub mean_p: i128,
    pub min_p: i128,
}

/// A completed slice: strikes and calls of the completed curve, its slopes
/// (one per interval, then a final 0), the node density, and diagnostics.
#[derive(Debug, Clone, PartialEq, Eq)]
pub struct CompletedSlice {
    pub k: Vec<i64>,
    pub calls: Vec<i64>,
    pub slopes: Vec<i128>,
    pub density: Vec<i128>,
    pub diagnostics: CompletionDiagnostics,
}

/// Entries as integers.
pub open spec fn wide(s: Seq<i128>) -> Seq<int> {
    s.map_values(|x: i128| x as int)
}

/// Mathematical content of a completed slice.
pub struct CompletionModel {
    pub k: Seq<i64>,
    pub calls: Seq<i64>,
    pub slopes: Seq<int>,
    pub density: Seq<int>,
    pub k1: int,
    pub k_n: int,
    pub d_c0: int,
    pub d_c1: int,
    pub d_c2: int,
    pub d_c_last2: int,
    pub d_c_last1: int,
    pub sum_p: int,
    pub mean_p: int,
    pub min_p: int,
}

impl View for CompletedSlice {
    type V = CompletionModel;

    open spec fn view(&self) -> CompletionModel {
        CompletionModel {
            k: self.k@,
            calls: self.calls@,
            slopes: wide(self.slopes@),
            density: wide(self.density@),
            k1: self.diagnostics.k1 as int,
            k_n: self.diagnostics.k_n as int,
            d_c0: self.diagnostics.d_c0 as int,
            d_c1: self.diagnostics.d_c1 as int,
            d_c2: self.diagnostics.d_c2 as int,
            d_c_last2: self.diagnostics.d_c_last2 as int,
            d_c_last1: self.diagnostics.d_c_last1 as int,
            sum_p: self.diagnostics.sum_p as int,
            mean_p: self.diagnostics.mean_p as int,
            min_p: self.diagnostics.min_p as int,
        }
    }
}

/// Strikes of the completed curve: `0`, `K1`, the internal strikes, `KN`.
pub open spec fn completed_strikes(k: Seq<i64>, k1: int, kn: int) -> Seq<i64> {
    seq![0i64, k1 as i64] + k + seq![kn as i64]
}

/// Calls of the completed curve: `1`, `1 - K1`, the internal calls, `0`.
pub open spec fn completed_calls(c: Seq<i64>, k1: int) -> Seq<i64> {
    seq![UNIT, (UNIT - k1) as i64] + c + seq![0i64]
}

/// Slopes of the curve through the nodes `(k[i], c[i])`, one per interval,
/// followed by a final 0.
pub open spec fn curve_slopes(k: Seq<i64>, c: Seq<i64>) -> Seq<int> {
    Seq::new(
        k.len(),
        |i: int|
            if i + 1 < k.len() {
                slope(k[i] as int, c[i] as int, k[i + 1] as int, c[i + 1] as int)
            } else {
                0
            },
    )
}

/// Increments `s[i + 1] - s[i]` of a sequence.
pub open spec fn increments(s: Seq<int>) -> Seq<int> {
    Seq::new((s.len() - 1) as nat, |i: int| s[i + 1] - s[i])
}

/// The first index below `n` whose entry is below `-tol`.
pub open spec fn first_below(p: Seq<int>, tol: int, n: int) -> Option<int>
    decreases n,
{
    if n <= 0 {
        None
    } else {
        match first_below(p, tol, n - 1) {
            Some(i) => Some(i),
            None => if p[n - 1] < -tol {
                Some(n - 1)
            } else {
                None
            },
        }
    }
}

/// Negative entries replaced by 0.
pub open spec fn floored_at_zero(p: Seq<int>) -> Seq<int> {
    p.map_values(|x: int| if x < 0 { 0 } else { x })
}

/// Sum of the entries.
pub open spec fn total(p: Seq<int>) -> int
    decreases p.len(),
{
    if p.len() == 0 {
        0
    } else {
        total(p.drop_last()) + p.last()
    }
}

/// Each entry scaled to a share of `s` in fixed point (rounded down).
pub open spec fn rescaled(p: Seq<int>, s: int) -> Seq<int> {
    p.map_values(|x: int| x * UNIT / s)
}

/// `sum_i p[i] * k[i + 1]`.
pub open spec fn moment(p: Seq<int>, k: Seq<i64>) -> int
    decreases p.len(),
{
    if p.len() == 0 {
        0
    } else {
        moment(p.drop_last(), k) + p.last() * k[p.len() as int]
    }
}

/// Smallest entry of a non-empty sequence.
pub open spec fn smallest(p: Seq<int>) -> int
    decreases p.len(),
{
    if p.len() <= 1 {
        p[0]
    } else if p.last() < smallest(p.drop_last()) {
        p.last()
    } else {
        smallest(p.drop_last())
    }
}

/// Absolute value.
pub open spec fn abs(x: int) -> int {
    if x < 0 {
        -x
    } else {
        x
    }
}

/// The rest of the completion once the curve with strikes `ks` and calls
/// `cs` is assembled: the wing inequalities on its slopes, the density from
/// the slope increments (none below `-tol`, negatives set to 0, normalised
/// to total 1), and the checks that its total and mean are 1 within `tol`.
pub open spec fn assembled_outcome(
    ks: Seq<i64>,
    cs: Seq<i64>,
    k1: int,
    kn: int,
    cfg: CompletionConfig,
) -> Result<CompletionModel, Seq<char>> {
    let s = curve_slopes(ks, cs);
    let n = ks.len() - 1;
    let margin = cfg.slope_margin as int;
    let tol = cfg.tol as int;
    if !(s[0] + margin < s[1] && s[1] + margin < s[2]) {
        Err(
            "left completion inequalities violated after assembly: dC0="@ + num(s[0])
                + ", dC1="@ + num(s[1]) + ", dC2="@ + num(s[2]) + ", margin="@ + num(margin),
        )
    } else if !(s[n - 2] + margin < s[n - 1] && s[n - 1] + margin < 0) {
        Err(
            "right completion inequalities violated after assembly: dC_last2="@ + num(s[n - 2])
                + ", dC_last1="@ + num(s[n - 1]) + ", dC_N=0, margin="@ + num(margin),
        )
    } else {
        let p = increments(s);
        match first_below(p, tol, p.len() as int) {
            Some(i) => Err(
                "density negativity beyond tolerance at i="@ + pos(i + 1) + ": p="@ + num(p[i])
                    + ", tol="@ + num(tol),
            ),
            None => {
                let q = floored_at_zero(p);
                let t = total(q);
                if t > i128::MAX {
                    Err("invalid density sum after clamping: sum_p=inf"@)
                } else if t <= 0 {
                    Err("invalid density sum after clamping: sum_p="@ + num(t))
                } else {
                    let d = rescaled(q, t);
                    let sum_p = total(d);
                    let mean_p = moment(d, ks) / (UNIT as int);
                    if abs(sum_p - UNIT) > tol {
                        Err("density mass check failed: sum_p="@ + num(sum_p) + ", tol="@ + num(tol))
                    } else if abs(mean_p - UNIT) > tol {
                        Err(
                            "density mean check failed: mean_p="@ + num(mean_p) + ", tol="@ + num(
                                tol,
                            ),
                        )
                    } else {
                        Ok(
                            CompletionModel {
                                k: ks,
                                calls: cs,
                                slopes: s,
                                density: d,
                                k1,
                                k_n: kn,
                                d_c0: s[0],
                                d_c1: s[1],
                                d_c2: s[2],
                                d_c_last2: s[n - 2],
                                d_c_last1: s[n - 1],
                                sum_p,
                                mean_p,
                                min_p: smallest(d),
                            },
                        )
                    }
                }
            },
        }
    }
}

/// The completion of the internal slice `(k, c)` under `cfg` (Remark 2.8),
/// or the message of its first failure: the configuration check, the
/// internal slice check, the choice of `K1` from the first interval's slope,
/// the choice of `KN` from the last interval's slope, then the checks of the
/// assembled curve.
pub open spec fn completion_outcome(k: Seq<i64>, c: Seq<i64>, cfg: CompletionConfig) -> Result<
    CompletionModel,
    Seq<char>,
> {
    if completion_failure(cfg) is Some {
        Err(completion_failure(cfg)->0)
    } else if internal_failure(k, c, cfg.tol) is Some {
        Err(internal_failure(k, c, cfg.tol)->0)
    } else {
        let n = k.len() as int;
        match k1_outcome(k[0] as int, c[0] as int, internal_slope(k, c, 0), cfg) {
            Err(m) => Err(m),
            Ok(k1) => match kn_outcome(
                k[n - 1] as int,
                c[n - 1] as int,
                internal_slope(k, c, n - 2),
                cfg,
            ) {
                Err(m) => Err(m),
                Ok(kn) => assembled_outcome(
                    completed_strikes(k, k1, kn),
                    completed_calls(c, k1),
                    k1,
                    kn,
                    cfg,
                ),
            },
        }
    }
}


/// Largest magnitude of a slope between nodes whose calls lie in `[0, 1]`.
pub open spec fn slope_bound() -> int {
    (UNIT as int) * (UNIT as int)
}

proof fn lemma_slope_bound(k0: int, c0: int, k1: int, c1: int)
    requires
        k0 < k1,
        0 <= c0 <= UNIT,
        0 <= c1 <= UNIT,
    ensures
        -slope_bound() <= slope(k0, c0, k1, c1) <= slope_bound(),
{
    let a = (c1 - c0) * (UNIT as int);
    let b = k1 - k0;
    assert(-slope_bound() <= a <= slope_bound()) by (nonlinear_arith)
        requires
            a == (c1 - c0) * (UNIT as int),
            -(UNIT as int) <= c1 - c0 <= UNIT as int,
            UNIT as int > 0,
            slope_bound() == (UNIT as int) * (UNIT as int),
    ;
    if a >= 0 {
        assert(0 <= a / b <= a) by (nonlinear_arith)
            requires
                a >= 0,
                b >= 1,
        ;
    } else {
        assert(0 <= (-a) / b <= -a) by (nonlinear_arith)
            requires
                -a >= 0,
                b >= 1,
        ;
    }
}

/// Assembles the completed strikes and calls.
fn assemble(k: &[i64], c: &[i64], k1: i64, kn: i64) -> (r: (Vec<i64>, Vec<i64>))
    requires
        k@.len() == c@.len(),
        0 < k1 < UNIT,
    ensures
        r.0@ == completed_strikes(k@, k1 as int, kn as int),
        r.1@ == completed_calls(c@, k1 as int),
{
    let mut ks: Vec<i64> = Vec::new();
    let mut cs: Vec<i64> = Vec::new();
    ks.push(0);
    ks.push(k1);
    cs.push(UNIT);
    cs.push(UNIT - k1);
    let n = k.len();
    let mut i: usize = 0;
    while i < n
        invariant
            n == k@.len(),
            n == c@.len(),
            i <= n,
            ks@ == seq![0i64, k1] + k@.take(i as int),
            cs@ == seq![UNIT, (UNIT - k1) as i64] + c@.take(i as int),
        decreases n - i,
    {
        ks.push(k[i]);
        cs.push(c[i]);
        assert(k@.take(i + 1) == k@.take(i as int).push(k@[i as int]));
        assert(c@.take(i + 1) == c@.take(i as int).push(c@[i as int]));
        i = i + 1;
    }
    ks.push(kn);
    cs.push(0);
    assert(k@.take(n as int) == k@);
    assert(c@.take(n as int) == c@);
    (ks, cs)
}

/// Slopes of the completed curve (see [`curve_slopes`]).
fn slopes_of(ks: &Vec<i64>, cs: &Vec<i64>) -> (r: Vec<i128>)
    requires
        ks@.len() == cs@.len(),
        ks@.len() >= 1,
        forall|i: int, j: int| 0 <= i < j < ks@.len() ==> ks@[i] < ks@[j],
        forall|i: int| 0 <= i < cs@.len() ==> 0 <= #[trigger] cs@[i] <= UNIT,
    ensures
        wide(r@) == curve_slopes(ks@, cs@),
        forall|i: int| 0 <= i < r@.len() ==> -slope_bound() <= #[trigger] r@[i] <= slope_bound(),
{
    let n = ks.len();
    let mut out: Vec<i128> = Vec::new();
    let mut i: usize = 0;
    while i + 1 < n
        invariant
            n == ks@.len(),
            n == cs@.len(),
            n >= 1,
            i + 1 <= n,
            out@.len() == i,
            forall|a: int, b: int| 0 <= a < b < n ==> ks@[a] < ks@[b],
            forall|j: int| 0 <= j < n ==> 0 <= #[trigger] cs@[j] <= UNIT,
            forall|j: int| 0 <= j < i ==> out@[j] == curve_slopes(ks@, cs@)[j],
            forall|j: int| 0 <= j < i ==> -slope_bound() <= #[trigger] out@[j] <= slope_bound(),
        decreases n - i,
    {
        proof {
            lemma_slope_bound(
                ks@[i as int] as int,
                cs@[i as int] as int,
                ks@[i + 1] as int,
                cs@[i + 1] as int,
            );
        }
        let v = slope_of(ks[i], cs[i], ks[i + 1], cs[i + 1]);
        out.push(v);
        i = i + 1;
    }
    out.push(0);
    assert(wide(out@) =~= curve_slopes(ks@, cs@));
    out
}

proof fn lemma_first_below_sticky(p: Seq<int>, tol: int, m: int, n: int)
    requires
        0 <= m <= n,
        first_below(p, tol, m) is Some,
    ensures
        first_below(p, tol, n) == first_below(p, tol, m),
    decreases n - m,
{
    if m < n {
        lemma_first_below_sticky(p, tol, m, n - 1);
    }
}

/// The slope increments with negatives set to 0, or the first increment
/// below `-tol`.
fn floored_increments(s: &Vec<i128>, tol: i64) -> (r: Result<Vec<i128>, usize>)
    requires
        s@.len() >= 1,
        forall|i: int| 0 <= i < s@.len() ==> -slope_bound() <= #[trigger] s@[i] <= slope_bound(),
    ensures
        match r {
            Ok(q) => first_below(increments(wide(s@)), tol as int, s@.len() - 1) is None && wide(
                q@,
            ) == floored_at_zero(increments(wide(s@))) && (forall|i: int|
                0 <= i < q@.len() ==> 0 <= #[trigger] q@[i] <= 2 * slope_bound()),
            Err(i) => i < s@.len() - 1 && first_below(increments(wide(s@)), tol as int, s@.len() - 1)
                == Some(i as int),
        },
{
    let ghost p = increments(wide(s@));
    let n = s.len() - 1;
    let mut q: Vec<i128> = Vec::new();
    let mut i: usize = 0;
    while i < n
        invariant
            n + 1 == s@.len(),
            p == increments(wide(s@)),
            i <= n,
            q@.len() == i,
            forall|j: int| 0 <= j < s@.len() ==> -slope_bound() <= #[trigger] s@[j] <= slope_bound(),
            first_below(p, tol as int, i as int) is None,
            forall|j: int| 0 <= j < i ==> q@[j] == floored_at_zero(p)[j],
            forall|j: int| 0 <= j < i ==> 0 <= #[trigger] q@[j] <= 2 * slope_bound(),
        decreases n - i,
    {
        let d: i128 = s[i + 1] - s[i];
        assert(d == p[i as int]);
        if d < -(tol as i128) {
            proof {
                lemma_first_below_sticky(p, tol as int, i + 1, n as int);
            }
            return Err(i);
        }
        q.push(if d < 0 {
            0
        } else {
            d
        });
        i = i + 1;
    }
    assert(wide(q@) =~= floored_at_zero(p));
    Ok(q)
}

proof fn lemma_total_take(p: Seq<int>, i: int)
    requires
        0 <= i < p.len(),
    ensures
        total(p.take(i + 1)) == total(p.take(i)) + p[i],
{
    assert(p.take(i + 1).drop_last() =~= p.take(i));
}

proof fn lemma_total_nonneg_prefix(p: Seq<int>, i: int)
    requires
        0 <= i <= p.len(),
        forall|j: int| 0 <= j < p.len() ==> p[j] >= 0,
    ensures
        0 <= total(p.take(i)) <= total(p),
    decreases p.len(),
{
    if p.len() == 0 {
        assert(p.take(i) =~= p);
    } else if i == p.len() {
        assert(p.take(i) =~= p);
        lemma_total_nonneg_prefix(p.drop_last(), i - 1);
        assert(p.drop_last().take(i - 1) =~= p.drop_last());
    } else {
        lemma_total_nonneg_prefix(p.drop_last(), i);
        assert(p.drop_last().take(i) =~= p.take(i));
    }
}

proof fn lemma_entry_le_total(p: Seq<int>, i: int)
    requires
        0 <= i < p.len(),
        forall|j: int| 0 <= j < p.len() ==> p[j] >= 0,
    ensures
        p[i] <= total(p),
{
    lemma_total_nonneg_prefix(p, i);
    lemma_total_nonneg_prefix(p, i + 1);
    lemma_total_take(p, i);
}

/// Sum of non-negative entries, or `None` when it does not fit in `i128`.
fn checked_total(q: &Vec<i128>) -> (r: Option<i128>)
    requires
        forall|i: int| 0 <= i < q@.len() ==> 0 <= #[trigger] q@[i],
    ensures
        match r {
            Some(t) => t == total(wide(q@)),
            None => total(wide(q@)) > i128::MAX,
        },
{
    let ghost p = wide(q@);
    let n = q.len();
    let mut acc: i128 = 0;
    let mut i: usize = 0;
    while i < n
        invariant
            n == q@.len(),
            p == wide(q@),
            i <= n,
            forall|j: int| 0 <= j < n ==> 0 <= #[trigger] q@[j],
            acc == total(p.take(i as int)),
        decreases n - i,
    {
        proof {
            lemma_total_take(p, i as int);
        }
        if acc > i128::MAX - q[i] {
            proof {
                lemma_total_nonneg_prefix(p, i + 1);
            }
            return None;
        }
        acc = acc + q[i];
        i = i + 1;
    }
    assert(p.take(n as int) =~= p);
    Some(acc)
}

/// Each entry as a fixed-point share of `t` (rounded down).
fn rescale(q: &Vec<i128>, t: i128) -> (r: Vec<i128>)
    requires
        t > 0,
        t == total(wide(q@)),
        forall|i: int| 0 <= i < q@.len() ==> 0 <= #[trigger] q@[i] <= 2 * slope_bound(),
    ensures
        wide(r@) == rescaled(wide(q@), t as int),
        forall|i: int| 0 <= i < r@.len() ==> 0 <= #[trigger] r@[i] <= UNIT,
{
    let n = q.len();
    let mut out: Vec<i128> = Vec::new();
    let mut i: usize = 0;
    while i < n
        invariant
            n == q@.len(),
            t > 0,
            t == total(wide(q@)),
            i <= n,
            out@.len() == i,
            forall|j: int| 0 <= j < n ==> 0 <= #[trigger] q@[j] <= 2 * slope_bound(),
            forall|j: int| 0 <= j < i ==> out@[j] == rescaled(wide(q@), t as int)[j],
            forall|j: int| 0 <= j < i ==> 0 <= #[trigger] out@[j] <= UNIT,
        decreases n - i,
    {
        let x = q[i];
        proof {
            lemma_entry_le_total(wide(q@), i as int);
            assert(0 <= x * 1_000_000_000_000 <= 0x4000_0000_0000_0000_0000_0000_0000_0000)
                by (nonlinear_arith)
                requires
                    0 <= x <= 2_000_000_000_000_000_000_000_000,
            ;
            assert(0 <= (x as int * 1_000_000_000_000) / (t as int) <= 1_000_000_000_000) by (nonlinear_arith)
                requires
                    0 <= x <= t,
                    t > 0,
            ;
        }
        out.push((x * (UNIT as i128)) / t);
        i = i + 1;
    }
    assert(wide(out@) =~= rescaled(wide(q@), t as int));
    out
}


proof fn lemma_rescaled_total(q: Seq<int>, t: int)
    requires
        t > 0,
        forall|i: int| 0 <= i < q.len() ==> q[i] >= 0,
    ensures
        0 <= total(rescaled(q, t)),
        t * total(rescaled(q, t)) <= (UNIT as int) * total(q),
    decreases q.len(),
{
    if q.len() > 0 {
        let r = rescaled(q, t);
        assert(r.drop_last() =~= rescaled(q.drop_last(), t));
        lemma_rescaled_total(q.drop_last(), t);
        let x = q.last();
        let a = total(r.drop_last());
        let b = total(q.drop_last());
        let u = UNIT as int;
        assert(r.last() == x * u / t);
        assert(0 <= x * u / t && t * (x * u / t) <= x * u) by (nonlinear_arith)
            requires
                x >= 0,
                t > 0,
                u > 0,
        ;
        assert(t * (a + x * u / t) == t * a + t * (x * u / t)) by (nonlinear_arith);
        assert(u * (b + x) == u * b + u * x) by (nonlinear_arith);
    }
}

/// Sum of entries that lie in `[0, 1]`.
fn total_of(d: &Vec<i128>) -> (r: i128)
    requires
        forall|i: int| 0 <= i < d@.len() ==> 0 <= #[trigger] d@[i] <= UNIT,
    ensures
        r == total(wide(d@)),
{
    let ghost p = wide(d@);
    let n = d.len();
    let mut acc: i128 = 0;
    let mut i: usize = 0;
    while i < n
        invariant
            n == d@.len(),
            p == wide(d@),
            i <= n,
            forall|j: int| 0 <= j < n ==> 0 <= #[trigger] d@[j] <= UNIT,
            acc == total(p.take(i as int)),
            0 <= acc <= (i as int) * (UNIT as int),
        decreases n - i,
    {
        proof {
            lemma_total_take(p, i as int);
            assert((i as int) * (UNIT as int) + (UNIT as int) == (i + 1) * (UNIT as int))
                by (nonlinear_arith);
            assert((i + 1) * (UNIT as int) <= 0x1_0000_0000_0000_0000 * 1_000_000_000_000)
                by (nonlinear_arith)
                requires
                    i + 1 <= 0x1_0000_0000_0000_0000,
            ;
        }
        acc = acc + d[i];
        i = i + 1;
    }
    assert(p.take(n as int) =~= p);
    acc
}

/// `sum_i d[i] * ks[i + 1]`, for non-negative entries of total at most 1.
fn moment_of(d: &Vec<i128>, ks: &Vec<i64>) -> (r: i128)
    requires
        ks@.len() == d@.len() + 1,
        forall|i: int| 0 <= i < d@.len() ==> 0 <= #[trigger] d@[i],
        forall|i: int| 0 <= i < ks@.len() ==> 0 <= #[trigger] ks@[i],
        total(wide(d@)) <= UNIT,
    ensures
        r == moment(wide(d@), ks@),
        r >= 0,
{
    let ghost p = wide(d@);
    let ghost m = i64::MAX as int;
    let n = d.len();
    let mut acc: i128 = 0;
    let mut i: usize = 0;
    while i < n
        invariant
            n == d@.len(),
            ks@.len() == n + 1,
            p == wide(d@),
            m == i64::MAX,
            i <= n,
            forall|j: int| 0 <= j < n ==> 0 <= #[trigger] d@[j],
            forall|j: int| 0 <= j < ks@.len() ==> 0 <= #[trigger] ks@[j],
            total(p) <= UNIT,
            acc == moment(p.take(i as int), ks@),
            0 <= acc <= total(p.take(i as int)) * m,
        decreases n - i,
    {
        proof {
            lemma_total_take(p, i as int);
            assert(p.take(i + 1).drop_last() =~= p.take(i as int));
            lemma_total_nonneg_prefix(p, i + 1);
        }
        let x = d[i];
        let y = ks[i + 1];
        proof {
            let t0 = total(p.take(i as int));
            let t1 = total(p.take(i + 1));
            assert(0 <= (x as int) * (y as int) <= (x as int) * m) by (nonlinear_arith)
                requires
                    x >= 0,
                    0 <= y <= m,
            ;
            assert(t0 * m + (x as int) * m == t1 * m) by (nonlinear_arith)
                requires
                    t1 == t0 + x,
            ;
            assert(t1 * m <= 1_000_000_000_000 * 0x8000_0000_0000_0000) by (nonlinear_arith)
                requires
                    t1 <= 1_000_000_000_000,
                    0 <= m <= 0x8000_0000_0000_0000,
            ;
        }
        acc = acc + x * (y as i128);
        i = i + 1;
    }
    assert(p.take(n as int) =~= p);
    acc
}

/// Smallest entry of a non-empty vector.
fn smallest_of(d: &Vec<i128>) -> (r: i128)
    requires
        d@.len() >= 1,
    ensures
        r == smallest(wide(d@)),
{
    let ghost p = wide(d@);
    let n = d.len();
    let mut m: i128 = d[0];
    let mut i: usize = 1;
    assert(p.take(1).len() == 1);
    while i < n
        invariant
            n == d@.len(),
            p == wide(d@),
            1 <= i <= n,
            m == smallest(p.take(i as int)),
        decreases n - i,
    {
        assert(p.take(i + 1).drop_last() =~= p.take(i as int));
        if d[i] < m {
            m = d[i];
        }
        i = i + 1;
    }
    assert(p.take(n as int) =~= p);
    m
}


/// The checks and the density of an assembled curve (see
/// [`assembled_outcome`]).
fn finish_completion(
    ks: Vec<i64>,
    cs: Vec<i64>,
    k1: i64,
    kn: i64,
    cfg: &CompletionConfig,
) -> (r: SanosResult<CompletedSlice>)
    requires
        ks@.len() == cs@.len(),
        ks@.len() >= 4,
        forall|i: int, j: int| 0 <= i < j < ks@.len() ==> ks@[i] < ks@[j],
        forall|i: int| 0 <= i < ks@.len() ==> 0 <= #[trigger] ks@[i],
        forall|i: int| 0 <= i < cs@.len() ==> 0 <= #[trigger] cs@[i] <= UNIT,
    ensures
        r is Ok <==> assembled_outcome(ks@, cs@, k1 as int, kn as int, *cfg) is Ok,
        r matches Ok(sl) ==> assembled_outcome(ks@, cs@, k1 as int, kn as int, *cfg) == Ok::<
            CompletionModel,
            Seq<char>,
        >(sl@),
        r matches Err(e) ==> (e matches SanosError::External { msg } && assembled_outcome(
            ks@,
            cs@,
            k1 as int,
            kn as int,
            *cfg,
        ) == Err::<CompletionModel, Seq<char>>(msg@)),
        r matches Ok(sl) ==> forall|i: int|
            0 <= i < sl.density@.len() ==> 0 <= #[trigger] sl.density@[i] <= UNIT,
{
    let ghost sp = curve_slopes(ks@, cs@);
    let slopes = slopes_of(&ks, &cs);
    let n = ks.len() - 1;
    let margin: i128 = cfg.slope_margin as i128;
    let tol: i128 = cfg.tol as i128;
    assert(slopes@[0] == sp[0] && slopes@[1] == sp[1] && slopes@[2] == sp[2]);
    assert(slopes@[n - 2] == sp[n - 2] && slopes@[n - 1] == sp[n - 1]);
    let (s0, s1, s2) = (slopes[0], slopes[1], slopes[2]);
    if !(s0 + margin < s1 && s1 + margin < s2) {
        let mut m = "left completion inequalities violated after assembly: dC0=".to_owned();
        push_num(&mut m, s0);
        m.append(", dC1=");
        push_num(&mut m, s1);
        m.append(", dC2=");
        push_num(&mut m, s2);
        m.append(", margin=");
        push_num(&mut m, margin);
        return Err(SanosError::External { msg: m });
    }
    let (sl2, sl1) = (slopes[n - 2], slopes[n - 1]);
    if !(sl2 + margin < sl1 && sl1 + margin < 0) {
        let mut m = "right completion inequalities violated after assembly: dC_last2=".to_owned();
        push_num(&mut m, sl2);
        m.append(", dC_last1=");
        push_num(&mut m, sl1);
        m.append(", dC_N=0, margin=");
        push_num(&mut m, margin);
        return Err(SanosError::External { msg: m });
    }
    let ghost p = increments(sp);
    let q = match floored_increments(&slopes, cfg.tol) {
        Err(i) => {
            let x: i128 = slopes[i + 1] - slopes[i];
            let mut m = "density negativity beyond tolerance at i=".to_owned();
            push_pos(&mut m, i + 1);
            m.append(": p=");
            push_num(&mut m, x);
            m.append(", tol=");
            push_num(&mut m, tol);
            return Err(SanosError::External { msg: m });
        },
        Ok(q) => q,
    };
    let t = match checked_total(&q) {
        None => {
            let m = "invalid density sum after clamping: sum_p=inf".to_owned();
            return Err(SanosError::External { msg: m });
        },
        Some(t) => t,
    };
    if t <= 0 {
        let mut m = "invalid density sum after clamping: sum_p=".to_owned();
        push_num(&mut m, t);
        return Err(SanosError::External { msg: m });
    }
    let density = rescale(&q, t);
    proof {
        lemma_rescaled_total(wide(q@), t as int);
        let td = total(wide(density@));
        assert(td <= UNIT) by (nonlinear_arith)
            requires
                t * td <= 1_000_000_000_000 * t,
                t > 0,
        ;
    }
    let sum_p = total_of(&density);
    let moment_value = moment_of(&density, &ks);
    let mean_p: i128 = moment_value / (UNIT as i128);
    let unit: i128 = UNIT as i128;
    if (sum_p < unit && unit - sum_p > tol) || (sum_p >= unit && sum_p - unit > tol) {
        let mut m = "density mass check failed: sum_p=".to_owned();
        push_num(&mut m, sum_p);
        m.append(", tol=");
        push_num(&mut m, tol);
        return Err(SanosError::External { msg: m });
    }
    if (mean_p < unit && unit - mean_p > tol) || (mean_p >= unit && mean_p - unit > tol) {
        let mut m = "density mean check failed: mean_p=".to_owned();
        push_num(&mut m, mean_p);
        m.append(", tol=");
        push_num(&mut m, tol);
        return Err(SanosError::External { msg: m });
    }
    let min_p = smallest_of(&density);
    let out = CompletedSlice {
        k: ks,
        calls: cs,
        slopes,
        density,
        diagnostics: CompletionDiagnostics {
            k1,
            k_n: kn,
            d_c0: s0,
            d_c1: s1,
            d_c2: s2,
            d_c_last2: sl2,
            d_c_last1: sl1,
            sum_p,
            mean_p,
            min_p,
        },
    };
    proof {
        assert(wide(out.slopes@) == sp);
        assert(out@.density == rescaled(floored_at_zero(p), t as int));
    }
    Ok(out)
}


proof fn lemma_increasing_nodes(k: Seq<i64>, c: Seq<i64>, tol: i64, n: int)
    requires
        0 <= n <= k.len(),
        first_point_failure(k, c, tol, n) is None,
    ensures
        forall|a: int, b: int| 0 <= a < b < n ==> k[a] < k[b],
        forall|a: int| 0 <= a < n ==> 0 < #[trigger] k[a],
        forall|a: int| 0 <= a < n ==> 0 < #[trigger] c[a] < UNIT,
    decreases n,
{
    if n > 0 {
        lemma_increasing_nodes(k, c, tol, n - 1);
        assert(point_failure(k, c, tol, n - 1) is None);
        assert forall|a: int, b: int| 0 <= a < b < n implies k[a] < k[b] by {
            if b == n - 1 && a < n - 2 {
                assert(k[a] < k[n - 2]);
            }
        }
    }
}

/// Completes the internal call slice `(k_internal, calls_internal)` as in
/// Remark 2.8 (see [`completion_outcome`]): the strikes `0, K1, ..., KN`,
/// the calls `1, 1 - K1, ..., 0`, the slopes of the completed curve, and
/// the node density with total and mean 1 within `cfg.tol`.
pub fn complete_slice_remark_2_8(
    k_internal: &[i64],
    calls_internal: &[i64],
    cfg: &CompletionConfig,
) -> (r: SanosResult<CompletedSlice>)
    ensures
        r is Ok <==> completion_outcome(k_internal@, calls_internal@, *cfg) is Ok,
        r matches Ok(sl) ==> completion_outcome(k_internal@, calls_internal@, *cfg) == Ok::<
            CompletionModel,
            Seq<char>,
        >(sl@),
        r matches Err(e) ==> (e matches SanosError::External { msg } && completion_outcome(
            k_internal@,
            calls_internal@,
            *cfg,
        ) == Err::<CompletionModel, Seq<char>>(msg@)),
        r matches Ok(sl) ==> {
            &&& sl.k@.len() == k_internal@.len() + 3
            &&& sl.k@[0] == 0 && sl.calls@[0] == UNIT
            &&& sl.calls@[sl.calls@.len() - 1] == 0
            &&& sl.slopes@.len() == sl.k@.len()
            &&& sl.density@.len() + 1 == sl.k@.len()
            &&& forall|i: int|
                0 <= i < sl.density@.len() ==> 0 <= #[trigger] sl.density@[i] <= UNIT
            &&& sl.diagnostics.sum_p == total(wide(sl.density@))
            &&& abs(sl.diagnostics.sum_p - UNIT) <= cfg.tol
            &&& sl.diagnostics.mean_p == moment(wide(sl.density@), sl.k@) / (UNIT as int)
            &&& abs(sl.diagnostics.mean_p - UNIT) <= cfg.tol
        },
{
    match cfg.validate() {
        Err(e) => {
            return Err(e);
        },
        Ok(()) => {},
    }
    match validate_internal_slice(k_internal, calls_internal, cfg.tol) {
        Err(e) => {
            return Err(e);
        },
        Ok(()) => {},
    }
    let ghost kv = k_internal@;
    let ghost cv = calls_internal@;
    let n = k_internal.len();
    proof {
        lemma_increasing_nodes(kv, cv, cfg.tol, n as int);
    }
    let d_c2 = slope_of(k_internal[0], calls_internal[0], k_internal[1], calls_internal[1]);
    let d_last2 = slope_of(
        k_internal[n - 2],
        calls_internal[n - 2],
        k_internal[n - 1],
        calls_internal[n - 1],
    );
    proof {
        lemma_slope_bound(
            kv[n - 2] as int,
            cv[n - 2] as int,
            kv[n - 1] as int,
            cv[n - 1] as int,
        );
    }
    let k1 = match choose_k1(k_internal[0], calls_internal[0], d_c2, cfg) {
        Err(e) => {
            return Err(e);
        },
        Ok(v) => v,
    };
    let kn = match choose_k_n(k_internal[n - 1], calls_internal[n - 1], d_last2, cfg) {
        Err(e) => {
            return Err(e);
        },
        Ok(v) => v,
    };
    let (ks, cs) = assemble(k_internal, calls_internal, k1, kn);
    proof {
        let kk = ks@;
        assert forall|a: int, b: int| 0 <= a < b < kk.len() implies kk[a] < kk[b] by {
            if a >= 2 && b < n + 2 {
                assert(kk[a] == kv[a - 2] && kk[b] == kv[b - 2]);
            } else if a >= 2 {
                assert(kk[a] == kv[a - 2]);
                assert(kv[a - 2] <= kv[n - 1]);
            } else if b >= 2 && b < n + 2 {
                assert(kk[b] == kv[b - 2]);
                assert(kv[0] <= kv[b - 2]);
            }
        }
        assert forall|i: int| 0 <= i < kk.len() implies 0 <= #[trigger] kk[i] by {
            if 2 <= i < n + 2 {
                assert(kk[i] == kv[i - 2]);
            }
        }
        assert forall|i: int| 0 <= i < cs@.len() implies 0 <= #[trigger] cs@[i] <= UNIT by {
            if 2 <= i < n + 2 {
                assert(cs@[i] == cv[i - 2]);
            }
        }
    }
    finish_completion(ks, cs, k1, kn, cfg)
}

} // verus!
