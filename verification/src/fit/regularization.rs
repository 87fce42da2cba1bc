//! Tikhonov regularization of the density vector: a block-diagonal operator
//! (identity, or first or second differences within each maturity block),
//! each block scaled by the square root of the lambda scale of its maturity,
//! and a zero target.
use vstd::prelude::*;
use crate::error::{SanosError, SanosResult};
use crate::fit::config::{
    is_first_bad_knot, is_first_bracket, knot_ok, lambda_scaling_error,
    scale_at_spec, LambdaScaling, RegularizationConfig, RegularizationMode,
    SmoothingOrder,
};
use crate::fit::layout::{
    diff_rows, diff_rows_spec, lemma_size_sum_monotone, size_sum, smoothing_rows, total_diff_rows,
    QLayout,
};
use crate::UNIT;

verus! {

/// Floor of the square root of `n`.
pub fn isqrt(n: u128) -> (r: u128)
    ensures
        r * r <= n < (r + 1) * (r + 1),
{
    let mut lo: u128 = 0;
    let mut hi: u128 = 0x1_0000_0000_0000_0000;
    assert(n < hi * hi) by (nonlinear_arith)
        requires
            hi == 0x1_0000_0000_0000_0000,
            n < 0x1_0000_0000_0000_0000_0000_0000_0000_0000,
    ;
    while hi - lo > 1
        invariant
            lo < hi <= 0x1_0000_0000_0000_0000,
            lo * lo <= n,
            n < hi * hi,
        decreases hi - lo,
    {
        let mid = lo + (hi - lo) / 2;
        assert(mid * mid < 0x1_0000_0000_0000_0000_0000_0000_0000_0000) by (nonlinear_arith)
            requires
                mid < 0x1_0000_0000_0000_0000,
        ;
        if mid * mid <= n {
            lo = mid;
        } else {
            hi = mid;
        }
    }
    lo
}

/// Fixed-point square root of a non-negative scale, rounded down:
/// `r = floor(sqrt(scale * UNIT))`.
pub open spec fn is_root_scale(r: int, scale: int) -> bool {
    r * r <= scale * UNIT < (r + 1) * (r + 1)
}

/// Fixed-point square root of a non-negative scale (rounded down).
pub fn sqrt_scale(scale: i64) -> (r: i64)
    requires
        scale >= 0,
    ensures
        r >= 0,
        is_root_scale(r as int, scale as int),
        r <= 0x20_0000_0000_0000,
{
    assert((scale as int) * UNIT < 0x1_0000_0000_0000_0000_0000_0000_0000_0000) by (
    nonlinear_arith)
        requires
            0 <= scale < 0x8000_0000_0000_0000,
            UNIT == 1_000_000_000_000,
    ;
    let n: u128 = (scale as u128) * (UNIT as u128);
    let r = isqrt(n);
    assert(r <= 0x20_0000_0000_0000) by (nonlinear_arith)
        requires
            r * r <= n,
            n < 0x8000_0000_0000_0000 * 1_000_000_000_000,
    ;
    r as i64
}

/// The layout places every block inside the decision vector.
pub open spec fn layout_fits(l: QLayout) -> bool {
    &&& l.offsets@.len() == l.sizes@.len()
    &&& l.maturities@.len() == l.sizes@.len()
    &&& forall|j: int|
        0 <= j < l.sizes@.len() ==> l.offsets@[j] + (#[trigger] l.sizes@[j]) <= l.total
}

/// Row `i` of the difference block at column offset `off`, scaled by `s`,
/// over `total` columns.
pub open spec fn diff_row(order: SmoothingOrder, total: int, off: int, i: int, s: int) -> Seq<
    i64,
> {
    Seq::new(
        total as nat,
        |c: int|
            match order {
                SmoothingOrder::D1 => if c == off + i {
                    (-s) as i64
                } else if c == off + i + 1 {
                    s as i64
                } else {
                    0i64
                },
                SmoothingOrder::D2 => if c == off + i {
                    s as i64
                } else if c == off + i + 1 {
                    (-2 * s) as i64
                } else if c == off + i + 2 {
                    s as i64
                } else {
                    0i64
                },
            },
    )
}

/// The first `m` rows of a difference block, row after row.
pub open spec fn block_rows(order: SmoothingOrder, total: int, off: int, s: int, m: int) -> Seq<
    i64,
>
    decreases m,
{
    if m <= 0 {
        Seq::empty()
    } else {
        block_rows(order, total, off, s, m - 1) + diff_row(order, total, off, m - 1, s)
    }
}

/// Scale of block `j`: the square root of the lambda scale at its maturity.
pub open spec fn block_scale(l: QLayout, knots: Seq<(i64, i64)>, j: int, s: int) -> bool {
    is_root_scale(s, scale_at_spec(knots, l.maturities@[j] as int))
}

/// Row-major data of the difference blocks of the first `n` maturities,
/// block `j` scaled by `scales[j]`.
pub open spec fn smoothing_data(
    l: QLayout,
    order: SmoothingOrder,
    scales: Seq<i64>,
    n: int,
) -> Seq<i64>
    decreases n,
{
    if n <= 0 {
        Seq::empty()
    } else {
        smoothing_data(l, order, scales, n - 1) + block_rows(
            order,
            l.total as int,
            l.offsets@[n - 1] as int,
            scales[n - 1] as int,
            diff_rows_spec(l.sizes@[n - 1] as int, order),
        )
    }
}

/// Diagonal of the scaled ridge operator over the first `n` maturities.
pub open spec fn ridge_diagonal(l: QLayout, scales: Seq<i64>, n: int) -> Seq<i64>
    decreases n,
{
    if n <= 0 {
        Seq::empty()
    } else {
        ridge_diagonal(l, scales, n - 1) + Seq::new(
            l.sizes@[n - 1] as nat,
            |i: int| scales[n - 1],
        )
    }
}

/// Every block scale is the square root of the lambda scale of its maturity.
pub open spec fn scales_of(l: QLayout, knots: Seq<(i64, i64)>, scales: Seq<i64>) -> bool {
    &&& scales.len() == l.sizes@.len()
    &&& forall|j: int|
        0 <= j < scales.len() ==> #[trigger] block_scale(l, knots, j, scales[j] as int)
}

/// The operator of a Tikhonov term.
#[derive(Debug, Clone, PartialEq, Eq)]
pub enum RegularizationMatrix {
    /// The identity of the given size.
    Identity { n: usize },
    /// A dense row-major matrix (fixed-point entries).
    Dense { nrows: usize, ncols: usize, data: Vec<i64> },
}

/// A Tikhonov term `lambda / 2 * ||L x - target||^2`.
#[derive(Debug, Clone, PartialEq, Eq)]
pub struct Tikhonov {
    pub lambda: i64,
    pub matrix: RegularizationMatrix,
    pub target: Vec<i64>,
}

/// Every knot passes its checks when no knot is the first to fail.
proof fn lemma_knots_ok(knots: Seq<(i64, i64)>)
    requires
        lambda_scaling_error(knots) is None,
    ensures
        forall|i: int| 0 <= i < knots.len() ==> #[trigger] knot_ok(knots, i),
{
    assert forall|i: int| 0 <= i < knots.len() implies #[trigger] knot_ok(knots, i) by {
        if !knot_ok(knots, i) {
            lemma_bad_knot_has_first(knots, i);
        }
    }
}

proof fn lemma_bad_knot_has_first(knots: Seq<(i64, i64)>, i: int)
    requires
        0 <= i < knots.len(),
        !knot_ok(knots, i),
    ensures
        exists|b: int| is_first_bad_knot(knots, b),
    decreases i,
{
    if forall|l: int| 0 <= l < i ==> #[trigger] knot_ok(knots, l) {
        assert(is_first_bad_knot(knots, i));
    } else {
        let l = choose|l: int| 0 <= l < i && !knot_ok(knots, l);
        lemma_bad_knot_has_first(knots, l);
    }
}

/// With valid knots the scale is positive everywhere.
pub proof fn lemma_scale_positive(knots: Seq<(i64, i64)>, m: int)
    requires
        lambda_scaling_error(knots) is None,
    ensures
        scale_at_spec(knots, m) > 0,
{
    lemma_knots_ok(knots);
    if knots.len() == 0 {
    } else if knots.len() == 1 || m <= knots[0].0 {
        assert(knot_ok(knots, 0));
    } else if m >= knots[knots.len() - 1].0 {
        assert(knot_ok(knots, knots.len() - 1));
    } else if exists|j: int| is_first_bracket(knots, m, j) {
        let j = choose|j: int| is_first_bracket(knots, m, j);
        assert(knot_ok(knots, j));
        assert(knot_ok(knots, j + 1));
        let a = knots[j];
        let b = knots[j + 1];
        let x = b.1 - a.1;
        let y = m - a.0;
        let z = b.0 - a.0;
        assert(z > 0);
        if x >= 0 {
            assert(x * y >= 0) by (nonlinear_arith)
                requires
                    x >= 0,
                    y >= 0,
            ;
            assert((x * y) / z >= 0) by (nonlinear_arith)
                requires
                    x * y >= 0,
                    z > 0,
            ;
        } else {
            assert((-x) * y <= (-x) * z) by (nonlinear_arith)
                requires
                    -x > 0,
                    0 <= y <= z,
            ;
            assert(((-x) * y) / z <= -x) by (nonlinear_arith)
                requires
                    (-x) * y <= (-x) * z,
                    -x > 0,
                    z > 0,
                    (-x) * y >= 0,
            ;
            assert((-x) * y >= 0) by (nonlinear_arith)
                requires
                    -x > 0,
                    y >= 0,
            ;
            assert(x * y == -((-x) * y)) by (nonlinear_arith);
        }
    }
}

/// Square roots of the lambda scales at the block maturities.
fn block_scales(layout: &QLayout, scaling: &LambdaScaling) -> (r: Vec<i64>)
    requires
        layout_fits(*layout),
        lambda_scaling_error(scaling.knots@) is None,
    ensures
        scales_of(*layout, scaling.knots@, r@),
        forall|j: int| 0 <= j < r@.len() ==> 0 <= #[trigger] r@[j] <= 0x20_0000_0000_0000,
{
    let n = layout.sizes.len();
    let mut out: Vec<i64> = Vec::new();
    let mut j: usize = 0;
    while j < n
        invariant
            n == layout.sizes@.len(),
            layout_fits(*layout),
            lambda_scaling_error(scaling.knots@) is None,
            j <= n,
            out@.len() == j,
            forall|l: int| 0 <= l < j ==> #[trigger] block_scale(
                *layout,
                scaling.knots@,
                l,
                out@[l] as int,
            ),
            forall|l: int| 0 <= l < j ==> 0 <= #[trigger] out@[l] <= 0x20_0000_0000_0000,
        decreases n - j,
    {
        let sc = scaling.scale_at(layout.maturities[j]);
        proof {
            lemma_scale_positive(scaling.knots@, layout.maturities@[j as int] as int);
        }
        out.push(sqrt_scale(sc));
        j = j + 1;
    }
    out
}

/// Rows of the diagonal matrix with diagonal `d` over `t` columns, the first
/// `m` of them.
pub open spec fn diag_rows(d: Seq<i64>, t: int, m: int) -> Seq<i64>
    decreases m,
{
    if m <= 0 {
        Seq::empty()
    } else {
        diag_rows(d, t, m - 1) + Seq::new(
            t as nat,
            |c: int|
                if c == m - 1 {
                    d[m - 1]
                } else {
                    0i64
                },
        )
    }
}

/// Row-major data of the scaled ridge operator.
pub open spec fn ridge_data(l: QLayout, scales: Seq<i64>) -> Seq<i64> {
    diag_rows(ridge_diagonal(l, scales, l.sizes@.len() as int), l.total as int, l.total as int)
}

/// The blocks lie one after the other and fill the decision vector.
pub open spec fn layout_partition(l: QLayout) -> bool {
    &&& l.offsets@.len() == l.sizes@.len()
    &&& l.maturities@.len() == l.sizes@.len()
    &&& forall|j: int|
        0 <= j < l.sizes@.len() ==> (#[trigger] l.offsets@[j]) == size_sum(l.sizes@, j)
    &&& l.total == size_sum(l.sizes@, l.sizes@.len() as int)
}

/// `t` is the Tikhonov term of `cfg` on `l` (for an active mode): the
/// identity for an unscaled ridge, else the scaled ridge or difference
/// operator, with a zero target.
pub open spec fn tikhonov_of(t: Tikhonov, cfg: RegularizationConfig, l: QLayout) -> bool {
    &&& t.lambda == cfg.lambda
    &&& match cfg.mode {
        RegularizationMode::Off => false,
        RegularizationMode::Ridge => if cfg.lambda_scaling.knots@.len() == 0 {
            t.matrix == RegularizationMatrix::Identity { n: l.total } && t.target@ == Seq::new(
                l.total as nat,
                |i: int| 0i64,
            )
        } else {
            t.matrix matches RegularizationMatrix::Dense { nrows, ncols, data } && nrows == l.total
                && ncols == l.total && t.target@ == Seq::new(l.total as nat, |i: int| 0i64)
                && exists|scales: Seq<i64>|
                scales_of(l, cfg.lambda_scaling.knots@, scales) && #[trigger] ridge_data(l, scales)
                    == data@
        },
        RegularizationMode::Smoothing { order } => {
            let rows = total_diff_rows(l.sizes@, order, l.sizes@.len() as int);
            t.matrix matches RegularizationMatrix::Dense { nrows, ncols, data } && nrows == rows
                && ncols == l.total && t.target@ == Seq::new(rows as nat, |i: int| 0i64)
                && exists|scales: Seq<i64>|
                scales_of(l, cfg.lambda_scaling.knots@, scales) && #[trigger] smoothing_data(
                    l,
                    order,
                    scales,
                    l.sizes@.len() as int,
                ) == data@
        },
    }
}

/// `n` zeros.
fn zeros(n: usize) -> (r: Vec<i64>)
    ensures
        r@ == Seq::new(n as nat, |i: int| 0i64),
{
    let mut v: Vec<i64> = Vec::new();
    let mut i: usize = 0;
    while i < n
        invariant
            i <= n,
            v@ == Seq::new(i as nat, |l: int| 0i64),
        decreases n - i,
    {
        v.push(0);
        proof {
            assert(v@ =~= Seq::new((i + 1) as nat, |l: int| 0i64));
        }
        i = i + 1;
    }
    v
}

/// Blocks placed by a partition lie inside the decision vector.
proof fn lemma_partition_fits(l: QLayout)
    requires
        layout_partition(l),
    ensures
        layout_fits(l),
{
    assert forall|j: int| 0 <= j < l.sizes@.len() implies l.offsets@[j] + (
    #[trigger] l.sizes@[j]) <= l.total by {
        lemma_size_sum_monotone(l.sizes@, j + 1, l.sizes@.len() as int);
    }
}

/// Scaled ridge operator: diagonal entry `sqrt(scale_j)` on the columns of
/// block `j`.
fn build_ridge(lambda: i64, layout: &QLayout, scaling: &LambdaScaling) -> (r: Tikhonov)
    requires
        layout_partition(*layout),
        lambda_scaling_error(scaling.knots@) is None,
    ensures
        tikhonov_of(
            r,
            (RegularizationConfig {
                mode: RegularizationMode::Ridge,
                lambda,
                lambda_scaling: *scaling,
            }),
            *layout,
        ),
{
    let n = layout.total;
    if scaling.is_uniform() {
        return Tikhonov {
            lambda,
            matrix: RegularizationMatrix::Identity { n },
            target: zeros(n),
        };
    }
    proof {
        lemma_partition_fits(*layout);
    }
    let scales = block_scales(layout, scaling);
    let nb = layout.sizes.len();
    let mut diag: Vec<i64> = Vec::new();
    let mut j: usize = 0;
    while j < nb
        invariant
            nb == layout.sizes@.len(),
            scales@.len() == nb,
            j <= nb,
            diag@ == ridge_diagonal(*layout, scales@, j as int),
        decreases nb - j,
    {
        let nj = layout.sizes[j];
        let ghost d0 = diag@;
        let mut i: usize = 0;
        while i < nj
            invariant
                nj == layout.sizes@[j as int],
                j < nb,
                nb == layout.sizes@.len(),
                scales@.len() == nb,
                i <= nj,
                diag@ == d0 + Seq::new(i as nat, |l: int| scales@[j as int]),
            decreases nj - i,
        {
            diag.push(scales[j]);
            proof {
                assert(diag@ =~= d0 + Seq::new((i + 1) as nat, |l: int| scales@[j as int]));
            }
            i = i + 1;
        }
        j = j + 1;
    }
    proof {
        lemma_ridge_diagonal_len(*layout, scales@, nb as int);
    }
    let mut data: Vec<i64> = Vec::new();
    let mut row: usize = 0;
    while row < n
        invariant
            n == layout.total,
            diag@.len() == n,
            diag@ == ridge_diagonal(*layout, scales@, nb as int),
            nb == layout.sizes@.len(),
            row <= n,
            data@ == diag_rows(diag@, n as int, row as int),
        decreases n - row,
    {
        let ghost d0 = data@;
        let mut c: usize = 0;
        while c < n
            invariant
                n == layout.total,
                diag@.len() == n,
                row < n,
                c <= n,
                data@ == d0 + Seq::new(
                    n as nat,
                    |cc: int|
                        if cc == row {
                            diag@[row as int]
                        } else {
                            0i64
                        },
                ).take(c as int),
            decreases n - c,
        {
            if c == row {
                data.push(diag[row]);
            } else {
                data.push(0);
            }
            proof {
                assert(data@ =~= d0 + Seq::new(
                    n as nat,
                    |cc: int|
                        if cc == row {
                            diag@[row as int]
                        } else {
                            0i64
                        },
                ).take((c + 1) as int));
            }
            c = c + 1;
        }
        proof {
            assert(data@ =~= diag_rows(diag@, n as int, (row + 1) as int));
        }
        row = row + 1;
    }
    proof {
        assert(scales_of(*layout, scaling.knots@, scales@));
        assert(ridge_data(*layout, scales@) == data@);
    }
    Tikhonov {
        lambda,
        matrix: RegularizationMatrix::Dense { nrows: n, ncols: n, data },
        target: zeros(n),
    }
}

proof fn lemma_ridge_diagonal_len(l: QLayout, scales: Seq<i64>, n: int)
    requires
        0 <= n <= l.sizes@.len(),
    ensures
        ridge_diagonal(l, scales, n).len() == size_sum(l.sizes@, n),
    decreases n,
{
    if n > 0 {
        lemma_ridge_diagonal_len(l, scales, n - 1);
    }
}

/// Block-diagonal difference operator, block `j` scaled by
/// `sqrt(scale_j)`; fails when no block yields a row.
fn build_smoothing(
    lambda: i64,
    layout: &QLayout,
    order: SmoothingOrder,
    scaling: &LambdaScaling,
) -> (r: SanosResult<Tikhonov>)
    requires
        layout_partition(*layout),
        lambda_scaling_error(scaling.knots@) is None,
    ensures
        r is Err <==> total_diff_rows(layout.sizes@, order, layout.sizes@.len() as int) == 0,
        r matches Err(e) ==> (e matches SanosError::External { msg } && msg@
            == "smoothing regularization requires at least 2 strikes per maturity (D1) or 3 (D2)"@),
        r matches Ok(t) ==> tikhonov_of(
            t,
            (RegularizationConfig {
                mode: RegularizationMode::Smoothing { order },
                lambda,
                lambda_scaling: *scaling,
            }),
            *layout,
        ),
{
    let total_rows = match smoothing_rows(layout, order) {
        Ok(n) => n,
        Err(e) => {
            return Err(e);
        },
    };
    proof {
        lemma_partition_fits(*layout);
    }
    let scales = block_scales(layout, scaling);
    let total = layout.total;
    let nb = layout.sizes.len();
    let mut data: Vec<i64> = Vec::new();
    let mut j: usize = 0;
    while j < nb
        invariant
            nb == layout.sizes@.len(),
            total == layout.total,
            layout_fits(*layout),
            scales@.len() == nb,
            forall|l: int| 0 <= l < nb ==> 0 <= #[trigger] scales@[l] <= 0x20_0000_0000_0000,
            j <= nb,
            data@ == smoothing_data(*layout, order, scales@, j as int),
        decreases nb - j,
    {
        let nj = layout.sizes[j];
        let off = layout.offsets[j];
        let s = scales[j];
        let m = diff_rows(nj, order);
        let ghost d0 = data@;
        let mut i: usize = 0;
        while i < m
            invariant
                m == diff_rows_spec(nj as int, order),
                total == layout.total,
                0 <= s <= 0x20_0000_0000_0000,
                i <= m,
                data@ == d0 + block_rows(order, total as int, off as int, s as int, i as int),
            decreases m - i,
        {
            let ghost d1 = data@;
            let ghost row = diff_row(order, total as int, off as int, i as int, s as int);
            let mut c: usize = 0;
            while c < total
                invariant
                    total == layout.total,
                    0 <= s <= 0x20_0000_0000_0000,
                    c <= total,
                    row == diff_row(order, total as int, off as int, i as int, s as int),
                    data@ == d1 + row.take(c as int),
                decreases total - c,
            {
                let ci = c as u128;
                let base = (off as u128) + (i as u128);
                let v: i64 = match order {
                    SmoothingOrder::D1 => {
                        if ci == base {
                            -s
                        } else if ci == base + 1 {
                            s
                        } else {
                            0
                        }
                    },
                    SmoothingOrder::D2 => {
                        if ci == base {
                            s
                        } else if ci == base + 1 {
                            -2 * s
                        } else if ci == base + 2 {
                            s
                        } else {
                            0
                        }
                    },
                };
                data.push(v);
                proof {
                    assert(data@ =~= d1 + row.take((c + 1) as int));
                }
                c = c + 1;
            }
            proof {
                assert(row.take(total as int) =~= row);
                assert(data@ =~= d0 + block_rows(
                    order,
                    total as int,
                    off as int,
                    s as int,
                    (i + 1) as int,
                ));
            }
            i = i + 1;
        }
        proof {
            assert(data@ =~= smoothing_data(*layout, order, scales@, (j + 1) as int));
        }
        j = j + 1;
    }
    let t = Tikhonov {
        lambda,
        matrix: RegularizationMatrix::Dense { nrows: total_rows, ncols: total, data },
        target: zeros(total_rows),
    };
    proof {
        assert(scales_of(*layout, scaling.knots@, scales@));
    }
    Ok(t)
}

/// Tikhonov term of the regularization configuration on `layout`: none when
/// regularization is off; else, once the lambda scaling knots pass their
/// checks (their first failure is reported), the ridge or difference
/// operator.
pub fn build_tikhonov(cfg: &RegularizationConfig, layout: &QLayout) -> (r: SanosResult<
    Option<Tikhonov>,
>)
    requires
        layout_partition(*layout),
    ensures
        cfg.mode is Off ==> r == Ok::<Option<Tikhonov>, SanosError>(None),
        !(cfg.mode is Off) && lambda_scaling_error(cfg.lambda_scaling.knots@) is Some ==> r
            == Err::<Option<Tikhonov>, SanosError>(
            lambda_scaling_error(cfg.lambda_scaling.knots@)->Some_0,
        ),
        cfg.mode is Ridge && lambda_scaling_error(cfg.lambda_scaling.knots@) is None ==> (
        r matches Ok(Some(t)) && tikhonov_of(t, *cfg, *layout)),
        cfg.mode matches RegularizationMode::Smoothing { order } ==> lambda_scaling_error(
            cfg.lambda_scaling.knots@,
        ) is None ==> {
            &&& r is Err <==> total_diff_rows(layout.sizes@, order, layout.sizes@.len() as int)
                == 0
            &&& r matches Err(e) ==> (e matches SanosError::External { msg } && msg@
                == "smoothing regularization requires at least 2 strikes per maturity (D1) or 3 (D2)"@)
            &&& r matches Ok(o) ==> (o matches Some(t) && tikhonov_of(t, *cfg, *layout))
        },
{
    if let RegularizationMode::Off = cfg.mode {
        return Ok(None);
    }
    match cfg.lambda_scaling.validate() {
        Ok(()) => {},
        Err(e) => {
            return Err(e);
        },
    }
    match cfg.mode {
        RegularizationMode::Off => Ok(None),
        RegularizationMode::Ridge => {
            let t = build_ridge(cfg.lambda, layout, &cfg.lambda_scaling);
            Ok(Some(t))
        },
        RegularizationMode::Smoothing { order } => {
            match build_smoothing(cfg.lambda, layout, order, &cfg.lambda_scaling) {
                Ok(t) => Ok(Some(t)),
                Err(e) => Err(e),
            }
        },
    }
}

} // verus!
