# sanos

Calibration of arbitrage-free option surfaces from market call quotes
(SANOS): a discrete martingale density per maturity, fitted to bid/ask
prices under simplex, mean and calendar (convex-order) constraints.

Real-valued quantities are held in exact fixed point: an `i64` value `v`
stands for `v / UNIT` with `UNIT = 10^12`.

Layout:

- `src/` — the verified library:
  - `market/`: call quotes, option chains and books (sorted, duplicate-free),
    and the practical completion of a call slice (Remark 2.8) with its node
    density.
  - `density/`: marginal and martingale densities, their tolerance checks and
    the convex-order check (with the law that the check on the merged strike
    grid implies convex order at every strike above the grid).
  - `fit/`: fit configuration, kernels, the layout of the decision vector, the
    linear program (`lp_model`, `lp_stages`, `lp_builder`), the least-squares
    residual problem (`residual`), Tikhonov regularization, raw linear
    densities from call prices, and the extraction of a density from a
    solution vector.
  - `grid/`: grid configuration and policies, and the exact strike-grid steps
    (sort and de-duplicate, spacing, caps, proximity, even down-sampling,
    merging market and quantile strikes).
  - `interp/`, `backbone/`, `calibration/`: configuration and maturity
    bracketing.
- `app/` — the command line: JSON snapshots and configurations, Black-Scholes
  pricing of implied volatilities, and the floating-point solve with `resopt`.
- `tests/` — tests of the library.
