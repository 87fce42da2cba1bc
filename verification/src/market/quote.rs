//! A single normalized call quote.
use vstd::prelude::*;
use crate::error::{SanosError, SanosResult};
use crate::sorting::SortKey;
use crate::{MIN_POSITIVE, UNIT};

verus! {

/// Half of `x`, rounded toward zero.
pub open spec fn half_toward_zero(x: int) -> int {
    if x >= 0 {
        x / 2
    } else {
        -((-x) / 2)
    }
}

/// The quote checks `new` performs, in order, and the first error.
pub open spec fn quote_error(k: i64, bid: i64, ask: i64, weight: i64) -> Option<SanosError> {
    if k <= 0 {
        Some(SanosError::InvalidBound { field: "k", value: k, min: MIN_POSITIVE, max: i64::MAX })
    } else if !(0 <= bid <= UNIT) {
        Some(SanosError::InvalidBound { field: "bid", value: bid, min: 0, max: UNIT })
    } else if !(0 <= ask <= UNIT) {
        Some(SanosError::InvalidBound { field: "ask", value: ask, min: 0, max: UNIT })
    } else if bid > ask {
        Some(SanosError::InvalidOrdering { msg: "bid must be <= ask" })
    } else if weight < 0 {
        Some(SanosError::InvalidBound { field: "weight", value: weight, min: 0, max: i64::MAX })
    } else {
        None
    }
}

/// Normalized call quote in forward moneyness (fixed point): strike `k > 0`,
/// `0 <= bid <= ask <= 1` and a non-negative weight.
#[derive(Debug, Clone, Copy, PartialEq, Eq)]
pub struct CallQuote {
    pub k: i64,
    pub bid: i64,
    pub ask: i64,
    pub weight: i64,
}

impl CallQuote {
    /// Validates and builds a quote.
    pub fn new(k: i64, bid: i64, ask: i64, weight: i64) -> (r: SanosResult<Self>)
        ensures
            match r {
                Ok(q) => quote_error(k, bid, ask, weight) is None && q == (CallQuote {
                    k,
                    bid,
                    ask,
                    weight,
                }),
                Err(e) => quote_error(k, bid, ask, weight) == Some(e),
            },
    {
        if k <= 0 {
            return Err(
                SanosError::InvalidBound { field: "k", value: k, min: MIN_POSITIVE, max: i64::MAX },
            );
        }
        if !(0 <= bid && bid <= UNIT) {
            return Err(SanosError::InvalidBound { field: "bid", value: bid, min: 0, max: UNIT });
        }
        if !(0 <= ask && ask <= UNIT) {
            return Err(SanosError::InvalidBound { field: "ask", value: ask, min: 0, max: UNIT });
        }
        if bid > ask {
            return Err(SanosError::InvalidOrdering { msg: "bid must be <= ask" });
        }
        if weight < 0 {
            return Err(
                SanosError::InvalidBound { field: "weight", value: weight, min: 0, max: i64::MAX },
            );
        }
        Ok(CallQuote { k, bid, ask, weight })
    }

    /// Mid price `(bid + ask) / 2`, rounded toward zero to the fixed-point grid.
    pub fn mid(&self) -> (r: i64)
        ensures
            r == half_toward_zero(self.bid + self.ask),
    {
        let s = (self.bid as i128) + (self.ask as i128);
        let h = s / 2;
        h as i64
    }
}

impl SortKey for CallQuote {
    open spec fn key_spec(&self) -> int {
        self.k as int
    }

    fn sort_key(&self) -> (k: i64) {
        self.k
    }
}

} // verus!
