//! Conventions of implied-volatility surface snapshots.
use vstd::prelude::*;

verus! {

/// Schema identifier for implied-vol surface snapshots (v1).
pub const IV_SNAPSHOT_SCHEMA: &'static str = "sanos.iv_surface.v1";

/// The strike convention of a snapshot that does not state one: strikes in
/// forward moneyness, `K = k * F`.
pub fn default_strike_convention() -> (r: String)
    ensures
        r@ == "forward_moneyness"@,
{
    "forward_moneyness".to_owned()
}

} // verus!
