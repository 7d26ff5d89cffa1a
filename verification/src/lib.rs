//! A verified core for a two-party agreement ledger: a persistent keyed store
//! of escrow and loan records advanced through a small state machine under
//! role-based authorization, with a compensating-action workflow around the
//! external value-transfer and content-store calls.

use vstd::prelude::*;

pub mod address;
pub mod catalog;
pub mod codec;
pub mod errors;
pub mod ledger;
pub mod loans;
pub mod party;
pub mod record;
pub mod store;

verus! {

/// Liveness probe of the service; always reports success.
pub fn health() -> (r: &'static str)
    ensures
        r@ == "OK"@,
{
    "OK"
}

} // verus!
