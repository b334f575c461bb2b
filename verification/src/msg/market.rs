//! Messages of the market contract.

use vstd::prelude::*;

verus! {

/// What the market does with aterra sent to it.
#[derive(Clone, Copy, Debug, PartialEq, Eq, Structural)]
pub enum Cw20HookMsg {
    /// Return stable coins to a user according to the exchange rate.
    RedeemStable,
}

} // verus!
