//! Messages of the liquidation contract.

use vstd::prelude::*;

verus! {

/// What the liquidation contract does with collateral sent to it.
#[derive(Clone, Debug, PartialEq, Eq)]
pub enum Cw20HookMsg {
    /// Sell the collateral sent to the bidders.
    ExecuteBid { liquidator: String, fee_address: Option<String>, repay_address: Option<String> },
}

} // verus!
