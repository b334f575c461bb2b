//! Messages of the liquidation queue contract.

use vstd::prelude::*;

verus! {

/// What the liquidation queue does with collateral sent to it.
#[derive(Clone, Debug, PartialEq, Eq)]
pub enum Cw20HookMsg {
    /// Custody interface to liquidate the sent collateral (the liquidator
    /// is not used).
    ExecuteBid { liquidator: String, fee_address: Option<String>, repay_address: Option<String> },
}

} // verus!
