//! Messages of the custody contracts.

use vstd::prelude::*;

verus! {

/// What a custody contract does with cw20 tokens sent to it.
#[derive(Clone, Copy, Debug, PartialEq, Eq, Structural)]
pub enum Cw20HookMsg {
    /// Deposit collateral token
    DepositCollateral,
}

/// A bAsset's token information.
#[derive(Clone, Debug, PartialEq, Eq)]
pub struct BAssetInfo {
    pub name: String,
    pub symbol: String,
    pub decimals: u8,
}

} // verus!
