//! The ve-aterra configuration and state.

use vstd::prelude::*;

use crate::bignumber::{Decimal256, Uint256};

verus! {

/// The ve-aterra configuration; addresses are canonical address bytes (an
/// empty address where none is set yet).
#[derive(Clone, Debug, PartialEq, Eq)]
pub struct Config {
    pub contract_addr: Vec<u8>,
    pub owner_addr: Vec<u8>,
    pub market_addr: Vec<u8>,
    pub overseer_addr: Vec<u8>,
    pub aterra_contract: Vec<u8>,
    pub ve_aterra_contract: Vec<u8>,
    pub max_pos_change: Decimal256,
    pub max_neg_change: Decimal256,
    pub max_rate: Decimal256,
    pub min_rate: Decimal256,
    pub diff_multiplier: Decimal256,
    pub premium_rate_epoch: u64,
}

#[derive(Clone, Copy, Debug, PartialEq, Eq, Structural)]
pub struct State {
    /// aterra per ve-aterra at the last update.
    pub prev_epoch_ve_aterra_exchange_rate: Decimal256,
    pub ve_aterra_supply: Uint256,
    /// The block height of the last update.
    pub last_updated: u64,
    /// The share of deposits in ve-aterra that the premium rate steers to.
    pub target_share: Decimal256,
    /// The premium of ve-aterra over aterra, per block.
    pub premium_rate: Decimal256,
}

/// Why a ve-aterra request fails.
#[derive(Clone, Copy, Debug, PartialEq, Eq, Structural)]
pub enum VeAterraError {
    /// "Unauthorized"
    Unauthorized,
    /// "Not enough aterra unlocked. Requested {0}, Available {1}"
    NotEnoughUnlocked(Uint256, Uint256),
    /// "Provided CW20 hook is unsupported"
    UnsupportedCw20Hook,
}

} // verus!
