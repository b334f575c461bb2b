//! Why a market request fails.

use vstd::prelude::*;

use crate::bignumber::Uint256;

verus! {

#[derive(Clone, Debug, PartialEq, Eq)]
pub enum MarketError {
    /// "Unauthorized"
    Unauthorized,
    /// "Borrow amount too high; Loan liability becomes greater than borrow limit: {0}"
    BorrowExceedsLimit(Uint256),
    /// "Must deposit initial funds {0}{1}"
    InitialFundsNotDeposited(u128, String),
    /// "Exceeds {0} max borrow factor; borrow demand too high"
    MaxBorrowFactorReached(String),
    /// "Invalid request: \"redeem stable\" message not included in request"
    MissingRedeemStableHook,
    /// "Not enough {0} available; borrow demand too high"
    NoStableAvailable(String),
    /// "Deposit amount must be greater than 0 {0}"
    ZeroDeposit(String),
    /// "Repay amount must be greater than 0 {0}"
    ZeroRepay(String),
    /// No unlock entry has the given unlock height.
    NoUnlockMatchingBlockHeight,
    /// The stake unlocks at a later height: (current height, unlock height).
    VeStakeNotUnlocked(u64, u64),
    /// More is asked than is unlocked: (asked, unlocked).
    NotEnoughUnlocked(Uint256, Uint256),
}

} // verus!
