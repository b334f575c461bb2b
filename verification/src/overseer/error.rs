//! Why an overseer request fails.

use vstd::prelude::*;

verus! {

#[derive(Clone, Copy, Debug, PartialEq, Eq, Structural)]
pub enum OverseerError {
    /// "Unauthorized"
    Unauthorized,
    /// "Cannot liquidate safely collateralized loan"
    CannotLiquidateSafeLoan,
    /// "An epoch has not passed yet; last executed height: {0}"
    EpochNotPassed(u64),
    /// "Token is already registered as collateral"
    TokenAlreadyRegistered,
    /// "Token is not registered as collateral"
    TokenNotRegistered,
    /// "Unlock amount cannot exceed locked amount"
    UnlockExceedsLocked,
    /// "Unlock amount too high; Loan liability becomes greater than borrow limit: {0}"
    UnlockTooLarge(u128),
    /// "Subtraction underflow": more collateral is liquidated than is locked.
    SubtractionUnderflow,
    /// "Price is too old"
    PriceTooOld,
}

} // verus!
