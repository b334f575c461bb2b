//! ve-aterra: vote escrowed aterra, whose exchange rate grows linearly by
//! a premium rate per block. Unbonding leaves receipts that are claimed
//! once they unlock.

pub mod bonding;
pub mod contract;
pub mod premium;
pub mod state;
