//! vterra: aterra bonded for a premium over the deposit rate. Unbonding
//! leaves receipts of aterra that can be claimed once they unlock, or
//! bonded again before.

pub mod bonding;
pub mod epoch;
pub mod rate;
pub mod state;
