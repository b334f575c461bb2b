//! The overseer: it keeps the borrowers' collateral and the whitelist of
//! collateral tokens, runs the epoch operations of the money market, and
//! steers the deposit rate.

pub mod collateral;
pub mod contract;
pub mod error;
pub mod state;
