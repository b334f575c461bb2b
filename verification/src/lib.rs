//! Verified arithmetic and accounting rules of the Anchor money market:
//! 256-bit fixed-point numbers, collateral token bookkeeping, and the
//! interest, deposit, borrow and epoch computations of the market,
//! overseer, oracle and staking contracts.

pub mod bignumber;
pub mod market;
pub mod msg;
pub mod oracle;
pub mod overseer;
pub mod querier;
pub mod tokens;
pub mod ve_aterra;
pub mod vterra;
