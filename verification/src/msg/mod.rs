//! The hook messages a contract accepts along with cw20 tokens sent to it.

pub mod custody;
pub mod liquidation;
pub mod liquidation_queue;
pub mod market;
pub mod ve_aterra;
pub mod vterra;
