//! The money market: stable coin deposits, borrows and their interest.

pub mod borrow;
pub mod contract;
pub mod deposit;
pub mod error;
pub mod interest;
pub mod math;
pub mod msg;
pub mod state;
