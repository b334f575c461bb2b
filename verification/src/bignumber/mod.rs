//! 256-bit unsigned integers and 18-digit fixed-point decimals.

pub mod backend;
pub mod decimal256;
pub mod order;
pub mod text;
pub mod uint256;

pub use decimal256::Decimal256;
pub use uint256::{NumberError, Uint256};
