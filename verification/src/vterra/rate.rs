//! The exchange rate of vterra: aterra per vterra, growing by the premium
//! rate in every block.

use vstd::prelude::*;

use crate::bignumber::backend::pow256;
use crate::bignumber::decimal256::{df, dmul};
use crate::bignumber::uint256::group_uint256;
use crate::bignumber::Decimal256;

verus! {

/// `base` to the power `n`, each product rounded down as decimals are.
pub open spec fn dpow(base: nat, n: nat) -> nat
    decreases n,
{
    if n == 0 {
        df()
    } else {
        dmul(dpow(base, (n - 1) as nat), base)
    }
}

/// No product of the power overflows.
pub open spec fn dpow_fits(base: nat, n: nat) -> bool {
    forall|k: nat| k < n ==> #[trigger] dpow(base, k) * base < pow256()
}

/// `base` to the power `power`, by repeated multiplication.
pub fn pow(base: Decimal256, power: u64) -> (r: Decimal256)
    requires
        dpow_fits(base@, power as nat),
    ensures
        r@ == dpow(base@, power as nat),
{
    proof {
        broadcast use group_uint256;
    }
    let mut acc = Decimal256::one();
    let mut i: u64 = 0;
    while i < power
        invariant
            i <= power,
            dpow_fits(base@, power as nat),
            acc@ == dpow(base@, i as nat),
        decreases power - i,
    {
        assert(dpow(base@, i as nat) * base@ < pow256());
        acc = acc * base;
        i = i + 1;
    }
    acc
}

/// aterra per vterra at `block_height`: the last rate times the premium
/// rate to the power of the blocks since.
pub open spec fn ve_exchange_rate(previous_er: nat, premium_rate: nat, last_updated: u64, block_height: u64) -> nat {
    let blocks = (block_height - last_updated) as nat;
    if blocks == 0 {
        previous_er
    } else {
        dmul(previous_er, dpow(premium_rate, blocks))
    }
}

pub open spec fn ve_exchange_rate_fits(previous_er: nat, premium_rate: nat, last_updated: u64, block_height: u64) -> bool {
    let blocks = (block_height - last_updated) as nat;
    &&& last_updated <= block_height
    &&& dpow_fits(premium_rate, blocks)
    &&& previous_er * dpow(premium_rate, blocks) < pow256()
}

/// The exchange rate of aterra per vterra at `block_height`.
pub fn compute_ve_exchange_rate(
    previous_er: Decimal256,
    premium_rate: Decimal256,
    last_updated: u64,
    block_height: u64,
) -> (r: Decimal256)
    requires
        ve_exchange_rate_fits(previous_er@, premium_rate@, last_updated, block_height),
    ensures
        r@ == ve_exchange_rate(previous_er@, premium_rate@, last_updated, block_height),
{
    proof {
        broadcast use group_uint256;
    }
    let blocks_elapsed = block_height - last_updated;
    if blocks_elapsed == 0 {
        previous_er
    } else {
        previous_er * pow(premium_rate, blocks_elapsed)
    }
}

} // verus!
