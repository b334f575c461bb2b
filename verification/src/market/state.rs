//! The market's configuration and state.

use vstd::prelude::*;

use crate::bignumber::decimal256::df;
use crate::bignumber::uint256::group_uint256;
use crate::bignumber::{Decimal256, Uint256};

verus! {

/// The market's configuration; addresses are canonical address bytes.
#[derive(Clone, Debug, PartialEq, Eq)]
pub struct Config {
    pub contract_addr: Vec<u8>,
    pub owner_addr: Vec<u8>,
    pub aterra_contract: Vec<u8>,
    pub ve_aterra_contract: Vec<u8>,
    pub interest_model: Vec<u8>,
    pub distribution_model: Vec<u8>,
    pub overseer_contract: Vec<u8>,
    pub collector_contract: Vec<u8>,
    pub distributor_contract: Vec<u8>,
    pub stable_denom: String,
    pub max_borrow_factor: Decimal256,
}

/// The market's interest, reward and deposit state.
#[derive(Clone, Copy, Debug, PartialEq, Eq, Structural)]
pub struct State {
    pub total_liabilities: Decimal256,
    pub total_reserves: Decimal256,
    pub last_interest_updated: u64,
    pub last_reward_updated: u64,
    pub global_interest_index: Decimal256,
    pub global_reward_index: Decimal256,
    pub anc_emission_rate: Decimal256,
    pub prev_aterra_supply: Uint256,
    pub prev_aterra_exchange_rate: Decimal256,
    pub ve_aterra_premium_rate: Decimal256,
    pub prev_ve_aterra_supply: Uint256,
    pub prev_ve_aterra_exchange_rate: Decimal256,
    pub last_ve_aterra_updated: u64,
}

/// A borrower's loan and rewards.
#[derive(Clone, Copy, Debug, PartialEq, Eq, Structural)]
pub struct BorrowerInfo {
    pub interest_index: Decimal256,
    pub reward_index: Decimal256,
    pub loan_amount: Uint256,
    pub pending_rewards: Decimal256,
}

/// ve-aterra waiting to be unlocked.
#[derive(Clone, Copy, Debug, PartialEq, Eq, Structural)]
pub struct VeStakerUnlockInfo {
    pub ve_aterra_qty: Uint256,
    pub unlock_block: u64,
}

/// A staker's ve-aterra waiting to be unlocked.
#[derive(Clone, Debug, PartialEq, Eq)]
pub struct VeStakerUnlockInfos {
    pub infos: Vec<VeStakerUnlockInfo>,
}

impl Default for State {
    fn default() -> (r: State)
        ensures
            r.total_liabilities@ == 0,
            r.total_reserves@ == 0,
            r.last_interest_updated == 0,
            r.last_reward_updated == 0,
            r.global_interest_index@ == df(),
            r.global_reward_index@ == 0,
            r.anc_emission_rate@ == df(),
            r.prev_aterra_supply@ == 0,
            r.prev_aterra_exchange_rate@ == df(),
            r.ve_aterra_premium_rate@ == df(),
            r.prev_ve_aterra_supply@ == 0,
            r.prev_ve_aterra_exchange_rate@ == df(),
            r.last_ve_aterra_updated == 0,
    {
        State {
            total_liabilities: Decimal256::zero(),
            total_reserves: Decimal256::zero(),
            last_interest_updated: 0,
            last_reward_updated: 0,
            global_interest_index: Decimal256::one(),
            global_reward_index: Decimal256::zero(),
            anc_emission_rate: Decimal256::one(),
            prev_aterra_supply: Uint256::zero(),
            prev_aterra_exchange_rate: Decimal256::one(),
            ve_aterra_premium_rate: Decimal256::one(),
            prev_ve_aterra_supply: Uint256::zero(),
            prev_ve_aterra_exchange_rate: Decimal256::one(),
            last_ve_aterra_updated: 0,
        }
    }
}

/// The record of a borrower the market has never lent to.
pub fn new_borrower_info() -> (r: BorrowerInfo)
    ensures
        r.interest_index@ == df(),
        r.reward_index@ == 0,
        r.loan_amount@ == 0,
        r.pending_rewards@ == 0,
{
    BorrowerInfo {
        interest_index: Decimal256::one(),
        reward_index: Decimal256::zero(),
        loan_amount: Uint256::zero(),
        pending_rewards: Decimal256::zero(),
    }
}

/// The first key after `start_after` in a paginated read: the address
/// bytes with a 1 appended.
pub fn calc_range_start(start_after: Option<Vec<u8>>) -> (r: Option<Vec<u8>>)
    ensures
        start_after is None ==> r is None,
        start_after matches Some(a) ==> (r matches Some(v) && v@ == a@.push(1u8)),
{
    match start_after {
        Some(addr) => {
            let mut v = addr;
            v.push(1u8);
            Some(v)
        },
        None => None,
    }
}

/// The number of entries a paginated read returns: the limit asked for
/// (10 when none), at most 30.
pub fn page_limit(limit: Option<u32>) -> (r: usize)
    ensures
        r == (match limit {
            Some(l) => if l < 30 { l as int } else { 30 },
            None => 10,
        }),
{
    let l = match limit {
        Some(l) => l,
        None => 10u32,
    };
    if l < 30 {
        l as usize
    } else {
        30
    }
}

} // verus!
