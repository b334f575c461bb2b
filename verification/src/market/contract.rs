//! The market's configuration changes, its epoch operations, and the
//! bonding of aterra into ve-aterra.

use vstd::prelude::*;

use crate::bignumber::backend::{pow128, pow256};
use crate::bignumber::decimal256::{ddiv, df, dmul};
use crate::bignumber::uint256::group_uint256;
use crate::bignumber::{Decimal256, Uint256};
use crate::querier::{deduct_tax, tax_of, Coin};
use crate::tokens::bytes_equal;
use super::deposit::{
    balance_less_deposit, coin_amount, compute_exchange_rate_raw, compute_ve_exchange_rate,
    exchange_rate, exchange_rate_fits, extract_coin_amount, settle, settle_fits, settled_state,
    ve_exchange_rate, ve_exchange_rate_fits,
};
use super::error::MarketError;
use super::msg::Cw20HookMsg;
use super::interest::{
    accrue_interest, accrue_interest_fits, compute_interest_raw, compute_reward,
    compute_reward_fits, distribute_reward,
};
use super::state::{Config, State, VeStakerUnlockInfo, VeStakerUnlockInfos};

verus! {

/// The stable coins a market must be instantiated with.
pub const INITIAL_DEPOSIT_AMOUNT: u128 = 1000000;

/// A market is instantiated only with exactly the initial deposit of its
/// stable coin.
pub fn check_initial_deposit(funds: &Vec<Coin>, stable_denom: &String) -> (r: Result<(), MarketError>)
    ensures
        r is Ok <==> coin_amount(funds@, stable_denom@) == INITIAL_DEPOSIT_AMOUNT,
        r matches Err(e) ==> (e matches MarketError::InitialFundsNotDeposited(a, d) && a == INITIAL_DEPOSIT_AMOUNT && d@ == stable_denom@),
{
    proof {
        broadcast use group_uint256;
    }
    let initial_deposit = match extract_coin_amount(funds, stable_denom) {
        Ok(a) => a,
        Err(_) => Uint256::zero(),
    };
    if initial_deposit != Uint256::from(INITIAL_DEPOSIT_AMOUNT) {
        return Err(MarketError::InitialFundsNotDeposited(INITIAL_DEPOSIT_AMOUNT, stable_denom.clone()));
    }
    Ok(())
}

/// The state a market starts with.
pub fn instantiate_state(block_height: u64, anc_emission_rate: Decimal256) -> (r: State)
    ensures
        r.total_liabilities@ == 0,
        r.total_reserves@ == 0,
        r.last_interest_updated == block_height,
        r.last_reward_updated == block_height,
        r.global_interest_index@ == df(),
        r.global_reward_index@ == 0,
        r.anc_emission_rate == anc_emission_rate,
        r.prev_aterra_supply@ == 0,
        r.prev_aterra_exchange_rate@ == df(),
        r.ve_aterra_premium_rate@ == df(),
        r.prev_ve_aterra_supply@ == 0,
        r.prev_ve_aterra_exchange_rate@ == df(),
        r.last_ve_aterra_updated == block_height,
{
    State {
        total_liabilities: Decimal256::zero(),
        total_reserves: Decimal256::zero(),
        last_interest_updated: block_height,
        last_reward_updated: block_height,
        global_interest_index: Decimal256::one(),
        global_reward_index: Decimal256::zero(),
        anc_emission_rate,
        prev_aterra_supply: Uint256::zero(),
        prev_aterra_exchange_rate: Decimal256::one(),
        ve_aterra_premium_rate: Decimal256::one(),
        prev_ve_aterra_supply: Uint256::zero(),
        prev_ve_aterra_exchange_rate: Decimal256::one(),
        last_ve_aterra_updated: block_height,
    }
}

/// The aterra token registers itself once: only while no token is set.
pub fn register_aterra(config: Config, sender: Vec<u8>) -> (r: Result<Config, MarketError>)
    ensures
        r is Ok <==> config.aterra_contract@.len() == 0,
        r matches Err(e) ==> e == MarketError::Unauthorized,
        r matches Ok(c) ==> c == (Config { aterra_contract: sender, ..config }),
{
    if config.aterra_contract.len() != 0 {
        return Err(MarketError::Unauthorized);
    }
    let mut config = config;
    config.aterra_contract = sender;
    Ok(config)
}

/// The overseer is registered once: only while none is set.
pub fn register_overseer_contract(config: Config, overseer_contract: Vec<u8>) -> (r: Result<Config, MarketError>)
    ensures
        r is Ok <==> config.overseer_contract@.len() == 0,
        r matches Err(e) ==> e == MarketError::Unauthorized,
        r matches Ok(c) ==> c == (Config { overseer_contract: overseer_contract, ..config }),
{
    if config.overseer_contract.len() != 0 {
        return Err(MarketError::Unauthorized);
    }
    let mut config = config;
    config.overseer_contract = overseer_contract;
    Ok(config)
}

/// The owner's change of the configuration. Interest accrues, under the
/// interest model in force, before the interest model changes. Returns the
/// new configuration and state.
pub fn update_config(
    config: Config,
    state: State,
    sender: &Vec<u8>,
    block_height: u64,
    owner_addr: Option<Vec<u8>>,
    interest_model: Option<Vec<u8>>,
    distribution_model: Option<Vec<u8>>,
    max_borrow_factor: Option<Decimal256>,
    balance: Uint256,
    borrow_rate: Decimal256,
    target_deposit_rate: Decimal256,
    aterra_supply: Uint256,
    ve_aterra_supply: Uint256,
) -> (r: Result<(Config, State), MarketError>)
    requires
        interest_model is Some ==> accrue_interest_fits(state, block_height, balance@, aterra_supply@, ve_aterra_supply@, borrow_rate@, target_deposit_rate@),
    ensures
        r is Ok <==> sender@ == config.owner_addr@,
        r matches Err(e) ==> e == MarketError::Unauthorized,
        r matches Ok((c, s)) ==> {
            &&& c.owner_addr@ == (match owner_addr { Some(a) => a@, None => config.owner_addr@ })
            &&& c.interest_model@ == (match interest_model { Some(a) => a@, None => config.interest_model@ })
            &&& c.distribution_model@ == (match distribution_model { Some(a) => a@, None => config.distribution_model@ })
            &&& c.max_borrow_factor == (match max_borrow_factor { Some(f) => f, None => config.max_borrow_factor })
            &&& c.contract_addr == config.contract_addr
            &&& c.aterra_contract == config.aterra_contract
            &&& c.ve_aterra_contract == config.ve_aterra_contract
            &&& c.overseer_contract == config.overseer_contract
            &&& c.collector_contract == config.collector_contract
            &&& c.distributor_contract == config.distributor_contract
            &&& c.stable_denom == config.stable_denom
            &&& s == (if interest_model is Some {
                accrue_interest(state, block_height, balance@, aterra_supply@, ve_aterra_supply@, borrow_rate@, target_deposit_rate@)
            } else {
                state
            })
        },
{
    let mut config = config;
    let mut state = state;
    // permission check
    if !bytes_equal(sender, &config.owner_addr) {
        return Err(MarketError::Unauthorized);
    }
    if let Some(owner_addr) = owner_addr {
        config.owner_addr = owner_addr;
    }
    if interest_model.is_some() {
        compute_interest_raw(&mut state, block_height, balance, aterra_supply, ve_aterra_supply, borrow_rate, target_deposit_rate);
        if let Some(interest_model) = interest_model {
            config.interest_model = interest_model;
        }
    }
    if let Some(distribution_model) = distribution_model {
        config.distribution_model = distribution_model;
    }
    if let Some(max_borrow_factor) = max_borrow_factor {
        config.max_borrow_factor = max_borrow_factor;
    }
    Ok((config, state))
}

/// The state of the epoch operations once interest and rewards are
/// settled: interest accrued with the interest already distributed taken
/// out of the balance, the last exchange rate taken again with it, and the
/// rewards distributed.
pub open spec fn epoch_settled_state(
    s: State,
    block_height: u64,
    balance: nat,
    distributed_interest: nat,
    borrow_rate: nat,
    target_deposit_rate: nat,
    aterra_supply: nat,
    ve_aterra_supply: nat,
) -> State {
    let before = (balance - distributed_interest) as nat;
    let s1 = accrue_interest(s, block_height, before, aterra_supply, ve_aterra_supply, borrow_rate, target_deposit_rate);
    let s2 = State {
        prev_aterra_exchange_rate: Decimal256::from_nat(exchange_rate(s1, block_height, aterra_supply, ve_aterra_supply, balance)),
        ..s1
    };
    distribute_reward(s2, block_height)
}

pub open spec fn epoch_operations_fits(
    s: State,
    block_height: u64,
    balance: nat,
    distributed_interest: nat,
    borrow_rate: nat,
    target_deposit_rate: nat,
    aterra_supply: nat,
    ve_aterra_supply: nat,
    tax_rate: nat,
) -> bool {
    let before = (balance - distributed_interest) as nat;
    let s1 = accrue_interest(s, block_height, before, aterra_supply, ve_aterra_supply, borrow_rate, target_deposit_rate);
    let s2 = State {
        prev_aterra_exchange_rate: Decimal256::from_nat(exchange_rate(s1, block_height, aterra_supply, ve_aterra_supply, balance)),
        ..s1
    };
    let s3 = distribute_reward(s2, block_height);
    &&& distributed_interest <= balance
    &&& accrue_interest_fits(s, block_height, before, aterra_supply, ve_aterra_supply, borrow_rate, target_deposit_rate)
    &&& exchange_rate_fits(s1, block_height, aterra_supply, ve_aterra_supply, balance)
    &&& compute_reward_fits(s2, block_height)
    &&& s3.total_reserves@ / df() < pow128()
    &&& df() + tax_rate < pow256()
}

/// The market's epoch operations, which only the overseer may run: after
/// interest and rewards are settled (see `epoch_settled_state`), the whole
/// units of the reserves go to the collector where the balance, less the
/// interest already distributed, is above them, and the emission rate
/// becomes `anc_emission_rate`, the one the distribution model gives.
/// Returns the new state, the reserves taken (zero where none are sent) and
/// what reaches the collector after the tax on sending them.
pub fn execute_epoch_operations(
    config: &Config,
    state: State,
    sender: &Vec<u8>,
    block_height: u64,
    distributed_interest: Uint256,
    balance: Uint256,
    borrow_rate: Decimal256,
    target_deposit_rate: Decimal256,
    aterra_supply: Uint256,
    ve_aterra_supply: Uint256,
    anc_emission_rate: Decimal256,
    tax_rate: Decimal256,
    tax_cap: Uint256,
) -> (r: Result<(State, Uint256, Uint256), MarketError>)
    requires
        sender@ == config.overseer_contract@ ==> epoch_operations_fits(state, block_height, balance@, distributed_interest@, borrow_rate@, target_deposit_rate@, aterra_supply@, ve_aterra_supply@, tax_rate@),
    ensures
        r is Ok <==> sender@ == config.overseer_contract@,
        r matches Err(e) ==> e == MarketError::Unauthorized,
        r matches Ok((s, taken, sent)) ==> ({
            let s3 = epoch_settled_state(state, block_height, balance@, distributed_interest@, borrow_rate@, target_deposit_rate@, aterra_supply@, ve_aterra_supply@);
            let reserves = s3.total_reserves@ / df();
            let paid = reserves != 0 && balance@ - distributed_interest@ > reserves;
            &&& taken@ == (if paid { reserves } else { 0 })
            &&& sent@ == (if paid { (reserves - tax_of(reserves, tax_rate@, tax_cap@)) as nat } else { 0 })
            &&& s == (State {
                anc_emission_rate: anc_emission_rate,
                total_reserves: if paid {
                    Decimal256::from_nat((s3.total_reserves@ - reserves * df()) as nat)
                } else {
                    s3.total_reserves
                },
                ..s3
            })
        }),
{
    proof {
        broadcast use group_uint256;
    }
    if !bytes_equal(&config.overseer_contract, sender) {
        return Err(MarketError::Unauthorized);
    }
    let mut state = state;
    let before = balance_less_deposit(balance, Some(distributed_interest));
    // Compute interest and reward before updating anc_emission_rate
    compute_interest_raw(&mut state, block_height, before, aterra_supply, ve_aterra_supply, borrow_rate, target_deposit_rate);
    // recompute prev_exchange_rate with distributed_interest
    state.prev_aterra_exchange_rate = compute_exchange_rate_raw(&state, block_height, aterra_supply, ve_aterra_supply, balance);
    compute_reward(&mut state, block_height);

    // Compute total_reserves to fund collector contract
    // Update total_reserves and send it to collector contract
    // only when there is enough balance
    proof {
        let p = state.total_reserves@;
        assert(p * 1 == p);
        vstd::arithmetic::div_mod::lemma_fundamental_div_mod(p as int, df() as int);
        assert((p / df()) * df() <= p) by (nonlinear_arith)
            requires p == df() * (p / df()) + p % df(), p % df() >= 0;
    }
    let total_reserves = state.total_reserves * Uint256::one();
    let mut taken = Uint256::zero();
    let mut sent = Uint256::zero();
    if !total_reserves.is_zero() && before > total_reserves {
        state.total_reserves = state.total_reserves - Decimal256::from_uint256(total_reserves);
        let coin = deduct_tax(
            tax_rate,
            tax_cap,
            Coin { denom: config.stable_denom.clone(), amount: total_reserves.into_u128() },
        );
        taken = total_reserves;
        sent = Uint256::from(coin.amount);
    }
    state.anc_emission_rate = anc_emission_rate;
    Ok((state, taken, sent))
}

/// The market's exchange rate and aterra supply as the overseer reads them:
/// where a block height is given, interest accrues up to it (with the
/// interest already distributed taken out of the balance) and the exchange
/// rate is the one the accrual keeps as the last; else it is the last one
/// kept.
pub fn query_epoch_state(
    state: State,
    block_height: Option<u64>,
    distributed_interest: Option<Uint256>,
    balance: Uint256,
    borrow_rate: Decimal256,
    target_deposit_rate: Decimal256,
    aterra_supply: Uint256,
    ve_aterra_supply: Uint256,
) -> (r: (Decimal256, Uint256))
    requires
        ({
            let d = match distributed_interest { Some(d) => d@, None => 0 };
            &&& d <= balance@
            &&& block_height matches Some(h) ==> accrue_interest_fits(state, h, (balance@ - d) as nat, aterra_supply@, ve_aterra_supply@, borrow_rate@, target_deposit_rate@)
        }),
    ensures
        ({
            let d = match distributed_interest { Some(d) => d@, None => 0 };
            let s1 = match block_height {
                Some(h) => accrue_interest(state, h, (balance@ - d) as nat, aterra_supply@, ve_aterra_supply@, borrow_rate@, target_deposit_rate@),
                None => state,
            };
            &&& r.0 == s1.prev_aterra_exchange_rate
            &&& r.1 == aterra_supply
        }),
{
    let mut state = state;
    let balance = balance_less_deposit(balance, distributed_interest);
    if let Some(block_height) = block_height {
        // Compute interest rate to return latest epoch state
        compute_interest_raw(&mut state, block_height, balance, aterra_supply, ve_aterra_supply, borrow_rate, target_deposit_rate);
    }
    // compute_interest_raw stores the current exchange rate as the last one
    (state.prev_aterra_exchange_rate, aterra_supply)
}

pub open spec fn bond_fits(
    s: State,
    block_height: u64,
    amount: nat,
    balance: nat,
    borrow_rate: nat,
    target_deposit_rate: nat,
    aterra_supply: nat,
    ve_aterra_supply: nat,
) -> bool {
    let s1 = settled_state(s, block_height, balance, aterra_supply, ve_aterra_supply, borrow_rate, target_deposit_rate);
    let er = ve_exchange_rate(s1, block_height);
    &&& settle_fits(s, block_height, balance, aterra_supply, ve_aterra_supply, borrow_rate, target_deposit_rate)
    &&& ve_exchange_rate_fits(s1, block_height)
    &&& er != 0
    &&& amount * df() < pow256()
    &&& amount <= s1.prev_aterra_supply@
    &&& s1.prev_ve_aterra_supply@ + ddiv(amount, er) < pow256()
}

/// Bonding aterra (sent as `aterra_denom` coins) for ve-aterra at the
/// ve-aterra exchange rate. Returns the new state and the ve-aterra minted.
pub fn bond_aterra(
    config: &Config,
    state: State,
    block_height: u64,
    funds: &Vec<Coin>,
    aterra_denom: &String,
    balance: Uint256,
    borrow_rate: Decimal256,
    target_deposit_rate: Decimal256,
    aterra_supply: Uint256,
    ve_aterra_supply: Uint256,
) -> (r: Result<(State, Uint256), MarketError>)
    requires
        coin_amount(funds@, aterra_denom@) != 0 ==> bond_fits(state, block_height, coin_amount(funds@, aterra_denom@), balance@, borrow_rate@, target_deposit_rate@, aterra_supply@, ve_aterra_supply@),
    ensures
        r is Ok <==> coin_amount(funds@, aterra_denom@) != 0,
        r matches Err(e) ==> (e matches MarketError::ZeroDeposit(d) && d@ == aterra_denom@),
        r matches Ok((s, minted)) ==> ({
            let amount = coin_amount(funds@, aterra_denom@);
            let s1 = settled_state(state, block_height, balance@, aterra_supply@, ve_aterra_supply@, borrow_rate@, target_deposit_rate@);
            let er = ve_exchange_rate(s1, block_height);
            &&& minted@ == ddiv(amount, er)
            &&& s == (State {
                prev_aterra_supply: Uint256::from_nat((s1.prev_aterra_supply@ - amount) as nat),
                prev_ve_aterra_supply: Uint256::from_nat(s1.prev_ve_aterra_supply@ + minted@),
                ..s1
            })
        }),
{
    proof {
        broadcast use group_uint256;
    }
    let bond_amount = match extract_coin_amount(funds, aterra_denom) {
        Ok(a) => a,
        Err(e) => {
            return Err(e);
        },
    };
    let mut state = state;
    settle(&mut state, block_height, balance, aterra_supply, ve_aterra_supply, borrow_rate, target_deposit_rate);
    let exchange_rate = compute_ve_exchange_rate(&state, block_height);
    let ve_aterra_amount = bond_amount / exchange_rate;
    state.prev_aterra_supply = state.prev_aterra_supply - bond_amount;
    state.prev_ve_aterra_supply = state.prev_ve_aterra_supply + ve_aterra_amount;
    Ok((state, ve_aterra_amount))
}

pub open spec fn unbond_fits(
    s: State,
    block_height: u64,
    amount: nat,
    balance: nat,
    borrow_rate: nat,
    target_deposit_rate: nat,
    aterra_supply: nat,
    ve_aterra_supply: nat,
) -> bool {
    let s1 = settled_state(s, block_height, balance, aterra_supply, ve_aterra_supply, borrow_rate, target_deposit_rate);
    let er = ve_exchange_rate(s1, block_height);
    &&& settle_fits(s, block_height, balance, aterra_supply, ve_aterra_supply, borrow_rate, target_deposit_rate)
    &&& ve_exchange_rate_fits(s1, block_height)
    &&& amount * er < pow256()
    &&& s1.prev_aterra_supply@ + dmul(amount, er) < pow256()
    &&& amount <= s1.prev_ve_aterra_supply@
}

/// Unbonding ve-aterra (sent as `ve_aterra_denom` coins) for aterra at the
/// ve-aterra exchange rate. Returns the new state and the aterra minted.
pub fn unbond_ve_aterra(
    config: &Config,
    state: State,
    block_height: u64,
    funds: &Vec<Coin>,
    ve_aterra_denom: &String,
    balance: Uint256,
    borrow_rate: Decimal256,
    target_deposit_rate: Decimal256,
    aterra_supply: Uint256,
    ve_aterra_supply: Uint256,
) -> (r: Result<(State, Uint256), MarketError>)
    requires
        coin_amount(funds@, ve_aterra_denom@) != 0 ==> unbond_fits(state, block_height, coin_amount(funds@, ve_aterra_denom@), balance@, borrow_rate@, target_deposit_rate@, aterra_supply@, ve_aterra_supply@),
    ensures
        r is Ok <==> coin_amount(funds@, ve_aterra_denom@) != 0,
        r matches Err(e) ==> (e matches MarketError::ZeroDeposit(d) && d@ == ve_aterra_denom@),
        r matches Ok((s, minted)) ==> ({
            let amount = coin_amount(funds@, ve_aterra_denom@);
            let s1 = settled_state(state, block_height, balance@, aterra_supply@, ve_aterra_supply@, borrow_rate@, target_deposit_rate@);
            let er = ve_exchange_rate(s1, block_height);
            &&& minted@ == dmul(amount, er)
            &&& s == (State {
                prev_aterra_supply: Uint256::from_nat(s1.prev_aterra_supply@ + minted@),
                prev_ve_aterra_supply: Uint256::from_nat((s1.prev_ve_aterra_supply@ - amount) as nat),
                ..s1
            })
        }),
{
    proof {
        broadcast use group_uint256;
    }
    let unbond_amount = match extract_coin_amount(funds, ve_aterra_denom) {
        Ok(a) => a,
        Err(e) => {
            return Err(e);
        },
    };
    let mut state = state;
    settle(&mut state, block_height, balance, aterra_supply, ve_aterra_supply, borrow_rate, target_deposit_rate);
    let exchange_rate = compute_ve_exchange_rate(&state, block_height);
    let aterra_mint_amount = unbond_amount * exchange_rate;
    state.prev_aterra_supply = state.prev_aterra_supply + aterra_mint_amount;
    state.prev_ve_aterra_supply = state.prev_ve_aterra_supply - unbond_amount;
    Ok((state, aterra_mint_amount))
}

/// The index of the first entry unlocking at `unlock_block`, if any.
pub open spec fn first_unlock_at(infos: Seq<VeStakerUnlockInfo>, unlock_block: u64) -> Option<int> {
    if exists|i: int| 0 <= i < infos.len() && #[trigger] infos[i].unlock_block == unlock_block {
        Some(choose|i: int| 0 <= i < infos.len() && #[trigger] infos[i].unlock_block == unlock_block
            && forall|k: int| 0 <= k < i ==> infos[k].unlock_block != unlock_block)
    } else {
        None
    }
}

/// Claiming `amount` of the ve-aterra entry that unlocks at
/// `unlock_block_height`: it must exist, be unlocked, and hold at least
/// `amount`; it shrinks by `amount` or, when emptied, goes.
pub fn claim_unlocked_aterra(
    staker_infos: VeStakerUnlockInfos,
    block_height: u64,
    unlock_block_height: u64,
    amount: Uint256,
) -> (r: Result<VeStakerUnlockInfos, MarketError>)
    ensures
        ({
            let infos = staker_infos.infos@;
            match first_unlock_at(infos, unlock_block_height) {
                None => r == Err::<VeStakerUnlockInfos, MarketError>(MarketError::NoUnlockMatchingBlockHeight),
                Some(idx) => {
                    let total = infos[idx].ve_aterra_qty;
                    if unlock_block_height > block_height {
                        r == Err::<VeStakerUnlockInfos, MarketError>(MarketError::VeStakeNotUnlocked(block_height, unlock_block_height))
                    } else if amount@ > total@ {
                        r == Err::<VeStakerUnlockInfos, MarketError>(MarketError::NotEnoughUnlocked(amount, total))
                    } else if amount@ == total@ {
                        r matches Ok(s) && s.infos@ == infos.remove(idx)
                    } else {
                        r matches Ok(s) && s.infos@ == infos.update(idx, (VeStakerUnlockInfo {
                            ve_aterra_qty: Uint256::from_nat((total@ - amount@) as nat),
                            ..infos[idx]
                        }))
                    }
                }
            }
        }),
{
    proof {
        broadcast use group_uint256;
    }
    let mut staker_infos = staker_infos;
    let ghost infos = staker_infos.infos@;
    let mut i: usize = 0;
    while i < staker_infos.infos.len()
        invariant
            infos == staker_infos.infos@,
            i <= infos.len(),
            forall|k: int| 0 <= k < i ==> #[trigger] infos[k].unlock_block != unlock_block_height,
        ensures
            i < infos.len() ==> infos[i as int].unlock_block == unlock_block_height,
        decreases staker_infos.infos.len() - i,
    {
        if staker_infos.infos[i].unlock_block == unlock_block_height {
            break;
        }
        i = i + 1;
    }
    if i == staker_infos.infos.len() {
        proof {
            assert(!exists|k: int| 0 <= k < infos.len() && #[trigger] infos[k].unlock_block == unlock_block_height);
        }
        return Err(MarketError::NoUnlockMatchingBlockHeight);
    }
    proof {
        let idx = first_unlock_at(infos, unlock_block_height);
        assert(infos[i as int].unlock_block == unlock_block_height);
        let c = choose|j: int| 0 <= j < infos.len() && #[trigger] infos[j].unlock_block == unlock_block_height
            && forall|k: int| 0 <= k < j ==> infos[k].unlock_block != unlock_block_height;
        assert(c == i) by {
            if c < i {
                assert(infos[c].unlock_block != unlock_block_height);
            } else if c > i {
                assert(infos[i as int].unlock_block != unlock_block_height);
            }
        }
    }
    if unlock_block_height > block_height {
        return Err(MarketError::VeStakeNotUnlocked(block_height, unlock_block_height));
    }
    let total_amount = staker_infos.infos[i].ve_aterra_qty;
    if amount < total_amount {
        let entry = staker_infos.infos[i];
        staker_infos.infos.set(i, VeStakerUnlockInfo { ve_aterra_qty: total_amount - amount, ..entry });
    } else if amount == total_amount {
        staker_infos.infos.remove(i);
    } else {
        return Err(MarketError::NotEnoughUnlocked(amount, total_amount));
    }
    Ok(staker_infos)
}

/// aterra sent to the market must come with the redeem hook, and only from
/// the aterra token itself.
pub fn receive_cw20(config: &Config, sender: &Vec<u8>, msg: Option<Cw20HookMsg>) -> (r: Result<Cw20HookMsg, MarketError>)
    ensures
        msg is None ==> r == Err::<Cw20HookMsg, MarketError>(MarketError::MissingRedeemStableHook),
        msg matches Some(m) ==> (if sender@ == config.aterra_contract@ {
            r == Ok::<Cw20HookMsg, MarketError>(m)
        } else {
            r == Err::<Cw20HookMsg, MarketError>(MarketError::Unauthorized)
        }),
{
    match msg {
        Some(Cw20HookMsg::RedeemStable) => {
            if !bytes_equal(sender, &config.aterra_contract) {
                return Err(MarketError::Unauthorized);
            }
            Ok(Cw20HookMsg::RedeemStable)
        },
        None => Err(MarketError::MissingRedeemStableHook),
    }
}

} // verus!
