//! The vterra epoch operations: the exchange rate is fixed and the premium
//! rate steered toward the target share of deposits.

use vstd::prelude::*;

use crate::bignumber::backend::pow256;
use crate::bignumber::decimal256::{df, dmul};
use crate::bignumber::uint256::group_uint256;
use crate::bignumber::{Decimal256, Uint256};
use crate::querier::{max_decimal, max_nat, min_decimal, min_nat};
use crate::tokens::bytes_equal;
use super::bonding::{state_exchange_rate, state_exchange_rate_fits};
use super::rate::compute_ve_exchange_rate;
use super::state::{Config, State, VterraError};

verus! {

/// The deposits in vterra, in aterra at the epoch's exchange rate.
pub open spec fn converted_ve(s: State) -> nat {
    s.vterra_supply@ * s.prev_epoch_vterra_exchange_rate@ / df()
}

/// The share of deposits held in vterra: its deposits over those and the
/// aterra supply.
pub open spec fn ve_share(s: State, aterra_supply: nat) -> nat {
    converted_ve(s) * df() / (converted_ve(s) + aterra_supply)
}

pub open spec fn ve_share_fits(s: State, aterra_supply: nat) -> bool {
    &&& s.vterra_supply@ * s.prev_epoch_vterra_exchange_rate@ < pow256()
    &&& converted_ve(s) + aterra_supply < pow256()
    &&& converted_ve(s) + aterra_supply != 0
    &&& converted_ve(s) * df() < pow256()
}

/// The share of deposits held in vterra.
pub fn current_ve_share(state: &State, aterra_supply: Uint256) -> (r: Decimal256)
    requires
        ve_share_fits(*state, aterra_supply@),
    ensures
        r@ == ve_share(*state, aterra_supply@),
{
    proof {
        broadcast use group_uint256;
    }
    let converted_ve = state.vterra_supply * state.prev_epoch_vterra_exchange_rate;
    Decimal256::from_ratio(converted_ve, converted_ve + aterra_supply)
}

/// The premium rate moved toward the target share: up by the gap times the
/// multiplier (at most the largest rise) where the share is below target,
/// else down likewise (at most the largest fall); then at least the lowest
/// and at most the highest rate.
pub open spec fn premium_rate_of(s: State, config: Config, aterra_supply: nat) -> nat {
    let share = ve_share(s, aterra_supply);
    let raw: int = if s.target_share@ > share {
        s.premium_rate@ + min_nat(dmul(config.diff_multiplier@, (s.target_share@ - share) as nat), config.max_pos_change@) as int
    } else {
        s.premium_rate@ - min_nat(dmul(config.diff_multiplier@, (share - s.target_share@) as nat), config.max_neg_change@) as int
    };
    min_nat(max_nat(raw as nat, config.min_rate@), config.max_rate@)
}

pub open spec fn premium_rate_fits(s: State, config: Config, aterra_supply: nat) -> bool {
    let share = ve_share(s, aterra_supply);
    &&& ve_share_fits(s, aterra_supply)
    &&& (s.target_share@ > share ==> {
        &&& config.diff_multiplier@ * ((s.target_share@ - share) as nat) < pow256()
        &&& s.premium_rate@ + min_nat(dmul(config.diff_multiplier@, (s.target_share@ - share) as nat), config.max_pos_change@) < pow256()
    })
    &&& (s.target_share@ <= share ==> {
        &&& config.diff_multiplier@ * ((share - s.target_share@) as nat) < pow256()
        &&& s.premium_rate@ >= min_nat(dmul(config.diff_multiplier@, (share - s.target_share@) as nat), config.max_neg_change@)
    })
}

/// Steers the premium rate toward the target share of deposits in vterra.
pub fn update_vterra_premium_rate(state: State, config: &Config, aterra_supply: Uint256) -> (r: State)
    requires
        premium_rate_fits(state, *config, aterra_supply@),
    ensures
        r.premium_rate@ == premium_rate_of(state, *config, aterra_supply@),
        r == (State { premium_rate: r.premium_rate, ..state }),
{
    proof {
        broadcast use group_uint256;
    }
    let current_share = current_ve_share(&state, aterra_supply);
    let raw_rate = if state.target_share > current_share {
        let delta = min_decimal(config.diff_multiplier * (state.target_share - current_share), config.max_pos_change);
        state.premium_rate + delta
    } else {
        let delta = min_decimal(config.diff_multiplier * (current_share - state.target_share), config.max_neg_change);
        state.premium_rate - delta
    };
    let mut state = state;
    state.premium_rate = min_decimal(max_decimal(raw_rate, config.min_rate), config.max_rate);
    state
}

/// The epoch operations (only the overseer may ask, once an epoch of
/// `premium_rate_epoch` blocks has passed): the exchange rate at this
/// height becomes the epoch's, the vterra supply is taken from the token,
/// and the premium rate is steered with the aterra supply.
pub fn execute_epoch_operations(
    state: State,
    config: &Config,
    sender: &Vec<u8>,
    block_height: u64,
    vterra_supply: Uint256,
    aterra_supply: Uint256,
) -> (r: Result<State, VterraError>)
    requires
        state.last_updated + config.premium_rate_epoch <= u64::MAX,
        sender@ == config.overseer_addr@ && state.last_updated + config.premium_rate_epoch <= block_height
            ==> {
            let s1 = State {
                prev_epoch_vterra_exchange_rate: Decimal256::from_nat(state_exchange_rate(state, block_height)),
                vterra_supply,
                ..state
            };
            &&& state_exchange_rate_fits(state, block_height)
            &&& premium_rate_fits(s1, *config, aterra_supply@)
        },
    ensures
        r == Err::<State, VterraError>(VterraError::Unauthorized) <==> sender@ != config.overseer_addr@,
        r == Err::<State, VterraError>(VterraError::EpochNotPassed(state.last_updated)) <==> (sender@
            == config.overseer_addr@ && state.last_updated + config.premium_rate_epoch > block_height),
        r is Ok <==> (sender@ == config.overseer_addr@ && state.last_updated + config.premium_rate_epoch <= block_height),
        r matches Ok(s) ==> {
            let s1 = State {
                prev_epoch_vterra_exchange_rate: Decimal256::from_nat(state_exchange_rate(state, block_height)),
                vterra_supply,
                ..state
            };
            &&& s.prev_epoch_vterra_exchange_rate@ == state_exchange_rate(state, block_height)
            &&& s.vterra_supply == vterra_supply
            &&& s.premium_rate@ == premium_rate_of(s1, *config, aterra_supply@)
            &&& s.target_share == state.target_share
            &&& s.last_updated == block_height
        },
{
    proof {
        broadcast use group_uint256;
    }
    if !bytes_equal(sender, &config.overseer_addr) {
        return Err(VterraError::Unauthorized);
    }
    if state.last_updated + config.premium_rate_epoch > block_height {
        return Err(VterraError::EpochNotPassed(state.last_updated));
    }
    let mut state = state;
    // store new exchange rate BEFORE updating premium rate
    state.prev_epoch_vterra_exchange_rate = compute_ve_exchange_rate(
        state.prev_epoch_vterra_exchange_rate,
        state.premium_rate,
        state.last_updated,
        block_height,
    );
    state.vterra_supply = vterra_supply;
    let mut state = update_vterra_premium_rate(state, config, aterra_supply);
    state.last_updated = block_height;
    Ok(state)
}

/// The premium rate is steered toward the target share and by at most the
/// largest step: where the share is below the target, the new rate is at
/// least the current one and at most the current one plus the largest rise;
/// where it is at or above the target, at most the current one and at least
/// the current one less the largest fall (each bound taken within the
/// lowest and highest rates).
pub proof fn lemma_premium_rate_steers_toward_target(s: State, config: Config, aterra_supply: nat)
    requires
        premium_rate_fits(s, config, aterra_supply),
    ensures
        ({
            let p = premium_rate_of(s, config, aterra_supply);
            let cur = s.premium_rate@;
            &&& s.target_share@ > ve_share(s, aterra_supply) ==> {
                &&& min_nat(max_nat(cur, config.min_rate@), config.max_rate@) <= p
                &&& p <= min_nat(max_nat(cur + config.max_pos_change@, config.min_rate@), config.max_rate@)
            }
            &&& s.target_share@ <= ve_share(s, aterra_supply) ==> {
                &&& p <= min_nat(max_nat(cur, config.min_rate@), config.max_rate@)
                &&& cur >= config.max_neg_change@ ==> min_nat(
                    max_nat((cur - config.max_neg_change@) as nat, config.min_rate@),
                    config.max_rate@,
                ) <= p
            }
        }),
{
}

/// The steered premium rate is never above the highest rate, and never
/// below the lowest where the lowest is not above the highest.
pub proof fn lemma_premium_rate_within_bounds(s: State, config: Config, aterra_supply: nat)
    ensures
        premium_rate_of(s, config, aterra_supply) <= config.max_rate@,
        config.min_rate@ <= config.max_rate@ ==> premium_rate_of(s, config, aterra_supply) >= config.min_rate@,
{
}

} // verus!
