//! The ve-aterra contract's registration of its token, its configuration
//! changes, and the tokens it accepts.

use vstd::prelude::*;

use crate::bignumber::Decimal256;
use crate::msg::ve_aterra::Cw20HookMsg;
use crate::tokens::bytes_equal;
use super::state::{Config, VeAterraError};

verus! {

/// The state a ve-aterra contract starts with.
pub fn instantiate_state(block_height: u64, target_share: Decimal256, initial_premium_rate: Decimal256) -> (r: super::state::State)
    ensures
        r.prev_epoch_ve_aterra_exchange_rate@ == crate::bignumber::decimal256::df(),
        r.ve_aterra_supply@ == 0,
        r.last_updated == block_height,
        r.target_share == target_share,
        r.premium_rate == initial_premium_rate,
{
    super::state::State {
        prev_epoch_ve_aterra_exchange_rate: Decimal256::one(),
        ve_aterra_supply: crate::bignumber::Uint256::zero(),
        last_updated: block_height,
        target_share,
        premium_rate: initial_premium_rate,
    }
}

/// The ve-aterra token registers once: only while no token is set.
pub fn register_ve_aterra(config: Config, token_addr: Vec<u8>) -> (r: Result<Config, VeAterraError>)
    ensures
        r is Ok <==> config.ve_aterra_contract@.len() == 0,
        r matches Err(e) ==> e == VeAterraError::Unauthorized,
        r matches Ok(c) ==> c == (Config { ve_aterra_contract: token_addr, ..config }),
{
    if config.ve_aterra_contract.len() != 0 {
        return Err(VeAterraError::Unauthorized);
    }
    let mut config = config;
    config.ve_aterra_contract = token_addr;
    Ok(config)
}

/// Tokens sent with a hook: ve-aterra to unbond must come from the
/// ve-aterra token, aterra to bond from the aterra token; an unknown hook
/// is refused.
pub fn receive_cw20(config: &Config, sender: &Vec<u8>, msg: Option<Cw20HookMsg>) -> (r: Result<Cw20HookMsg, VeAterraError>)
    ensures
        msg is None ==> r == Err::<Cw20HookMsg, VeAterraError>(VeAterraError::UnsupportedCw20Hook),
        msg == Some(Cw20HookMsg::UnbondVeATerra) ==> (if sender@ == config.ve_aterra_contract@ {
            r == Ok::<Cw20HookMsg, VeAterraError>(Cw20HookMsg::UnbondVeATerra)
        } else {
            r == Err::<Cw20HookMsg, VeAterraError>(VeAterraError::Unauthorized)
        }),
        msg == Some(Cw20HookMsg::BondATerra) ==> (if sender@ == config.aterra_contract@ {
            r == Ok::<Cw20HookMsg, VeAterraError>(Cw20HookMsg::BondATerra)
        } else {
            r == Err::<Cw20HookMsg, VeAterraError>(VeAterraError::Unauthorized)
        }),
{
    match msg {
        Some(Cw20HookMsg::UnbondVeATerra) => {
            if !bytes_equal(sender, &config.ve_aterra_contract) {
                return Err(VeAterraError::Unauthorized);
            }
            Ok(Cw20HookMsg::UnbondVeATerra)
        },
        Some(Cw20HookMsg::BondATerra) => {
            if !bytes_equal(sender, &config.aterra_contract) {
                return Err(VeAterraError::Unauthorized);
            }
            Ok(Cw20HookMsg::BondATerra)
        },
        None => Err(VeAterraError::UnsupportedCw20Hook),
    }
}

/// The owner's change of the configuration: each value given replaces the
/// one in force.
pub fn update_config(
    config: Config,
    sender: &Vec<u8>,
    owner_addr: Option<Vec<u8>>,
    market_addr: Option<Vec<u8>>,
    aterra_contract: Option<Vec<u8>>,
    ve_aterra_contract: Option<Vec<u8>>,
    max_pos_change: Option<Decimal256>,
    max_neg_change: Option<Decimal256>,
    max_rate: Option<Decimal256>,
    min_rate: Option<Decimal256>,
    diff_multiplier: Option<Decimal256>,
) -> (r: Result<Config, VeAterraError>)
    ensures
        r is Ok <==> sender@ == config.owner_addr@,
        r matches Err(e) ==> e == VeAterraError::Unauthorized,
        r matches Ok(c) ==> {
            &&& c.owner_addr@ == (match owner_addr { Some(a) => a@, None => config.owner_addr@ })
            &&& c.market_addr@ == (match market_addr { Some(a) => a@, None => config.market_addr@ })
            &&& c.aterra_contract@ == (match aterra_contract { Some(a) => a@, None => config.aterra_contract@ })
            &&& c.ve_aterra_contract@ == (match ve_aterra_contract {
                Some(a) => a@,
                None => config.ve_aterra_contract@,
            })
            &&& c.contract_addr == config.contract_addr
            &&& c.overseer_addr == config.overseer_addr
            &&& c.max_pos_change == max_pos_change.unwrap_or(config.max_pos_change)
            &&& c.max_neg_change == max_neg_change.unwrap_or(config.max_neg_change)
            &&& c.max_rate == max_rate.unwrap_or(config.max_rate)
            &&& c.min_rate == min_rate.unwrap_or(config.min_rate)
            &&& c.diff_multiplier == diff_multiplier.unwrap_or(config.diff_multiplier)
            &&& c.premium_rate_epoch == config.premium_rate_epoch
        },
{
    if !bytes_equal(sender, &config.owner_addr) {
        return Err(VeAterraError::Unauthorized);
    }
    let mut config = config;
    if let Some(owner_addr) = owner_addr {
        config.owner_addr = owner_addr;
    }
    if let Some(addr) = market_addr {
        config.market_addr = addr;
    }
    if let Some(addr) = aterra_contract {
        config.aterra_contract = addr;
    }
    if let Some(addr) = ve_aterra_contract {
        config.ve_aterra_contract = addr;
    }
    if let Some(max_pos_change) = max_pos_change {
        config.max_pos_change = max_pos_change;
    }
    if let Some(max_neg_change) = max_neg_change {
        config.max_neg_change = max_neg_change;
    }
    if let Some(max_rate) = max_rate {
        config.max_rate = max_rate;
    }
    if let Some(min_rate) = min_rate {
        config.min_rate = min_rate;
    }
    if let Some(diff_multiplier) = diff_multiplier {
        config.diff_multiplier = diff_multiplier;
    }
    Ok(config)
}

} // verus!
