//! The ve-aterra premium rate, steered toward the target share.

use vstd::prelude::*;

use crate::bignumber::backend::pow256;
use crate::bignumber::decimal256::{df, dmul};
use crate::bignumber::uint256::group_uint256;
use crate::bignumber::{Decimal256, Uint256};
use crate::querier::{max_decimal, max_nat, min_decimal, min_nat};
use super::state::{Config, State};

verus! {

/// The ve-aterra deposits in aterra at the epoch's exchange rate, over the
/// aterra supply (at least 1).
pub open spec fn ve_share(s: State, aterra_supply: nat) -> nat {
    (s.ve_aterra_supply@ * s.prev_epoch_ve_aterra_exchange_rate@ / df()) * df() / max_nat(aterra_supply, 1)
}

pub open spec fn ve_share_fits(s: State) -> bool {
    &&& s.ve_aterra_supply@ * s.prev_epoch_ve_aterra_exchange_rate@ < pow256()
    &&& (s.ve_aterra_supply@ * s.prev_epoch_ve_aterra_exchange_rate@ / df()) * df() < pow256()
}

/// The share of ve-aterra deposits against the aterra supply.
pub fn current_ve_share(state: &State, aterra_supply: Uint256) -> (r: Decimal256)
    requires
        ve_share_fits(*state),
    ensures
        r@ == ve_share(*state, aterra_supply@),
{
    proof {
        broadcast use group_uint256;
    }
    let one = Uint256::one();
    let denominator = if aterra_supply >= one { aterra_supply } else { one };
    Decimal256::from_ratio(state.ve_aterra_supply * state.prev_epoch_ve_aterra_exchange_rate, denominator)
}

/// The premium rate moved toward the target share: up by the gap times the
/// multiplier (at most the largest rise) where the share is below target,
/// else down likewise (at most the largest fall); then at least the lowest
/// and at most the highest rate.
pub open spec fn premium_rate_of(s: State, config: Config, aterra_supply: nat) -> nat {
    let share = ve_share(s, aterra_supply);
    let raw: int = if s.target_share@ > share {
        s.premium_rate@ + min_nat(dmul(config.diff_multiplier@, (s.target_share@ - share) as nat), config.max_pos_change@) as int
    } else {
        s.premium_rate@ - min_nat(dmul(config.diff_multiplier@, (share - s.target_share@) as nat), config.max_neg_change@) as int
    };
    min_nat(max_nat(raw as nat, config.min_rate@), config.max_rate@)
}

pub open spec fn premium_rate_fits(s: State, config: Config, aterra_supply: nat) -> bool {
    let share = ve_share(s, aterra_supply);
    &&& ve_share_fits(s)
    &&& (s.target_share@ > share ==> {
        &&& config.diff_multiplier@ * ((s.target_share@ - share) as nat) < pow256()
        &&& s.premium_rate@ + min_nat(dmul(config.diff_multiplier@, (s.target_share@ - share) as nat), config.max_pos_change@) < pow256()
    })
    &&& (s.target_share@ <= share ==> {
        &&& config.diff_multiplier@ * ((share - s.target_share@) as nat) < pow256()
        &&& s.premium_rate@ >= min_nat(dmul(config.diff_multiplier@, (share - s.target_share@) as nat), config.max_neg_change@)
    })
}

/// Steers the premium rate toward the target share of deposits.
pub fn update_ve_premium_rate(state: State, config: &Config, aterra_supply: Uint256) -> (r: State)
    requires
        premium_rate_fits(state, *config, aterra_supply@),
    ensures
        r.premium_rate@ == premium_rate_of(state, *config, aterra_supply@),
        r == (State { premium_rate: r.premium_rate, ..state }),
{
    proof {
        broadcast use group_uint256;
    }
    let current_share = current_ve_share(&state, aterra_supply);
    let raw_rate = if state.target_share > current_share {
        let delta = min_decimal(config.diff_multiplier * (state.target_share - current_share), config.max_pos_change);
        state.premium_rate + delta
    } else {
        let delta = min_decimal(config.diff_multiplier * (current_share - state.target_share), config.max_neg_change);
        state.premium_rate - delta
    };
    let mut state = state;
    state.premium_rate = min_decimal(max_decimal(raw_rate, config.min_rate), config.max_rate);
    state
}

/// The premium rate is steered toward the target share and by at most the
/// largest step: where the share is below the target, the new rate is at
/// least the current one and at most the current one plus the largest rise;
/// where it is at or above the target, at most the current one and at least
/// the current one less the largest fall (each bound taken within the
/// lowest and highest rates).
pub proof fn lemma_premium_rate_steers_toward_target(s: State, config: Config, aterra_supply: nat)
    requires
        premium_rate_fits(s, config, aterra_supply),
    ensures
        ({
            let p = premium_rate_of(s, config, aterra_supply);
            let cur = s.premium_rate@;
            &&& s.target_share@ > ve_share(s, aterra_supply) ==> {
                &&& min_nat(max_nat(cur, config.min_rate@), config.max_rate@) <= p
                &&& p <= min_nat(max_nat(cur + config.max_pos_change@, config.min_rate@), config.max_rate@)
            }
            &&& s.target_share@ <= ve_share(s, aterra_supply) ==> {
                &&& p <= min_nat(max_nat(cur, config.min_rate@), config.max_rate@)
                &&& cur >= config.max_neg_change@ ==> min_nat(
                    max_nat((cur - config.max_neg_change@) as nat, config.min_rate@),
                    config.max_rate@,
                ) <= p
            }
        }),
{
}

/// The steered premium rate is never above the highest rate, and never
/// below the lowest where the lowest is not above the highest.
pub proof fn lemma_premium_rate_within_bounds(s: State, config: Config, aterra_supply: nat)
    ensures
        premium_rate_of(s, config, aterra_supply) <= config.max_rate@,
        config.min_rate@ <= config.max_rate@ ==> premium_rate_of(s, config, aterra_supply) >= config.min_rate@,
{
}

} // verus!
