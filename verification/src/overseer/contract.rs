//! The overseer's configuration, its epoch operations and the steering of
//! the deposit rate.

use vstd::prelude::*;

use crate::bignumber::backend::{pow128, pow256};
use crate::bignumber::decimal256::{ddiv, df, dmul};
use crate::bignumber::uint256::group_uint256;
use crate::bignumber::{Decimal256, Uint256};
use crate::querier::{deduct_tax, max_decimal, max_nat, min_decimal, min_nat, min_uint256, tax_of, Coin};
use crate::market::deposit::{coin_amount, extract_coin_amount};
use crate::tokens::bytes_equal;
use super::error::OverseerError;
use super::state::{
    find_key, insert_key, keys_ascending, page_bounds, page_limit_of, Config, DynrateConfig,
    DynrateState, EpochState, WhitelistElem,
};
use crate::tokens::bytes_lt;

verus! {

/// The number of blocks in a year.
pub const BLOCKS_PER_YEAR: u128 = 4656810;

/// The number of blocks in a year, as a decimal.
pub open spec fn blocks_per_year() -> nat {
    (BLOCKS_PER_YEAR * df()) as nat
}

/// The epoch state and the deposit rate state an overseer starts with.
pub fn instantiate_states(block_height: u64) -> (r: (EpochState, DynrateState))
    ensures
        r.0.deposit_rate@ == 0,
        r.0.prev_aterra_supply@ == 0,
        r.0.prev_interest_buffer@ == 0,
        r.0.prev_exchange_rate@ == df(),
        r.0.last_executed_height == block_height,
        r.1.last_executed_height == block_height,
        r.1.prev_yield_reserve@ == 0,
{
    (
        EpochState {
            deposit_rate: Decimal256::zero(),
            prev_aterra_supply: Uint256::zero(),
            prev_interest_buffer: Uint256::zero(),
            prev_exchange_rate: Decimal256::one(),
            last_executed_height: block_height,
        },
        DynrateState { last_executed_height: block_height, prev_yield_reserve: Decimal256::zero() },
    )
}

/// `rate` held within `[lo, hi]`: at most `hi`, then at least `lo`.
pub open spec fn clamp(rate: nat, lo: nat, hi: nat) -> nat {
    max_nat(min_nat(rate, hi), lo)
}

/// Takes on the dynamic rate settings: the deposit rate state starts from
/// the overseer's balance of stable coins, and the threshold and target
/// deposit rates become the threshold rate held within the new bounds.
/// Returns the new configuration and deposit rate state.
pub fn migrate(
    config: Config,
    dynrate_config: &DynrateConfig,
    balance: Uint256,
    block_height: u64,
) -> (r: (Config, DynrateState))
    requires
        balance@ * df() < pow256(),
    ensures
        ({
            let rate = clamp(
                config.threshold_deposit_rate@,
                dynrate_config.dyn_rate_min@,
                dynrate_config.dyn_rate_max@,
            );
            &&& r.0.threshold_deposit_rate@ == rate
            &&& r.0.target_deposit_rate@ == rate
            &&& r.0 == (Config {
                threshold_deposit_rate: r.0.threshold_deposit_rate,
                target_deposit_rate: r.0.target_deposit_rate,
                ..config
            })
            &&& r.1.last_executed_height == block_height
            &&& r.1.prev_yield_reserve@ == balance@ * df()
        }),
{
    proof {
        broadcast use group_uint256;
    }
    let prev_yield_reserve = Decimal256::from_ratio(balance, Uint256::one());
    let new_rate = max_decimal(
        min_decimal(config.threshold_deposit_rate, dynrate_config.dyn_rate_max),
        dynrate_config.dyn_rate_min,
    );
    let mut config = config;
    config.threshold_deposit_rate = new_rate;
    config.target_deposit_rate = new_rate;
    (config, DynrateState { last_executed_height: block_height, prev_yield_reserve })
}

/// The owner's change of the configuration and of the deposit rate
/// settings: each value given replaces the one in force.
pub fn update_config(
    config: Config,
    dynrate_config: DynrateConfig,
    sender: &Vec<u8>,
    owner_addr: Option<Vec<u8>>,
    oracle_contract: Option<Vec<u8>>,
    liquidation_contract: Option<Vec<u8>>,
    threshold_deposit_rate: Option<Decimal256>,
    target_deposit_rate: Option<Decimal256>,
    buffer_distribution_factor: Option<Decimal256>,
    anc_purchase_factor: Option<Decimal256>,
    epoch_period: Option<u64>,
    price_timeframe: Option<u64>,
    dyn_rate_epoch: Option<u64>,
    dyn_rate_maxchange: Option<Decimal256>,
    dyn_rate_yr_increase_expectation: Option<Decimal256>,
    dyn_rate_min: Option<Decimal256>,
    dyn_rate_max: Option<Decimal256>,
) -> (r: Result<(Config, DynrateConfig), OverseerError>)
    ensures
        r is Ok <==> sender@ == config.owner_addr@,
        r matches Err(e) ==> e == OverseerError::Unauthorized,
        r matches Ok((c, d)) ==> {
            &&& c.owner_addr@ == (match owner_addr { Some(a) => a@, None => config.owner_addr@ })
            &&& c.oracle_contract@ == (match oracle_contract { Some(a) => a@, None => config.oracle_contract@ })
            &&& c.liquidation_contract@ == (match liquidation_contract {
                Some(a) => a@,
                None => config.liquidation_contract@,
            })
            &&& c.market_contract == config.market_contract
            &&& c.collector_contract == config.collector_contract
            &&& c.stable_denom == config.stable_denom
            &&& c.threshold_deposit_rate == threshold_deposit_rate.unwrap_or(config.threshold_deposit_rate)
            &&& c.target_deposit_rate == target_deposit_rate.unwrap_or(config.target_deposit_rate)
            &&& c.buffer_distribution_factor == buffer_distribution_factor.unwrap_or(
                config.buffer_distribution_factor,
            )
            &&& c.anc_purchase_factor == anc_purchase_factor.unwrap_or(config.anc_purchase_factor)
            &&& c.epoch_period == epoch_period.unwrap_or(config.epoch_period)
            &&& c.price_timeframe == price_timeframe.unwrap_or(config.price_timeframe)
            &&& d.dyn_rate_epoch == dyn_rate_epoch.unwrap_or(dynrate_config.dyn_rate_epoch)
            &&& d.dyn_rate_maxchange == dyn_rate_maxchange.unwrap_or(dynrate_config.dyn_rate_maxchange)
            &&& d.dyn_rate_yr_increase_expectation == dyn_rate_yr_increase_expectation.unwrap_or(
                dynrate_config.dyn_rate_yr_increase_expectation,
            )
            &&& d.dyn_rate_min == dyn_rate_min.unwrap_or(dynrate_config.dyn_rate_min)
            &&& d.dyn_rate_max == dyn_rate_max.unwrap_or(dynrate_config.dyn_rate_max)
        },
{
    let mut config = config;
    let mut dynrate_config = dynrate_config;
    if !bytes_equal(sender, &config.owner_addr) {
        return Err(OverseerError::Unauthorized);
    }
    if let Some(owner_addr) = owner_addr {
        config.owner_addr = owner_addr;
    }
    if let Some(oracle_contract) = oracle_contract {
        config.oracle_contract = oracle_contract;
    }
    if let Some(liquidation_contract) = liquidation_contract {
        config.liquidation_contract = liquidation_contract;
    }
    if let Some(threshold_deposit_rate) = threshold_deposit_rate {
        config.threshold_deposit_rate = threshold_deposit_rate;
    }
    if let Some(buffer_distribution_factor) = buffer_distribution_factor {
        config.buffer_distribution_factor = buffer_distribution_factor;
    }
    if let Some(anc_purchase_factor) = anc_purchase_factor {
        config.anc_purchase_factor = anc_purchase_factor;
    }
    if let Some(target_deposit_rate) = target_deposit_rate {
        config.target_deposit_rate = target_deposit_rate;
    }
    if let Some(epoch_period) = epoch_period {
        config.epoch_period = epoch_period;
    }
    if let Some(price_timeframe) = price_timeframe {
        config.price_timeframe = price_timeframe;
    }
    if let Some(dyn_rate_epoch) = dyn_rate_epoch {
        dynrate_config.dyn_rate_epoch = dyn_rate_epoch;
    }
    if let Some(dyn_rate_maxchange) = dyn_rate_maxchange {
        dynrate_config.dyn_rate_maxchange = dyn_rate_maxchange;
    }
    if let Some(dyn_rate_yr_increase_expectation) = dyn_rate_yr_increase_expectation {
        dynrate_config.dyn_rate_yr_increase_expectation = dyn_rate_yr_increase_expectation;
    }
    if let Some(dyn_rate_min) = dyn_rate_min {
        dynrate_config.dyn_rate_min = dyn_rate_min;
    }
    if let Some(dyn_rate_max) = dyn_rate_max {
        dynrate_config.dyn_rate_max = dyn_rate_max;
    }
    Ok((config, dynrate_config))
}

/// The yearly rate of a per-block rate.
pub open spec fn yearly_rate(block_rate: nat) -> nat {
    dmul(block_rate, blocks_per_year())
}

/// How the yield reserve moved against what was expected of it: whether
/// the rate goes up, and by how much (before the cap on a change).
pub open spec fn yield_reserve_change(prev: nat, reserve: nat, expectation: nat) -> (bool, nat) {
    let went_up = reserve > prev;
    let delta: nat = if went_up { (reserve - prev) as nat } else { (prev - reserve) as nat };
    let change: nat = if prev == 0 { df() } else { ddiv(delta, prev) };
    if !went_up {
        (false, change + expectation)
    } else if change > expectation {
        (true, (change - expectation) as nat)
    } else {
        (false, (expectation - change) as nat)
    }
}

/// The steered yearly rate: the current one moved by the capped change,
/// not below zero.
pub open spec fn steered_yearly_rate(current: nat, up: bool, change: nat) -> nat {
    if up {
        current + change
    } else if current > change {
        (current - change) as nat
    } else {
        0
    }
}

/// The new per-block deposit rate from the threshold rate in force, the
/// settings, the yield reserve last seen and the interest buffer now.
pub open spec fn dynrate_new_rate(threshold: nat, cfg: DynrateConfig, prev: nat, interest_buffer: nat) -> nat {
    let reserve = interest_buffer * df();
    let (up, change) = yield_reserve_change(prev, reserve, cfg.dyn_rate_yr_increase_expectation@);
    let capped = min_nat(change, cfg.dyn_rate_maxchange@);
    let yearly = steered_yearly_rate(yearly_rate(threshold), up, capped);
    clamp(ddiv(yearly, blocks_per_year()), cfg.dyn_rate_min@, cfg.dyn_rate_max@)
}

/// No step of the deposit rate update overflows.
pub open spec fn dynrate_fits(threshold: nat, cfg: DynrateConfig, prev: nat, interest_buffer: nat) -> bool {
    let reserve = interest_buffer * df();
    let went_up = reserve > prev;
    let delta: nat = if went_up { (reserve - prev) as nat } else { (prev - reserve) as nat };
    let (up, change) = yield_reserve_change(prev, reserve, cfg.dyn_rate_yr_increase_expectation@);
    let capped = min_nat(change, cfg.dyn_rate_maxchange@);
    let yearly = steered_yearly_rate(yearly_rate(threshold), up, capped);
    &&& threshold * blocks_per_year() < pow256()
    &&& reserve < pow256()
    &&& (prev != 0 ==> delta * df() < pow256())
    &&& (prev != 0 ==> ddiv(delta, prev) + cfg.dyn_rate_yr_increase_expectation@ < pow256())
    &&& df() + cfg.dyn_rate_yr_increase_expectation@ < pow256()
    &&& yearly_rate(threshold) + capped < pow256()
    &&& yearly * df() < pow256()
}

/// Whether the deposit rate is due for its update at `block_height`.
pub open spec fn dynrate_due(state: DynrateState, cfg: DynrateConfig, block_height: u64) -> bool {
    block_height >= state.last_executed_height + cfg.dyn_rate_epoch
}

/// Steers the deposit rate once an epoch of the deposit rate settings has
/// passed: the yearly threshold rate moves by the change of the yield
/// reserve (the interest buffer) in percent, less the yearly increase
/// expected of it, by at most the maximal change, and is held within the
/// bounds. The threshold and the target deposit rates both become that
/// rate, and the reserve is remembered. Otherwise nothing changes.
pub fn update_deposit_rate(
    config: Config,
    dynrate_config: &DynrateConfig,
    dynrate_state: DynrateState,
    interest_buffer: Uint256,
    block_height: u64,
) -> (r: (Config, DynrateState))
    requires
        dynrate_state.last_executed_height + dynrate_config.dyn_rate_epoch <= u64::MAX,
        dynrate_due(dynrate_state, *dynrate_config, block_height) ==> dynrate_fits(
            config.threshold_deposit_rate@,
            *dynrate_config,
            dynrate_state.prev_yield_reserve@,
            interest_buffer@,
        ),
    ensures
        !dynrate_due(dynrate_state, *dynrate_config, block_height) ==> r == (config, dynrate_state),
        dynrate_due(dynrate_state, *dynrate_config, block_height) ==> ({
            let rate = dynrate_new_rate(
                config.threshold_deposit_rate@,
                *dynrate_config,
                dynrate_state.prev_yield_reserve@,
                interest_buffer@,
            );
            &&& r.0.threshold_deposit_rate@ == rate
            &&& r.0.target_deposit_rate@ == rate
            &&& r.0 == (Config {
                threshold_deposit_rate: r.0.threshold_deposit_rate,
                target_deposit_rate: r.0.target_deposit_rate,
                ..config
            })
            &&& r.1.last_executed_height == block_height
            &&& r.1.prev_yield_reserve@ == interest_buffer@ * df()
        }),
{
    proof {
        broadcast use group_uint256;
    }
    if block_height < dynrate_state.last_executed_height + dynrate_config.dyn_rate_epoch {
        return (config, dynrate_state);
    }
    let ghost threshold = config.threshold_deposit_rate@;
    let ghost prev = dynrate_state.prev_yield_reserve@;
    let ghost (g_up, g_change) = yield_reserve_change(
        prev,
        interest_buffer@ * df(),
        dynrate_config.dyn_rate_yr_increase_expectation@,
    );
    // convert block rate into yearly rate
    let blocks_per_year = Decimal256::from_ratio(Uint256::from(BLOCKS_PER_YEAR), Uint256::one());
    assert(blocks_per_year@ == self::blocks_per_year());
    let current_rate = config.threshold_deposit_rate * blocks_per_year;

    let yield_reserve = Decimal256::from_uint256(interest_buffer);
    let mut yr_went_up = yield_reserve > dynrate_state.prev_yield_reserve;

    // amount yield reserve changed in notional terms
    let yield_reserve_delta = if yr_went_up {
        yield_reserve - dynrate_state.prev_yield_reserve
    } else {
        dynrate_state.prev_yield_reserve - yield_reserve
    };

    // amount yield reserve changed in percentage terms
    let mut yield_reserve_change = if dynrate_state.prev_yield_reserve.is_zero() {
        Decimal256::one()
    } else {
        yield_reserve_delta / dynrate_state.prev_yield_reserve
    };

    let increase_expectation = dynrate_config.dyn_rate_yr_increase_expectation;
    yield_reserve_change = if !yr_went_up {
        yield_reserve_change + increase_expectation
    } else if yield_reserve_change > increase_expectation {
        yield_reserve_change - increase_expectation
    } else {
        yr_went_up = !yr_went_up;
        increase_expectation - yield_reserve_change
    };
    assert(yr_went_up == g_up && yield_reserve_change@ == g_change);

    yield_reserve_change = min_decimal(yield_reserve_change, dynrate_config.dyn_rate_maxchange);

    let mut new_rate = if yr_went_up {
        current_rate + yield_reserve_change
    } else if current_rate > yield_reserve_change {
        current_rate - yield_reserve_change
    } else {
        Decimal256::zero()
    };

    // convert from yearly rate to block rate
    new_rate = new_rate / blocks_per_year;

    // clamp new rate
    new_rate = max_decimal(
        min_decimal(new_rate, dynrate_config.dyn_rate_max),
        dynrate_config.dyn_rate_min,
    );

    let mut config = config;
    config.target_deposit_rate = new_rate;
    config.threshold_deposit_rate = new_rate;
    (config, DynrateState { last_executed_height: block_height, prev_yield_reserve: yield_reserve })
}

/// The deposit rate per block over `blocks` blocks in which the exchange
/// rate went from `prev_rate` to `rate`: `(rate / prev_rate - 1) / blocks`.
pub open spec fn deposit_rate_of(prev_rate: nat, rate: nat, blocks: nat) -> nat {
    ddiv((ddiv(rate, prev_rate) - df()) as nat, blocks * df())
}

pub open spec fn deposit_rate_fits(prev_rate: nat, rate: nat, blocks: nat) -> bool {
    &&& prev_rate != 0
    &&& blocks != 0
    &&& rate * df() < pow256()
    &&& ddiv(rate, prev_rate) >= df()
    &&& ((ddiv(rate, prev_rate) - df()) as nat) * df() < pow256()
}

/// The deposit rate of the blocks from `last_executed_height` to
/// `block_height`; the exchange rate must not have fallen.
pub fn compute_deposit_rate(
    prev_exchange_rate: Decimal256,
    exchange_rate: Decimal256,
    last_executed_height: u64,
    block_height: u64,
) -> (r: Decimal256)
    requires
        last_executed_height <= block_height,
        deposit_rate_fits(prev_exchange_rate@, exchange_rate@, (block_height - last_executed_height) as nat),
    ensures
        r@ == deposit_rate_of(prev_exchange_rate@, exchange_rate@, (block_height - last_executed_height) as nat),
{
    proof {
        broadcast use group_uint256;
    }
    let blocks = Uint256::from(block_height - last_executed_height);
    proof {
        assert(blocks@ * df() < pow256()) by (nonlinear_arith)
            requires blocks@ < 0x1_0000_0000_0000_0000nat;
        assert(blocks@ * df() != 0) by (nonlinear_arith)
            requires blocks@ != 0;
    }
    // effective_deposit_rate = cur_exchange_rate / prev_exchange_rate
    // deposit_rate = (effective_deposit_rate - 1) / blocks
    let effective_deposit_rate = exchange_rate / prev_exchange_rate;
    (effective_deposit_rate - Decimal256::one()) / Decimal256::from_uint256(blocks)
}

/// What an epoch's operations decide: the deposit rate of the epoch, the
/// stable coins that buy ANC (before and after the tax on sending them),
/// the interest given to depositors (after tax; whether it is sent), and
/// the interest buffer that is left.
#[derive(Clone, Copy, Debug, PartialEq, Eq, Structural)]
pub struct EpochOperations {
    pub deposit_rate: Decimal256,
    pub anc_purchase_amount: Uint256,
    pub anc_purchase_sent: Uint256,
    pub distributed_interest: Uint256,
    pub distribution_sent: bool,
    pub interest_buffer: Uint256,
}

/// The share of the buffer's growth that buys ANC.
pub open spec fn anc_purchase_of(interest_buffer: nat, prev_interest_buffer: nat, factor: nat) -> nat {
    ((interest_buffer - prev_interest_buffer) as nat) * factor / df()
}

/// The deposits the epoch fell short of: the last deposits earning the
/// missing rate over the epoch's blocks.
pub open spec fn missing_deposits_of(state: EpochState, blocks: nat, missing_rate: nat) -> nat {
    (state.prev_aterra_supply@ * state.prev_exchange_rate@ / df()) * blocks * missing_rate / df()
}

/// The interest given to depositors (before tax) where the deposit rate
/// fell below the threshold: the missing deposits, at most the buffer's
/// distributable share.
pub open spec fn interest_to_distribute(
    config: Config,
    state: EpochState,
    blocks: nat,
    deposit_rate: nat,
    buffer: nat,
) -> nat {
    if deposit_rate < config.threshold_deposit_rate@ {
        min_nat(
            missing_deposits_of(state, blocks, (config.threshold_deposit_rate@ - deposit_rate) as nat),
            buffer * config.buffer_distribution_factor@ / df(),
        )
    } else {
        0
    }
}

/// The interest given to depositors in an epoch never exceeds the
/// distributable share of the interest buffer left after the ANC purchase
/// (the buffer times the distribution factor), nor the deposits the epoch
/// fell short of; where that share covers the shortfall, the shortfall is
/// given whole; and nothing is given where the deposit rate reached the
/// threshold. So the buffer left after the distribution keeps at least the
/// rest of it.
pub proof fn lemma_distribution_within_buffer_share(
    config: Config,
    state: EpochState,
    blocks: nat,
    deposit_rate: nat,
    interest_buffer: nat,
)
    ensures
        ({
            let anc = anc_purchase_of(interest_buffer, state.prev_interest_buffer@, config.anc_purchase_factor@);
            let buffer = (interest_buffer - anc) as nat;
            let share = buffer * config.buffer_distribution_factor@ / df();
            let missing = missing_deposits_of(state, blocks, (config.threshold_deposit_rate@ - deposit_rate) as nat);
            let dist = interest_to_distribute(config, state, blocks, deposit_rate, buffer);
            &&& dist <= share
            &&& deposit_rate >= config.threshold_deposit_rate@ ==> dist == 0
            &&& deposit_rate < config.threshold_deposit_rate@ ==> dist <= missing
            &&& deposit_rate < config.threshold_deposit_rate@ && missing <= share ==> dist == missing
            &&& deposit_rate < config.threshold_deposit_rate@ && missing > share ==> dist == share
        }),
{
}

/// The inputs of an epoch's operations keep every step in range.
pub open spec fn epoch_operations_fits(
    config: Config,
    state: EpochState,
    block_height: u64,
    exchange_rate: nat,
    interest_buffer: nat,
    tax_rate: nat,
) -> bool {
    let blocks = (block_height - state.last_executed_height) as nat;
    let dr = deposit_rate_of(state.prev_exchange_rate@, exchange_rate, blocks);
    let anc = anc_purchase_of(interest_buffer, state.prev_interest_buffer@, config.anc_purchase_factor@);
    let buffer = (interest_buffer - anc) as nat;
    let missing_rate = (config.threshold_deposit_rate@ - dr) as nat;
    let prev_deposits = state.prev_aterra_supply@ * state.prev_exchange_rate@ / df();
    let dist = interest_to_distribute(config, state, blocks, dr, buffer);
    &&& deposit_rate_fits(state.prev_exchange_rate@, exchange_rate, blocks)
    &&& df() + tax_rate < pow256()
    &&& interest_buffer >= state.prev_interest_buffer@
    &&& ((interest_buffer - state.prev_interest_buffer@) as nat) * config.anc_purchase_factor@ < pow256()
    &&& anc <= interest_buffer
    &&& anc < pow128()
    &&& (dr < config.threshold_deposit_rate@ ==> {
        &&& state.prev_aterra_supply@ * state.prev_exchange_rate@ < pow256()
        &&& prev_deposits * blocks < pow256()
        &&& prev_deposits * blocks * missing_rate < pow256()
        &&& buffer * config.buffer_distribution_factor@ < pow256()
        &&& dist <= buffer
        &&& dist < pow128()
    })
}

/// The epoch's operations, once `epoch_period` blocks have passed since
/// the last ones: the deposit rate from the market's exchange rate; the
/// buffer's growth times the ANC purchase factor goes (taxed) to the
/// collector; where the deposit rate fell below the threshold, the missing
/// deposits, at most the buffer's distributable share, go (taxed) to the
/// market.
pub fn execute_epoch_operations(
    config: &Config,
    state: &EpochState,
    block_height: u64,
    exchange_rate: Decimal256,
    interest_buffer: Uint256,
    tax_rate: Decimal256,
    tax_cap: Uint256,
) -> (r: Result<EpochOperations, OverseerError>)
    requires
        state.last_executed_height + config.epoch_period <= u64::MAX,
        block_height >= state.last_executed_height + config.epoch_period ==> epoch_operations_fits(
            *config,
            *state,
            block_height,
            exchange_rate@,
            interest_buffer@,
            tax_rate@,
        ),
    ensures
        r is Err <==> block_height < state.last_executed_height + config.epoch_period,
        r matches Err(e) ==> e == OverseerError::EpochNotPassed(state.last_executed_height),
        r matches Ok(ops) ==> ({
            let blocks = (block_height - state.last_executed_height) as nat;
            let dr = deposit_rate_of(state.prev_exchange_rate@, exchange_rate@, blocks);
            let anc = anc_purchase_of(interest_buffer@, state.prev_interest_buffer@, config.anc_purchase_factor@);
            let buffer = (interest_buffer@ - anc) as nat;
            let dist = interest_to_distribute(*config, *state, blocks, dr, buffer);
            &&& ops.deposit_rate@ == dr
            &&& ops.anc_purchase_amount@ == anc
            &&& ops.anc_purchase_sent@ == anc - tax_of(anc, tax_rate@, tax_cap@)
            &&& ops.distribution_sent == (dist != 0)
            &&& ops.distributed_interest@ == (if dist != 0 {
                (dist - tax_of(dist, tax_rate@, tax_cap@)) as nat
            } else {
                0
            })
            &&& ops.interest_buffer@ == buffer - dist
        }),
{
    proof {
        broadcast use group_uint256;
    }
    if block_height < state.last_executed_height + config.epoch_period {
        return Err(OverseerError::EpochNotPassed(state.last_executed_height));
    }
    let ghost blocks_n = (block_height - state.last_executed_height) as nat;
    // # of blocks from the last executed height
    let blocks = Uint256::from(block_height - state.last_executed_height);
    let deposit_rate = compute_deposit_rate(
        state.prev_exchange_rate,
        exchange_rate,
        state.last_executed_height,
        block_height,
    );

    // Send accrued_buffer * config.anc_purchase_factor amount stable token to collector
    let accrued_buffer = interest_buffer - state.prev_interest_buffer;
    let anc_purchase_amount = accrued_buffer * config.anc_purchase_factor;
    let anc_purchase_sent = if !anc_purchase_amount.is_zero() {
        let coin = deduct_tax(
            tax_rate,
            tax_cap,
            Coin { denom: config.stable_denom.clone(), amount: anc_purchase_amount.into_u128() },
        );
        Uint256::from(coin.amount)
    } else {
        Uint256::zero()
    };

    // Deduct anc_purchase_amount from the interest_buffer
    let mut interest_buffer = interest_buffer - anc_purchase_amount;

    // Distribute Interest Buffer to depositor
    // Only executed when deposit rate < threshold_deposit_rate
    let mut distributed_interest: Uint256 = Uint256::zero();
    let mut distribution_sent = false;
    if deposit_rate < config.threshold_deposit_rate {
        // missing_deposit_rate(_per_block)
        let missing_deposit_rate = config.threshold_deposit_rate - deposit_rate;
        let prev_deposits = state.prev_aterra_supply * state.prev_exchange_rate;

        // missing_deposits = prev_deposits * missing_deposit_rate(_per_block) * blocks
        let missing_deposits = prev_deposits * blocks * missing_deposit_rate;
        let distribution_buffer = interest_buffer * config.buffer_distribution_factor;

        // When there was not enough deposits happens,
        // distribute interest to market contract
        distributed_interest = min_uint256(missing_deposits, distribution_buffer);
        interest_buffer = interest_buffer - distributed_interest;

        if !distributed_interest.is_zero() {
            // deduct tax
            let coin = deduct_tax(
                tax_rate,
                tax_cap,
                Coin { denom: config.stable_denom.clone(), amount: distributed_interest.into_u128() },
            );
            distributed_interest = Uint256::from(coin.amount);
            distribution_sent = true;
        }
    }
    Ok(EpochOperations {
        deposit_rate,
        anc_purchase_amount,
        anc_purchase_sent,
        distributed_interest,
        distribution_sent,
        interest_buffer,
    })
}

/// Records the epoch once its operations are done (only the overseer
/// itself may): the deposit rate from the market's exchange rate after the
/// distributed interest, the market's aterra supply and exchange rate, and
/// the interest buffer left. The deposit rate is then steered from the
/// overseer's stable coin balance `yield_reserve`. Returns the new epoch
/// state, configuration and deposit rate state.
pub fn update_epoch_state(
    config: Config,
    state: &EpochState,
    dynrate_config: &DynrateConfig,
    dynrate_state: DynrateState,
    sender: &String,
    contract_addr: &String,
    block_height: u64,
    exchange_rate: Decimal256,
    aterra_supply: Uint256,
    interest_buffer: Uint256,
    yield_reserve: Uint256,
) -> (r: Result<(EpochState, Config, DynrateState), OverseerError>)
    requires
        sender@ == contract_addr@ ==> {
            &&& state.last_executed_height <= block_height
            &&& deposit_rate_fits(
                state.prev_exchange_rate@,
                exchange_rate@,
                (block_height - state.last_executed_height) as nat,
            )
            &&& dynrate_state.last_executed_height + dynrate_config.dyn_rate_epoch <= u64::MAX
            &&& dynrate_due(dynrate_state, *dynrate_config, block_height) ==> dynrate_fits(
                config.threshold_deposit_rate@,
                *dynrate_config,
                dynrate_state.prev_yield_reserve@,
                yield_reserve@,
            )
        },
    ensures
        r is Ok <==> sender@ == contract_addr@,
        r matches Err(e) ==> e == OverseerError::Unauthorized,
        r matches Ok((s, c, d)) ==> {
            &&& s.last_executed_height == block_height
            &&& s.prev_aterra_supply == aterra_supply
            &&& s.prev_exchange_rate == exchange_rate
            &&& s.prev_interest_buffer == interest_buffer
            &&& s.deposit_rate@ == deposit_rate_of(
                state.prev_exchange_rate@,
                exchange_rate@,
                (block_height - state.last_executed_height) as nat,
            )
            &&& !dynrate_due(dynrate_state, *dynrate_config, block_height) ==> c == config && d == dynrate_state
            &&& dynrate_due(dynrate_state, *dynrate_config, block_height) ==> {
                let rate = dynrate_new_rate(
                    config.threshold_deposit_rate@,
                    *dynrate_config,
                    dynrate_state.prev_yield_reserve@,
                    yield_reserve@,
                );
                &&& c.threshold_deposit_rate@ == rate
                &&& c.target_deposit_rate@ == rate
                &&& c == (Config {
                    threshold_deposit_rate: c.threshold_deposit_rate,
                    target_deposit_rate: c.target_deposit_rate,
                    ..config
                })
                &&& d.last_executed_height == block_height
                &&& d.prev_yield_reserve@ == yield_reserve@ * df()
            }
        },
{
    if !sender.eq(contract_addr) {
        return Err(OverseerError::Unauthorized);
    }
    let deposit_rate = compute_deposit_rate(
        state.prev_exchange_rate,
        exchange_rate,
        state.last_executed_height,
        block_height,
    );
    let epoch_state = EpochState {
        last_executed_height: block_height,
        prev_aterra_supply: aterra_supply,
        prev_exchange_rate: exchange_rate,
        prev_interest_buffer: interest_buffer,
        deposit_rate,
    };
    let (config, dynrate_state) = update_deposit_rate(
        config,
        dynrate_config,
        dynrate_state,
        yield_reserve,
        block_height,
    );
    Ok((epoch_state, config, dynrate_state))
}

/// Stable coins (`uusd`) sent to fund the reserve join the interest buffer
/// and the yield reserve. Returns the new epoch and deposit rate states.
pub fn fund_reserve(
    state: EpochState,
    dynrate_state: DynrateState,
    funds: &Vec<Coin>,
) -> (r: (EpochState, DynrateState))
    requires
        state.prev_interest_buffer@ + coin_amount(funds@, "uusd"@) < pow256(),
        dynrate_state.prev_yield_reserve@ + coin_amount(funds@, "uusd"@) * df() < pow256(),
    ensures
        r.0 == (EpochState {
            prev_interest_buffer: Uint256::from_nat(
                state.prev_interest_buffer@ + coin_amount(funds@, "uusd"@),
            ),
            ..state
        }),
        r.1 == (DynrateState {
            prev_yield_reserve: Decimal256::from_nat(
                dynrate_state.prev_yield_reserve@ + coin_amount(funds@, "uusd"@) * df(),
            ),
            ..dynrate_state
        }),
{
    proof {
        broadcast use group_uint256;
    }
    let uusd = "uusd".to_owned();
    let sent_uusd = match extract_coin_amount(funds, &uusd) {
        Ok(a) => a,
        Err(_) => Uint256::zero(),
    };
    proof {
        assert(sent_uusd@ * df() < pow256());
    }
    let mut state = state;
    state.prev_interest_buffer = state.prev_interest_buffer + sent_uusd;
    let mut dynrate_state = dynrate_state;
    dynrate_state.prev_yield_reserve = dynrate_state.prev_yield_reserve + Decimal256::from_ratio(
        sent_uusd,
        Uint256::one(),
    );
    (state, dynrate_state)
}

/// The owner whitelists a collateral token not yet on the whitelist.
pub fn register_whitelist(
    config: &Config,
    whitelist: &mut Vec<(Vec<u8>, WhitelistElem)>,
    sender: &Vec<u8>,
    name: String,
    symbol: String,
    collateral_token: Vec<u8>,
    custody_contract: Vec<u8>,
    max_ltv: Decimal256,
) -> (r: Result<(), OverseerError>)
    requires
        keys_ascending(old(whitelist)@),
    ensures
        keys_ascending(final(whitelist)@),
        r == Err::<(), OverseerError>(OverseerError::Unauthorized) <==> sender@ != config.owner_addr@,
        r == Err::<(), OverseerError>(OverseerError::TokenAlreadyRegistered) <==> (sender@ == config.owner_addr@
            && exists|i: int| 0 <= i < old(whitelist)@.len() && #[trigger] old(whitelist)@[i].0@ == collateral_token@),
        r is Ok <==> (sender@ == config.owner_addr@ && forall|i: int| 0 <= i < old(whitelist)@.len()
            ==> #[trigger] old(whitelist)@[i].0@ != collateral_token@),
        r is Err ==> final(whitelist)@ == old(whitelist)@,
        r is Ok ==> exists|p: int| 0 <= p <= old(whitelist)@.len() && final(whitelist)@ == old(whitelist)@.insert(
            p,
            (collateral_token, WhitelistElem { name, symbol, max_ltv, custody_contract }),
        ),
{
    if !bytes_equal(sender, &config.owner_addr) {
        return Err(OverseerError::Unauthorized);
    }
    if let Some(i) = find_key(whitelist, &collateral_token) {
        return Err(OverseerError::TokenAlreadyRegistered);
    }
    insert_key(whitelist, collateral_token, WhitelistElem { name, symbol, max_ltv, custody_contract });
    Ok(())
}

/// The owner changes the custody contract or the maximal loan to value
/// ratio of a whitelisted token.
pub fn update_whitelist(
    config: &Config,
    whitelist: &mut Vec<(Vec<u8>, WhitelistElem)>,
    sender: &Vec<u8>,
    collateral_token: &Vec<u8>,
    custody_contract: Option<Vec<u8>>,
    max_ltv: Option<Decimal256>,
) -> (r: Result<(), OverseerError>)
    requires
        keys_ascending(old(whitelist)@),
    ensures
        keys_ascending(final(whitelist)@),
        r == Err::<(), OverseerError>(OverseerError::Unauthorized) <==> sender@ != config.owner_addr@,
        r == Err::<(), OverseerError>(OverseerError::TokenNotRegistered) <==> (sender@ == config.owner_addr@
            && forall|i: int| 0 <= i < old(whitelist)@.len() ==> #[trigger] old(whitelist)@[i].0@ != collateral_token@),
        r is Ok <==> (sender@ == config.owner_addr@ && exists|i: int| 0 <= i < old(whitelist)@.len()
            && #[trigger] old(whitelist)@[i].0@ == collateral_token@),
        r is Err ==> final(whitelist)@ == old(whitelist)@,
        r is Ok ==> exists|i: int| 0 <= i < old(whitelist)@.len() && #[trigger] old(whitelist)@[i].0@ == collateral_token@
            && final(whitelist)@ == old(whitelist)@.update(i, (old(whitelist)@[i].0, WhitelistElem {
                custody_contract: match custody_contract {
                    Some(c) => c,
                    None => old(whitelist)@[i].1.custody_contract,
                },
                max_ltv: max_ltv.unwrap_or(old(whitelist)@[i].1.max_ltv),
                ..old(whitelist)@[i].1
            })),
{
    if !bytes_equal(sender, &config.owner_addr) {
        return Err(OverseerError::Unauthorized);
    }
    let i = match find_key(whitelist, collateral_token) {
        Some(i) => i,
        None => {
            return Err(OverseerError::TokenNotRegistered);
        },
    };
    let ghost s = whitelist@;
    let (key, mut elem) = whitelist.remove(i);
    if let Some(custody_contract) = custody_contract {
        elem.custody_contract = custody_contract;
    }
    if let Some(max_ltv) = max_ltv {
        elem.max_ltv = max_ltv;
    }
    whitelist.insert(i, (key, elem));
    proof {
        assert(whitelist@ =~= s.update(i as int, whitelist@[i as int]));
        assert forall|a: int, b: int| 0 <= a < b < whitelist@.len() implies bytes_lt(#[trigger] whitelist@[a].0@, #[trigger] whitelist@[b].0@) by {
            assert(whitelist@[a].0@ == s[a].0@ && whitelist@[b].0@ == s[b].0@);
        }
    }
    Ok(())
}

/// The positions `[from, to)` of the whitelist entries a query returns:
/// the entry of `collateral_token` where one is named (it must be on the
/// whitelist), else a page of entries after `start_after`.
pub fn query_whitelist(
    whitelist: &Vec<(Vec<u8>, WhitelistElem)>,
    collateral_token: Option<Vec<u8>>,
    start_after: Option<Vec<u8>>,
    limit: Option<u32>,
) -> (r: Result<(usize, usize), OverseerError>)
    requires
        keys_ascending(whitelist@),
    ensures
        collateral_token matches Some(t) ==> (match r {
            Ok((from, to)) => to == from + 1 && from < whitelist@.len() && whitelist@[from as int].0@ == t@,
            Err(e) => e == OverseerError::TokenNotRegistered
                && forall|i: int| 0 <= i < whitelist@.len() ==> #[trigger] whitelist@[i].0@ != t@,
        }),
        collateral_token is None ==> (r matches Ok((from, to)) && {
            &&& from <= to <= whitelist@.len()
            &&& to == (if from + page_limit_of(limit) <= whitelist@.len() { from + page_limit_of(limit) } else { whitelist@.len() as int })
            &&& start_after is None ==> from == 0
            &&& start_after matches Some(a) ==> {
                &&& forall|i: int| 0 <= i < from ==> bytes_lt(#[trigger] whitelist@[i].0@, a@.push(1u8))
                &&& forall|i: int| from <= i < whitelist@.len() ==> !bytes_lt(#[trigger] whitelist@[i].0@, a@.push(1u8))
            }
        }),
{
    match collateral_token {
        Some(token) => match find_key(whitelist, &token) {
            Some(i) => {
                let n = whitelist.len();
                assert(i < n);
                Ok((i, i + 1))
            },
            None => Err(OverseerError::TokenNotRegistered),
        },
        None => Ok(page_bounds(whitelist, start_after, limit)),
    }
}

/// A rate held within bounds is never below the lower bound, and never
/// above the upper one where the bounds are in order.
pub proof fn lemma_clamp_within_bounds(rate: nat, lo: nat, hi: nat)
    ensures
        clamp(rate, lo, hi) >= lo,
        lo <= hi ==> clamp(rate, lo, hi) <= hi,
        lo <= rate <= hi ==> clamp(rate, lo, hi) == rate,
{
}

/// The steered deposit rate is never below the lowest rate of the
/// settings, and never above the highest where the lowest is not above it.
pub proof fn lemma_dynrate_within_bounds(threshold: nat, cfg: DynrateConfig, prev: nat, interest_buffer: nat)
    ensures
        dynrate_new_rate(threshold, cfg, prev, interest_buffer) >= cfg.dyn_rate_min@,
        cfg.dyn_rate_min@ <= cfg.dyn_rate_max@ ==> dynrate_new_rate(threshold, cfg, prev, interest_buffer)
            <= cfg.dyn_rate_max@,
{
}

} // verus!
