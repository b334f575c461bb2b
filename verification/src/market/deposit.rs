//! Deposits of stable coins for aterra, redemptions, and the exchange rates
//! of aterra and ve-aterra.

use vstd::prelude::*;

use crate::bignumber::backend::{pow128, pow256};
use crate::bignumber::decimal256::{ddiv, df, dmul};
use crate::bignumber::uint256::group_uint256;
use crate::bignumber::{Decimal256, Uint256};
use crate::querier::Coin;
use super::error::MarketError;
use super::interest::{
    accrue_interest, accrue_interest_fits, blocks_between, compute_interest_raw, compute_reward,
    compute_reward_fits, distribute_reward,
};
use super::state::{Config, State, VeStakerUnlockInfo, VeStakerUnlockInfos};

verus! {

/// The amount of the first coin of `denom` among `funds` (0 if none).
pub open spec fn coin_amount(funds: Seq<Coin>, denom: Seq<char>) -> nat
    decreases funds.len(),
{
    if funds.len() == 0 {
        0
    } else if funds[0].denom@ == denom {
        funds[0].amount as nat
    } else {
        coin_amount(funds.drop_first(), denom)
    }
}

/// The amount of `coin` sent along; nothing, or zero, is refused.
pub fn extract_coin_amount(funds: &Vec<Coin>, coin: &String) -> (r: Result<Uint256, MarketError>)
    ensures
        r is Ok <==> coin_amount(funds@, coin@) != 0,
        r matches Ok(a) ==> a@ == coin_amount(funds@, coin@),
        r matches Err(e) ==> (e matches MarketError::ZeroDeposit(d) && d@ == coin@),
{
    proof {
        broadcast use group_uint256;
    }
    let mut i: usize = 0;
    let mut amount: u128 = 0;
    assert(funds@.skip(0) =~= funds@);
    while i < funds.len()
        invariant_except_break
            amount == 0,
        invariant
            i <= funds@.len(),
            coin_amount(funds@, coin@) == coin_amount(funds@.skip(i as int), coin@),
        ensures
            coin_amount(funds@, coin@) == amount,
        decreases funds.len() - i,
    {
        assert(funds@.skip(i as int)[0] == funds@[i as int]);
        if funds[i].denom == *coin {
            amount = funds[i].amount;
            break;
        }
        assert(funds@.skip(i as int).drop_first() =~= funds@.skip(i + 1));
        i = i + 1;
    }
    let amount = Uint256::from(amount);
    if amount.is_zero() {
        return Err(MarketError::ZeroDeposit(coin.clone()));
    }
    Ok(amount)
}

/// The contract's balance before the deposit that came with the request.
pub fn balance_less_deposit(balance: Uint256, deposit_amount: Option<Uint256>) -> (r: Uint256)
    requires
        deposit_amount matches Some(d) ==> d@ <= balance@,
    ensures
        r@ == balance@ - (match deposit_amount {
            Some(d) => d@,
            None => 0,
        }),
{
    proof {
        broadcast use group_uint256;
    }
    let deposit = match deposit_amount {
        Some(d) => d,
        None => Uint256::zero(),
    };
    balance - deposit
}

/// aterra per ve-aterra: the last rate grown by the premium rate per block
/// over the blocks since it was set.
pub open spec fn ve_exchange_rate(s: State, block_height: u64) -> nat {
    dmul(
        dmul(
            s.prev_ve_aterra_exchange_rate@,
            blocks_between(s.last_ve_aterra_updated, block_height),
        ),
        s.ve_aterra_premium_rate@,
    )
}

pub open spec fn ve_exchange_rate_fits(s: State, block_height: u64) -> bool {
    &&& s.last_ve_aterra_updated <= block_height
    &&& s.prev_ve_aterra_exchange_rate@ * blocks_between(s.last_ve_aterra_updated, block_height)
        < pow256()
    &&& dmul(
        s.prev_ve_aterra_exchange_rate@,
        blocks_between(s.last_ve_aterra_updated, block_height),
    ) * s.ve_aterra_premium_rate@ < pow256()
}

pub fn compute_ve_exchange_rate(state: &State, block_height: u64) -> (r: Decimal256)
    requires
        ve_exchange_rate_fits(*state, block_height),
    ensures
        r@ == ve_exchange_rate(*state, block_height),
{
    proof {
        broadcast use group_uint256;
        let n = (block_height - state.last_ve_aterra_updated) as nat;
        assert(n * df() < pow256()) by (nonlinear_arith)
            requires
                n < 0x1_0000_0000_0000_0000nat,
        ;
        assert(n * df() / 1 == n * df());
    }
    let blocks_elapses = Decimal256::from_ratio(
        Uint256::from(block_height - state.last_ve_aterra_updated),
        Uint256::one(),
    );
    state.prev_ve_aterra_exchange_rate * blocks_elapses * state.ve_aterra_premium_rate
}

/// aterra's exchange rate (stable coins per aterra): what the market holds
/// and is owed, less its reserves, over the aterra supply with the
/// ve-aterra converted to aterra; 1 while there is no aterra.
pub open spec fn exchange_rate(
    s: State,
    block_height: u64,
    aterra_supply: nat,
    ve_aterra_supply: nat,
    contract_balance: nat,
) -> nat {
    if aterra_supply == 0 {
        df()
    } else {
        let converted_ve = dmul(ve_aterra_supply * df(), ve_exchange_rate(s, block_height));
        let effective_aterra_supply = aterra_supply * df() + converted_ve;
        ddiv(
            (contract_balance * df() + s.total_liabilities@ - s.total_reserves@) as nat,
            effective_aterra_supply,
        )
    }
}

pub open spec fn exchange_rate_fits(
    s: State,
    block_height: u64,
    aterra_supply: nat,
    ve_aterra_supply: nat,
    contract_balance: nat,
) -> bool {
    let converted_ve = dmul(ve_aterra_supply * df(), ve_exchange_rate(s, block_height));
    let numerator = contract_balance * df() + s.total_liabilities@ - s.total_reserves@;
    aterra_supply != 0 ==> {
        &&& ve_exchange_rate_fits(s, block_height)
        &&& ve_aterra_supply * df() < pow256()
        &&& ve_aterra_supply * df() * ve_exchange_rate(s, block_height) < pow256()
        &&& aterra_supply * df() + converted_ve < pow256()
        &&& contract_balance * df() + s.total_liabilities@ < pow256()
        &&& s.total_reserves@ <= contract_balance * df() + s.total_liabilities@
        &&& numerator * df() < pow256()
    }
}

pub fn compute_exchange_rate_raw(
    state: &State,
    block_height: u64,
    aterra_supply: Uint256,
    ve_aterra_supply: Uint256,
    contract_balance: Uint256,
) -> (r: Decimal256)
    requires
        exchange_rate_fits(
            *state,
            block_height,
            aterra_supply@,
            ve_aterra_supply@,
            contract_balance@,
        ),
    ensures
        r@ == exchange_rate(
            *state,
            block_height,
            aterra_supply@,
            ve_aterra_supply@,
            contract_balance@,
        ),
{
    proof {
        broadcast use group_uint256;
    }
    if aterra_supply.is_zero() {
        return Decimal256::one();
    }
    proof {
        assert(aterra_supply@ * df() >= df()) by (nonlinear_arith)
            requires
                aterra_supply@ >= 1,
        ;
    }
    let ve_er = compute_ve_exchange_rate(state, block_height);
    let converted_ve = Decimal256::from_uint256(ve_aterra_supply) * ve_er;
    let effective_aterra_supply = Decimal256::from_uint256(aterra_supply) + converted_ve;

    // (aterra / stable_denom)
    // exchange_rate = (balance + total_liabilities - total_reserves) / aterra_supply
    (Decimal256::from_uint256(contract_balance) + state.total_liabilities - state.total_reserves)
        / effective_aterra_supply
}

/// The exchange rate with the contract balance taken before the deposit
/// that came with the request.
pub fn compute_exchange_rate(
    state: &State,
    block_height: u64,
    aterra_supply: Uint256,
    ve_aterra_supply: Uint256,
    balance: Uint256,
    deposit_amount: Option<Uint256>,
) -> (r: Decimal256)
    requires
        deposit_amount matches Some(d) ==> d@ <= balance@,
        exchange_rate_fits(
            *state,
            block_height,
            aterra_supply@,
            ve_aterra_supply@,
            (balance@ - (match deposit_amount {
                Some(d) => d@,
                None => 0,
            })) as nat,
        ),
    ensures
        r@ == exchange_rate(
            *state,
            block_height,
            aterra_supply@,
            ve_aterra_supply@,
            (balance@ - (match deposit_amount {
                Some(d) => d@,
                None => 0,
            })) as nat,
        ),
{
    let contract_balance = balance_less_deposit(balance, deposit_amount);
    compute_exchange_rate_raw(state, block_height, aterra_supply, ve_aterra_supply, contract_balance)
}

/// Redeeming is refused where the redeemed amount and the reserves are
/// more than the market holds.
pub open spec fn redeem_refused(s: State, current_balance: nat, redeem_amount: nat) -> bool {
    redeem_amount * df() + s.total_reserves@ > current_balance * df()
}

pub fn assert_redeem_amount(
    config: &Config,
    state: &State,
    current_balance: Uint256,
    redeem_amount: Uint256,
) -> (r: Result<(), MarketError>)
    requires
        current_balance@ * df() < pow256(),
        redeem_amount@ * df() + state.total_reserves@ < pow256(),
    ensures
        r is Err <==> redeem_refused(*state, current_balance@, redeem_amount@),
        r matches Err(e) ==> (e matches MarketError::NoStableAvailable(d) && d@
            == config.stable_denom@),
{
    proof {
        broadcast use group_uint256;
    }
    let current_balance = Decimal256::from_uint256(current_balance);
    let redeem_amount = Decimal256::from_uint256(redeem_amount);
    if redeem_amount + state.total_reserves > current_balance {
        return Err(MarketError::NoStableAvailable(config.stable_denom.clone()));
    }
    Ok(())
}

/// The state after interest and rewards are brought up to `block_height`,
/// with `balance` held and the supplies and rates given.
pub open spec fn settled_state(
    s: State,
    block_height: u64,
    balance: nat,
    aterra_supply: nat,
    ve_aterra_supply: nat,
    borrow_rate: nat,
    target_deposit_rate: nat,
) -> State {
    distribute_reward(
        accrue_interest(s, block_height, balance, aterra_supply, ve_aterra_supply, borrow_rate, target_deposit_rate),
        block_height,
    )
}

pub open spec fn settle_fits(
    s: State,
    block_height: u64,
    balance: nat,
    aterra_supply: nat,
    ve_aterra_supply: nat,
    borrow_rate: nat,
    target_deposit_rate: nat,
) -> bool {
    &&& accrue_interest_fits(s, block_height, balance, aterra_supply, ve_aterra_supply, borrow_rate, target_deposit_rate)
    &&& compute_reward_fits(
        accrue_interest(s, block_height, balance, aterra_supply, ve_aterra_supply, borrow_rate, target_deposit_rate),
        block_height,
    )
}

/// Brings interest and rewards up to `block_height`.
pub fn settle(
    state: &mut State,
    block_height: u64,
    balance: Uint256,
    aterra_supply: Uint256,
    ve_aterra_supply: Uint256,
    borrow_rate: Decimal256,
    target_deposit_rate: Decimal256,
)
    requires
        settle_fits(*old(state), block_height, balance@, aterra_supply@, ve_aterra_supply@, borrow_rate@, target_deposit_rate@),
    ensures
        *final(state) == settled_state(*old(state), block_height, balance@, aterra_supply@, ve_aterra_supply@, borrow_rate@, target_deposit_rate@),
{
    compute_interest_raw(state, block_height, balance, aterra_supply, ve_aterra_supply, borrow_rate, target_deposit_rate);
    compute_reward(state, block_height);
}

/// The rate at which a deposit is turned into aterra: that of the settled
/// state, with the balance taken before the deposit.
pub open spec fn deposit_exchange_rate(
    s: State,
    block_height: u64,
    deposit: nat,
    balance: nat,
    borrow_rate: nat,
    target_deposit_rate: nat,
    aterra_supply: nat,
    ve_aterra_supply: nat,
) -> nat {
    let before = (balance - deposit) as nat;
    exchange_rate(
        settled_state(s, block_height, before, aterra_supply, ve_aterra_supply, borrow_rate, target_deposit_rate),
        block_height,
        aterra_supply,
        ve_aterra_supply,
        before,
    )
}

pub open spec fn deposit_fits(
    s: State,
    block_height: u64,
    deposit: nat,
    balance: nat,
    borrow_rate: nat,
    target_deposit_rate: nat,
    aterra_supply: nat,
    ve_aterra_supply: nat,
) -> bool {
    let before = (balance - deposit) as nat;
    let s1 = settled_state(s, block_height, before, aterra_supply, ve_aterra_supply, borrow_rate, target_deposit_rate);
    let er = deposit_exchange_rate(s, block_height, deposit, balance, borrow_rate, target_deposit_rate, aterra_supply, ve_aterra_supply);
    &&& deposit <= balance
    &&& settle_fits(s, block_height, before, aterra_supply, ve_aterra_supply, borrow_rate, target_deposit_rate)
    &&& exchange_rate_fits(s1, block_height, aterra_supply, ve_aterra_supply, before)
    &&& er != 0
    &&& deposit * df() < pow256()
    &&& s1.prev_aterra_supply@ + ddiv(deposit, er) < pow256()
}

/// A deposit of stable coins: after interest and rewards are settled, it
/// mints the deposit divided by the exchange rate in aterra. `balance` is the
/// market's balance with the deposit; `borrow_rate` is what the interest
/// model gives for the balance without it and `target_deposit_rate` what the
/// overseer targets. Returns the new state and the amount minted.
pub fn deposit_stable(
    config: &Config,
    state: State,
    block_height: u64,
    funds: &Vec<Coin>,
    balance: Uint256,
    borrow_rate: Decimal256,
    target_deposit_rate: Decimal256,
    aterra_supply: Uint256,
    ve_aterra_supply: Uint256,
) -> (r: Result<(State, Uint256), MarketError>)
    requires
        coin_amount(funds@, config.stable_denom@) != 0 ==> deposit_fits(
            state,
            block_height,
            coin_amount(funds@, config.stable_denom@),
            balance@,
            borrow_rate@,
            target_deposit_rate@,
            aterra_supply@,
            ve_aterra_supply@,
        ),
    ensures
        r is Ok <==> coin_amount(funds@, config.stable_denom@) != 0,
        r matches Err(e) ==> (e matches MarketError::ZeroDeposit(d) && d@ == config.stable_denom@),
        r matches Ok((s, mint)) ==> ({
            let deposit = coin_amount(funds@, config.stable_denom@);
            let before = (balance@ - deposit) as nat;
            let s1 = settled_state(state, block_height, before, aterra_supply@, ve_aterra_supply@, borrow_rate@, target_deposit_rate@);
            let er = deposit_exchange_rate(
                state,
                block_height,
                deposit,
                balance@,
                borrow_rate@,
                target_deposit_rate@,
                aterra_supply@,
                ve_aterra_supply@,
            );
            &&& mint@ == ddiv(deposit, er)
            &&& s == State { prev_aterra_supply: Uint256::from_nat(s1.prev_aterra_supply@ + mint@), ..s1 }
        }),
{
    proof {
        broadcast use group_uint256;
    }
    // Check base denom deposit
    let deposit_amount = extract_coin_amount(funds, &config.stable_denom)?;

    // Update interest related state
    let mut state = state;
    let before = balance_less_deposit(balance, Some(deposit_amount));
    settle(&mut state, block_height, before, aterra_supply, ve_aterra_supply, borrow_rate, target_deposit_rate);

    // Load anchor token exchange rate with updated state
    let exchange_rate = compute_exchange_rate(
        &state,
        block_height,
        aterra_supply,
        ve_aterra_supply,
        balance,
        Some(deposit_amount),
    );
    let mint_amount = deposit_amount / exchange_rate;

    state.prev_aterra_supply = state.prev_aterra_supply + mint_amount;
    Ok((state, mint_amount))
}

pub open spec fn redeem_fits(
    s: State,
    block_height: u64,
    burn_amount: nat,
    balance: nat,
    borrow_rate: nat,
    target_deposit_rate: nat,
    aterra_supply: nat,
    ve_aterra_supply: nat,
) -> bool {
    let s1 = settled_state(s, block_height, balance, aterra_supply, ve_aterra_supply, borrow_rate, target_deposit_rate);
    let er = exchange_rate(s1, block_height, aterra_supply, ve_aterra_supply, balance);
    &&& settle_fits(s, block_height, balance, aterra_supply, ve_aterra_supply, borrow_rate, target_deposit_rate)
    &&& exchange_rate_fits(s1, block_height, aterra_supply, ve_aterra_supply, balance)
    &&& burn_amount * er < pow256()
    &&& balance * df() < pow256()
    &&& dmul(burn_amount, er) * df() + s1.total_reserves@ < pow256()
    &&& !redeem_refused(s1, balance, dmul(burn_amount, er)) ==> burn_amount <= s1.prev_aterra_supply@
}

/// A redemption of `burn_amount` aterra: after interest and rewards are
/// settled, it pays out the burned aterra times the exchange rate, if the
/// market holds that beyond its reserves. Returns the new state and the
/// amount paid out.
pub fn redeem_stable(
    config: &Config,
    state: State,
    block_height: u64,
    burn_amount: u128,
    balance: Uint256,
    borrow_rate: Decimal256,
    target_deposit_rate: Decimal256,
    aterra_supply: Uint256,
    ve_aterra_supply: Uint256,
) -> (r: Result<(State, Uint256), MarketError>)
    requires
        redeem_fits(
            state,
            block_height,
            burn_amount as nat,
            balance@,
            borrow_rate@,
            target_deposit_rate@,
            aterra_supply@,
            ve_aterra_supply@,
        ),
    ensures
        ({
            let s1 = settled_state(state, block_height, balance@, aterra_supply@, ve_aterra_supply@, borrow_rate@, target_deposit_rate@);
            let er = exchange_rate(s1, block_height, aterra_supply@, ve_aterra_supply@, balance@);
            let redeem = dmul(burn_amount as nat, er);
            &&& r is Err <==> redeem_refused(s1, balance@, redeem)
            &&& r matches Err(e) ==> (e matches MarketError::NoStableAvailable(d) && d@
                == config.stable_denom@)
            &&& r matches Ok((s, paid)) ==> {
                &&& paid@ == redeem
                &&& s == State {
                    prev_aterra_supply: Uint256::from_nat(
                        (s1.prev_aterra_supply@ - burn_amount) as nat,
                    ),
                    ..s1
                }
            }
        }),
{
    proof {
        broadcast use group_uint256;
        assert(burn_amount * df() < pow256()) by (nonlinear_arith)
            requires burn_amount < pow128();
    }
    let mut state = state;
    settle(&mut state, block_height, balance, aterra_supply, ve_aterra_supply, borrow_rate, target_deposit_rate);

    // Load anchor token exchange rate with updated state
    let exchange_rate = compute_exchange_rate_raw(
        &state,
        block_height,
        aterra_supply,
        ve_aterra_supply,
        balance,
    );
    let redeem_amount = Uint256::from(burn_amount) * exchange_rate;

    // Assert redeem amount
    assert_redeem_amount(config, &state, balance, redeem_amount)?;

    state.prev_aterra_supply = state.prev_aterra_supply - Uint256::from(burn_amount);
    Ok((state, redeem_amount))
}

/// The aterra exchange rate spreads the market's net assets (balance plus
/// liabilities less reserves) over the aterra supply together with the
/// ve-aterra supply converted at the ve-aterra exchange rate: the rate
/// times that whole supply is at most the net assets, and one atomic more
/// would exceed them. So ve-aterra counts in the supply: the rate is at
/// most the net assets over the aterra supply alone, and below it where
/// some ve-aterra is out at a nonzero ve-aterra rate (and the rate is not
/// zero). With no aterra the rate is 1.
pub proof fn lemma_exchange_rate_counts_ve_aterra(
    s: State,
    block_height: u64,
    aterra_supply: nat,
    ve_aterra_supply: nat,
    contract_balance: nat,
)
    requires
        s.total_reserves@ <= contract_balance * df() + s.total_liabilities@,
    ensures
        ({
            let rate = exchange_rate(s, block_height, aterra_supply, ve_aterra_supply, contract_balance);
            let supply = aterra_supply * df() + ve_aterra_supply * ve_exchange_rate(s, block_height);
            let net = (contract_balance * df() + s.total_liabilities@ - s.total_reserves@) as nat;
            &&& aterra_supply == 0 ==> rate == df()
            &&& aterra_supply > 0 ==> rate * supply <= net * df()
            &&& aterra_supply > 0 ==> net * df() < (rate + 1) * supply
            &&& aterra_supply > 0 ==> rate * aterra_supply <= net
            &&& aterra_supply > 0 && ve_aterra_supply * ve_exchange_rate(s, block_height) > 0 && rate > 0
                ==> rate * aterra_supply < net
        }),
{
    if aterra_supply > 0 {
        let ver = ve_exchange_rate(s, block_height);
        let vd = ve_aterra_supply * df();
        assert(vd * ver / df() == ve_aterra_supply * ver) by (nonlinear_arith)
            requires
                vd == ve_aterra_supply * df(),
                df() > 0,
        ;
        let supply = aterra_supply * df() + ve_aterra_supply * ver;
        let net = (contract_balance * df() + s.total_liabilities@ - s.total_reserves@) as nat;
        let rate = net * df() / supply;
        assert(supply > 0) by (nonlinear_arith)
            requires
                aterra_supply > 0,
                supply == aterra_supply * df() + ve_aterra_supply * ver,
                df() > 0,
        ;
        assert(rate * supply <= net * df() && net * df() < (rate + 1) * supply) by (nonlinear_arith)
            requires
                supply > 0,
                rate == net * df() / supply,
        ;
        assert(rate * aterra_supply <= net) by (nonlinear_arith)
            requires
                rate * supply <= net * df(),
                supply == aterra_supply * df() + ve_aterra_supply * ver,
                df() > 0,
        ;
        if ve_aterra_supply * ver > 0 && rate > 0 {
            assert(rate * aterra_supply < net) by (nonlinear_arith)
                requires
                    rate > 0,
                    rate * supply <= net * df(),
                    supply == aterra_supply * df() + ve_aterra_supply * ver,
                    ve_aterra_supply * ver > 0,
                    aterra_supply > 0,
                    df() > 0,
            ;
        }
    }
}

/// Rounding never favours the depositor: redeeming the aterra a deposit
/// minted, at the exchange rate it was minted at, pays at most the
/// deposit.
pub proof fn lemma_redeem_after_deposit(deposit: nat, er: nat)
    requires
        er > 0,
    ensures
        dmul(ddiv(deposit, er), er) <= deposit,
{
    let m = ddiv(deposit, er);
    assert(m * er <= deposit * df()) by (nonlinear_arith)
        requires
            m == deposit * df() / er,
            er > 0,
    ;
    assert(m * er / df() <= deposit) by (nonlinear_arith)
        requires
            m * er <= deposit * df(),
            df() > 0,
    ;
}

} // verus!
