//! Borrowing stable coins against collateral, repaying, and claiming the
//! ANC rewards of a loan.

use vstd::prelude::*;

use crate::bignumber::backend::{pow128, pow256};
use crate::bignumber::decimal256::{df, dmul};
use crate::bignumber::uint256::group_uint256;
use crate::bignumber::{Decimal256, Uint256};
use crate::querier::Coin;
use crate::tokens::bytes_equal;
use super::deposit::{balance_less_deposit, coin_amount};
use super::error::MarketError;
use super::interest::{
    accrue_interest, accrue_interest_fits, borrower_interest, borrower_interest_fits,
    borrower_reward, borrower_reward_fits, compute_borrower_interest, compute_borrower_reward,
    compute_interest_raw, compute_reward, compute_reward_fits, distribute_reward,
};
use super::state::{BorrowerInfo, Config, State};

verus! {

/// Interest first, then rewards, for the market and the borrower, with
/// `balance` held and the supplies and rates given.
pub open spec fn interest_then_reward(
    s: State,
    l: BorrowerInfo,
    block_height: u64,
    balance: nat,
    borrow_rate: nat,
    target_deposit_rate: nat,
    aterra_supply: nat,
    ve_aterra_supply: nat,
) -> (State, BorrowerInfo) {
    let s1 = accrue_interest(s, block_height, balance, aterra_supply, ve_aterra_supply, borrow_rate, target_deposit_rate);
    let l1 = borrower_interest(s1, l);
    let s2 = distribute_reward(s1, block_height);
    (s2, borrower_reward(s2, l1))
}

pub open spec fn interest_then_reward_fits(
    s: State,
    l: BorrowerInfo,
    block_height: u64,
    balance: nat,
    borrow_rate: nat,
    target_deposit_rate: nat,
    aterra_supply: nat,
    ve_aterra_supply: nat,
) -> bool {
    let s1 = accrue_interest(s, block_height, balance, aterra_supply, ve_aterra_supply, borrow_rate, target_deposit_rate);
    let l1 = borrower_interest(s1, l);
    let s2 = distribute_reward(s1, block_height);
    &&& accrue_interest_fits(s, block_height, balance, aterra_supply, ve_aterra_supply, borrow_rate, target_deposit_rate)
    &&& borrower_interest_fits(s1, l)
    &&& compute_reward_fits(s1, block_height)
    &&& borrower_reward_fits(s2, l1)
}

fn settle_interest_then_reward(
    state: &mut State,
    liability: &mut BorrowerInfo,
    block_height: u64,
    balance: Uint256,
    borrow_rate: Decimal256,
    target_deposit_rate: Decimal256,
    aterra_supply: Uint256,
    ve_aterra_supply: Uint256,
)
    requires
        interest_then_reward_fits(*old(state), *old(liability), block_height, balance@, borrow_rate@, target_deposit_rate@, aterra_supply@, ve_aterra_supply@),
    ensures
        (*final(state), *final(liability)) == interest_then_reward(*old(state), *old(liability), block_height, balance@, borrow_rate@, target_deposit_rate@, aterra_supply@, ve_aterra_supply@),
{
    // Compute interest
    compute_interest_raw(state, block_height, balance, aterra_supply, ve_aterra_supply, borrow_rate, target_deposit_rate);
    compute_borrower_interest(state, liability);
    // Compute ANC reward
    compute_reward(state, block_height);
    compute_borrower_reward(state, liability);
}

/// The borrow limit is below the loan with the new borrow in it.
pub open spec fn exceeds_limit(l: BorrowerInfo, borrow_amount: nat, borrow_limit: nat) -> bool {
    borrow_limit < borrow_amount + l.loan_amount@
}

/// The liabilities with the new borrow are above the max borrow factor's
/// share of what the market holds and has lent.
pub open spec fn exceeds_borrow_factor(s: State, borrow_amount: nat, balance: nat, max_borrow_factor: nat) -> bool {
    s.total_liabilities@ + borrow_amount * df() > dmul(balance * df() + s.total_liabilities@, max_borrow_factor)
}

/// The stable coins that must stay in the market: its reserves, in whole
/// units, and one more.
pub open spec fn reserve_amount(s: State) -> nat {
    s.total_reserves@ / df() + 1
}

/// The borrow and the amount that must stay are more than the market
/// holds: a borrow must leave one unit beyond the reserves.
pub open spec fn exceeds_available(s: State, borrow_amount: nat, balance: nat) -> bool {
    borrow_amount + reserve_amount(s) > balance
}

pub open spec fn borrow_fits(
    config: Config,
    s: State,
    l: BorrowerInfo,
    block_height: u64,
    borrow_amount: nat,
    borrow_limit: nat,
    balance: nat,
    borrow_rate: nat,
    target_deposit_rate: nat,
    aterra_supply: nat,
    ve_aterra_supply: nat,
) -> bool {
    let (s2, l2) = interest_then_reward(s, l, block_height, balance, borrow_rate, target_deposit_rate, aterra_supply, ve_aterra_supply);
    &&& interest_then_reward_fits(s, l, block_height, balance, borrow_rate, target_deposit_rate, aterra_supply, ve_aterra_supply)
    &&& borrow_amount + l2.loan_amount@ < pow256()
    &&& !exceeds_limit(l2, borrow_amount, borrow_limit) ==> {
        &&& borrow_amount * df() < pow256()
        &&& s2.total_liabilities@ + borrow_amount * df() < pow256()
        &&& balance * df() + s2.total_liabilities@ < pow256()
        &&& (balance * df() + s2.total_liabilities@) * config.max_borrow_factor@ < pow256()
        &&& borrow_amount + reserve_amount(s2) < pow256()
    }
}

/// A borrow of `borrow_amount`: after interest and rewards are settled, the
/// loan must stay within the borrow limit the overseer reports, the market's
/// liabilities within its max borrow factor, and the borrow within what
/// `balance` holds beyond the reserves and one more unit. Returns the new
/// state and borrower record.
pub fn borrow_stable(
    config: &Config,
    state: State,
    liability: BorrowerInfo,
    block_height: u64,
    borrow_amount: Uint256,
    borrow_limit: Uint256,
    balance: Uint256,
    borrow_rate: Decimal256,
    target_deposit_rate: Decimal256,
    aterra_supply: Uint256,
    ve_aterra_supply: Uint256,
) -> (r: Result<(State, BorrowerInfo), MarketError>)
    requires
        borrow_fits(*config, state, liability, block_height, borrow_amount@, borrow_limit@, balance@, borrow_rate@, target_deposit_rate@, aterra_supply@, ve_aterra_supply@),
    ensures
        ({
            let (s2, l2) = interest_then_reward(state, liability, block_height, balance@, borrow_rate@, target_deposit_rate@, aterra_supply@, ve_aterra_supply@);
            let over_limit = exceeds_limit(l2, borrow_amount@, borrow_limit@);
            let over_factor = exceeds_borrow_factor(s2, borrow_amount@, balance@, config.max_borrow_factor@);
            let over_available = exceeds_available(s2, borrow_amount@, balance@);
            &&& over_limit ==> r == Err::<(State, BorrowerInfo), MarketError>(MarketError::BorrowExceedsLimit(borrow_limit))
            &&& !over_limit && over_factor ==> (r matches Err(MarketError::MaxBorrowFactorReached(d)) && d@ == config.stable_denom@)
            &&& !over_limit && !over_factor && over_available ==> (r matches Err(MarketError::NoStableAvailable(d)) && d@ == config.stable_denom@)
            &&& r is Ok <==> (!over_limit && !over_factor && !over_available)
            &&& r matches Ok((s, l)) ==> {
                &&& s == State { total_liabilities: Decimal256::from_nat(s2.total_liabilities@ + borrow_amount@ * df()), ..s2 }
                &&& l == BorrowerInfo { loan_amount: Uint256::from_nat(l2.loan_amount@ + borrow_amount@), ..l2 }
            }
        }),
{
    proof {
        broadcast use group_uint256;
    }
    let mut state = state;
    let mut liability = liability;
    settle_interest_then_reward(&mut state, &mut liability, block_height, balance, borrow_rate, target_deposit_rate, aterra_supply, ve_aterra_supply);

    if borrow_limit < borrow_amount + liability.loan_amount {
        return Err(MarketError::BorrowExceedsLimit(borrow_limit));
    }

    // Assert max borrow factor
    if state.total_liabilities + Decimal256::from_uint256(borrow_amount) > (Decimal256::from_uint256(
        balance,
    ) + state.total_liabilities) * config.max_borrow_factor {
        return Err(MarketError::MaxBorrowFactorReached(config.stable_denom.clone()));
    }

    // Ensure reserve amount must be left
    proof {
        assert(state.total_reserves@ * 1 == state.total_reserves@);
    }
    let reserve_amount = state.total_reserves * Uint256::one() + Uint256::one();
    // Assert available balance
    if borrow_amount + reserve_amount > balance {
        return Err(MarketError::NoStableAvailable(config.stable_denom.clone()));
    }

    liability.loan_amount = liability.loan_amount + borrow_amount;
    state.total_liabilities = state.total_liabilities + Decimal256::from_uint256(borrow_amount);
    Ok((state, liability))
}

pub open spec fn repay_fits(
    s: State,
    l: BorrowerInfo,
    block_height: u64,
    amount: nat,
    balance: nat,
    borrow_rate: nat,
    target_deposit_rate: nat,
    aterra_supply: nat,
    ve_aterra_supply: nat,
) -> bool {
    let before = (balance - amount) as nat;
    let (s2, l2) = interest_then_reward(s, l, block_height, before, borrow_rate, target_deposit_rate, aterra_supply, ve_aterra_supply);
    let repay = if l2.loan_amount@ < amount { l2.loan_amount@ } else { amount };
    &&& amount <= balance
    &&& interest_then_reward_fits(s, l, block_height, before, borrow_rate, target_deposit_rate, aterra_supply, ve_aterra_supply)
    &&& repay * df() <= s2.total_liabilities@
}

/// What a repayment leaves: the amount repaid (at most the loan) and what
/// is sent back to the borrower (the rest of what was sent, if any).
#[derive(Clone, Copy, Debug, PartialEq, Eq, Structural)]
pub struct Repayment {
    pub state: State,
    pub liability: BorrowerInfo,
    pub repay_amount: Uint256,
    pub refund: Option<Uint256>,
}

/// A repayment with the stable coins sent along: after interest and rewards
/// are settled (with the balance taken before the repayment), at most the
/// loan is repaid and the rest is sent back. `balance` is the market's
/// balance with the repayment.
pub fn repay_stable(
    config: &Config,
    state: State,
    liability: BorrowerInfo,
    block_height: u64,
    funds: &Vec<Coin>,
    balance: Uint256,
    borrow_rate: Decimal256,
    target_deposit_rate: Decimal256,
    aterra_supply: Uint256,
    ve_aterra_supply: Uint256,
) -> (r: Result<Repayment, MarketError>)
    requires
        coin_amount(funds@, config.stable_denom@) != 0 ==> repay_fits(state, liability, block_height, coin_amount(funds@, config.stable_denom@), balance@, borrow_rate@, target_deposit_rate@, aterra_supply@, ve_aterra_supply@),
    ensures
        ({
            let amount = coin_amount(funds@, config.stable_denom@);
            let before = (balance@ - amount) as nat;
            let (s2, l2) = interest_then_reward(state, liability, block_height, before, borrow_rate@, target_deposit_rate@, aterra_supply@, ve_aterra_supply@);
            &&& r is Ok <==> amount != 0
            &&& r matches Err(e) ==> (e matches MarketError::ZeroRepay(d) && d@ == config.stable_denom@)
            &&& r matches Ok(rp) ==> {
                &&& l2.loan_amount@ < amount ==> {
                    &&& rp.repay_amount@ == l2.loan_amount@
                    &&& rp.liability == BorrowerInfo { loan_amount: Uint256::from_nat(0), ..l2 }
                    &&& rp.refund matches Some(back) && back@ == amount - l2.loan_amount@
                }
                &&& l2.loan_amount@ >= amount ==> {
                    &&& rp.repay_amount@ == amount
                    &&& rp.liability == BorrowerInfo { loan_amount: Uint256::from_nat((l2.loan_amount@ - amount) as nat), ..l2 }
                    &&& rp.refund is None
                }
                &&& rp.state == State { total_liabilities: Decimal256::from_nat((s2.total_liabilities@ - rp.repay_amount@ * df()) as nat), ..s2 }
            }
        }),
{
    proof {
        broadcast use group_uint256;
    }
    let amount = match super::deposit::extract_coin_amount(funds, &config.stable_denom) {
        Ok(a) => a,
        Err(_) => {
            // Cannot deposit zero amount
            return Err(MarketError::ZeroRepay(config.stable_denom.clone()));
        },
    };
    let mut state = state;
    let mut liability = liability;
    let before = balance_less_deposit(balance, Some(amount));
    settle_interest_then_reward(&mut state, &mut liability, block_height, before, borrow_rate, target_deposit_rate, aterra_supply, ve_aterra_supply);

    let repay_amount: Uint256;
    let mut refund: Option<Uint256> = None;
    if liability.loan_amount < amount {
        repay_amount = liability.loan_amount;
        liability.loan_amount = Uint256::zero();
        // Payback left repay amount to sender
        refund = Some(amount - repay_amount);
    } else {
        repay_amount = amount;
        liability.loan_amount = liability.loan_amount - repay_amount;
    }
    proof {
        assert(repay_amount@ * df() < pow256());
    }
    state.total_liabilities = state.total_liabilities - Decimal256::from_uint256(repay_amount);
    Ok(Repayment { state, liability, repay_amount, refund })
}

/// A repayment the overseer makes for a liquidated borrower: the stable
/// coins the liquidation brought (the balance now less the balance before)
/// repay the borrower's loan as `repay_stable` does. Only the overseer may
/// ask for it.
pub fn repay_stable_from_liquidation(
    config: &Config,
    state: State,
    liability: BorrowerInfo,
    block_height: u64,
    sender: &Vec<u8>,
    cur_balance: Uint256,
    prev_balance: Uint256,
    borrow_rate: Decimal256,
    target_deposit_rate: Decimal256,
    aterra_supply: Uint256,
    ve_aterra_supply: Uint256,
) -> (r: Result<Repayment, MarketError>)
    requires
        sender@ == config.overseer_contract@ ==> {
            &&& prev_balance@ <= cur_balance@
            &&& cur_balance@ - prev_balance@ < pow128()
            &&& cur_balance@ - prev_balance@ != 0 ==> repay_fits(state, liability, block_height, (cur_balance@ - prev_balance@) as nat, cur_balance@, borrow_rate@, target_deposit_rate@, aterra_supply@, ve_aterra_supply@)
        },
    ensures
        sender@ != config.overseer_contract@ ==> r == Err::<Repayment, MarketError>(MarketError::Unauthorized),
        sender@ == config.overseer_contract@ ==> (r is Ok <==> cur_balance@ != prev_balance@),
        sender@ == config.overseer_contract@ && cur_balance@ == prev_balance@ ==> (r matches Err(MarketError::ZeroRepay(d)) && d@ == config.stable_denom@),
        r matches Ok(rp) ==> ({
            let amount = (cur_balance@ - prev_balance@) as nat;
            let (s2, l2) = interest_then_reward(state, liability, block_height, prev_balance@, borrow_rate@, target_deposit_rate@, aterra_supply@, ve_aterra_supply@);
            &&& l2.loan_amount@ < amount ==> {
                &&& rp.repay_amount@ == l2.loan_amount@
                &&& rp.liability == BorrowerInfo { loan_amount: Uint256::from_nat(0), ..l2 }
                &&& rp.refund matches Some(back) && back@ == amount - l2.loan_amount@
            }
            &&& l2.loan_amount@ >= amount ==> {
                &&& rp.repay_amount@ == amount
                &&& rp.liability == BorrowerInfo { loan_amount: Uint256::from_nat((l2.loan_amount@ - amount) as nat), ..l2 }
                &&& rp.refund is None
            }
            &&& rp.state == State { total_liabilities: Decimal256::from_nat((s2.total_liabilities@ - rp.repay_amount@ * df()) as nat), ..s2 }
        }),
{
    proof {
        broadcast use group_uint256;
    }
    if !bytes_equal(&config.overseer_contract, sender) {
        return Err(MarketError::Unauthorized);
    }
    let amount = (cur_balance - prev_balance).into_u128();
    let funds = vec![Coin { denom: config.stable_denom.clone(), amount }];
    proof {
        assert(funds@[0].denom@ == config.stable_denom@);
        assert(coin_amount(funds@, config.stable_denom@) == amount);
        assert((cur_balance@ - amount) as nat == prev_balance@);
    }
    repay_stable(config, state, liability, block_height, &funds, cur_balance, borrow_rate, target_deposit_rate, aterra_supply, ve_aterra_supply)
}

/// A claim of the borrower's rewards: after interest and rewards are
/// settled, the whole units of the pending rewards are paid out and taken
/// off them. Returns the new state and record and the amount claimed.
pub fn claim_rewards(
    state: State,
    liability: BorrowerInfo,
    block_height: u64,
    balance: Uint256,
    borrow_rate: Decimal256,
    target_deposit_rate: Decimal256,
    aterra_supply: Uint256,
    ve_aterra_supply: Uint256,
) -> (r: (State, BorrowerInfo, Uint256))
    requires
        interest_then_reward_fits(state, liability, block_height, balance@, borrow_rate@, target_deposit_rate@, aterra_supply@, ve_aterra_supply@),
    ensures
        ({
            let (s2, l2) = interest_then_reward(state, liability, block_height, balance@, borrow_rate@, target_deposit_rate@, aterra_supply@, ve_aterra_supply@);
            let claim = l2.pending_rewards@ / df();
            &&& r.0 == s2
            &&& r.2@ == claim
            &&& r.1 == BorrowerInfo { pending_rewards: Decimal256::from_nat((l2.pending_rewards@ - claim * df()) as nat), ..l2 }
        }),
{
    proof {
        broadcast use group_uint256;
    }
    let mut state = state;
    let mut liability = liability;
    settle_interest_then_reward(&mut state, &mut liability, block_height, balance, borrow_rate, target_deposit_rate, aterra_supply, ve_aterra_supply);
    proof {
        let p = liability.pending_rewards@;
        assert(p * 1 == p);
        vstd::arithmetic::div_mod::lemma_fundamental_div_mod(p as int, df() as int);
        assert((p / df()) * df() <= p) by (nonlinear_arith)
            requires p == df() * (p / df()) + p % df(), p % df() >= 0;
    }
    let claim_amount = liability.pending_rewards * Uint256::one();
    liability.pending_rewards = liability.pending_rewards - Decimal256::from_uint256(claim_amount);
    (state, liability, claim_amount)
}

/// The borrower's record as of `block_height`: interest and rewards
/// brought up to it.
pub fn query_borrower_info(
    state: State,
    liability: BorrowerInfo,
    block_height: u64,
    balance: Uint256,
    borrow_rate: Decimal256,
    target_deposit_rate: Decimal256,
    aterra_supply: Uint256,
    ve_aterra_supply: Uint256,
) -> (r: BorrowerInfo)
    requires
        interest_then_reward_fits(state, liability, block_height, balance@, borrow_rate@, target_deposit_rate@, aterra_supply@, ve_aterra_supply@),
    ensures
        r == interest_then_reward(state, liability, block_height, balance@, borrow_rate@, target_deposit_rate@, aterra_supply@, ve_aterra_supply@).1,
{
    let mut state = state;
    let mut liability = liability;
    settle_interest_then_reward(&mut state, &mut liability, block_height, balance, borrow_rate, target_deposit_rate, aterra_supply, ve_aterra_supply);
    liability
}

/// The borrower's loan with interest up to `block_height`.
pub fn query_loan_amount(
    state: State,
    liability: BorrowerInfo,
    block_height: u64,
    balance: Uint256,
    borrow_rate: Decimal256,
    target_deposit_rate: Decimal256,
    aterra_supply: Uint256,
    ve_aterra_supply: Uint256,
) -> (r: Uint256)
    requires
        accrue_interest_fits(state, block_height, balance@, aterra_supply@, ve_aterra_supply@, borrow_rate@, target_deposit_rate@),
        borrower_interest_fits(accrue_interest(state, block_height, balance@, aterra_supply@, ve_aterra_supply@, borrow_rate@, target_deposit_rate@), liability),
    ensures
        r == borrower_interest(accrue_interest(state, block_height, balance@, aterra_supply@, ve_aterra_supply@, borrow_rate@, target_deposit_rate@), liability).loan_amount,
{
    let mut state = state;
    let mut liability = liability;
    compute_interest_raw(&mut state, block_height, balance, aterra_supply, ve_aterra_supply, borrow_rate, target_deposit_rate);
    compute_borrower_interest(&state, &mut liability);
    liability.loan_amount
}

} // verus!
