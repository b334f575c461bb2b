//! Interest accrual and ANC reward distribution of the market.

use vstd::prelude::*;

use crate::bignumber::backend::pow256;
use crate::bignumber::decimal256::{ddiv, df, dmul};
use crate::bignumber::uint256::group_uint256;
use crate::bignumber::{Decimal256, Uint256};
use super::deposit::{compute_exchange_rate_raw, exchange_rate, exchange_rate_fits};
use super::state::{BorrowerInfo, State};

verus! {

/// The atomics of the number of blocks from `from` to `to`.
pub open spec fn blocks_between(from: u64, to: u64) -> nat {
    ((to - from) * df()) as nat
}

proof fn lemma_blocks_fit(n: u64)
    ensures
        n * df() < pow256(),
{
    assert(n * df() < pow256()) by (nonlinear_arith)
        requires
            n < 0x1_0000_0000_0000_0000nat,
    ;
}

/// The interest per unit of liabilities since the last accrual.
pub open spec fn interest_factor(s: State, block_height: u64, borrow_rate: nat) -> nat {
    dmul(blocks_between(s.last_interest_updated, block_height), borrow_rate)
}

/// The interest accrued on the liabilities since the last accrual.
pub open spec fn interest_accrued(s: State, block_height: u64, borrow_rate: nat) -> nat {
    dmul(s.total_liabilities@, interest_factor(s, block_height, borrow_rate))
}

/// No step of growing the index and the liabilities overflows.
pub open spec fn apply_interest_fits(s: State, block_height: u64, borrow_rate: nat) -> bool {
    let f = interest_factor(s, block_height, borrow_rate);
    let a = interest_accrued(s, block_height, borrow_rate);
    &&& blocks_between(s.last_interest_updated, block_height) * borrow_rate < pow256()
    &&& s.total_liabilities@ * f < pow256()
    &&& df() + f < pow256()
    &&& s.global_interest_index@ * (df() + f) < pow256()
    &&& s.total_liabilities@ + a < pow256()
}

/// The state with the interest since the last accrual applied: the index
/// grows by the factor, the liabilities by the interest.
pub open spec fn apply_interest(s: State, block_height: u64, borrow_rate: nat) -> State {
    let f = interest_factor(s, block_height, borrow_rate);
    let a = interest_accrued(s, block_height, borrow_rate);
    State {
        global_interest_index: Decimal256::from_nat(dmul(s.global_interest_index@, df() + f)),
        total_liabilities: Decimal256::from_nat(s.total_liabilities@ + a),
        ..s
    }
}

/// The per-block rate at which deposits grew over `passed` (the atomics of
/// the blocks): the growth of the exchange rate from `prev_rate` to `rate`,
/// less one, spread over the blocks.
pub open spec fn deposit_rate(rate: nat, prev_rate: nat, passed: nat) -> nat {
    ddiv((ddiv(rate, prev_rate) - df()) as nat, passed)
}

/// No step of the deposit rate overflows, divides by zero or goes below
/// zero (the exchange rate did not fall).
pub open spec fn deposit_rate_fits(rate: nat, prev_rate: nat, passed: nat) -> bool {
    &&& prev_rate != 0
    &&& rate * df() < pow256()
    &&& ddiv(rate, prev_rate) >= df()
    &&& (ddiv(rate, prev_rate) - df()) * df() < pow256()
    &&& passed != 0
}

/// The deposits at the last accrual: the aterra supply then times the
/// exchange rate then.
pub open spec fn prev_deposits(s: State) -> nat {
    dmul(s.prev_aterra_supply@, s.prev_aterra_exchange_rate@)
}

/// What the deposits earned beyond the target rate over `passed` blocks at
/// the excess rate `excess`.
pub open spec fn excess_yield(s: State, passed: nat, excess: nat) -> nat {
    dmul(dmul(prev_deposits(s), passed), excess)
}

pub open spec fn excess_yield_fits(s: State, passed: nat, excess: nat) -> bool {
    &&& s.prev_aterra_supply@ * s.prev_aterra_exchange_rate@ < pow256()
    &&& prev_deposits(s) * passed < pow256()
    &&& dmul(prev_deposits(s), passed) * excess < pow256()
    &&& excess_yield(s, passed, excess) * df() < pow256()
    &&& s.total_reserves@ + excess_yield(s, passed, excess) * df() < pow256()
}

/// The state after interest accrues up to `block_height` at `borrow_rate`
/// per block, with `balance` held, `aterra_supply` aterra and
/// `ve_aterra_supply` ve-aterra out: interest is applied; where the deposit
/// rate that results is above `target_deposit_rate`, the excess yield goes
/// to the reserves; the supply and the exchange rate are kept as the last
/// ones. Nothing changes where the block is not past the last accrual.
#[verifier::opaque]
pub open spec fn accrue_interest(
    s: State,
    block_height: u64,
    balance: nat,
    aterra_supply: nat,
    ve_aterra_supply: nat,
    borrow_rate: nat,
    target_deposit_rate: nat,
) -> State {
    if block_height <= s.last_interest_updated {
        s
    } else {
        let passed = blocks_between(s.last_interest_updated, block_height);
        let s1 = apply_interest(s, block_height, borrow_rate);
        let rate1 = exchange_rate(s1, block_height, aterra_supply, ve_aterra_supply, balance);
        let dr = deposit_rate(rate1, s.prev_aterra_exchange_rate@, passed);
        let s2 = if dr > target_deposit_rate {
            State {
                total_reserves: Decimal256::from_nat(
                    s1.total_reserves@ + excess_yield(s, passed, (dr - target_deposit_rate) as nat) * df(),
                ),
                ..s1
            }
        } else {
            s1
        };
        State {
            prev_aterra_supply: Uint256::from_nat(aterra_supply),
            prev_aterra_exchange_rate: Decimal256::from_nat(
                exchange_rate(s2, block_height, aterra_supply, ve_aterra_supply, balance),
            ),
            last_interest_updated: block_height,
            ..s2
        }
    }
}

/// No step of the interest accrual overflows, divides by zero or goes
/// below zero.
#[verifier::opaque]
pub open spec fn accrue_interest_fits(
    s: State,
    block_height: u64,
    balance: nat,
    aterra_supply: nat,
    ve_aterra_supply: nat,
    borrow_rate: nat,
    target_deposit_rate: nat,
) -> bool {
    let passed = blocks_between(s.last_interest_updated, block_height);
    let s1 = apply_interest(s, block_height, borrow_rate);
    let rate1 = exchange_rate(s1, block_height, aterra_supply, ve_aterra_supply, balance);
    let dr = deposit_rate(rate1, s.prev_aterra_exchange_rate@, passed);
    let excess = (dr - target_deposit_rate) as nat;
    let s2 = State {
        total_reserves: Decimal256::from_nat(s1.total_reserves@ + excess_yield(s, passed, excess) * df()),
        ..s1
    };
    s.last_interest_updated < block_height ==> {
        &&& apply_interest_fits(s, block_height, borrow_rate)
        &&& exchange_rate_fits(s1, block_height, aterra_supply, ve_aterra_supply, balance)
        &&& deposit_rate_fits(rate1, s.prev_aterra_exchange_rate@, passed)
        &&& dr > target_deposit_rate ==> {
            &&& excess_yield_fits(s, passed, excess)
            &&& exchange_rate_fits(s2, block_height, aterra_supply, ve_aterra_supply, balance)
        }
    }
}

/// Accrues interest up to `block_height`; see `accrue_interest`.
pub fn compute_interest_raw(
    state: &mut State,
    block_height: u64,
    balance: Uint256,
    aterra_supply: Uint256,
    ve_aterra_supply: Uint256,
    borrow_rate: Decimal256,
    target_deposit_rate: Decimal256,
)
    requires
        accrue_interest_fits(
            *old(state),
            block_height,
            balance@,
            aterra_supply@,
            ve_aterra_supply@,
            borrow_rate@,
            target_deposit_rate@,
        ),
    ensures
        *final(state) == accrue_interest(
            *old(state),
            block_height,
            balance@,
            aterra_supply@,
            ve_aterra_supply@,
            borrow_rate@,
            target_deposit_rate@,
        ),
{
    proof {
        broadcast use group_uint256;
        reveal(accrue_interest);
        reveal(accrue_interest_fits);
    }
    if state.last_interest_updated >= block_height {
        return;
    }
    proof {
        lemma_blocks_fit((block_height - state.last_interest_updated) as u64);
    }
    let ghost s0 = *state;
    let passed_blocks = Decimal256::from_uint256(
        Uint256::from(block_height - state.last_interest_updated),
    );
    let interest_factor = passed_blocks * borrow_rate;
    let interest_accrued = state.total_liabilities * interest_factor;
    state.global_interest_index = state.global_interest_index * (Decimal256::one()
        + interest_factor);
    state.total_liabilities = state.total_liabilities + interest_accrued;
    assert(*state == apply_interest(s0, block_height, borrow_rate@));

    let mut exchange_rate = compute_exchange_rate_raw(
        state,
        block_height,
        aterra_supply,
        ve_aterra_supply,
        balance,
    );
    let effective_deposit_rate = exchange_rate / state.prev_aterra_exchange_rate;
    let deposit_rate = (effective_deposit_rate - Decimal256::one()) / passed_blocks;

    if deposit_rate > target_deposit_rate {
        // excess_deposit_rate(_per_block)
        let excess_deposit_rate = deposit_rate - target_deposit_rate;
        let prev_deposits = state.prev_aterra_supply * state.prev_aterra_exchange_rate;
        // excess_yield = prev_deposits * excess_deposit_rate(_per_block) * blocks
        let excess_yield = prev_deposits * passed_blocks * excess_deposit_rate;
        state.total_reserves = state.total_reserves + Decimal256::from_uint256(excess_yield);
        exchange_rate = compute_exchange_rate_raw(
            state,
            block_height,
            aterra_supply,
            ve_aterra_supply,
            balance,
        );
    }
    state.prev_aterra_supply = aterra_supply;
    state.prev_aterra_exchange_rate = exchange_rate;
    state.last_interest_updated = block_height;
}

/// No step of bringing a loan up to the global interest index overflows.
pub open spec fn borrower_interest_fits(s: State, l: BorrowerInfo) -> bool {
    &&& l.loan_amount@ * s.global_interest_index@ < pow256()
    &&& l.interest_index@ != 0
    &&& dmul(l.loan_amount@, s.global_interest_index@) * df() < pow256()
}

/// The loan scaled by the growth of the interest index since the borrower's
/// last update; the borrower's interest index becomes the global one.
pub open spec fn borrower_interest(s: State, l: BorrowerInfo) -> BorrowerInfo {
    BorrowerInfo {
        loan_amount: Uint256::from_nat(
            ddiv(dmul(l.loan_amount@, s.global_interest_index@), l.interest_index@),
        ),
        interest_index: s.global_interest_index,
        ..l
    }
}

/// Compute new interest and apply to liability
pub fn compute_borrower_interest(state: &State, liability: &mut BorrowerInfo)
    requires
        borrower_interest_fits(*state, *old(liability)),
    ensures
        *final(liability) == borrower_interest(*state, *old(liability)),
{
    proof {
        broadcast use group_uint256;
    }
    liability.loan_amount = liability.loan_amount * state.global_interest_index
        / liability.interest_index;
    liability.interest_index = state.global_interest_index;
}

/// The ANC rewards emitted since the last reward distribution.
pub open spec fn reward_accrued(s: State, block_height: u64) -> nat {
    dmul(blocks_between(s.last_reward_updated, block_height), s.anc_emission_rate@)
}

/// The liabilities in units of the interest index.
pub open spec fn borrow_base(s: State) -> nat {
    ddiv(s.total_liabilities@, s.global_interest_index@)
}

/// No step of the reward distribution overflows or divides by zero.
pub open spec fn compute_reward_fits(s: State, block_height: u64) -> bool {
    s.last_reward_updated < block_height ==> {
        &&& blocks_between(s.last_reward_updated, block_height) * s.anc_emission_rate@ < pow256()
        &&& s.global_interest_index@ != 0
        &&& s.total_liabilities@ * df() < pow256()
        &&& (reward_accrued(s, block_height) != 0 && borrow_base(s) != 0) ==> {
            &&& reward_accrued(s, block_height) * df() < pow256()
            &&& s.global_reward_index@ + ddiv(reward_accrued(s, block_height), borrow_base(s)) < pow256()
        }
    }
}

/// The state after the rewards emitted since the last distribution are
/// spread over the liabilities: the reward index grows by the rewards per
/// unit of borrowing, where both are nonzero. Nothing changes where the
/// block is not past the last distribution.
pub open spec fn distribute_reward(s: State, block_height: u64) -> State {
    if block_height <= s.last_reward_updated {
        s
    } else {
        let accrued = reward_accrued(s, block_height);
        let base = borrow_base(s);
        State {
            global_reward_index: if accrued != 0 && base != 0 {
                Decimal256::from_nat(s.global_reward_index@ + ddiv(accrued, base))
            } else {
                s.global_reward_index
            },
            last_reward_updated: block_height,
            ..s
        }
    }
}

/// Compute distributed reward and update global index
pub fn compute_reward(state: &mut State, block_height: u64)
    requires
        compute_reward_fits(*old(state), block_height),
    ensures
        *final(state) == distribute_reward(*old(state), block_height),
{
    proof {
        broadcast use group_uint256;
    }
    if state.last_reward_updated >= block_height {
        return;
    }
    proof {
        lemma_blocks_fit((block_height - state.last_reward_updated) as u64);
    }
    let passed_blocks = Decimal256::from_uint256(
        Uint256::from(block_height - state.last_reward_updated),
    );
    let reward_accrued = passed_blocks * state.anc_emission_rate;
    let borrow_amount = state.total_liabilities / state.global_interest_index;
    if !reward_accrued.is_zero() && !borrow_amount.is_zero() {
        state.global_reward_index = state.global_reward_index + reward_accrued / borrow_amount;
    }
    state.last_reward_updated = block_height;
}

/// No step of crediting a borrower's rewards overflows.
pub open spec fn borrower_reward_fits(s: State, l: BorrowerInfo) -> bool {
    let base = ddiv(l.loan_amount@ * df(), s.global_interest_index@);
    &&& l.loan_amount@ * df() < pow256()
    &&& s.global_interest_index@ != 0
    &&& l.loan_amount@ * df() * df() < pow256()
    &&& l.reward_index@ <= s.global_reward_index@
    &&& base * (s.global_reward_index@ - l.reward_index@) < pow256()
    &&& l.pending_rewards@ + dmul(base, (s.global_reward_index@ - l.reward_index@) as nat) < pow256()
}

/// The borrower's rewards grow by its loan (in index units) times the
/// growth of the reward index since its last update.
pub open spec fn borrower_reward(s: State, l: BorrowerInfo) -> BorrowerInfo {
    let base = ddiv(l.loan_amount@ * df(), s.global_interest_index@);
    BorrowerInfo {
        pending_rewards: Decimal256::from_nat(
            l.pending_rewards@ + dmul(base, (s.global_reward_index@ - l.reward_index@) as nat),
        ),
        reward_index: s.global_reward_index,
        ..l
    }
}

/// Compute reward amount a borrower received
pub fn compute_borrower_reward(state: &State, liability: &mut BorrowerInfo)
    requires
        borrower_reward_fits(*state, *old(liability)),
    ensures
        *final(liability) == borrower_reward(*state, *old(liability)),
{
    proof {
        broadcast use group_uint256;
    }
    let base = Decimal256::from_uint256(liability.loan_amount) / state.global_interest_index;
    let growth = state.global_reward_index - liability.reward_index;
    liability.pending_rewards = liability.pending_rewards + base * growth;
    liability.reward_index = state.global_reward_index;
}

/// Interest only accrues: the interest index and the liabilities never
/// fall when interest accrues, nor do the reserves, and the accrual is
/// recorded at the block.
pub proof fn lemma_accrue_interest_grows(
    s: State,
    block_height: u64,
    balance: nat,
    aterra_supply: nat,
    ve_aterra_supply: nat,
    borrow_rate: nat,
    target_deposit_rate: nat,
)
    requires
        accrue_interest_fits(s, block_height, balance, aterra_supply, ve_aterra_supply, borrow_rate, target_deposit_rate),
    ensures
        ({
            let r = accrue_interest(s, block_height, balance, aterra_supply, ve_aterra_supply, borrow_rate, target_deposit_rate);
            &&& r.global_interest_index@ >= s.global_interest_index@
            &&& r.total_liabilities@ >= s.total_liabilities@
            &&& r.total_reserves@ >= s.total_reserves@
            &&& s.last_interest_updated < block_height ==> r.last_interest_updated == block_height
        }),
{
    broadcast use group_uint256;
    reveal(accrue_interest);
    reveal(accrue_interest_fits);
    if s.last_interest_updated < block_height {
        let f = interest_factor(s, block_height, borrow_rate);
        let g = s.global_interest_index@;
        assert(g * (df() + f) / df() >= g) by (nonlinear_arith)
            requires
                df() > 0,
        ;
        assert(dmul(g, df() + f) < pow256()) by (nonlinear_arith)
            requires
                g * (df() + f) < pow256(),
                df() > 0,
        ;
    }
}

} // verus!
