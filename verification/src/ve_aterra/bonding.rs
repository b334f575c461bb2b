//! Bonding aterra for ve-aterra at its exchange rate, unbonding it into
//! receipts, and claiming the receipts once unlocked.

use vstd::prelude::*;

use crate::bignumber::backend::pow256;
use crate::bignumber::decimal256::{ddiv, df, dmul};
use crate::bignumber::uint256::group_uint256;
use crate::bignumber::{Decimal256, Uint256};
use crate::vterra::bonding::{
    amount_view, lemma_take_step_local, plus_seconds, receipts_range, receipts_to_vec, take_from,
    take_step, UNBOND_DURATION_SECS,
};
use crate::vterra::bonding::receipts_nonzero;
use crate::vterra::state::{lemma_total_split, lemma_total_update, receipts_ascending, receipts_total, Receipt, UserReceipts};
use super::state::{State, VeAterraError};

verus! {

/// aterra per ve-aterra at `block_height`: the last rate times the blocks
/// since, times the premium rate (the last rate itself where no block
/// passed).
pub open spec fn linear_exchange_rate(previous_er: nat, premium_rate: nat, last_updated: u64, block_height: u64) -> nat {
    let blocks = (block_height - last_updated) as nat;
    if blocks == 0 {
        previous_er
    } else {
        dmul(dmul(previous_er, blocks * df()), premium_rate)
    }
}

pub open spec fn linear_exchange_rate_fits(previous_er: nat, premium_rate: nat, last_updated: u64, block_height: u64) -> bool {
    let blocks = (block_height - last_updated) as nat;
    &&& last_updated <= block_height
    &&& previous_er * (blocks * df()) < pow256()
    &&& dmul(previous_er, blocks * df()) * premium_rate < pow256()
}

/// The exchange rate of aterra per ve-aterra at `block_height`.
pub fn compute_ve_exchange_rate(
    previous_er: Decimal256,
    premium_rate: Decimal256,
    last_updated: u64,
    block_height: u64,
) -> (r: Decimal256)
    requires
        linear_exchange_rate_fits(previous_er@, premium_rate@, last_updated, block_height),
    ensures
        r@ == linear_exchange_rate(previous_er@, premium_rate@, last_updated, block_height),
{
    proof {
        broadcast use group_uint256;
    }
    let blocks = Uint256::from(block_height - last_updated);
    proof {
        assert(blocks@ * df() < pow256()) by (nonlinear_arith)
            requires blocks@ < 0x1_0000_0000_0000_0000nat;
    }
    let blocks_elapsed = Decimal256::from_ratio(blocks, Uint256::one());
    if blocks_elapsed.is_zero() {
        proof {
            assert(blocks@ * df() == 0);
            assert(blocks@ == 0) by (nonlinear_arith)
                requires blocks@ * df() == 0, df() > 0;
        }
        previous_er
    } else {
        proof {
            assert(blocks@ != 0) by (nonlinear_arith)
                requires blocks@ * df() != 0;
        }
        previous_er * blocks_elapsed * premium_rate
    }
}

/// The exchange rate of the state at `block_height`.
pub open spec fn state_exchange_rate(s: State, block_height: u64) -> nat {
    linear_exchange_rate(s.prev_epoch_ve_aterra_exchange_rate@, s.premium_rate@, s.last_updated, block_height)
}

pub open spec fn state_exchange_rate_fits(s: State, block_height: u64) -> bool {
    linear_exchange_rate_fits(s.prev_epoch_ve_aterra_exchange_rate@, s.premium_rate@, s.last_updated, block_height)
}

/// Bonding `bond_amount` aterra mints ve-aterra at the exchange rate.
/// Returns the new state, the ve-aterra minted and the exchange rate.
pub fn bond(state: State, block_height: u64, bond_amount: Uint256) -> (r: (State, Uint256, Decimal256))
    requires
        state_exchange_rate_fits(state, block_height),
        state_exchange_rate(state, block_height) != 0,
        bond_amount@ * df() < pow256(),
        state.ve_aterra_supply@ + ddiv(bond_amount@, state_exchange_rate(state, block_height)) < pow256(),
    ensures
        ({
            let er = state_exchange_rate(state, block_height);
            &&& r.2@ == er
            &&& r.1@ == ddiv(bond_amount@, er)
            &&& r.0 == (State { ve_aterra_supply: Uint256::from_nat(state.ve_aterra_supply@ + r.1@), ..state })
        }),
{
    proof {
        broadcast use group_uint256;
    }
    let exchange_rate = compute_ve_exchange_rate(
        state.prev_epoch_ve_aterra_exchange_rate,
        state.premium_rate,
        state.last_updated,
        block_height,
    );
    let ve_aterra_amount = bond_amount / exchange_rate;
    let mut state = state;
    state.ve_aterra_supply = state.ve_aterra_supply + ve_aterra_amount;
    (state, ve_aterra_amount, exchange_rate)
}

/// Unbonding `unbond_amount` ve-aterra mints aterra at the exchange rate,
/// held as a receipt that unlocks 30 days after `block_time`. Returns the
/// new state, the aterra minted and the exchange rate.
pub fn unbond(
    state: State,
    receipts: &mut UserReceipts,
    block_height: u64,
    block_time: u64,
    unbond_amount: Uint256,
) -> (r: (State, Uint256, Decimal256))
    requires
        unbond_amount@ <= state.ve_aterra_supply@,
        state_exchange_rate_fits(state, block_height),
        unbond_amount@ * state_exchange_rate(state, block_height) < pow256(),
        plus_seconds(block_time, UNBOND_DURATION_SECS) <= u64::MAX,
    ensures
        ({
            let er = state_exchange_rate(state, block_height);
            &&& r.2@ == er
            &&& r.1@ == dmul(unbond_amount@, er)
            &&& r.0 == (State {
                ve_aterra_supply: Uint256::from_nat((state.ve_aterra_supply@ - unbond_amount@) as nat),
                ..state
            })
            &&& final(receipts).0@ == old(receipts).0@.push(Receipt {
                aterra_qty: r.1,
                unlock_time: plus_seconds(block_time, UNBOND_DURATION_SECS) as u64,
            })
        }),
{
    proof {
        broadcast use group_uint256;
    }
    let mut state = state;
    state.ve_aterra_supply = state.ve_aterra_supply - unbond_amount;
    let exchange_rate = compute_ve_exchange_rate(
        state.prev_epoch_ve_aterra_exchange_rate,
        state.premium_rate,
        state.last_updated,
        block_height,
    );
    let aterra_mint_amount = unbond_amount * exchange_rate;
    let unlock_time = block_time + UNBOND_DURATION_SECS * 1_000_000_000;
    receipts.0.push_back(Receipt { aterra_qty: aterra_mint_amount, unlock_time });
    (state, aterra_mint_amount, exchange_rate)
}

/// Claiming goes through the receipts from the first (earliest unlock) on
/// and stops at the first one still locked at `block_time`; this is its
/// state after `k` of them (the last item: whether it stopped).
pub open spec fn claim_scan(q: Seq<Receipt>, amount: Option<nat>, block_time: u64, k: nat) -> (Seq<Receipt>, nat, nat, bool)
    decreases k,
{
    if k == 0 {
        (q, 0, 0, false)
    } else {
        let st = claim_scan(q, amount, block_time, (k - 1) as nat);
        if st.3 || q[k - 1].unlock_time > block_time {
            (st.0, st.1, st.2, true)
        } else {
            let t = take_step((st.0, st.1, st.2), k - 1, amount);
            (t.0, t.1, t.2, false)
        }
    }
}

/// No sum of the claim overflows.
pub open spec fn claim_fits(q: Seq<Receipt>, amount: Option<nat>, block_time: u64) -> bool {
    forall|k: nat|
        k < q.len() ==> #[trigger] claim_scan(q, amount, block_time, k).1 + claim_scan(q, amount, block_time, k).0[k as int].aterra_qty@
            < pow256()
}

/// Claiming unlocked aterra, the earliest to unlock first and up to the
/// first receipt still locked: `amount` of it (all that is unlocked where
/// no amount is given). Receipts claimed whole go from the front; one
/// claimed in part keeps the rest. Returns the receipts left and the
/// aterra claimed, which must reach `amount`.
pub fn claim_unlocked_aterra(
    receipts: UserReceipts,
    block_time: u64,
    amount: Option<Uint256>,
) -> (r: Result<(UserReceipts, Uint256), VeAterraError>)
    requires
        claim_fits(receipts.0@, amount_view(amount), block_time),
    ensures
        ({
            let q = receipts.0@;
            let (s, claimed, to_pop, _) = claim_scan(q, amount_view(amount), block_time, q.len());
            &&& r is Err <==> (amount matches Some(a) && claimed < a@)
            &&& r matches Err(e) ==> e == VeAterraError::NotEnoughUnlocked(amount->0, Uint256::from_nat(claimed))
            &&& r matches Ok((rs, c)) ==> c@ == claimed && to_pop <= q.len() && rs.0@ == s.skip(to_pop as int)
        }),
{
    let ghost q = receipts.0@;
    let ghost amt = amount_view(amount);
    let n = receipts.0.len();
    let mut v = receipts_to_vec(&receipts.0);
    let mut claimed = Uint256::zero();
    let mut to_pop: usize = 0;
    let mut k: usize = 0;
    let mut stopped = false;
    while k < n
        invariant
            n == q.len(),
            amt == amount_view(amount),
            claim_fits(q, amt, block_time),
            k <= n,
            to_pop <= k,
            v@.len() == n,
            (v@, claimed@, to_pop as nat, stopped) == claim_scan(q, amt, block_time, k as nat),
            amount matches Some(a) ==> claimed@ <= a@,
            forall|j: int| k <= j < n ==> #[trigger] v@[j] == q[j],
        decreases n - k,
    {
        let ghost old_v = v@;
        let ghost old_c = claimed;
        let ghost old_tp = to_pop;
        let receipt = v[k];
        if stopped || receipt.unlock_time > block_time {
            stopped = true;
        } else {
            proof {
                let st = claim_scan(q, amt, block_time, k as nat);
                assert(st.1 + st.0[k as int].aterra_qty@ < pow256());
            }
            let (left, taken, whole) = take_from(receipt, claimed, amount);
            if whole {
                to_pop = to_pop + 1;
            } else {
                v.set(k, left);
            }
            claimed = taken;
            proof {
                lemma_take_step_local(old_v, old_c@, old_tp as nat, k as int, amt);
                assert(v@ =~= take_step((old_v, old_c@, old_tp as nat), k as int, amt).0);
            }
        }
        k = k + 1;
    }
    if let Some(a) = amount {
        if claimed < a {
            proof {
                crate::bignumber::uint256::lemma_view_from_nat(claimed);
            }
            return Err(VeAterraError::NotEnoughUnlocked(a, claimed));
        }
    }
    let out = receipts_range(&v, to_pop, n);
    assert(v@.subrange(to_pop as int, n as int) =~= v@.skip(to_pop as int));
    Ok((UserReceipts(out), claimed))
}

/// Claiming keeps the number and the unlock times of the receipts.
proof fn lemma_claim_scan_shape(q: Seq<Receipt>, amount: Option<nat>, block_time: u64, k: nat)
    requires
        k <= q.len(),
    ensures
        claim_scan(q, amount, block_time, k).0.len() == q.len(),
        forall|i: int| 0 <= i < q.len() ==> #[trigger] claim_scan(q, amount, block_time, k).0[i].unlock_time == q[i].unlock_time,
    decreases k,
{
    if k > 0 {
        lemma_claim_scan_shape(q, amount, block_time, (k - 1) as nat);
    }
}

/// What claiming keeps while it goes through the receipts: the receipts
/// not reached yet are as they were; where a receipt reached is still
/// there, the amount is reached or the claim stopped; and the aterra of
/// the receipts to stay plus that claimed is the aterra there was.
proof fn lemma_claim_scan_total(q: Seq<Receipt>, amount: Option<nat>, block_time: u64, k: nat)
    requires
        k <= q.len(),
        receipts_nonzero(q),
        claim_fits(q, amount, block_time),
    ensures
        ({
            let (s, c, tp, stopped) = claim_scan(q, amount, block_time, k);
            &&& tp <= k
            &&& s.len() == q.len()
            &&& forall|i: int| k <= i < q.len() ==> #[trigger] s[i] == q[i]
            &&& tp < k ==> ((amount is Some && c == amount->0) || stopped)
            &&& amount is Some ==> c <= amount->0
            &&& receipts_total(s.skip(tp as int)) + c == receipts_total(q)
        }),
    decreases k,
{
    let n = q.len();
    if k == 0 {
        assert(q.skip(0) =~= q);
    } else {
        let kk = (k - 1) as nat;
        lemma_claim_scan_total(q, amount, block_time, kk);
        let (s, c, tp, stopped) = claim_scan(q, amount, block_time, kk);
        let idx = kk as int;
        assert(s[idx] == q[idx]);
        if stopped || q[idx].unlock_time > block_time {
        } else {
            let qty = s[idx].aterra_qty@;
            assert(claim_scan(q, amount, block_time, kk).1 + claim_scan(q, amount, block_time, kk).0[kk as int].aterra_qty@ < pow256());
            if amount is Some && qty + c > amount->0 {
                let a = amount->0;
                let r2 = Receipt { aterra_qty: Uint256::from_nat((qty - (a - c)) as nat), ..s[idx] };
                crate::bignumber::uint256::lemma_from_nat_view((qty - (a - c)) as nat);
                let s2 = s.update(idx, r2);
                if tp == kk {
                    assert(s2.skip(tp as int) =~= s.skip(tp as int).update(0, r2));
                    lemma_total_update(s.skip(tp as int), 0, r2);
                    assert(s.skip(tp as int)[0] == s[idx]);
                } else {
                    crate::bignumber::uint256::lemma_view_from_nat(s[idx].aterra_qty);
                    assert(r2 == s[idx]);
                    assert(s2 =~= s);
                }
            } else {
                assert(tp == kk);
                let t = s.skip(tp as int);
                lemma_total_split(t, 1);
                assert(t.skip(1) =~= s.skip((tp + 1) as int));
                assert(t.take(1).drop_last() =~= Seq::<Receipt>::empty());
                assert(t.take(1).last() == s[idx]);
                assert(receipts_total(Seq::<Receipt>::empty()) == 0);
                assert(t.take(1).len() == 1);
                assert(receipts_total(t.take(1)) == receipts_total(t.take(1).drop_last()) + t.take(1).last().aterra_qty@);
            }
        }
    }
}

/// Claiming takes from the receipts exactly the aterra it pays out, and
/// keeps them in ascending unlock order: what the receipts left hold, plus
/// the aterra claimed, is what they held (where every receipt holds some
/// aterra).
pub proof fn lemma_claim_conserves(q: Seq<Receipt>, amount: Option<nat>, block_time: u64)
    requires
        receipts_nonzero(q),
        claim_fits(q, amount, block_time),
    ensures
        ({
            let (s, claimed, to_pop, _) = claim_scan(q, amount, block_time, q.len());
            &&& receipts_total(s.skip(to_pop as int)) + claimed == receipts_total(q)
            &&& receipts_ascending(q) ==> receipts_ascending(s.skip(to_pop as int))
        }),
{
    lemma_claim_scan_total(q, amount, block_time, q.len());
    lemma_claim_scan_shape(q, amount, block_time, q.len());
    let (s, claimed, to_pop, _) = claim_scan(q, amount, block_time, q.len());
    let t = s.skip(to_pop as int);
    if receipts_ascending(q) {
        assert forall|i: int, j: int| 0 <= i <= j < t.len() implies #[trigger] t[i].unlock_time <= #[trigger] t[j].unlock_time by {
            assert(t[i] == s[i + to_pop] && t[j] == s[j + to_pop]);
            assert(s[i + to_pop].unlock_time == q[i + to_pop].unlock_time);
            assert(s[j + to_pop].unlock_time == q[j + to_pop].unlock_time);
        }
    }
}

} // verus!
