//! Bonding aterra for vterra, unbonding it into receipts, rebonding the
//! receipts, and claiming them once unlocked.

use vstd::prelude::*;

use std::collections::VecDeque;

use crate::bignumber::backend::pow256;
use crate::bignumber::decimal256::{ddiv, df, dmul};
use crate::bignumber::uint256::group_uint256;
use crate::bignumber::{Decimal256, Uint256};
use super::rate::{compute_ve_exchange_rate, ve_exchange_rate, ve_exchange_rate_fits};
use super::state::{
    lemma_total_split, lemma_total_update, receipts_ascending, receipts_total, Receipt, State,
    UserReceipts, VterraError,
};

verus! {

/// The time unbonded aterra stays locked: 30 days, in seconds.
pub const UNBOND_DURATION_SECS: u64 = 2592000;

/// The exchange rate of the state at `block_height`.
pub open spec fn state_exchange_rate(s: State, block_height: u64) -> nat {
    ve_exchange_rate(s.prev_epoch_vterra_exchange_rate@, s.premium_rate@, s.last_updated, block_height)
}

pub open spec fn state_exchange_rate_fits(s: State, block_height: u64) -> bool {
    ve_exchange_rate_fits(s.prev_epoch_vterra_exchange_rate@, s.premium_rate@, s.last_updated, block_height)
}

/// Bonding `bond_amount` aterra mints vterra at the exchange rate.
/// Returns the new state, the vterra minted and the exchange rate.
pub fn bond(state: State, block_height: u64, bond_amount: Uint256) -> (r: (State, Uint256, Decimal256))
    requires
        state_exchange_rate_fits(state, block_height),
        state_exchange_rate(state, block_height) != 0,
        bond_amount@ * df() < pow256(),
        state.vterra_supply@ + ddiv(bond_amount@, state_exchange_rate(state, block_height)) < pow256(),
    ensures
        ({
            let er = state_exchange_rate(state, block_height);
            &&& r.2@ == er
            &&& r.1@ == ddiv(bond_amount@, er)
            &&& r.0 == (State { vterra_supply: Uint256::from_nat(state.vterra_supply@ + r.1@), ..state })
        }),
{
    proof {
        broadcast use group_uint256;
    }
    let exchange_rate = compute_ve_exchange_rate(
        state.prev_epoch_vterra_exchange_rate,
        state.premium_rate,
        state.last_updated,
        block_height,
    );
    let vterra_amount = bond_amount / exchange_rate;
    let mut state = state;
    state.vterra_supply = state.vterra_supply + vterra_amount;
    (state, vterra_amount, exchange_rate)
}

/// The time `secs` seconds after `time` (in nanoseconds).
pub open spec fn plus_seconds(time: u64, secs: u64) -> int {
    time + secs * 1_000_000_000
}

/// Unbonding `unbond_amount` vterra mints aterra at the exchange rate; it is
/// held as a receipt that unlocks 30 days after `block_time`. Returns the
/// new state, the aterra minted and the exchange rate.
pub fn unbond(
    state: State,
    receipts: &mut UserReceipts,
    block_height: u64,
    block_time: u64,
    unbond_amount: Uint256,
) -> (r: (State, Uint256, Decimal256))
    requires
        unbond_amount@ <= state.vterra_supply@,
        state_exchange_rate_fits(state, block_height),
        unbond_amount@ * state_exchange_rate(state, block_height) < pow256(),
        plus_seconds(block_time, UNBOND_DURATION_SECS) <= u64::MAX,
    ensures
        ({
            let er = state_exchange_rate(state, block_height);
            &&& r.2@ == er
            &&& r.1@ == dmul(unbond_amount@, er)
            &&& r.0 == (State {
                vterra_supply: Uint256::from_nat((state.vterra_supply@ - unbond_amount@) as nat),
                ..state
            })
            &&& final(receipts).0@ == old(receipts).0@.push(Receipt {
                aterra_qty: r.1,
                unlock_time: plus_seconds(block_time, UNBOND_DURATION_SECS) as u64,
            })
        }),
{
    proof {
        broadcast use group_uint256;
    }
    let mut state = state;
    state.vterra_supply = state.vterra_supply - unbond_amount;
    let exchange_rate = compute_ve_exchange_rate(
        state.prev_epoch_vterra_exchange_rate,
        state.premium_rate,
        state.last_updated,
        block_height,
    );
    let aterra_mint_amount = unbond_amount * exchange_rate;
    let unlock_time = block_time + UNBOND_DURATION_SECS * 1_000_000_000;
    receipts.0.push_back(Receipt { aterra_qty: aterra_mint_amount, unlock_time });
    (state, aterra_mint_amount, exchange_rate)
}

/// An optional amount, by its value.
pub open spec fn amount_view(amount: Option<Uint256>) -> Option<nat> {
    match amount {
        Some(a) => Some(a@),
        None => None,
    }
}

/// Takes what is still wanted from a receipt: where the receipt holds more
/// than the `amount` still wanted (`taken` so far), it keeps the rest and
/// `taken` becomes `amount`; else all of it is taken and it is to go.
/// The state is the receipts, the aterra taken, and the number of
/// receipts to go.
pub open spec fn take_step(st: (Seq<Receipt>, nat, nat), idx: int, amount: Option<nat>) -> (Seq<Receipt>, nat, nat) {
    let s = st.0;
    let taken = st.1;
    let qty = s[idx].aterra_qty@;
    if amount is Some && qty + taken > amount->0 {
        let a = amount->0;
        (
            s.update(idx, Receipt { aterra_qty: Uint256::from_nat((qty - (a - taken)) as nat), ..s[idx] }),
            a,
            st.2,
        )
    } else {
        (s, taken + qty, st.2 + 1)
    }
}

/// The receipts as a vector.
pub(crate) fn receipts_to_vec(q: &VecDeque<Receipt>) -> (v: Vec<Receipt>)
    ensures
        v@ == q@,
{
    let n = q.len();
    let mut v: Vec<Receipt> = Vec::new();
    let mut i: usize = 0;
    while i < n
        invariant
            n == q@.len(),
            i <= n,
            v@ == q@.take(i as int),
        decreases n - i,
    {
        v.push(q[i]);
        assert(q@.take(i + 1) =~= q@.take(i as int).push(q@[i as int]));
        i = i + 1;
    }
    assert(q@.take(n as int) =~= q@);
    v
}

/// The receipts at positions `[from, to)`, in order.
pub(crate) fn receipts_range(v: &Vec<Receipt>, from: usize, to: usize) -> (r: VecDeque<Receipt>)
    requires
        from <= to <= v@.len(),
    ensures
        r@ == v@.subrange(from as int, to as int),
{
    let mut out: VecDeque<Receipt> = VecDeque::new();
    let mut j: usize = from;
    while j < to
        invariant
            from <= j <= to,
            to <= v@.len(),
            out@ == v@.subrange(from as int, j as int),
        decreases to - j,
    {
        out.push_back(v[j]);
        assert(v@.subrange(from as int, j + 1) =~= v@.subrange(from as int, j as int).push(v@[j as int]));
        j = j + 1;
    }
    out
}

/// One step of taking from a receipt, with `taken` so far.
pub(crate) fn take_from(receipt: Receipt, taken: Uint256, amount: Option<Uint256>) -> (r: (Receipt, Uint256, bool))
    requires
        receipt.aterra_qty@ + taken@ < pow256(),
        amount matches Some(a) ==> taken@ <= a@,
    ensures
        ({
            let st = take_step((seq![receipt], taken@, 0), 0, amount_view(amount));
            &&& r.1@ == st.1
            &&& r.2 == (st.2 == 1)
            &&& !r.2 ==> st.0 == seq![r.0]
            &&& amount matches Some(a) ==> r.1@ <= a@
        }),
{
    proof {
        broadcast use group_uint256;
    }
    let partial = match amount {
        Some(a) => receipt.aterra_qty + taken > a,
        None => false,
    };
    if partial {
        let a = amount.unwrap();
        let left = Receipt { aterra_qty: receipt.aterra_qty - (a - taken), ..receipt };
        proof {
            assert(seq![receipt].update(0, left) =~= seq![left]);
        }
        (left, a, false)
    } else {
        (receipt, taken + receipt.aterra_qty, true)
    }
}

/// A step on one receipt of a list is the step on that receipt alone.
pub(crate) proof fn lemma_take_step_local(s: Seq<Receipt>, taken: nat, to_pop: nat, idx: int, amount: Option<nat>)
    requires
        0 <= idx < s.len(),
    ensures
        ({
            let single = take_step((seq![s[idx]], taken, 0), 0, amount);
            let full = take_step((s, taken, to_pop), idx, amount);
            &&& full.1 == single.1
            &&& full.2 == to_pop + single.2
            &&& single.2 <= 1
            &&& full.0 == s.update(idx, single.0[0])
            &&& single.2 == 1 ==> single.0[0] == s[idx]
        }),
{
    let single = take_step((seq![s[idx]], taken, 0), 0, amount);
    let full = take_step((s, taken, to_pop), idx, amount);
    if single.2 == 1 {
        assert(s.update(idx, s[idx]) =~= s);
    } else {
        assert(full.0 =~= s.update(idx, single.0[0]));
    }
}

/// Rebonding goes through the receipts from the last (latest unlock) to
/// the first; this is its state after `k` of them.
pub open spec fn rebond_scan(q: Seq<Receipt>, amount: Option<nat>, k: nat) -> (Seq<Receipt>, nat, nat)
    decreases k,
{
    if k == 0 {
        (q, 0, 0)
    } else {
        take_step(rebond_scan(q, amount, (k - 1) as nat), q.len() - k, amount)
    }
}

/// No sum of the rebonding overflows.
pub open spec fn rebond_fits(q: Seq<Receipt>, amount: Option<nat>) -> bool {
    forall|k: nat|
        k < q.len() ==> #[trigger] rebond_scan(q, amount, k).1 + rebond_scan(q, amount, k).0[q.len() - 1
            - k].aterra_qty@ < pow256()
}

/// Rebonding receipts, the latest to unlock first: `amount` of aterra (all
/// of it where no amount is given). Receipts taken whole go; one taken in
/// part keeps the rest. Returns the receipts left and the aterra taken,
/// which must reach `amount`.
pub fn rebond_receipts(receipts: UserReceipts, amount: Option<Uint256>) -> (r: Result<(UserReceipts, Uint256), VterraError>)
    requires
        rebond_fits(receipts.0@, amount_view(amount)),
    ensures
        ({
            let q = receipts.0@;
            let (s, rebonded, to_pop) = rebond_scan(q, amount_view(amount), q.len());
            &&& r is Err <==> (amount matches Some(a) && rebonded < a@)
            &&& r matches Err(e) ==> e == VterraError::NotEnoughAterraReceipts(amount->0, Uint256::from_nat(rebonded))
            &&& r matches Ok((rs, rb)) ==> rb@ == rebonded && to_pop <= q.len() && rs.0@ == s.take(q.len() - to_pop)
        }),
{
    proof {
        broadcast use group_uint256;
    }
    let ghost q = receipts.0@;
    let ghost amt = amount_view(amount);
    let n = receipts.0.len();
    let mut v = receipts_to_vec(&receipts.0);
    let mut rebonded = Uint256::zero();
    let mut to_pop: usize = 0;
    let mut k: usize = 0;
    while k < n
        invariant
            n == q.len(),
            amt == amount_view(amount),
            rebond_fits(q, amt),
            k <= n,
            to_pop <= k,
            v@.len() == n,
            (v@, rebonded@, to_pop as nat) == rebond_scan(q, amt, k as nat),
            amount matches Some(a) ==> rebonded@ <= a@,
        decreases n - k,
    {
        let ghost old_v = v@;
        let ghost old_rb = rebonded;
        let ghost old_tp = to_pop;
        let idx = n - 1 - k;
        let receipt = v[idx];
        proof {
            let st = rebond_scan(q, amt, k as nat);
            assert(st.1 + st.0[q.len() - 1 - k].aterra_qty@ < pow256());
        }
        let (left, taken, whole) = take_from(receipt, rebonded, amount);
        if whole {
            to_pop = to_pop + 1;
        } else {
            v.set(idx, left);
        }
        rebonded = taken;
        proof {
            lemma_take_step_local(old_v, old_rb@, old_tp as nat, idx as int, amt);
            assert(v@ =~= take_step((old_v, old_rb@, old_tp as nat), idx as int, amt).0);
        }
        k = k + 1;
    }
    if let Some(a) = amount {
        if rebonded < a {
            return Err(VterraError::NotEnoughAterraReceipts(a, rebonded));
        }
    }
    let out = receipts_range(&v, 0, n - to_pop);
    assert(v@.subrange(0, n - to_pop) =~= v@.take(n - to_pop));
    Ok((UserReceipts(out), rebonded))
}

/// Claiming goes through the receipts from the first (earliest unlock) to
/// the last, passing over those still locked at `block_time`; this is its
/// state after `k` of them.
pub open spec fn claim_scan(q: Seq<Receipt>, amount: Option<nat>, block_time: u64, k: nat) -> (Seq<Receipt>, nat, nat)
    decreases k,
{
    if k == 0 {
        (q, 0, 0)
    } else {
        let st = claim_scan(q, amount, block_time, (k - 1) as nat);
        if st.0[k - 1].unlock_time > block_time {
            st
        } else {
            take_step(st, k - 1, amount)
        }
    }
}

/// No sum of the claim overflows.
pub open spec fn claim_fits(q: Seq<Receipt>, amount: Option<nat>, block_time: u64) -> bool {
    forall|k: nat|
        k < q.len() ==> #[trigger] claim_scan(q, amount, block_time, k).1 + claim_scan(q, amount, block_time, k).0[k as int].aterra_qty@
            < pow256()
}

/// Claiming unlocked aterra, the earliest to unlock first: `amount` of it
/// (all that is unlocked where no amount is given). Receipts claimed whole
/// go from the front; one claimed in part keeps the rest. Returns the
/// receipts left and the aterra claimed, which must reach `amount`.
pub fn claim_unlocked_aterra(
    receipts: UserReceipts,
    block_time: u64,
    amount: Option<Uint256>,
) -> (r: Result<(UserReceipts, Uint256), VterraError>)
    requires
        claim_fits(receipts.0@, amount_view(amount), block_time),
    ensures
        ({
            let q = receipts.0@;
            let (s, claimed, to_pop) = claim_scan(q, amount_view(amount), block_time, q.len());
            &&& r is Err <==> (amount matches Some(a) && claimed < a@)
            &&& r matches Err(e) ==> e == VterraError::NotEnoughUnlocked(amount->0, Uint256::from_nat(claimed))
            &&& r matches Ok((rs, c)) ==> c@ == claimed && to_pop <= q.len() && rs.0@ == s.skip(to_pop as int)
        }),
{
    let ghost q = receipts.0@;
    let ghost amt = amount_view(amount);
    let n = receipts.0.len();
    let mut v = receipts_to_vec(&receipts.0);
    let mut claimed = Uint256::zero();
    let mut to_pop: usize = 0;
    let mut k: usize = 0;
    while k < n
        invariant
            n == q.len(),
            amt == amount_view(amount),
            claim_fits(q, amt, block_time),
            k <= n,
            to_pop <= k,
            v@.len() == n,
            (v@, claimed@, to_pop as nat) == claim_scan(q, amt, block_time, k as nat),
            amount matches Some(a) ==> claimed@ <= a@,
        decreases n - k,
    {
        let ghost old_v = v@;
        let ghost old_c = claimed;
        let ghost old_tp = to_pop;
        let receipt = v[k];
        if receipt.unlock_time <= block_time {
            proof {
                let st = claim_scan(q, amt, block_time, k as nat);
                assert(st.1 + st.0[k as int].aterra_qty@ < pow256());
            }
            let (left, taken, whole) = take_from(receipt, claimed, amount);
            if whole {
                to_pop = to_pop + 1;
            } else {
                v.set(k, left);
            }
            claimed = taken;
            proof {
                lemma_take_step_local(old_v, old_c@, old_tp as nat, k as int, amt);
                assert(v@ =~= take_step((old_v, old_c@, old_tp as nat), k as int, amt).0);
            }
        }
        k = k + 1;
    }
    if let Some(a) = amount {
        if claimed < a {
            proof {
                crate::bignumber::uint256::lemma_view_from_nat(claimed);
            }
            return Err(VterraError::NotEnoughUnlocked(a, claimed));
        }
    }
    let out = receipts_range(&v, to_pop, n);
    assert(v@.subrange(to_pop as int, n as int) =~= v@.skip(to_pop as int));
    Ok((UserReceipts(out), claimed))
}

/// Rebonding receipts (see `rebond_receipts`) bonds the aterra taken from
/// them again at the exchange rate. Returns the new state, the receipts
/// left, the aterra rebonded, the vterra minted and the exchange rate.
pub fn rebond(
    state: State,
    receipts: UserReceipts,
    block_height: u64,
    amount: Option<Uint256>,
) -> (r: Result<(State, UserReceipts, Uint256, Uint256, Decimal256), VterraError>)
    requires
        rebond_fits(receipts.0@, amount_view(amount)),
        ({
            let rebonded = rebond_scan(receipts.0@, amount_view(amount), receipts.0@.len()).1;
            &&& state_exchange_rate_fits(state, block_height)
            &&& state_exchange_rate(state, block_height) != 0
            &&& rebonded * df() < pow256()
            &&& state.vterra_supply@ + ddiv(rebonded, state_exchange_rate(state, block_height)) < pow256()
        }),
    ensures
        ({
            let q = receipts.0@;
            let (s, rebonded, to_pop) = rebond_scan(q, amount_view(amount), q.len());
            let er = state_exchange_rate(state, block_height);
            &&& r is Err <==> (amount matches Some(a) && rebonded < a@)
            &&& r matches Err(e) ==> e == VterraError::NotEnoughAterraReceipts(amount->0, Uint256::from_nat(rebonded))
            &&& r matches Ok((st, rs, rb, minted, rate)) ==> {
                &&& rb@ == rebonded
                &&& to_pop <= q.len()
                &&& rs.0@ == s.take(q.len() - to_pop)
                &&& rate@ == er
                &&& minted@ == ddiv(rebonded, er)
                &&& st == (State { vterra_supply: Uint256::from_nat(state.vterra_supply@ + minted@), ..state })
            }
        }),
{
    let (receipts, rebonded) = match rebond_receipts(receipts, amount) {
        Ok(x) => x,
        Err(e) => {
            return Err(e);
        },
    };
    let (state, minted, exchange_rate) = bond(state, block_height, rebonded);
    Ok((state, receipts, rebonded, minted, exchange_rate))
}

/// A step takes only from the amount of the receipt: the receipts keep
/// their number and unlock times.
proof fn lemma_take_step_shape(st: (Seq<Receipt>, nat, nat), idx: int, amount: Option<nat>)
    requires
        0 <= idx < st.0.len(),
    ensures
        take_step(st, idx, amount).0.len() == st.0.len(),
        forall|i: int| 0 <= i < st.0.len() ==> #[trigger] take_step(st, idx, amount).0[i].unlock_time == st.0[i].unlock_time,
        take_step(st, idx, amount).2 <= st.2 + 1,
{
}

/// Rebonding keeps the number and the unlock times of the receipts, and
/// drops at most the receipts it went through.
proof fn lemma_rebond_scan_shape(q: Seq<Receipt>, amount: Option<nat>, k: nat)
    requires
        k <= q.len(),
    ensures
        rebond_scan(q, amount, k).0.len() == q.len(),
        forall|i: int| 0 <= i < q.len() ==> #[trigger] rebond_scan(q, amount, k).0[i].unlock_time == q[i].unlock_time,
        rebond_scan(q, amount, k).2 <= k,
    decreases k,
{
    if k > 0 {
        lemma_rebond_scan_shape(q, amount, (k - 1) as nat);
        lemma_take_step_shape(rebond_scan(q, amount, (k - 1) as nat), q.len() - k, amount);
    }
}

/// Claiming keeps the number and the unlock times of the receipts, and
/// drops at most the receipts it went through.
proof fn lemma_claim_scan_shape(q: Seq<Receipt>, amount: Option<nat>, block_time: u64, k: nat)
    requires
        k <= q.len(),
    ensures
        claim_scan(q, amount, block_time, k).0.len() == q.len(),
        forall|i: int| 0 <= i < q.len() ==> #[trigger] claim_scan(q, amount, block_time, k).0[i].unlock_time == q[i].unlock_time,
        claim_scan(q, amount, block_time, k).2 <= k,
    decreases k,
{
    if k > 0 {
        lemma_claim_scan_shape(q, amount, block_time, (k - 1) as nat);
        let st = claim_scan(q, amount, block_time, (k - 1) as nat);
        if st.0[k - 1].unlock_time <= block_time {
            lemma_take_step_shape(st, k - 1, amount);
        }
    }
}

/// Receipts in ascending unlock order stay so when rebonded: those left
/// are the first ones, with their unlock times.
pub proof fn lemma_rebond_keeps_order(q: Seq<Receipt>, amount: Option<nat>)
    requires
        receipts_ascending(q),
    ensures
        ({
            let (s, _, to_pop) = rebond_scan(q, amount, q.len());
            &&& to_pop <= q.len()
            &&& receipts_ascending(s.take(q.len() - to_pop))
        }),
{
    lemma_rebond_scan_shape(q, amount, q.len());
    let (s, _, to_pop) = rebond_scan(q, amount, q.len());
    let t = s.take(q.len() - to_pop);
    assert forall|i: int, j: int| 0 <= i <= j < t.len() implies #[trigger] t[i].unlock_time <= #[trigger] t[j].unlock_time by {
        assert(t[i].unlock_time == q[i].unlock_time && t[j].unlock_time == q[j].unlock_time);
    }
}

/// Receipts in ascending unlock order stay so when claimed: those left are
/// the last ones, with their unlock times.
pub proof fn lemma_claim_keeps_order(q: Seq<Receipt>, amount: Option<nat>, block_time: u64)
    requires
        receipts_ascending(q),
    ensures
        ({
            let (s, _, to_pop) = claim_scan(q, amount, block_time, q.len());
            &&& to_pop <= q.len()
            &&& receipts_ascending(s.skip(to_pop as int))
        }),
{
    lemma_claim_scan_shape(q, amount, block_time, q.len());
    let (s, _, to_pop) = claim_scan(q, amount, block_time, q.len());
    let t = s.skip(to_pop as int);
    assert forall|i: int, j: int| 0 <= i <= j < t.len() implies #[trigger] t[i].unlock_time <= #[trigger] t[j].unlock_time by {
        assert(t[i] == s[i + to_pop] && t[j] == s[j + to_pop]);
        assert(s[i + to_pop].unlock_time == q[i + to_pop].unlock_time);
        assert(s[j + to_pop].unlock_time == q[j + to_pop].unlock_time);
    }
}

/// Unbonding keeps the receipts in ascending unlock order when the new
/// receipt does not unlock before the last one.
pub proof fn lemma_unbond_keeps_order(q: Seq<Receipt>, receipt: Receipt)
    requires
        receipts_ascending(q),
        q.len() > 0 ==> q.last().unlock_time <= receipt.unlock_time,
    ensures
        receipts_ascending(q.push(receipt)),
{
    let t = q.push(receipt);
    assert forall|i: int, j: int| 0 <= i <= j < t.len() implies #[trigger] t[i].unlock_time <= #[trigger] t[j].unlock_time by {
        if j == q.len() && i < q.len() {
            assert(q[i].unlock_time <= q[q.len() - 1].unlock_time);
        }
    }
}

/// Every receipt holds some aterra.
pub open spec fn receipts_nonzero(q: Seq<Receipt>) -> bool {
    forall|i: int| 0 <= i < q.len() ==> #[trigger] q[i].aterra_qty@ > 0
}

/// What rebonding keeps while it goes through the receipts: the receipts
/// not reached yet are as they were, once a receipt was taken in part the
/// amount is reached, and the aterra of the receipts to stay plus that
/// taken is the aterra there was.
proof fn lemma_rebond_scan_total(q: Seq<Receipt>, amount: Option<nat>, k: nat)
    requires
        k <= q.len(),
        receipts_nonzero(q),
        forall|i: nat| i < k ==> #[trigger] rebond_scan(q, amount, i).1 + rebond_scan(q, amount, i).0[q.len() - 1 - i].aterra_qty@ < pow256(),
    ensures
        ({
            let (s, rb, tp) = rebond_scan(q, amount, k);
            &&& tp <= k
            &&& s.len() == q.len()
            &&& forall|i: int| 0 <= i < q.len() - k ==> #[trigger] s[i] == q[i]
            &&& tp < k ==> (amount is Some && rb == amount->0)
            &&& amount is Some ==> rb <= amount->0
            &&& receipts_total(s.take(q.len() - tp)) + rb == receipts_total(q)
        }),
    decreases k,
{
    let n = q.len();
    if k == 0 {
        assert(q.take(n as int) =~= q);
    } else {
        let kk = (k - 1) as nat;
        lemma_rebond_scan_total(q, amount, kk);
        let (s, rb, tp) = rebond_scan(q, amount, kk);
        let idx = n - k;
        assert(s[idx] == q[idx]);
        let qty = s[idx].aterra_qty@;
        assert(rb + qty < pow256());
        if amount is Some && qty + rb > amount->0 {
            let a = amount->0;
            let r2 = Receipt { aterra_qty: Uint256::from_nat((qty - (a - rb)) as nat), ..s[idx] };
            crate::bignumber::uint256::lemma_from_nat_view((qty - (a - rb)) as nat);
            let s2 = s.update(idx, r2);
            if tp == kk {
                assert(s2.take(n - tp) =~= s.take(n - tp).update(idx, r2));
                lemma_total_update(s.take(n - tp), idx, r2);
            } else {
                crate::bignumber::uint256::lemma_view_from_nat(s[idx].aterra_qty);
                assert(r2 == s[idx]);
                assert(s2 =~= s);
            }
        } else {
            assert(tp == kk);
            assert(s.take(n - tp).drop_last() =~= s.take(n - tp - 1));
        }
    }
}

/// Rebonding takes from the receipts exactly the aterra it rebonds: what
/// the receipts left hold, plus the aterra rebonded, is what they held
/// (where every receipt holds some aterra).
pub proof fn lemma_rebond_conserves(q: Seq<Receipt>, amount: Option<nat>)
    requires
        receipts_nonzero(q),
        rebond_fits(q, amount),
    ensures
        ({
            let (s, rebonded, to_pop) = rebond_scan(q, amount, q.len());
            receipts_total(s.take(q.len() - to_pop)) + rebonded == receipts_total(q)
        }),
{
    assert forall|i: nat| i < q.len() implies #[trigger] rebond_scan(q, amount, i).1 + rebond_scan(q, amount, i).0[q.len() - 1 - i].aterra_qty@ < pow256() by {
        assert(rebond_fits(q, amount));
    }
    lemma_rebond_scan_total(q, amount, q.len());
}

/// What claiming keeps while it goes through the receipts (in ascending
/// unlock order): the receipts not reached yet are as they were; where a
/// receipt reached is still there, the amount is reached or the last
/// receipt reached is locked; and the aterra of the receipts to stay plus
/// that claimed is the aterra there was.
#[verifier::rlimit(40)]
proof fn lemma_claim_scan_total(q: Seq<Receipt>, amount: Option<nat>, block_time: u64, k: nat)
    requires
        k <= q.len(),
        receipts_nonzero(q),
        receipts_ascending(q),
        claim_fits(q, amount, block_time),
    ensures
        ({
            let (s, c, tp) = claim_scan(q, amount, block_time, k);
            &&& tp <= k
            &&& s.len() == q.len()
            &&& forall|i: int| k <= i < q.len() ==> #[trigger] s[i] == q[i]
            &&& tp < k ==> ((amount is Some && c == amount->0) || q[k - 1].unlock_time > block_time)
            &&& amount is Some ==> c <= amount->0
            &&& receipts_total(s.skip(tp as int)) + c == receipts_total(q)
        }),
    decreases k,
{
    let n = q.len();
    if k == 0 {
        assert(q.skip(0) =~= q);
    } else {
        let kk = (k - 1) as nat;
        lemma_claim_scan_total(q, amount, block_time, kk);
        let (s, c, tp) = claim_scan(q, amount, block_time, kk);
        let idx = kk as int;
        assert(s[idx] == q[idx]);
        if s[idx].unlock_time > block_time {
        } else {
            let qty = s[idx].aterra_qty@;
            assert(claim_scan(q, amount, block_time, kk).1 + claim_scan(q, amount, block_time, kk).0[kk as int].aterra_qty@ < pow256());
            if tp < kk && !(amount is Some && c == amount->0) {
                assert(q[kk - 1].unlock_time <= q[idx].unlock_time);
            }
            if amount is Some && qty + c > amount->0 {
                let a = amount->0;
                let r2 = Receipt { aterra_qty: Uint256::from_nat((qty - (a - c)) as nat), ..s[idx] };
                crate::bignumber::uint256::lemma_from_nat_view((qty - (a - c)) as nat);
                let s2 = s.update(idx, r2);
                if tp == kk {
                    assert(s2.skip(tp as int) =~= s.skip(tp as int).update(0, r2));
                    lemma_total_update(s.skip(tp as int), 0, r2);
                    assert(s.skip(tp as int)[0] == s[idx]);
                } else {
                    crate::bignumber::uint256::lemma_view_from_nat(s[idx].aterra_qty);
                    assert(r2 == s[idx]);
                    assert(s2 =~= s);
                }
            } else {
                assert(tp == kk);
                let t = s.skip(tp as int);
                lemma_total_split(t, 1);
                assert(t.skip(1) =~= s.skip((tp + 1) as int));
                assert(t.take(1).drop_last() =~= Seq::<Receipt>::empty());
                assert(t.take(1).last() == s[idx]);
                assert(receipts_total(Seq::<Receipt>::empty()) == 0);
                assert(t.take(1).len() == 1);
                assert(receipts_total(t.take(1)) == receipts_total(t.take(1).drop_last()) + t.take(1).last().aterra_qty@);
                assert(receipts_total(t.take(1)) == qty);
                let (s3, c3, tp3) = claim_scan(q, amount, block_time, k);
                assert(s3 == s && c3 == c + qty && tp3 == tp + 1);
            }
        }
    }
}

/// Claiming takes from the receipts exactly the aterra it pays out: what
/// the receipts left hold, plus the aterra claimed, is what they held
/// (where the receipts are in ascending unlock order and every one holds
/// some aterra).
pub proof fn lemma_claim_conserves(q: Seq<Receipt>, amount: Option<nat>, block_time: u64)
    requires
        receipts_nonzero(q),
        receipts_ascending(q),
        claim_fits(q, amount, block_time),
    ensures
        ({
            let (s, claimed, to_pop) = claim_scan(q, amount, block_time, q.len());
            receipts_total(s.skip(to_pop as int)) + claimed == receipts_total(q)
        }),
{
    lemma_claim_scan_total(q, amount, block_time, q.len());
}

/// The aterra held by those of the first `k` receipts that are unlocked at
/// `block_time`.
pub open spec fn unlocked_total(q: Seq<Receipt>, block_time: u64, k: nat) -> nat
    decreases k,
{
    if k == 0 {
        0
    } else {
        unlocked_total(q, block_time, (k - 1) as nat) + if q[k - 1].unlock_time <= block_time {
            q[k - 1].aterra_qty@
        } else {
            0
        }
    }
}

/// What claiming has paid after `k` receipts: all that is unlocked among
/// them, up to the amount asked; receipts still locked are as they were and
/// are not among those to go.
proof fn lemma_claim_scan_pays(q: Seq<Receipt>, amount: Option<nat>, block_time: u64, k: nat)
    requires
        k <= q.len(),
        receipts_nonzero(q),
        receipts_ascending(q),
        claim_fits(q, amount, block_time),
    ensures
        ({
            let (s, c, tp) = claim_scan(q, amount, block_time, k);
            let u = unlocked_total(q, block_time, k);
            &&& amount is None ==> c == u
            &&& amount matches Some(a) ==> c == (if a <= u { a } else { u })
            &&& forall|i: int| #![trigger q[i]] 0 <= i < k && q[i].unlock_time > block_time ==> tp <= i && s[i] == q[i]
        }),
    decreases k,
{
    if k > 0 {
        let kk = (k - 1) as nat;
        lemma_claim_scan_pays(q, amount, block_time, kk);
        lemma_claim_scan_total(q, amount, block_time, kk);
        let (s, c, tp) = claim_scan(q, amount, block_time, kk);
        let (s2, c2, tp2) = claim_scan(q, amount, block_time, k);
        let idx = kk as int;
        let u0 = unlocked_total(q, block_time, kk);
        assert(s[idx] == q[idx]);
        if q[idx].unlock_time > block_time {
            assert(s2 == s && c2 == c && tp2 == tp);
            assert(unlocked_total(q, block_time, k) == u0);
            assert forall|i: int| 0 <= i < k && #[trigger] q[i].unlock_time > block_time implies tp2 <= i && s2[i] == q[i] by {
                if i < kk {
                    assert(s[i] == q[i]);
                }
            }
        } else {
            let qty = q[idx].aterra_qty@;
            assert(unlocked_total(q, block_time, k) == u0 + qty);
            assert((s2, c2, tp2) == take_step((s, c, tp), idx, amount));
            assert(qty > 0);
            assert forall|i: int| 0 <= i < k && #[trigger] q[i].unlock_time > block_time implies tp2 <= i && s2[i] == q[i] by {
                assert(q[i].unlock_time <= q[idx].unlock_time);
            }
        }
    }
}

/// Claiming pays what is asked where that much is unlocked, and all that is
/// unlocked where no amount is asked; where more is asked than is unlocked,
/// what it reaches is all that is unlocked, so `claim_unlocked_aterra`
/// fails with `NotEnoughUnlocked(asked, unlocked)`. Receipts still locked
/// stay as they were and are kept. (For receipts in ascending unlock order,
/// each holding some aterra.)
pub proof fn lemma_claim_pays_unlocked(q: Seq<Receipt>, amount: Option<nat>, block_time: u64)
    requires
        receipts_nonzero(q),
        receipts_ascending(q),
        claim_fits(q, amount, block_time),
    ensures
        ({
            let (s, claimed, to_pop) = claim_scan(q, amount, block_time, q.len());
            let u = unlocked_total(q, block_time, q.len());
            &&& amount is None ==> claimed == u
            &&& amount matches Some(a) ==> (claimed < a <==> u < a)
            &&& amount matches Some(a) ==> claimed == (if a <= u { a } else { u })
            &&& forall|i: int| #![trigger q[i]] 0 <= i < q.len() && q[i].unlock_time > block_time ==> to_pop <= i && s[i] == q[i]
        }),
{
    lemma_claim_scan_pays(q, amount, block_time, q.len());
}

/// Rounding never favours the staker: unbonding the vterra that bonding
/// `amount` aterra minted, at the same exchange rate, gives back at most
/// `amount`.
pub proof fn lemma_unbond_after_bond(amount: nat, er: nat)
    requires
        er > 0,
    ensures
        dmul(ddiv(amount, er), er) <= amount,
{
    crate::market::deposit::lemma_redeem_after_deposit(amount, er);
}

} // verus!
