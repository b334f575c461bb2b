//! The vterra configuration and state, and the unbonding receipts.

use vstd::prelude::*;

use std::collections::VecDeque;

use crate::bignumber::{Decimal256, Uint256};

verus! {

/// The vterra configuration; addresses are canonical address bytes.
#[derive(Clone, Debug, PartialEq, Eq)]
pub struct Config {
    pub contract_addr: Vec<u8>,
    pub owner_addr: Vec<u8>,
    pub market_addr: Vec<u8>,
    pub overseer_addr: Vec<u8>,
    /// The aterra token.
    pub aterra_contract: Vec<u8>,
    /// The vterra token.
    pub vterra_contract: Vec<u8>,
    /// The most the premium rate can rise in an epoch.
    pub max_pos_change: Decimal256,
    /// The most the premium rate can fall in an epoch.
    pub max_neg_change: Decimal256,
    /// The highest premium rate.
    pub max_rate: Decimal256,
    /// The lowest premium rate.
    pub min_rate: Decimal256,
    /// What the gap between the target and the current share of deposits in
    /// vterra is multiplied by.
    pub diff_multiplier: Decimal256,
    /// The number of blocks between premium rate updates.
    pub premium_rate_epoch: u64,
}

#[derive(Clone, Copy, Debug, PartialEq, Eq, Structural)]
pub struct State {
    /// The vterra supply, as last known.
    pub vterra_supply: Uint256,
    /// The aterra per vterra at the last epoch operations.
    pub prev_epoch_vterra_exchange_rate: Decimal256,
    /// The share of deposits in vterra that the premium rate steers to.
    pub target_share: Decimal256,
    /// The premium of vterra over aterra, per block.
    pub premium_rate: Decimal256,
    /// The block height of the last epoch operations.
    pub last_updated: u64,
}

/// A receipt of unbonded vterra: aterra that unlocks at a time (in
/// nanoseconds).
#[derive(Clone, Copy, Debug, PartialEq, Eq, Structural)]
pub struct Receipt {
    pub aterra_qty: Uint256,
    pub unlock_time: u64,
}

/// A user's receipts, by ascending unlock time.
#[derive(Clone, Debug)]
pub struct UserReceipts(pub VecDeque<Receipt>);

/// Why a vterra request fails.
#[derive(Clone, Copy, Debug, PartialEq, Eq, Structural)]
pub enum VterraError {
    /// "Unauthorized"
    Unauthorized,
    /// "Cannot execute epoch operations yet, epoch has not passed. Last updated: {0}"
    EpochNotPassed(u64),
    /// "Not enough aterra unlocked. Requested {0}, Available {1}"
    NotEnoughUnlocked(Uint256, Uint256),
    /// "Not enough aterra receipts. Requested {0}, Available {1}"
    NotEnoughAterraReceipts(Uint256, Uint256),
}

/// Receipts by ascending unlock time.
pub open spec fn receipts_ascending(q: Seq<Receipt>) -> bool {
    forall|i: int, j: int| 0 <= i <= j < q.len() ==> #[trigger] q[i].unlock_time <= #[trigger] q[j].unlock_time
}

/// The aterra the receipts hold together.
pub open spec fn receipts_total(q: Seq<Receipt>) -> nat
    decreases q.len(),
{
    if q.len() == 0 {
        0
    } else {
        receipts_total(q.drop_last()) + q.last().aterra_qty@
    }
}

/// The total of receipts is that of a first part plus that of the rest.
pub proof fn lemma_total_split(s: Seq<Receipt>, i: int)
    requires
        0 <= i <= s.len(),
    ensures
        receipts_total(s) == receipts_total(s.take(i)) + receipts_total(s.skip(i)),
    decreases s.len(),
{
    if i == s.len() {
        assert(s.take(i) =~= s);
        assert(s.skip(i) =~= Seq::<Receipt>::empty());
    } else {
        let d = s.drop_last();
        lemma_total_split(d, i);
        assert(d.take(i) =~= s.take(i));
        assert(s.skip(i).drop_last() =~= d.skip(i));
        assert(s.skip(i).last() == s.last());
    }
}

/// Replacing a receipt changes the total by the difference of amounts.
pub proof fn lemma_total_update(s: Seq<Receipt>, idx: int, x: Receipt)
    requires
        0 <= idx < s.len(),
    ensures
        receipts_total(s.update(idx, x)) == receipts_total(s) - s[idx].aterra_qty@ + x.aterra_qty@,
    decreases s.len(),
{
    let t = s.update(idx, x);
    if idx == s.len() - 1 {
        assert(t.drop_last() =~= s.drop_last());
    } else {
        lemma_total_update(s.drop_last(), idx, x);
        assert(t.drop_last() =~= s.drop_last().update(idx, x));
    }
}

} // verus!
