//! The overseer's configuration, its epoch and deposit rate state, and the
//! whitelist of collateral tokens.

use vstd::prelude::*;

use crate::bignumber::{Decimal256, Uint256};
use crate::tokens::{bytes_less, bytes_lt, lemma_bytes_lt_asymmetric, lemma_bytes_lt_irreflexive, lemma_bytes_lt_total, lemma_bytes_lt_transitive};

verus! {

/// The overseer's configuration; addresses are canonical address bytes.
#[derive(Clone, Debug, PartialEq, Eq)]
pub struct Config {
    pub owner_addr: Vec<u8>,
    pub oracle_contract: Vec<u8>,
    pub market_contract: Vec<u8>,
    pub liquidation_contract: Vec<u8>,
    pub collector_contract: Vec<u8>,
    pub stable_denom: String,
    pub epoch_period: u64,
    pub threshold_deposit_rate: Decimal256,
    pub target_deposit_rate: Decimal256,
    pub buffer_distribution_factor: Decimal256,
    pub anc_purchase_factor: Decimal256,
    pub price_timeframe: u64,
}

/// How the deposit rate is steered by the yield reserve.
#[derive(Clone, Copy, Debug, PartialEq, Eq, Structural)]
pub struct DynrateConfig {
    pub dyn_rate_epoch: u64,
    pub dyn_rate_maxchange: Decimal256,
    pub dyn_rate_yr_increase_expectation: Decimal256,
    /// The lowest deposit rate (per block).
    pub dyn_rate_min: Decimal256,
    /// The highest deposit rate (per block).
    pub dyn_rate_max: Decimal256,
}

/// What the last epoch operations saw.
#[derive(Clone, Copy, Debug, PartialEq, Eq, Structural)]
pub struct EpochState {
    pub deposit_rate: Decimal256,
    pub prev_aterra_supply: Uint256,
    pub prev_exchange_rate: Decimal256,
    pub prev_interest_buffer: Uint256,
    pub last_executed_height: u64,
}

/// What the last deposit rate update saw.
#[derive(Clone, Copy, Debug, PartialEq, Eq, Structural)]
pub struct DynrateState {
    pub last_executed_height: u64,
    pub prev_yield_reserve: Decimal256,
}

/// A whitelisted collateral token.
#[derive(Clone, Debug, PartialEq, Eq)]
pub struct WhitelistElem {
    pub name: String,
    pub symbol: String,
    pub max_ltv: Decimal256,
    pub custody_contract: Vec<u8>,
}

/// Entries stored under address keys, as the storage walks them: keys in
/// strictly ascending byte order.
pub open spec fn keys_ascending<T>(s: Seq<(Vec<u8>, T)>) -> bool {
    forall|i: int, j: int| 0 <= i < j < s.len() ==> bytes_lt(#[trigger] s[i].0@, #[trigger] s[j].0@)
}

/// The position of the first entry whose key is not below `key`.
pub fn lower_bound<T>(entries: &Vec<(Vec<u8>, T)>, key: &Vec<u8>) -> (r: usize)
    requires
        keys_ascending(entries@),
    ensures
        r <= entries@.len(),
        forall|i: int| 0 <= i < r ==> bytes_lt(#[trigger] entries@[i].0@, key@),
        forall|i: int| r <= i < entries@.len() ==> !bytes_lt(#[trigger] entries@[i].0@, key@),
{
    let mut i: usize = 0;
    while i < entries.len()
        invariant
            keys_ascending(entries@),
            i <= entries@.len(),
            forall|k: int| 0 <= k < i ==> bytes_lt(#[trigger] entries@[k].0@, key@),
        decreases entries.len() - i,
    {
        if !bytes_less(&entries[i].0, key) {
            proof {
                assert forall|k: int| i <= k < entries@.len() implies !bytes_lt(#[trigger] entries@[k].0@, key@) by {
                    if k > i && bytes_lt(entries@[k].0@, key@) {
                        lemma_bytes_lt_transitive(entries@[i as int].0@, entries@[k].0@, key@);
                    }
                }
            }
            return i;
        }
        i = i + 1;
    }
    i
}

/// The position of the entry under `key`, if there is one.
pub fn find_key<T>(entries: &Vec<(Vec<u8>, T)>, key: &Vec<u8>) -> (r: Option<usize>)
    requires
        keys_ascending(entries@),
    ensures
        r matches Some(i) ==> i < entries@.len() && entries@[i as int].0@ == key@,
        r is None ==> forall|i: int| 0 <= i < entries@.len() ==> #[trigger] entries@[i].0@ != key@,
{
    let p = lower_bound(entries, key);
    if p < entries.len() && crate::tokens::bytes_equal(&entries[p].0, key) {
        return Some(p);
    }
    proof {
        assert forall|i: int| 0 <= i < entries@.len() implies #[trigger] entries@[i].0@ != key@ by {
            if i < p {
                lemma_bytes_lt_asymmetric(entries@[i].0@, key@);
            } else if i > p && entries@[i].0@ == key@ {
                lemma_bytes_lt_total(entries@[p as int].0@, key@);
                assert(bytes_lt(entries@[p as int].0@, entries@[i].0@));
            }
        }
    }
    None
}

/// Adds an entry under a key that no entry has, keeping the keys ascending.
pub fn insert_key<T>(entries: &mut Vec<(Vec<u8>, T)>, key: Vec<u8>, value: T)
    requires
        keys_ascending(old(entries)@),
        forall|i: int| 0 <= i < old(entries)@.len() ==> #[trigger] old(entries)@[i].0@ != key@,
    ensures
        keys_ascending(final(entries)@),
        exists|p: int| 0 <= p <= old(entries)@.len() && final(entries)@ == old(entries)@.insert(p, (key, value)),
{
    let p = lower_bound(entries, &key);
    let ghost k = key@;
    let ghost s = entries@;
    entries.insert(p, (key, value));
    proof {
        let t = entries@;
        assert(t == s.insert(p as int, t[p as int]));
        assert forall|i: int, j: int| 0 <= i < j < t.len() implies bytes_lt(#[trigger] t[i].0@, #[trigger] t[j].0@) by {
            if j < p {
                assert(t[i] == s[i] && t[j] == s[j]);
            } else if j == p {
                assert(t[i] == s[i]);
            } else if i > p {
                assert(t[i] == s[i - 1] && t[j] == s[j - 1]);
            } else if i == p {
                assert(t[j] == s[j - 1]);
                lemma_bytes_lt_total(s[j - 1].0@, k);
            } else {
                assert(t[i] == s[i] && t[j] == s[j - 1]);
                lemma_bytes_lt_total(s[j - 1].0@, k);
                lemma_bytes_lt_transitive(s[i].0@, k, s[j - 1].0@);
            }
        }
    }
}

/// The positions `[from, to)` of a page of entries: those whose keys are
/// above `start_after` (from the key with a 1 byte appended on), at most
/// the page limit of them.
pub fn page_bounds<T>(entries: &Vec<(Vec<u8>, T)>, start_after: Option<Vec<u8>>, limit: Option<u32>) -> (r: (usize, usize))
    requires
        keys_ascending(entries@),
    ensures
        r.0 <= r.1 <= entries@.len(),
        r.1 == (if r.0 + page_limit_of(limit) <= entries@.len() { r.0 + page_limit_of(limit) } else { entries@.len() as int }),
        start_after is None ==> r.0 == 0,
        start_after matches Some(a) ==> {
            &&& forall|i: int| 0 <= i < r.0 ==> bytes_lt(#[trigger] entries@[i].0@, a@.push(1u8))
            &&& forall|i: int| r.0 <= i < entries@.len() ==> !bytes_lt(#[trigger] entries@[i].0@, a@.push(1u8))
        },
{
    let limit = crate::market::state::page_limit(limit);
    let from = match crate::market::state::calc_range_start(start_after) {
        Some(start) => lower_bound(entries, &start),
        None => 0,
    };
    let to = if limit <= entries.len() - from { from + limit } else { entries.len() };
    (from, to)
}

/// The number of entries a page holds at most: the limit asked for (10
/// when none), at most 30.
pub open spec fn page_limit_of(limit: Option<u32>) -> int {
    match limit {
        Some(l) => if l < 30 { l as int } else { 30 },
        None => 10,
    }
}

} // verus!
