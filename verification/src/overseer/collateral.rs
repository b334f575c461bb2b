//! Locking, unlocking and liquidating a borrower's collateral, and the
//! borrow limit it gives.

use vstd::prelude::*;

use crate::bignumber::backend::{pow128, pow256};
use crate::bignumber::decimal256::df;
use crate::bignumber::uint256::group_uint256;
use crate::bignumber::{Decimal256, Uint256};
use crate::oracle::PriceResponse;
use crate::querier::{query_price, TimeConstraints};
use crate::tokens::{
    amount_of, covers, no_duplicate_addrs, no_zero_amounts, sorted_by_addr, sums_fit, sub_ok_state,
    Token, Tokens, TokensMath,
};
use super::error::OverseerError;
use super::state::{find_key, keys_ascending, WhitelistElem};

verus! {

/// The oracle's price is older than the time constraints allow.
pub open spec fn price_too_old(p: PriceResponse, block_time: Option<u64>, timeframe: u64) -> bool {
    block_time matches Some(t) && (p.last_updated_base < t - timeframe || p.last_updated_quote < t
        - timeframe)
}

/// The token is on the whitelist.
pub open spec fn whitelisted(wl: Seq<(Vec<u8>, WhitelistElem)>, token: Seq<u8>) -> bool {
    exists|i: int| 0 <= i < wl.len() && #[trigger] wl[i].0@ == token
}

/// The position of the token on the whitelist.
pub open spec fn whitelist_index(wl: Seq<(Vec<u8>, WhitelistElem)>, token: Seq<u8>) -> int {
    choose|i: int| 0 <= i < wl.len() && #[trigger] wl[i].0@ == token
}

/// The maximal loan to value ratio of a whitelisted token.
pub open spec fn ltv_of(wl: Seq<(Vec<u8>, WhitelistElem)>, token: Seq<u8>) -> nat {
    wl[whitelist_index(wl, token)].1.max_ltv@
}

/// Why the borrow limit of the first `n` collaterals cannot be computed,
/// if it cannot: the first collateral whose price is too old, or which is
/// not whitelisted.
pub open spec fn borrow_limit_error(
    c: Seq<Token>,
    prices: Seq<PriceResponse>,
    wl: Seq<(Vec<u8>, WhitelistElem)>,
    block_time: Option<u64>,
    timeframe: u64,
    n: nat,
) -> Option<OverseerError>
    decreases n,
{
    if n == 0 {
        None
    } else {
        match borrow_limit_error(c, prices, wl, block_time, timeframe, (n - 1) as nat) {
            Some(e) => Some(e),
            None => if price_too_old(prices[n - 1], block_time, timeframe) {
                Some(OverseerError::PriceTooOld)
            } else if !whitelisted(wl, c[n - 1].0@) {
                Some(OverseerError::TokenNotRegistered)
            } else {
                None
            },
        }
    }
}

/// What a collateral adds to the borrow limit: its value at the price,
/// times its maximal loan to value ratio.
pub open spec fn collateral_limit(amount: nat, rate: nat, ltv: nat) -> nat {
    (amount * rate / df()) * ltv / df()
}

/// The borrow limit of the first `n` collaterals.
pub open spec fn borrow_limit_of(
    c: Seq<Token>,
    prices: Seq<PriceResponse>,
    wl: Seq<(Vec<u8>, WhitelistElem)>,
    n: nat,
) -> nat
    decreases n,
{
    if n == 0 {
        0
    } else {
        borrow_limit_of(c, prices, wl, (n - 1) as nat) + collateral_limit(
            c[n - 1].1@,
            prices[n - 1].rate@,
            ltv_of(wl, c[n - 1].0@),
        )
    }
}

/// The step for the `k`th collateral stays in range.
pub open spec fn borrow_limit_step_fits(
    c: Seq<Token>,
    prices: Seq<PriceResponse>,
    wl: Seq<(Vec<u8>, WhitelistElem)>,
    k: int,
) -> bool {
    let value = c[k].1@ * prices[k].rate@ / df();
    &&& c[k].1@ * prices[k].rate@ < pow256()
    &&& value * ltv_of(wl, c[k].0@) < pow256()
    &&& borrow_limit_of(c, prices, wl, (k + 1) as nat) < pow256()
}

/// The borrow limit that the collaterals give, with the price of each: the
/// sum of their values at the oracle's prices (`prices`, one for each
/// collateral, in order), each times its token's maximal loan to value
/// ratio. A price older than the time constraints allow, or a token not
/// on the whitelist, is refused (the first such collateral decides).
pub fn compute_borrow_limit(
    whitelist: &Vec<(Vec<u8>, WhitelistElem)>,
    collaterals: &Tokens,
    prices: &Vec<PriceResponse>,
    block_time: Option<u64>,
    price_timeframe: u64,
) -> (r: Result<(Uint256, Vec<Decimal256>), OverseerError>)
    requires
        keys_ascending(whitelist@),
        prices@.len() == collaterals@.len(),
        block_time matches Some(t) ==> price_timeframe <= t,
        forall|k: int|
            0 <= k < collaterals@.len() && borrow_limit_error(
                collaterals@,
                prices@,
                whitelist@,
                block_time,
                price_timeframe,
                (k + 1) as nat,
            ) is None ==> borrow_limit_step_fits(collaterals@, prices@, whitelist@, k),
    ensures
        ({
            let err = borrow_limit_error(
                collaterals@,
                prices@,
                whitelist@,
                block_time,
                price_timeframe,
                collaterals@.len(),
            );
            match r {
                Ok((limit, rates)) => {
                    &&& err is None
                    &&& limit@ == borrow_limit_of(collaterals@, prices@, whitelist@, collaterals@.len())
                    &&& rates@.len() == collaterals@.len()
                    &&& forall|k: int| 0 <= k < rates@.len() ==> #[trigger] rates@[k] == prices@[k].rate
                },
                Err(e) => err == Some(e),
            }
        }),
{
    let mut borrow_limit = Uint256::zero();
    let mut collateral_prices: Vec<Decimal256> = Vec::new();
    let mut i: usize = 0;
    while i < collaterals.len()
        invariant
            keys_ascending(whitelist@),
            prices@.len() == collaterals@.len(),
            block_time matches Some(t) ==> price_timeframe <= t,
            forall|k: int|
                0 <= k < collaterals@.len() && borrow_limit_error(
                    collaterals@,
                    prices@,
                    whitelist@,
                    block_time,
                    price_timeframe,
                    (k + 1) as nat,
                ) is None ==> borrow_limit_step_fits(collaterals@, prices@, whitelist@, k),
            i <= collaterals@.len(),
            borrow_limit_error(collaterals@, prices@, whitelist@, block_time, price_timeframe, i as nat) is None,
            borrow_limit@ == borrow_limit_of(collaterals@, prices@, whitelist@, i as nat),
            collateral_prices@.len() == i,
            forall|k: int| 0 <= k < i ==> #[trigger] collateral_prices@[k] == prices@[k].rate,
        decreases collaterals.len() - i,
    {
        let time_constraints = match block_time {
            Some(t) => Some(TimeConstraints { block_time: t, valid_timeframe: price_timeframe }),
            None => None,
        };
        let price = match query_price(prices[i], time_constraints) {
            Ok(p) => p,
            Err(_) => {
                proof {
                    lemma_borrow_limit_error_stays(
                        collaterals@,
                        prices@,
                        whitelist@,
                        block_time,
                        price_timeframe,
                        (i + 1) as nat,
                    );
                }
                return Err(OverseerError::PriceTooOld);
            },
        };
        let idx = match find_key(whitelist, &collaterals[i].0) {
            Some(idx) => idx,
            None => {
                proof {
                    lemma_borrow_limit_error_stays(
                        collaterals@,
                        prices@,
                        whitelist@,
                        block_time,
                        price_timeframe,
                        (i + 1) as nat,
                    );
                }
                return Err(OverseerError::TokenNotRegistered);
            },
        };
        proof {
            lemma_borrow_limit_step(
                collaterals@,
                prices@,
                whitelist@,
                block_time,
                price_timeframe,
                i as int,
                idx as int,
            );
            assert(borrow_limit_step_fits(collaterals@, prices@, whitelist@, i as int));
        }
        borrow_limit = add_collateral_limit(borrow_limit, collaterals[i].1, price.rate, whitelist[idx].1.max_ltv);
        collateral_prices.push(price.rate);
        i = i + 1;
    }
    Ok((borrow_limit, collateral_prices))
}

/// `limit` plus what a collateral of `amount` at `rate` with the ratio
/// `ltv` adds to it.
fn add_collateral_limit(limit: Uint256, amount: Uint256, rate: Decimal256, ltv: Decimal256) -> (r: Uint256)
    requires
        amount@ * rate@ < pow256(),
        (amount@ * rate@ / df()) * ltv@ < pow256(),
        limit@ + collateral_limit(amount@, rate@, ltv@) < pow256(),
    ensures
        r@ == limit@ + collateral_limit(amount@, rate@, ltv@),
{
    proof {
        broadcast use group_uint256;
    }
    let collateral_value = amount * rate;
    limit + collateral_value * ltv
}

/// One more collateral that passes the checks: the limit grows by its
/// share, at its token's ratio.
proof fn lemma_borrow_limit_step(
    c: Seq<Token>,
    prices: Seq<PriceResponse>,
    wl: Seq<(Vec<u8>, WhitelistElem)>,
    block_time: Option<u64>,
    timeframe: u64,
    i: int,
    idx: int,
)
    requires
        keys_ascending(wl),
        0 <= i < c.len(),
        0 <= idx < wl.len(),
        wl[idx].0@ == c[i].0@,
        !price_too_old(prices[i], block_time, timeframe),
        borrow_limit_error(c, prices, wl, block_time, timeframe, i as nat) is None,
    ensures
        borrow_limit_error(c, prices, wl, block_time, timeframe, (i + 1) as nat) is None,
        ltv_of(wl, c[i].0@) == wl[idx].1.max_ltv@,
        borrow_limit_of(c, prices, wl, (i + 1) as nat) == borrow_limit_of(c, prices, wl, i as nat)
            + collateral_limit(c[i].1@, prices[i].rate@, wl[idx].1.max_ltv@),
{
    let key = c[i].0@;
    assert(whitelisted(wl, key));
    let j = whitelist_index(wl, key);
    lemma_unique_key(wl, idx, j);
}

/// On entries with ascending keys, one key is at one position.
proof fn lemma_unique_key(wl: Seq<(Vec<u8>, WhitelistElem)>, i: int, j: int)
    requires
        keys_ascending(wl),
        0 <= i < wl.len(),
        0 <= j < wl.len(),
        wl[i].0@ == wl[j].0@,
    ensures
        i == j,
{
    if i < j {
        crate::tokens::lemma_bytes_lt_irreflexive(wl[i].0@);
        assert(crate::tokens::bytes_lt(wl[i].0@, wl[j].0@));
    } else if j < i {
        crate::tokens::lemma_bytes_lt_irreflexive(wl[i].0@);
        assert(crate::tokens::bytes_lt(wl[j].0@, wl[i].0@));
    }
}

/// Once the borrow limit cannot be computed for a prefix, it cannot be for
/// any longer one.
proof fn lemma_borrow_limit_error_stays(
    c: Seq<Token>,
    prices: Seq<PriceResponse>,
    wl: Seq<(Vec<u8>, WhitelistElem)>,
    block_time: Option<u64>,
    timeframe: u64,
    n: nat,
)
    requires
        n <= c.len(),
        borrow_limit_error(c, prices, wl, block_time, timeframe, n) is Some,
    ensures
        borrow_limit_error(c, prices, wl, block_time, timeframe, c.len())
            == borrow_limit_error(c, prices, wl, block_time, timeframe, n),
    decreases c.len() - n,
{
    if n < c.len() {
        lemma_borrow_limit_error_stays(c, prices, wl, block_time, timeframe, n + 1);
    }
}

/// Where each token sits on the whitelist (to find its custody contract);
/// a token that is not whitelisted is refused.
pub fn custody_positions(
    whitelist: &Vec<(Vec<u8>, WhitelistElem)>,
    tokens: &Tokens,
) -> (r: Result<Vec<usize>, OverseerError>)
    requires
        keys_ascending(whitelist@),
    ensures
        r is Ok <==> forall|k: int| 0 <= k < tokens@.len() ==> whitelisted(whitelist@, #[trigger] tokens@[k].0@),
        r matches Err(e) ==> e == OverseerError::TokenNotRegistered,
        r matches Ok(v) ==> v@.len() == tokens@.len() && forall|k: int|
            0 <= k < v@.len() ==> #[trigger] v@[k] < whitelist@.len() && whitelist@[v@[k] as int].0@ == tokens@[k].0@,
{
    let mut v: Vec<usize> = Vec::new();
    let mut i: usize = 0;
    while i < tokens.len()
        invariant
            keys_ascending(whitelist@),
            i <= tokens@.len(),
            v@.len() == i,
            forall|k: int| 0 <= k < i ==> #[trigger] v@[k] < whitelist@.len() && whitelist@[v@[k] as int].0@ == tokens@[k].0@,
        decreases tokens.len() - i,
    {
        match find_key(whitelist, &tokens[i].0) {
            Some(p) => {
                v.push(p);
            },
            None => {
                proof {
                    if whitelisted(whitelist@, tokens@[i as int].0@) {
                        let j = whitelist_index(whitelist@, tokens@[i as int].0@);
                        assert(whitelist@[j].0@ == tokens@[i as int].0@);
                    }
                }
                return Err(OverseerError::TokenNotRegistered);
            },
        }
        i = i + 1;
    }
    proof {
        assert forall|k: int| 0 <= k < tokens@.len() implies whitelisted(whitelist@, #[trigger] tokens@[k].0@) by {
            assert(whitelist@[v@[k] as int].0@ == tokens@[k].0@);
        }
    }
    Ok(v)
}

/// A borrower locks more collateral: the amounts join those locked, token
/// by token. Every token must be whitelisted. Returns the collateral now
/// locked and where each locked token sits on the whitelist.
pub fn lock_collateral(
    whitelist: &Vec<(Vec<u8>, WhitelistElem)>,
    cur_collaterals: Tokens,
    collaterals: Tokens,
) -> (r: Result<(Tokens, Vec<usize>), OverseerError>)
    requires
        keys_ascending(whitelist@),
        no_duplicate_addrs(cur_collaterals@),
        no_duplicate_addrs(collaterals@),
        sums_fit(cur_collaterals@, collaterals@),
    ensures
        r is Ok <==> forall|k: int| 0 <= k < collaterals@.len() ==> whitelisted(whitelist@, #[trigger] collaterals@[k].0@),
        r matches Err(e) ==> e == OverseerError::TokenNotRegistered,
        r matches Ok((t, v)) ==> {
            &&& sorted_by_addr(t@)
            &&& no_zero_amounts(t@)
            &&& forall|a: Seq<u8>| #[trigger] amount_of(t@, a) == amount_of(cur_collaterals@, a) + amount_of(collaterals@, a)
            &&& v@.len() == collaterals@.len()
            &&& forall|k: int| 0 <= k < v@.len() ==> #[trigger] v@[k] < whitelist@.len()
                && whitelist@[v@[k] as int].0@ == collaterals@[k].0@
        },
{
    let positions = match custody_positions(whitelist, &collaterals) {
        Ok(v) => v,
        Err(e) => {
            return Err(e);
        },
    };
    let mut cur_collaterals = cur_collaterals;
    cur_collaterals.add(collaterals);
    Ok((cur_collaterals, positions))
}

/// The collateral left after an unlock must still cover the loan: its
/// borrow limit must not be below the loan amount.
pub fn check_unlock(borrow_limit: Uint256, loan_amount: Uint256) -> (r: Result<(), OverseerError>)
    requires
        borrow_limit@ < loan_amount@ ==> borrow_limit@ < pow128(),
    ensures
        r is Ok <==> borrow_limit@ >= loan_amount@,
        r matches Err(e) ==> e == OverseerError::UnlockTooLarge(borrow_limit@ as u128),
{
    if borrow_limit < loan_amount {
        return Err(OverseerError::UnlockTooLarge(borrow_limit.into_u128()));
    }
    Ok(())
}

/// The borrow limit of collateral `c` at `prices` can be computed as
/// `compute_borrow_limit` does: one price for each collateral, and no step
/// of the sum overflows.
pub open spec fn borrow_limit_fits(
    c: Seq<Token>,
    prices: Seq<PriceResponse>,
    wl: Seq<(Vec<u8>, WhitelistElem)>,
    block_time: u64,
    timeframe: u64,
) -> bool {
    &&& prices.len() == c.len()
    &&& timeframe <= block_time
    &&& forall|k: int|
        0 <= k < c.len() && borrow_limit_error(c, prices, wl, Some(block_time), timeframe, (k + 1) as nat)
            is None ==> borrow_limit_step_fits(c, prices, wl, k)
}

/// Whether the collateral `left` after an unlock still covers a loan of
/// `loan`, at `prices`: the borrow limit cannot be computed (a price too
/// old, a token not whitelisted), or is below the loan (`UnlockTooLarge`
/// with the limit), or the unlock goes through.
pub open spec fn unlock_outcome(
    left: Seq<Token>,
    prices: Seq<PriceResponse>,
    wl: Seq<(Vec<u8>, WhitelistElem)>,
    block_time: u64,
    timeframe: u64,
    loan: nat,
) -> Option<OverseerError> {
    match borrow_limit_error(left, prices, wl, Some(block_time), timeframe, left.len()) {
        Some(e) => Some(e),
        None => {
            let limit = borrow_limit_of(left, prices, wl, left.len());
            if limit < loan {
                Some(OverseerError::UnlockTooLarge(limit as u128))
            } else {
                None
            }
        },
    }
}

/// A borrower asks to unlock collateral. The amounts must all be locked
/// (else `UnlockExceedsLocked`); then the collateral that stays locked must
/// still cover the loan: its borrow limit at `prices` (the oracle's prices
/// of the collateral that stays, in its order, at `block_time`) must not be
/// below `loan_amount` (else `UnlockTooLarge` with that limit), and must be
/// computable (else the price or whitelist error). Returns the collateral
/// that stays locked.
pub fn unlock_collateral(
    whitelist: &Vec<(Vec<u8>, WhitelistElem)>,
    cur_collaterals: Tokens,
    collaterals: Tokens,
    prices: &Vec<PriceResponse>,
    block_time: u64,
    price_timeframe: u64,
    loan_amount: Uint256,
) -> (r: Result<Tokens, OverseerError>)
    requires
        keys_ascending(whitelist@),
        no_duplicate_addrs(cur_collaterals@),
        no_duplicate_addrs(collaterals@),
        forall|t: Seq<Token>|
            #[trigger] sub_ok_state(cur_collaterals@, collaterals@, t) ==> {
                &&& borrow_limit_fits(t, prices@, whitelist@, block_time, price_timeframe)
                &&& borrow_limit_of(t, prices@, whitelist@, t.len()) < loan_amount@ ==> borrow_limit_of(
                    t,
                    prices@,
                    whitelist@,
                    t.len(),
                ) < pow128()
            },
    ensures
        !covers(cur_collaterals@, collaterals@) ==> r == Err::<Tokens, OverseerError>(OverseerError::UnlockExceedsLocked),
        covers(cur_collaterals@, collaterals@) ==> exists|t: Seq<Token>|
            #[trigger] sub_ok_state(cur_collaterals@, collaterals@, t) && match unlock_outcome(
                t,
                prices@,
                whitelist@,
                block_time,
                price_timeframe,
                loan_amount@,
            ) {
                Some(e) => r == Err::<Tokens, OverseerError>(e),
                None => r matches Ok(left) && left@ == t,
            },
{
    let mut cur_collaterals = cur_collaterals;
    // Underflow check is done in sub
    match cur_collaterals.sub(collaterals) {
        Ok(()) => {},
        Err(_) => {
            return Err(OverseerError::UnlockExceedsLocked);
        },
    }
    // Compute borrow limit with collaterals except unlock target collaterals
    let (borrow_limit, _) = match compute_borrow_limit(
        whitelist,
        &cur_collaterals,
        prices,
        Some(block_time),
        price_timeframe,
    ) {
        Ok(res) => res,
        Err(e) => {
            return Err(e);
        },
    };
    match check_unlock(borrow_limit, loan_amount) {
        Ok(()) => Ok(cur_collaterals),
        Err(e) => Err(e),
    }
}

/// Only a loan above its borrow limit can be liquidated.
pub fn check_liquidation(borrow_limit: Uint256, borrow_amount: Uint256) -> (r: Result<(), OverseerError>)
    ensures
        r is Ok <==> borrow_limit@ < borrow_amount@,
        r matches Err(e) ==> e == OverseerError::CannotLiquidateSafeLoan,
{
    if borrow_limit >= borrow_amount {
        return Err(OverseerError::CannotLiquidateSafeLoan);
    }
    Ok(())
}

/// A liquidation of a borrower's collateral. Its borrow limit at `prices`
/// (the oracle's prices of the collateral locked, in its order, at
/// `block_time`) must be computable (else the price or whitelist error);
/// a loan within it cannot be liquidated (`CannotLiquidateSafeLoan`, the
/// collateral left as it is); else the collateral the liquidation takes
/// (`liquidation_amount`, as the liquidation contract computed it for that
/// limit) leaves the borrower's collateral, and it must all be locked
/// (else `SubtractionUnderflow`). Returns the collateral left.
pub fn liquidate_collateral(
    whitelist: &Vec<(Vec<u8>, WhitelistElem)>,
    cur_collaterals: Tokens,
    prices: &Vec<PriceResponse>,
    block_time: u64,
    price_timeframe: u64,
    loan_amount: Uint256,
    liquidation_amount: Tokens,
) -> (r: Result<Tokens, OverseerError>)
    requires
        keys_ascending(whitelist@),
        no_duplicate_addrs(cur_collaterals@),
        no_duplicate_addrs(liquidation_amount@),
        borrow_limit_fits(cur_collaterals@, prices@, whitelist@, block_time, price_timeframe),
    ensures
        ({
            let c = cur_collaterals@;
            let err = borrow_limit_error(c, prices@, whitelist@, Some(block_time), price_timeframe, c.len());
            let limit = borrow_limit_of(c, prices@, whitelist@, c.len());
            &&& err matches Some(e) ==> r == Err::<Tokens, OverseerError>(e)
            &&& err is None && limit >= loan_amount@ ==> r == Err::<Tokens, OverseerError>(
                OverseerError::CannotLiquidateSafeLoan,
            )
            &&& err is None && limit < loan_amount@ && !covers(c, liquidation_amount@) ==> r == Err::<Tokens, OverseerError>(
                OverseerError::SubtractionUnderflow,
            )
            &&& r is Ok <==> (err is None && limit < loan_amount@ && covers(c, liquidation_amount@))
            &&& r matches Ok(t) ==> sub_ok_state(c, liquidation_amount@, t@)
        }),
{
    // Compute borrow limit with the collateral locked
    let (borrow_limit, _) = match compute_borrow_limit(
        whitelist,
        &cur_collaterals,
        prices,
        Some(block_time),
        price_timeframe,
    ) {
        Ok(res) => res,
        Err(e) => {
            return Err(e);
        },
    };
    // borrow limit is equal or bigger than loan amount
    // cannot liquidation collaterals
    match check_liquidation(borrow_limit, loan_amount) {
        Ok(()) => {},
        Err(e) => {
            return Err(e);
        },
    }
    let mut cur_collaterals = cur_collaterals;
    match cur_collaterals.sub(liquidation_amount) {
        Ok(()) => Ok(cur_collaterals),
        Err(_) => Err(OverseerError::SubtractionUnderflow),
    }
}

/// What the owner whitelists is what is read back: once a token is
/// registered (inserted at some position, the keys staying ascending), it
/// is on the whitelist, and its entry is the one registered.
pub proof fn lemma_registered_token_reads_back(
    old: Seq<(Vec<u8>, WhitelistElem)>,
    new: Seq<(Vec<u8>, WhitelistElem)>,
    p: int,
    token: Vec<u8>,
    elem: WhitelistElem,
)
    requires
        0 <= p <= old.len(),
        new == old.insert(p, (token, elem)),
        keys_ascending(new),
    ensures
        whitelisted(new, token@),
        new[whitelist_index(new, token@)] == (token, elem),
{
    assert(new[p].0@ == token@);
    let j = whitelist_index(new, token@);
    lemma_unique_key(new, p, j);
}

} // verus!
