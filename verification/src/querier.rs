//! Rules shared by the contracts around their queries: the stability tax
//! on stable coin transfers, the age of oracle prices, storage keys.

use vstd::prelude::*;

use crate::bignumber::backend::{pow128, pow256};
use crate::bignumber::decimal256::df;
use crate::bignumber::uint256::group_uint256;
use crate::bignumber::{Decimal256, Uint256};
use crate::oracle::PriceResponse;

verus! {

/// An amount of a native coin.
#[derive(Clone, Debug, PartialEq, Eq)]
pub struct Coin {
    pub denom: String,
    pub amount: u128,
}

/// The time of the block and how old a price may be there.
#[derive(Clone, Copy, Debug, PartialEq, Eq, Structural)]
pub struct TimeConstraints {
    pub block_time: u64,
    pub valid_timeframe: u64,
}

/// Why a price was refused.
#[derive(Clone, Copy, Debug, PartialEq, Eq, Structural)]
pub enum PriceError {
    /// "Price is too old"
    PriceTooOld,
}

pub open spec fn min_nat(a: nat, b: nat) -> nat {
    if a <= b {
        a
    } else {
        b
    }
}

pub open spec fn max_nat(a: nat, b: nat) -> nat {
    if a >= b {
        a
    } else {
        b
    }
}

/// The tax on sending `amount`: what `amount / (1 + rate)` leaves out, up
/// to `cap`.
pub open spec fn tax_of(amount: nat, rate: nat, cap: nat) -> nat {
    min_nat((amount - amount * df() / (df() + rate)) as nat, cap)
}

/// The smaller of two integers (the first where they are equal).
pub fn min_uint256(a: Uint256, b: Uint256) -> (r: Uint256)
    ensures
        r@ == min_nat(a@, b@),
{
    if a <= b {
        a
    } else {
        b
    }
}

/// The smaller of two decimals.
pub fn min_decimal(a: Decimal256, b: Decimal256) -> (r: Decimal256)
    ensures
        r@ == min_nat(a@, b@),
{
    if a <= b {
        a
    } else {
        b
    }
}

/// The larger of two decimals.
pub fn max_decimal(a: Decimal256, b: Decimal256) -> (r: Decimal256)
    ensures
        r@ == max_nat(a@, b@),
{
    if a >= b {
        a
    } else {
        b
    }
}

/// The tax owed on sending `amount` of a coin whose tax rate and cap the
/// chain reports: `min(amount - amount / (1 + tax_rate), tax_cap)`.
pub fn compute_tax(tax_rate: Decimal256, tax_cap: Uint256, amount: u128) -> (r: Uint256)
    requires
        df() + tax_rate@ < pow256(),
    ensures
        r@ == tax_of(amount as nat, tax_rate@, tax_cap@),
        r@ <= amount,
{
    proof {
        broadcast use group_uint256;
        assert(amount * df() < pow256()) by (nonlinear_arith)
            requires amount < pow128();
    }
    let amount = Uint256::from(amount);
    let gross = amount * Decimal256::one();
    proof {
        vstd::arithmetic::div_mod::lemma_div_by_multiple(amount@ as int, df() as int);
    }
    let one_plus_rate = Decimal256::one() + tax_rate;
    let net = amount / one_plus_rate;
    proof {
        assert(amount@ * df() / (df() + tax_rate@) <= amount@) by (nonlinear_arith)
            requires df() > 0;
    }
    min_uint256(gross - net, tax_cap)
}

/// The coin less the tax on sending it.
pub fn deduct_tax(tax_rate: Decimal256, tax_cap: Uint256, coin: Coin) -> (r: Coin)
    requires
        df() + tax_rate@ < pow256(),
    ensures
        r.denom@ == coin.denom@,
        r.amount as nat == coin.amount - tax_of(coin.amount as nat, tax_rate@, tax_cap@),
{
    proof {
        broadcast use group_uint256;
    }
    let tax_amount = compute_tax(tax_rate, tax_cap, coin.amount);
    let left = Uint256::from(coin.amount) - tax_amount;
    Coin { denom: coin.denom, amount: left.into_u128() }
}

/// Checks an oracle price against the time constraints, if any: both of its
/// update times must be at least `block_time - valid_timeframe`.
pub fn query_price(
    oracle_price: PriceResponse,
    time_contraints: Option<TimeConstraints>,
) -> (r: Result<PriceResponse, PriceError>)
    requires
        time_contraints matches Some(tc) ==> tc.valid_timeframe <= tc.block_time,
    ensures
        r matches Ok(p) ==> p == oracle_price,
        r is Err <==> (time_contraints matches Some(tc) && (oracle_price.last_updated_base
            < tc.block_time - tc.valid_timeframe || oracle_price.last_updated_quote
            < tc.block_time - tc.valid_timeframe)),
{
    if let Some(time_contraints) = time_contraints {
        let valid_update_time = time_contraints.block_time - time_contraints.valid_timeframe;
        if oracle_price.last_updated_base < valid_update_time || oracle_price.last_updated_quote
            < valid_update_time {
            return Err(PriceError::PriceTooOld);
        }
    }
    Ok(oracle_price)
}

/// The storage key `key` under `namespace`: the two joined.
pub fn concat(namespace: &[u8], key: &[u8]) -> (r: Vec<u8>)
    ensures
        r@ == namespace@ + key@,
{
    let mut k: Vec<u8> = Vec::new();
    let mut i: usize = 0;
    while i < namespace.len()
        invariant
            i <= namespace@.len(),
            k@ == namespace@.take(i as int),
        decreases namespace.len() - i,
    {
        k.push(namespace[i]);
        assert(namespace@.take(i + 1) =~= namespace@.take(i as int).push(namespace@[i as int]));
        i = i + 1;
    }
    let mut j: usize = 0;
    while j < key.len()
        invariant
            j <= key@.len(),
            k@ == namespace@ + key@.take(j as int),
        decreases key.len() - j,
    {
        k.push(key[j]);
        assert(key@.take(j + 1) =~= key@.take(j as int).push(key@[j as int]));
        j = j + 1;
    }
    assert(key@.take(key@.len() as int) =~= key@);
    assert(namespace@.take(namespace@.len() as int) =~= namespace@);
    k
}

} // verus!
