//! The price oracle: feeders post prices of assets against the base asset,
//! and a price of one asset in another is the ratio of theirs.

use vstd::prelude::*;

use crate::bignumber::backend::pow256;
use crate::bignumber::decimal256::df;
use crate::bignumber::uint256::group_uint256;
use crate::bignumber::Decimal256;

verus! {

/// A price as the oracle stores it.
#[derive(Clone, Copy, Debug, PartialEq, Eq, Structural)]
pub struct PriceInfo {
    pub price: Decimal256,
    pub last_updated_time: u64,
}

/// The price of `base` in `quote`, with the times of the two prices.
#[derive(Clone, Copy, Debug, PartialEq, Eq, Structural)]
pub struct PriceResponse {
    pub rate: Decimal256,
    pub last_updated_base: u64,
    pub last_updated_quote: u64,
}

/// Why the oracle refused a request.
#[derive(Clone, Copy, Debug, PartialEq, Eq, Structural)]
pub enum OracleError {
    /// "Unauthorized"
    Unauthorized,
    /// No feeder is registered for the asset.
    FeederNotFound,
    /// No price is stored for the asset.
    PriceNotFound,
}

/// The time the base asset's price of 1 carries.
pub open spec fn base_asset_time() -> u64 {
    9999999999u64
}

/// The price of an asset as the oracle reads it: 1 for the base asset,
/// else what is stored for it (if anything).
pub open spec fn price_of(base_asset: Seq<char>, asset: Seq<char>, stored: Option<PriceInfo>) -> Option<PriceInfo> {
    if asset == base_asset {
        Some(PriceInfo { price: Decimal256::from_nat(df()), last_updated_time: base_asset_time() })
    } else {
        stored
    }
}

fn read_price_of(base_asset: &String, asset: &String, stored: Option<PriceInfo>) -> (r: Option<PriceInfo>)
    ensures
        r == price_of(base_asset@, asset@, stored),
{
    proof {
        broadcast use group_uint256;
    }
    if *base_asset == *asset {
        Some(PriceInfo { price: Decimal256::one(), last_updated_time: 9999999999 })
    } else {
        stored
    }
}

/// The price of `base` in `quote`: the ratio of their prices. `stored_base`
/// and `stored_quote` are what the oracle holds for the two assets.
pub fn query_price(
    base_asset: &String,
    base: &String,
    quote: &String,
    stored_base: Option<PriceInfo>,
    stored_quote: Option<PriceInfo>,
) -> (r: Result<PriceResponse, OracleError>)
    requires
        price_of(base_asset@, quote@, stored_quote) matches Some(q) ==> q.price@ != 0,
        price_of(base_asset@, base@, stored_base) matches Some(b) ==> b.price@ * df() < pow256(),
    ensures
        r is Ok <==> (price_of(base_asset@, quote@, stored_quote) is Some && price_of(
            base_asset@,
            base@,
            stored_base,
        ) is Some),
        r matches Ok(p) ==> ({
            let b = price_of(base_asset@, base@, stored_base).unwrap();
            let q = price_of(base_asset@, quote@, stored_quote).unwrap();
            &&& p.rate@ == b.price@ * df() / q.price@
            &&& p.last_updated_base == b.last_updated_time
            &&& p.last_updated_quote == q.last_updated_time
        }),
{
    proof {
        broadcast use group_uint256;
    }
    let quote_price = match read_price_of(base_asset, quote, stored_quote) {
        Some(p) => p,
        None => {
            return Err(OracleError::PriceNotFound);
        },
    };
    let base_price = match read_price_of(base_asset, base, stored_base) {
        Some(p) => p,
        None => {
            return Err(OracleError::PriceNotFound);
        },
    };
    Ok(
        PriceResponse {
            rate: base_price.price / quote_price.price,
            last_updated_base: base_price.last_updated_time,
            last_updated_quote: quote_price.last_updated_time,
        },
    )
}

/// The prices to store from a feed: every asset's registered feeder must be
/// the sender. `feeders[i]` is the feeder registered for `prices[i]`'s asset.
pub fn feed_prices(
    sender: &Vec<u8>,
    prices: Vec<(String, Decimal256)>,
    feeders: Vec<Option<Vec<u8>>>,
    block_time: u64,
) -> (r: Result<Vec<(String, PriceInfo)>, OracleError>)
    requires
        feeders@.len() == prices@.len(),
    ensures
        r is Ok <==> forall|i: int|
            0 <= i < prices@.len() ==> (#[trigger] feeders@[i] matches Some(f) && f@ == sender@),
        r matches Ok(stored) ==> stored@.len() == prices@.len() && forall|i: int|
            0 <= i < prices@.len() ==> {
                &&& (#[trigger] stored@[i]).0@ == prices@[i].0@
                &&& stored@[i].1.price == prices@[i].1
                &&& stored@[i].1.last_updated_time == block_time
            },
        r matches Err(e) ==> exists|i: int|
            0 <= i < prices@.len() && {
                &&& forall|k: int| 0 <= k < i ==> (#[trigger] feeders@[k] matches Some(f) && f@ == sender@)
                &&& e == (if feeders@[i] is Some {
                    OracleError::Unauthorized
                } else {
                    OracleError::FeederNotFound
                })
                &&& !(feeders@[i] matches Some(f) && f@ == sender@)
            },
{
    let mut stored: Vec<(String, PriceInfo)> = Vec::new();
    let mut i: usize = 0;
    while i < prices.len()
        invariant
            feeders@.len() == prices@.len(),
            i <= prices@.len(),
            stored@.len() == i,
            forall|k: int| 0 <= k < i ==> (#[trigger] feeders@[k] matches Some(f) && f@ == sender@),
            forall|k: int|
                0 <= k < i ==> {
                    &&& (#[trigger] stored@[k]).0@ == prices@[k].0@
                    &&& stored@[k].1.price == prices@[k].1
                    &&& stored@[k].1.last_updated_time == block_time
                },
        decreases prices.len() - i,
    {
        // Check feeder permission
        match &feeders[i] {
            None => {
                return Err(OracleError::FeederNotFound);
            },
            Some(feeder) => {
                if !crate::tokens::bytes_equal(feeder, sender) {
                    return Err(OracleError::Unauthorized);
                }
            },
        }
        let asset = prices[i].0.clone();
        stored.push((asset, PriceInfo { price: prices[i].1, last_updated_time: block_time }));
        i = i + 1;
    }
    Ok(stored)
}

/// Only the owner may change the configuration or register feeders.
pub fn assert_owner(sender: &Vec<u8>, owner: &Vec<u8>) -> (r: Result<(), OracleError>)
    ensures
        r is Ok <==> sender@ == owner@,
        r matches Err(e) ==> e == OracleError::Unauthorized,
{
    if crate::tokens::bytes_equal(sender, owner) {
        Ok(())
    } else {
        Err(OracleError::Unauthorized)
    }
}

/// What a feeder posts is what is read back: the price of an asset in the
/// base asset is the price stored for it, with its time; the base asset
/// itself is worth 1.
pub proof fn lemma_fed_price_read_back(base_asset: Seq<char>, asset: Seq<char>, fed: PriceInfo, stored_base: Option<PriceInfo>)
    requires
        asset != base_asset,
    ensures
        ({
            let b = price_of(base_asset, asset, Some(fed)).unwrap();
            let q = price_of(base_asset, base_asset, stored_base).unwrap();
            &&& b == fed
            &&& q.price@ == df()
            &&& b.price@ * df() / q.price@ == fed.price@
        }),
{
    broadcast use group_uint256;
    vstd::arithmetic::div_mod::lemma_div_by_multiple(fed.price@ as int, df() as int);
}

} // verus!
