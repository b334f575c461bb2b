use moneymarket::bignumber::{Decimal256, Uint256};
use moneymarket::oracle::PriceResponse;
use moneymarket::querier::{compute_tax, deduct_tax, query_price, Coin, PriceError, TimeConstraints};

#[test]
fn test_compute_tax() {
    let tax_rate = Decimal256::percent(1);
    let tax_cap = Uint256::from(1000000u64);

    // cap to 1000000
    assert_eq!(compute_tax(tax_rate, tax_cap, 10000000000u128), Uint256::from(1000000u64));

    // normal tax
    assert_eq!(compute_tax(tax_rate, tax_cap, 50000000u128), Uint256::from(495050u64));
}

#[test]
fn test_deduct_tax() {
    let tax_rate = Decimal256::percent(1);
    let tax_cap = Uint256::from(1000000u64);

    // cap to 1000000
    assert_eq!(
        deduct_tax(tax_rate, tax_cap, Coin { denom: "uusd".to_string(), amount: 10000000000u128 }),
        Coin { denom: "uusd".to_string(), amount: 9999000000u128 }
    );

    // normal tax
    assert_eq!(
        deduct_tax(tax_rate, tax_cap, Coin { denom: "uusd".to_string(), amount: 50000000u128 }),
        Coin { denom: "uusd".to_string(), amount: 49504950u128 }
    );
}

#[test]
fn oracle_price_querier() {
    let price = PriceResponse {
        rate: Decimal256::from_ratio(Uint256::from(131u64), Uint256::from(2u64)),
        last_updated_base: 123,
        last_updated_quote: 321,
    };
    assert_eq!(query_price(price, None), Ok(price));

    let res = query_price(price, Some(TimeConstraints { block_time: 500u64, valid_timeframe: 60u64 }));
    assert_eq!(res, Err(PriceError::PriceTooOld));
}

#[test]
fn query_price_within_timeframe() {
    let price = PriceResponse { rate: Decimal256::one(), last_updated_base: 440, last_updated_quote: 450 };
    assert_eq!(query_price(price, Some(TimeConstraints { block_time: 500, valid_timeframe: 60 })), Ok(price));
    let stale = PriceResponse { rate: Decimal256::one(), last_updated_base: 450, last_updated_quote: 439 };
    assert_eq!(
        query_price(stale, Some(TimeConstraints { block_time: 500, valid_timeframe: 60 })),
        Err(PriceError::PriceTooOld)
    );
}

#[test]
fn zero_tax_rate_takes_nothing() {
    assert_eq!(compute_tax(Decimal256::zero(), Uint256::from(1000u64), 12345u128), Uint256::zero());
}

#[test]
fn concat_joins_namespace_and_key() {
    assert_eq!(moneymarket::querier::concat(b"config", b"key"), b"configkey".to_vec());
    assert_eq!(moneymarket::querier::concat(b"", b"k"), b"k".to_vec());
}
