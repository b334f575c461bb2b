use moneymarket::bignumber::Decimal256;
use moneymarket::oracle::{assert_owner, feed_prices, query_price, OracleError, PriceInfo, PriceResponse};

// the seconds of the block time of the test environment
const BLOCK_TIME: u64 = 1571797419;

fn addr(s: &str) -> Vec<u8> {
    s.as_bytes().to_vec()
}

#[test]
fn register_feeder() {
    // only the owner registers feeders
    assert_eq!(assert_owner(&addr("addr0000"), &addr("owner0000")), Err(OracleError::Unauthorized));
    assert_eq!(assert_owner(&addr("owner0000"), &addr("owner0000")), Ok(()));
}

#[test]
fn feed_price() {
    let base_asset = "base0000".to_string();
    let feeder = addr("feeder0000");
    let prices = vec![
        ("mAAPL".to_string(), Decimal256::from_str("1.2").unwrap()),
        ("mGOGL".to_string(), Decimal256::from_str("2.2").unwrap()),
    ];
    let stored = feed_prices(&feeder, prices, vec![Some(feeder.clone()), Some(feeder.clone())], BLOCK_TIME).unwrap();
    assert_eq!(stored.len(), 2);
    let aapl: PriceInfo = stored[0].1;
    let gogl: PriceInfo = stored[1].1;
    assert_eq!(stored[0].0, "mAAPL");
    assert_eq!(aapl, PriceInfo { price: Decimal256::from_str("1.2").unwrap(), last_updated_time: BLOCK_TIME });

    let value = query_price(&base_asset, &"mAAPL".to_string(), &"base0000".to_string(), Some(aapl), None).unwrap();
    assert_eq!(
        value,
        PriceResponse {
            rate: Decimal256::from_str("1.2").unwrap(),
            last_updated_base: BLOCK_TIME,
            last_updated_quote: 9999999999,
        }
    );

    let value = query_price(&base_asset, &"mGOGL".to_string(), &"mAAPL".to_string(), Some(gogl), Some(aapl)).unwrap();
    assert_eq!(
        value,
        PriceResponse {
            rate: Decimal256::from_str("1.833333333333333333").unwrap(),
            last_updated_base: BLOCK_TIME,
            last_updated_quote: BLOCK_TIME,
        }
    );

    // Unauthorized try
    let res = feed_prices(
        &addr("addr0001"),
        vec![("mAAPL".to_string(), Decimal256::from_str("1.2").unwrap())],
        vec![Some(feeder)],
        BLOCK_TIME,
    );
    assert_eq!(res, Err(OracleError::Unauthorized));
}

#[test]
fn feed_price_without_feeder() {
    let res = feed_prices(&addr("f"), vec![("mX".to_string(), Decimal256::one())], vec![None], 1);
    assert_eq!(res, Err(OracleError::FeederNotFound));
}

#[test]
fn query_price_missing_price() {
    let base_asset = "base0000".to_string();
    let res = query_price(&base_asset, &"mAAPL".to_string(), &"base0000".to_string(), None, None);
    assert_eq!(res, Err(OracleError::PriceNotFound));
}

#[test]
fn fed_price_reads_back_in_base_asset() {
    let base_asset = "base0000".to_string();
    let info = PriceInfo { price: Decimal256::from_str("123.456").unwrap(), last_updated_time: 7 };
    let value = query_price(&base_asset, &"mX".to_string(), &base_asset, Some(info), None).unwrap();
    assert_eq!(value.rate, info.price);
    assert_eq!(value.last_updated_base, 7);
}

#[test]
fn oracle_update_config() {
    // update owner: only the owner may
    assert_eq!(assert_owner(&addr("owner0000"), &addr("owner0000")), Ok(()));
    let owner = addr("owner0001");
    // Unauthorized err: the former owner no longer may
    assert_eq!(assert_owner(&addr("owner0000"), &owner), Err(OracleError::Unauthorized));
    assert_eq!(assert_owner(&addr("owner0001"), &owner), Ok(()));
}
