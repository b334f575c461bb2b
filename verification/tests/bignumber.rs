use moneymarket::bignumber::{Decimal256, NumberError, Uint256};

fn atomics(v: u128) -> Decimal256 {
    Decimal256(Uint256::from(v))
}

#[test]
fn decimal_one() {
    let value = Decimal256::one();
    assert_eq!(value.0, Decimal256::decimal_fractional());
}

#[test]
fn decimal_zero() {
    let value = Decimal256::zero();
    assert_eq!(value.0, Uint256::zero());
}

#[test]
fn decimal_percent() {
    let value = Decimal256::percent(50);
    // DECIMAL_FRACTIONAL / 2
    assert_eq!(value.0, Uint256::from(500_000_000_000_000_000u64));
}

#[test]
fn decimal_permille() {
    let value = Decimal256::permille(125);
    // DECIMAL_FRACTIONAL / 8
    assert_eq!(value.0, Uint256::from(125_000_000_000_000_000u64));
}

fn u(v: u64) -> Uint256 {
    Uint256::from(v)
}

#[test]
fn decimal_from_ratio_works() {
    // 1.0
    assert_eq!(Decimal256::from_ratio(u(1), u(1)), Decimal256::one());
    assert_eq!(Decimal256::from_ratio(u(53), u(53)), Decimal256::one());
    assert_eq!(Decimal256::from_ratio(u(125), u(125)), Decimal256::one());

    // 1.5
    assert_eq!(Decimal256::from_ratio(u(3), u(2)), Decimal256::percent(150));
    assert_eq!(Decimal256::from_ratio(u(150), u(100)), Decimal256::percent(150));
    assert_eq!(Decimal256::from_ratio(u(333), u(222)), Decimal256::percent(150));

    // 0.125
    assert_eq!(Decimal256::from_ratio(u(1), u(8)), Decimal256::permille(125));
    assert_eq!(Decimal256::from_ratio(u(125), u(1000)), Decimal256::permille(125));

    // 1/3 (result floored)
    assert_eq!(
        Decimal256::from_ratio(u(1), u(3)),
        Decimal256(0_333_333_333_333_333_333u64.into())
    );

    // 2/3 (result floored)
    assert_eq!(
        Decimal256::from_ratio(u(2), u(3)),
        Decimal256(0_666_666_666_666_666_666u64.into())
    );
}

#[test]
fn decimal_from_str_works() {
    // Integers
    assert_eq!(Decimal256::from_str("").unwrap(), Decimal256::percent(0));
    assert_eq!(Decimal256::from_str("0").unwrap(), Decimal256::percent(0));
    assert_eq!(Decimal256::from_str("1").unwrap(), Decimal256::percent(100));
    assert_eq!(Decimal256::from_str("5").unwrap(), Decimal256::percent(500));
    assert_eq!(Decimal256::from_str("42").unwrap(), Decimal256::percent(4200));
    assert_eq!(Decimal256::from_str("000").unwrap(), Decimal256::percent(0));
    assert_eq!(Decimal256::from_str("001").unwrap(), Decimal256::percent(100));
    assert_eq!(Decimal256::from_str("005").unwrap(), Decimal256::percent(500));
    assert_eq!(Decimal256::from_str("0042").unwrap(), Decimal256::percent(4200));

    // Decimal256s
    assert_eq!(Decimal256::from_str("1.").unwrap(), Decimal256::percent(100));
    assert_eq!(Decimal256::from_str("1.0").unwrap(), Decimal256::percent(100));
    assert_eq!(Decimal256::from_str("1.5").unwrap(), Decimal256::percent(150));
    assert_eq!(Decimal256::from_str("0.5").unwrap(), Decimal256::percent(50));
    assert_eq!(Decimal256::from_str("0.123").unwrap(), Decimal256::permille(123));

    assert_eq!(Decimal256::from_str("40.00").unwrap(), Decimal256::percent(4000));
    assert_eq!(Decimal256::from_str("04.00").unwrap(), Decimal256::percent(400));
    assert_eq!(Decimal256::from_str("00.40").unwrap(), Decimal256::percent(40));
    assert_eq!(Decimal256::from_str("00.04").unwrap(), Decimal256::percent(4));

    // Can handle 18 fractional digits
    assert_eq!(
        Decimal256::from_str("7.123456789012345678").unwrap(),
        Decimal256(7123456789012345678u64.into())
    );
    assert_eq!(
        Decimal256::from_str("7.999999999999999999").unwrap(),
        Decimal256(7999999999999999999u64.into())
    );

    // Works for documented max value
    assert_eq!(
        Decimal256::from_str(
            "115792089237316195423570985008687907853269984665640564039457.584007913129639935"
        )
        .unwrap(),
        Decimal256::max_value()
    );
}

#[test]
fn decimal_from_str_errors_for_broken_whole_part() {
    assert_eq!(Decimal256::from_str(" ").unwrap_err(), NumberError::ParseWhole);
    assert_eq!(Decimal256::from_str("-1").unwrap_err(), NumberError::ParseWhole);
    assert_eq!(NumberError::ParseWhole.message(), "Error parsing whole");
}

#[test]
fn decimal_from_str_needs_a_whole_part_before_the_dot() {
    assert_eq!(Decimal256::from_str(".23").unwrap_err(), NumberError::ParseWhole);
    assert_eq!(Decimal256::from_str(".").unwrap_err(), NumberError::ParseWhole);
    // without a dot, the empty string is zero
    assert_eq!(Decimal256::from_str("").unwrap(), Decimal256::zero());
    assert_eq!(Decimal256::from_str("0.23").unwrap(), Decimal256::percent(23));
}

#[test]
fn decimal_text_reads_back() {
    for d in [
        Decimal256::zero(),
        Decimal256::percent(8),
        Decimal256::percent(8765),
        Decimal256::permille(1),
        Decimal256::from_str("7.123456789012345678").unwrap(),
        Decimal256::from_ratio(Uint256::from(1u64), Uint256::from(3u64)),
    ] {
        assert_eq!(Decimal256::from_str(&d.to_string()), Ok(d));
    }
    assert_eq!(Decimal256::percent(8).to_string(), "0.08");
    assert_eq!(Decimal256::percent(8765).to_string(), "87.65");
}

#[test]
fn decimal_from_str_errors_for_broken_fractinal_part() {
    assert_eq!(Decimal256::from_str("1. ").unwrap_err(), NumberError::ParseFractional);
    assert_eq!(Decimal256::from_str("1.e").unwrap_err(), NumberError::ParseFractional);
    assert_eq!(Decimal256::from_str("1.2e3").unwrap_err(), NumberError::ParseFractional);
    assert_eq!(NumberError::ParseFractional.message(), "Error parsing fractional");
}

#[test]
fn decimal_from_str_errors_for_more_than_18_fractional_digits() {
    assert_eq!(
        Decimal256::from_str("7.1234567890123456789").unwrap_err(),
        NumberError::TooManyFractionalDigits
    );
    // No special rules for trailing zeros.
    assert_eq!(
        Decimal256::from_str("7.1230000000000000000").unwrap_err(),
        NumberError::TooManyFractionalDigits
    );
    assert_eq!(
        NumberError::TooManyFractionalDigits.message(),
        "Cannot parse more than 18 fractional digits"
    );
}

#[test]
fn decimal_from_str_errors_for_invalid_number_of_dots() {
    assert_eq!(Decimal256::from_str("1.2.3").unwrap_err(), NumberError::UnexpectedDots);
    assert_eq!(Decimal256::from_str("1.2.3.4").unwrap_err(), NumberError::UnexpectedDots);
    assert_eq!(NumberError::UnexpectedDots.message(), "Unexpected number of dots");
}

#[test]
fn decimal_is_zero_works() {
    assert_eq!(Decimal256::zero().is_zero(), true);
    assert_eq!(Decimal256::percent(0).is_zero(), true);
    assert_eq!(Decimal256::permille(0).is_zero(), true);

    assert_eq!(Decimal256::one().is_zero(), false);
    assert_eq!(Decimal256::percent(123).is_zero(), false);
    assert_eq!(Decimal256::permille(1234).is_zero(), false);
}

#[test]
fn decimal_add() {
    let value = Decimal256::one() + Decimal256::percent(50); // 1.5
    // DECIMAL_FRACTIONAL * 3 / 2
    assert_eq!(value.0, Uint256::from(1_500_000_000_000_000_000u128));
}

#[test]
fn decimal_sub() {
    assert_eq!(Decimal256::percent(50), Decimal256::one() - Decimal256::percent(50));
}

#[test]
fn decimal_mul() {
    assert_eq!(
        Decimal256::percent(25),
        Decimal256::percent(50) * Decimal256::percent(50)
    );
}

#[test]
fn decimal_div() {
    assert_eq!(
        Decimal256::one() + Decimal256::one(),
        Decimal256::percent(50) / Decimal256::percent(25)
    );
}

#[test]
fn decimal_to_string() {
    // Integers
    assert_eq!(Decimal256::zero().to_string(), "0");
    assert_eq!(Decimal256::one().to_string(), "1");
    assert_eq!(Decimal256::percent(500).to_string(), "5");

    // Decimal256s
    assert_eq!(Decimal256::percent(125).to_string(), "1.25");
    assert_eq!(Decimal256::percent(42638).to_string(), "426.38");
    assert_eq!(Decimal256::percent(1).to_string(), "0.01");
    assert_eq!(Decimal256::permille(987).to_string(), "0.987");

    assert_eq!(atomics(1).to_string(), "0.000000000000000001");
    assert_eq!(atomics(10).to_string(), "0.00000000000000001");
    assert_eq!(atomics(100).to_string(), "0.0000000000000001");
    assert_eq!(atomics(1000).to_string(), "0.000000000000001");
    assert_eq!(atomics(10000).to_string(), "0.00000000000001");
    assert_eq!(atomics(100000).to_string(), "0.0000000000001");
    assert_eq!(atomics(1000000).to_string(), "0.000000000001");
    assert_eq!(atomics(10000000).to_string(), "0.00000000001");
    assert_eq!(atomics(100000000).to_string(), "0.0000000001");
    assert_eq!(atomics(1000000000).to_string(), "0.000000001");
    assert_eq!(atomics(10000000000).to_string(), "0.00000001");
    assert_eq!(atomics(100000000000).to_string(), "0.0000001");
    assert_eq!(atomics(10000000000000).to_string(), "0.00001");
    assert_eq!(atomics(100000000000000).to_string(), "0.0001");
    assert_eq!(atomics(1000000000000000).to_string(), "0.001");
    assert_eq!(atomics(10000000000000000).to_string(), "0.01");
    assert_eq!(atomics(100000000000000000).to_string(), "0.1");
}

#[test]
fn to_and_from_uint256() {
    let a: Uint256 = 12345u64.into();
    assert_eq!(Uint256::from(12345u64), a);
    assert_eq!("12345", a.to_string());

    let a: Uint256 = Uint256::try_from_str("34567").unwrap();
    assert_eq!(Uint256::from(34567u64), a);
    assert_eq!("34567", a.to_string());

    let a = Uint256::try_from_str("1.23");
    assert!(a.is_err());
}

#[test]
fn uint256_is_zero_works() {
    assert_eq!(Uint256::zero().is_zero(), true);
    assert_eq!(Uint256::from(0u64).is_zero(), true);

    assert_eq!(Uint256::from(1u64).is_zero(), false);
    assert_eq!(Uint256::from(123u64).is_zero(), false);
}

#[test]
fn uint256_compare() {
    let a = Uint256::from(12345u64);
    let b = Uint256::from(23456u64);

    assert!(a < b);
    assert!(b > a);
    assert_eq!(a, Uint256::from(12345u64));
}

#[test]
fn uint256_math() {
    let a = Uint256::from(12345u64);
    let b = Uint256::from(23456u64);

    // test + and - for valid values
    assert_eq!(a + b, Uint256::from(35801u64));
    assert_eq!(b - a, Uint256::from(11111u64));

    // test +=
    let mut c = Uint256::from(300000u64);
    c = c + b;
    assert_eq!(c, Uint256::from(323456u64));
}

#[test]
fn uint256_decimal_multiply() {
    // a*b
    let left = Uint256::from(300u64);
    let right = Decimal256::one() + Decimal256::percent(50); // 1.5
    assert_eq!(left * right, Uint256::from(450u64));

    // a*0
    let left = Uint256::from(300u64);
    let right = Decimal256::zero();
    assert_eq!(left * right, Uint256::from(0u64));

    // 0*a
    let left = Uint256::zero();
    let right = Decimal256::one() + Decimal256::percent(50); // 1.5
    assert_eq!(left * right, Uint256::zero());
}

#[test]
fn u256_multiply_ratio_works() {
    let base = Uint256::from(500u64);

    // factor 1/1
    assert_eq!(base.multiply_ratio(u(1), u(1)), Uint256::from(500u64));
    assert_eq!(base.multiply_ratio(u(3), u(3)), Uint256::from(500u64));
    assert_eq!(base.multiply_ratio(u(654321), u(654321)), Uint256::from(500u64));

    // factor 3/2
    assert_eq!(base.multiply_ratio(u(3), u(2)), Uint256::from(750u64));
    assert_eq!(base.multiply_ratio(u(333333), u(222222)), Uint256::from(750u64));

    // factor 2/3 (integer devision always floors the result)
    assert_eq!(base.multiply_ratio(u(2), u(3)), Uint256::from(333u64));
    assert_eq!(base.multiply_ratio(u(222222), u(333333)), Uint256::from(333u64));

    // factor 5/6 (integer devision always floors the result)
    assert_eq!(base.multiply_ratio(u(5), u(6)), Uint256::from(416u64));
    assert_eq!(base.multiply_ratio(u(100), u(120)), Uint256::from(416u64));
}

#[test]
fn u256_from_u128() {
    assert_eq!(Uint256::from(100u64), Uint256::from(100u128));
    let num = Uint256::from(1_000_000_000_000_000_000_000_000u128);
    assert_eq!(num.to_string(), "1000000000000000000000000");
}

#[test]
fn u256_zero_one() {
    assert_eq!(Uint256::zero(), Uint256::from_words([0, 0, 0, 0]));
    assert_eq!(Uint256::one(), Uint256::from_words([1, 0, 0, 0]));
}

#[test]
fn u256_into_u128() {
    let val: u128 = Uint256::from(1234556700000000000999u128).into_u128();
    assert_eq!(val, 1234556700000000000999u128);
}

#[test]
fn decimal_uint256_multiply() {
    // a*b
    let left = Decimal256::one() + Decimal256::percent(50); // 1.5
    let right = Uint256::from(300u64);
    assert_eq!(left * right, Uint256::from(450u64));

    // 0*a
    let left = Decimal256::zero();
    let right = Uint256::from(300u64);
    assert_eq!(left * right, Uint256::from(0u64));

    // a*0
    let left = Decimal256::one() + Decimal256::percent(50); // 1.5
    let right = Uint256::from(0u64);
    assert_eq!(left * right, Uint256::from(0u64));
}
