use moneymarket::bignumber::Uint256;
use moneymarket::tokens::{Tokens, TokensError, TokensMath};

fn addr(s: &str) -> Vec<u8> {
    s.as_bytes().to_vec()
}

fn tokens(entries: &[(&str, u64)]) -> Tokens {
    entries.iter().map(|(a, v)| (addr(a), Uint256::from(*v))).collect()
}

#[test]
fn tokens_math() {
    let tokens_1 = tokens(&[
        ("token1", 1000000),
        ("token2", 1000000),
        ("token3", 1000000),
        ("token5", 1000000),
    ]);
    // not existing item
    let tokens_2 = tokens(&[("token1", 1000000), ("token4", 1000000)]);
    // not existing item
    let tokens_3 = tokens(&[("token1", 1000000), ("token6", 1000000)]);
    // sub bigger than source
    let tokens_4 = tokens(&[("token1", 1000000), ("token2", 1200000)]);

    assert_eq!(tokens_1.clone().sub(tokens_2).is_err(), true);
    assert_eq!(tokens_1.clone().sub(tokens_3).is_err(), true);
    assert_eq!(tokens_1.clone().sub(tokens_4).is_err(), true);
}

#[test]
fn tokens_math_normal_add() {
    let mut tokens_1 = tokens(&[
        ("token1", 1000000),
        ("token2", 1000000),
        ("token3", 1000000),
        ("token5", 1000000),
    ]);
    let tokens_2 = tokens(&[("token1", 1000000), ("token4", 1000000)]);

    tokens_1.add(tokens_2);
    assert_eq!(tokens_1[0].1, Uint256::from(2000000u64));
    assert_eq!(tokens_1.len(), 5);
}

#[test]
fn token_math_zero_token() {
    let mut tokens_1 = tokens(&[("token1", 1000000), ("token2", 1000000)]);
    let tokens_2 = tokens(&[("token1", 1000000), ("token2", 1000000)]);

    tokens_1.sub(tokens_2).unwrap();
    assert_eq!(tokens_1.len(), 0);
}

#[test]
fn tokens_add_sorts_by_address_and_merges() {
    let mut cur = tokens(&[("b", 5), ("a", 1)]);
    cur.add(tokens(&[("c", 2), ("a", 3)]));
    assert_eq!(cur, tokens(&[("a", 4), ("b", 5), ("c", 2)]));
}

#[test]
fn tokens_add_drops_zero_amounts() {
    let mut cur = tokens(&[("a", 1)]);
    cur.add(tokens(&[("b", 0)]));
    assert_eq!(cur, tokens(&[("a", 1)]));
}

#[test]
fn tokens_sub_underflow_error() {
    let mut cur = tokens(&[("a", 1)]);
    assert_eq!(cur.sub(tokens(&[("a", 2)])), Err(TokensError::SubtractionUnderflow));
}

#[test]
fn tokens_add_then_sub_restores_amounts() {
    let before = tokens(&[("bluna", 1000), ("batom", 700)]);
    let added = tokens(&[("batom", 300), ("bxyz", 5)]);
    let mut cur = before.clone();
    cur.add(added.clone());
    cur.sub(added).unwrap();
    assert_eq!(cur, tokens(&[("batom", 700), ("bluna", 1000)]));
    assert_eq!(before.len(), 2);
}
