//! The arithmetic core: calls into `bigint::U256` on four little-endian
//! 64-bit words, with the value of the words stated as a natural number.

use vstd::prelude::*;

verus! {

/// 2^64
pub open spec fn pow64() -> nat {
    0x1_0000_0000_0000_0000nat
}

/// 2^128
pub open spec fn pow128() -> nat {
    0x1_0000_0000_0000_0000_0000_0000_0000_0000nat
}

/// 2^192
pub open spec fn pow192() -> nat {
    0x1_0000_0000_0000_0000_0000_0000_0000_0000_0000_0000_0000_0000nat
}

/// 2^256, one more than the largest value four words hold.
pub open spec fn pow256() -> nat {
    0x1_0000_0000_0000_0000_0000_0000_0000_0000_0000_0000_0000_0000_0000_0000_0000_0000nat
}

/// The number that four little-endian words stand for.
pub open spec fn words_value(w: [u64; 4]) -> nat {
    w[0] as nat + w[1] as nat * pow64() + w[2] as nat * pow128() + w[3] as nat * pow192()
}

/// The decimal digit that `c` is, if it is one.
pub open spec fn is_digit(c: char) -> bool {
    '0' <= c && c <= '9'
}

pub open spec fn digit_value(c: char) -> nat {
    (c as int - '0' as int) as nat
}

pub open spec fn digit_char(d: nat) -> char {
    (d + '0' as int) as char
}

/// Every character of `s` is a decimal digit (the empty string included).
pub open spec fn all_digits(s: Seq<char>) -> bool {
    forall|i: int| 0 <= i < s.len() ==> #[trigger] is_digit(s[i])
}

/// The number that a string of decimal digits denotes (0 for the empty string).
pub open spec fn digits_value(s: Seq<char>) -> nat
    decreases s.len(),
{
    if s.len() == 0 {
        0
    } else {
        digits_value(s.drop_last()) * 10 + digit_value(s.last())
    }
}

/// The decimal representation of `n`, without leading zeros ("0" for zero).
pub open spec fn decimal_string(n: nat) -> Seq<char>
    decreases n,
{
    if n < 10 {
        seq![digit_char(n)]
    } else {
        decimal_string(n / 10).push(digit_char(n % 10))
    }
}

/// `base` raised to `exp`.
pub open spec fn nat_pow(base: nat, exp: nat) -> nat
    decreases exp,
{
    if exp == 0 {
        1
    } else {
        base * nat_pow(base, (exp - 1) as nat)
    }
}

/// `bigint::U256` addition (`+`), which panics on overflow.
#[verifier::external_body]
pub(crate) fn words_add(a: [u64; 4], b: [u64; 4]) -> (r: [u64; 4])
    requires
        words_value(a) + words_value(b) < pow256(),
    ensures
        words_value(r) == words_value(a) + words_value(b),
{
    (bigint::U256(a) + bigint::U256(b)).0
}

/// `bigint::U256` subtraction (`-`), which panics on underflow.
#[verifier::external_body]
pub(crate) fn words_sub(a: [u64; 4], b: [u64; 4]) -> (r: [u64; 4])
    requires
        words_value(a) >= words_value(b),
    ensures
        words_value(r) == words_value(a) - words_value(b),
{
    (bigint::U256(a) - bigint::U256(b)).0
}

/// `bigint::U256` multiplication (`*`), which panics on overflow.
#[verifier::external_body]
pub(crate) fn words_mul(a: [u64; 4], b: [u64; 4]) -> (r: [u64; 4])
    requires
        words_value(a) * words_value(b) < pow256(),
    ensures
        words_value(r) == words_value(a) * words_value(b),
{
    (bigint::U256(a) * bigint::U256(b)).0
}

/// `bigint::U256` division (`/`), rounding down; it panics on a zero divisor.
#[verifier::external_body]
pub(crate) fn words_div(a: [u64; 4], b: [u64; 4]) -> (r: [u64; 4])
    requires
        words_value(b) != 0,
    ensures
        words_value(r) == words_value(a) / words_value(b),
{
    (bigint::U256(a) / bigint::U256(b)).0
}

/// `bigint::U256` remainder (`%`); it panics on a zero divisor.
#[verifier::external_body]
pub(crate) fn words_rem(a: [u64; 4], b: [u64; 4]) -> (r: [u64; 4])
    requires
        words_value(b) != 0,
    ensures
        words_value(r) == words_value(a) % words_value(b),
{
    (bigint::U256(a) % bigint::U256(b)).0
}

/// `bigint::U256::pow`, here only on small bases and exponents, where no
/// intermediate product of its square-and-multiply loop can overflow.
#[verifier::external_body]
pub(crate) fn words_pow(base: [u64; 4], exp: [u64; 4]) -> (r: [u64; 4])
    requires
        words_value(base) <= 10,
        words_value(exp) <= 18,
    ensures
        words_value(r) == nat_pow(words_value(base), words_value(exp)),
{
    bigint::U256(base).pow(bigint::U256(exp)).0
}

/// `bigint::U256::from_dec_str`: it accepts exactly the strings of decimal
/// digits (the empty one included) whose value is below 2^256.
#[verifier::external_body]
pub(crate) fn words_from_dec_str(s: &str) -> (r: Option<[u64; 4]>)
    ensures
        r.is_some() <==> (all_digits(s@) && digits_value(s@) < pow256()),
        r matches Some(w) ==> words_value(w) == digits_value(s@),
{
    match bigint::U256::from_dec_str(s) {
        Ok(v) => Some(v.0),
        Err(_) => None,
    }
}

/// The `Display` form of a `bigint::U256`: its decimal digits.
#[verifier::external_body]
pub(crate) fn words_to_string(a: [u64; 4]) -> (r: String)
    ensures
        r@ == decimal_string(words_value(a)),
{
    bigint::U256(a).to_string()
}

/// `String::push`: appends one character.
#[verifier::external_body]
pub(crate) fn string_push(s: &mut String, c: char)
    ensures
        final(s)@ == old(s)@.push(c),
{
    s.push(c)
}

} // verus!
