//! Arithmetic on `cosmwasm_std::Decimal`, the 128-bit fixed-point decimal
//! of CosmWasm: a decimal is held here by its atomics (the value times
//! 10^18), and the decimal operations are those of `cosmwasm_std`.

use vstd::prelude::*;

use cosmwasm_std::Fraction;

use crate::bignumber::backend::pow128;

verus! {

/// The atomics of a `cosmwasm_std::Decimal` of 1.
pub open spec fn cw_df() -> nat {
    1_000_000_000_000_000_000
}

/// The scale the decimal operations below work at: 10^9.
pub const DECIMAL_FRACTIONAL: u128 = 1_000_000_000u128;

/// `cosmwasm_std::Decimal::from_ratio`: the decimal `numerator /
/// denominator`, whose atomics are `numerator * 10^18 / denominator`
/// rounded down. It panics on a zero denominator and where the atomics do
/// not fit in 128 bits, which `requires` leaves out.
#[verifier::external_body]
fn cw_decimal_from_ratio(numerator: u128, denominator: u128) -> (r: u128)
    requires
        denominator != 0,
        (numerator as nat) * cw_df() / (denominator as nat) < pow128(),
    ensures
        r == (numerator as nat) * cw_df() / (denominator as nat),
{
    cosmwasm_std::Decimal::from_ratio(numerator, denominator).numerator()
}

/// `cosmwasm_std::Uint128 * cosmwasm_std::Decimal`: the integer times the
/// decimal, rounded down (0 where either is 0). The decimal is built from
/// its atomics as the ratio of them to 10^18, which is exact. It panics
/// where the product does not fit in 128 bits, which `requires` leaves out.
#[verifier::external_body]
fn cw_uint128_mul_decimal(a: u128, decimal: u128) -> (r: u128)
    requires
        (a as nat) * (decimal as nat) / cw_df() < pow128(),
    ensures
        r == (a as nat) * (decimal as nat) / cw_df(),
{
    let d = cosmwasm_std::Decimal::from_ratio(decimal, 1_000_000_000_000_000_000u128);
    (cosmwasm_std::Uint128::new(a) * d).u128()
}

/// `a * 10^9`, as the decimal operations scale their operands.
pub open spec fn scaled(atomics: nat) -> nat {
    atomics * 1_000_000_000nat / cw_df()
}

/// A decimal scaled by 10^9 fits where the decimal does, and is the
/// product the integer 10^9 times the decimal gives.
proof fn lemma_scaled_fits(a: nat)
    requires
        a < pow128(),
    ensures
        scaled(a) < pow128(),
        scaled(a) == 1_000_000_000nat * a / cw_df(),
{
    assert(a * 1_000_000_000nat / cw_df() < pow128()) by (nonlinear_arith)
        requires a < pow128(), cw_df() == 1_000_000_000_000_000_000nat;
    assert(a * 1_000_000_000nat == 1_000_000_000nat * a);
}

/// The atomics of `a / b`: the ratio of the two scaled by 10^9.
pub open spec fn decimal_quotient(a: nat, b: nat) -> nat {
    scaled(a) * cw_df() / scaled(b)
}

/// Returns `a / b` (by atomics): both are scaled by 10^9 and their ratio
/// taken. The divisor must not vanish at that scale.
pub fn decimal_division(a: u128, b: u128) -> (r: u128)
    requires
        scaled(b as nat) != 0,
        decimal_quotient(a as nat, b as nat) < pow128(),
    ensures
        r == decimal_quotient(a as nat, b as nat),
{
    proof {
        lemma_scaled_fits(a as nat);
        lemma_scaled_fits(b as nat);
    }
    let n = cw_uint128_mul_decimal(DECIMAL_FRACTIONAL, a);
    let d = cw_uint128_mul_decimal(DECIMAL_FRACTIONAL, b);
    cw_decimal_from_ratio(n, d)
}

/// Returns `1 / a` (by atomics), and 0 for 0.
pub fn reverse_decimal(decimal: u128) -> (r: u128)
    requires
        decimal != 0 ==> scaled(decimal as nat) != 0,
        decimal != 0 ==> 1_000_000_000nat * cw_df() / scaled(decimal as nat) < pow128(),
    ensures
        decimal == 0 ==> r == 0,
        decimal != 0 ==> r == 1_000_000_000nat * cw_df() / scaled(decimal as nat),
{
    if decimal == 0 {
        return 0;
    }
    proof {
        lemma_scaled_fits(decimal as nat);
    }
    let d = cw_uint128_mul_decimal(DECIMAL_FRACTIONAL, decimal);
    cw_decimal_from_ratio(DECIMAL_FRACTIONAL, d)
}

/// The atomics of `a * b`: `a` scaled by 10^9 times `b`, unscaled again.
pub open spec fn decimal_product(a: nat, b: nat) -> nat {
    (scaled(a) * b / cw_df()) * cw_df() / 1_000_000_000nat
}

/// Returns `a * b` (by atomics).
pub fn decimal_multiplication(a: u128, b: u128) -> (r: u128)
    requires
        scaled(a as nat) * (b as nat) / cw_df() < pow128(),
        decimal_product(a as nat, b as nat) < pow128(),
    ensures
        r == decimal_product(a as nat, b as nat),
{
    proof {
        lemma_scaled_fits(a as nat);
    }
    let x = cw_uint128_mul_decimal(DECIMAL_FRACTIONAL, a);
    let y = cw_uint128_mul_decimal(x, b);
    cw_decimal_from_ratio(y, DECIMAL_FRACTIONAL)
}

} // verus!
