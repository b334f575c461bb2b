//! `Decimal256`: a fixed-point decimal with 18 fractional digits.

use vstd::prelude::*;

use super::backend::{pow256, words_mul, words_value};
use super::uint256::{Uint256, lemma_view_from_nat, group_uint256};

verus! {

/// 10^18, the number of atomics in 1.0.
pub open spec fn df() -> nat {
    1_000_000_000_000_000_000nat
}

/// The atomics of the product of decimals with `a` and `b` atomics (and of
/// an integer `a` times a decimal with `b` atomics), rounded down.
pub open spec fn dmul(a: nat, b: nat) -> nat {
    a * b / df()
}

/// The atomics of the quotient of decimals with `a` and `b` atomics (and an
/// integer `a` divided by a decimal with `b` atomics), rounded down.
pub open spec fn ddiv(a: nat, b: nat) -> nat {
    a * df() / b
}

/// A fixed-point decimal value with 18 fractional digits, i.e.
/// Decimal256(1_000_000_000_000_000_000) == 1.0. Its value as a natural
/// number is the number of atomics (units of 10^-18).
#[derive(Clone, Copy, Debug, Default, PartialEq, Eq, Structural)]
pub struct Decimal256(pub Uint256);

impl View for Decimal256 {
    type V = nat;

    open spec fn view(&self) -> nat {
        self.0@
    }
}

impl Decimal256 {
    /// The decimal with `n` atomics.
    pub open spec fn from_nat(n: nat) -> Decimal256 {
        Decimal256(Uint256::from_nat(n))
    }

    /// 10^18 as a `Uint256`: the atomics of 1.0.
    pub fn decimal_fractional() -> (r: Uint256)
        ensures
            r@ == df(),
    {
        Uint256 { w0: 1_000_000_000_000_000_000u64, w1: 0, w2: 0, w3: 0 }
    }

    /// The greatest decimal, (2^256 - 1) atomics.
    pub fn max_value() -> (r: Decimal256)
        ensures
            r@ == pow256() - 1,
    {
        Decimal256(Uint256 { w0: u64::MAX, w1: u64::MAX, w2: u64::MAX, w3: u64::MAX })
    }

    /// Create a 1.0 Decimal256
    pub fn one() -> (r: Decimal256)
        ensures
            r@ == df(),
    {
        Decimal256(Decimal256::decimal_fractional())
    }

    /// Create a 0.0 Decimal256
    pub fn zero() -> (r: Decimal256)
        ensures
            r@ == 0,
    {
        Decimal256(Uint256::zero())
    }

    /// Convert x% into Decimal256
    pub fn percent(x: u64) -> (r: Decimal256)
        ensures
            r@ == x * 10_000_000_000_000_000nat,
    {
        let a = Uint256::from(x);
        let b = Uint256::from(10_000_000_000_000_000u64);
        proof {
            broadcast use group_uint256;
            assert(x * 10_000_000_000_000_000nat < pow256()) by (nonlinear_arith)
                requires x < 0x1_0000_0000_0000_0000nat;
        }
        Decimal256(Uint256::from_words(words_mul(a.words(), b.words())))
    }

    /// Convert permille (x/1000) into Decimal256
    pub fn permille(x: u64) -> (r: Decimal256)
        ensures
            r@ == x * 1_000_000_000_000_000nat,
    {
        let a = Uint256::from(x);
        let b = Uint256::from(1_000_000_000_000_000u64);
        proof {
            broadcast use group_uint256;
            assert(x * 1_000_000_000_000_000nat < pow256()) by (nonlinear_arith)
                requires x < 0x1_0000_0000_0000_0000nat;
        }
        Decimal256(Uint256::from_words(words_mul(a.words(), b.words())))
    }

    /// Returns the ratio (nominator / denominator) as a Decimal256
    pub fn from_ratio(nominator: Uint256, denominator: Uint256) -> (r: Decimal256)
        requires
            denominator@ != 0,
            nominator@ * df() < pow256(),
        ensures
            r@ == nominator@ * df() / denominator@,
    {
        Decimal256(nominator.multiply_ratio(Decimal256::decimal_fractional(), denominator))
    }

    /// The decimal with the integer value `val`.
    pub fn from_uint256(val: Uint256) -> (r: Decimal256)
        requires
            val@ * df() < pow256(),
        ensures
            r@ == val@ * df(),
    {
        Decimal256(Uint256::from_words(words_mul(val.words(), Decimal256::decimal_fractional().words())))
    }

    pub fn is_zero(&self) -> (r: bool)
        ensures
            r == (self@ == 0),
    {
        self.0.is_zero()
    }
}

impl core::ops::Add for Decimal256 {
    type Output = Decimal256;

    fn add(self, rhs: Decimal256) -> (r: Decimal256) {
        proof {
            broadcast use group_uint256;
        }
        Decimal256(self.0 + rhs.0)
    }
}

impl vstd::std_specs::ops::AddSpecImpl for Decimal256 {
    open spec fn obeys_add_spec() -> bool {
        true
    }

    open spec fn add_req(self, rhs: Decimal256) -> bool {
        self@ + rhs@ < pow256()
    }

    open spec fn add_spec(self, rhs: Decimal256) -> Decimal256 {
        Decimal256::from_nat(self@ + rhs@)
    }
}

impl core::ops::Sub for Decimal256 {
    type Output = Decimal256;

    fn sub(self, rhs: Decimal256) -> (r: Decimal256) {
        proof {
            broadcast use group_uint256;
        }
        Decimal256(self.0 - rhs.0)
    }
}

impl vstd::std_specs::ops::SubSpecImpl for Decimal256 {
    open spec fn obeys_sub_spec() -> bool {
        true
    }

    /// Subtraction asks `self >= rhs`; a smaller minuend is an underflow.
    open spec fn sub_req(self, rhs: Decimal256) -> bool {
        self@ >= rhs@
    }

    open spec fn sub_spec(self, rhs: Decimal256) -> Decimal256 {
        Decimal256::from_nat((self@ - rhs@) as nat)
    }
}

impl core::ops::Mul for Decimal256 {
    type Output = Decimal256;

    fn mul(self, rhs: Decimal256) -> (r: Decimal256) {
        let r = Decimal256(self.0.multiply_ratio(rhs.0, Decimal256::decimal_fractional()));
        proof {
            lemma_view_from_nat(r.0);
        }
        r
    }
}

impl vstd::std_specs::ops::MulSpecImpl for Decimal256 {
    open spec fn obeys_mul_spec() -> bool {
        true
    }

    /// The product of the atomics must fit before it is scaled down.
    open spec fn mul_req(self, rhs: Decimal256) -> bool {
        self@ * rhs@ < pow256()
    }

    open spec fn mul_spec(self, rhs: Decimal256) -> Decimal256 {
        Decimal256::from_nat(self@ * rhs@ / df())
    }
}

impl core::ops::Div for Decimal256 {
    type Output = Decimal256;

    fn div(self, rhs: Decimal256) -> (r: Decimal256) {
        let r = Decimal256(self.0.multiply_ratio(Decimal256::decimal_fractional(), rhs.0));
        proof {
            lemma_view_from_nat(r.0);
        }
        r
    }
}

impl vstd::std_specs::ops::DivSpecImpl for Decimal256 {
    open spec fn obeys_div_spec() -> bool {
        true
    }

    /// Division asks a nonzero divisor and a scaled dividend that fits.
    open spec fn div_req(self, rhs: Decimal256) -> bool {
        rhs@ != 0 && self@ * df() < pow256()
    }

    open spec fn div_spec(self, rhs: Decimal256) -> Decimal256 {
        Decimal256::from_nat(self@ * df() / rhs@)
    }
}

/// Both d*u and u*d with d: Decimal256 and u: Uint256 returns an Uint256.
impl core::ops::Mul<Decimal256> for Uint256 {
    type Output = Uint256;

    fn mul(self, rhs: Decimal256) -> (r: Uint256) {
        proof {
            broadcast use group_uint256;
        }
        // 0*a and b*0 is always 0
        if self.is_zero() || rhs.is_zero() {
            proof {
                assert(self@ * rhs@ == 0) by (nonlinear_arith)
                    requires
                        self@ == 0 || rhs@ == 0,
                ;
            }
            return Uint256::zero();
        }
        let r = self.multiply_ratio(rhs.0, Decimal256::decimal_fractional());
        r
    }
}

impl vstd::std_specs::ops::MulSpecImpl<Decimal256> for Uint256 {
    open spec fn obeys_mul_spec() -> bool {
        true
    }

    open spec fn mul_req(self, rhs: Decimal256) -> bool {
        self@ * rhs@ < pow256()
    }

    open spec fn mul_spec(self, rhs: Decimal256) -> Uint256 {
        Uint256::from_nat(self@ * rhs@ / df())
    }
}

impl core::ops::Div<Decimal256> for Uint256 {
    type Output = Uint256;

    fn div(self, rhs: Decimal256) -> (r: Uint256) {
        proof {
            broadcast use group_uint256;
        }
        if self.is_zero() {
            return Uint256::zero();
        }
        self.multiply_ratio(Decimal256::decimal_fractional(), rhs.0)
    }
}

impl vstd::std_specs::ops::DivSpecImpl<Decimal256> for Uint256 {
    open spec fn obeys_div_spec() -> bool {
        true
    }

    /// Division asks a nonzero divisor and a scaled dividend that fits.
    open spec fn div_req(self, rhs: Decimal256) -> bool {
        rhs@ != 0 && self@ * df() < pow256()
    }

    open spec fn div_spec(self, rhs: Decimal256) -> Uint256 {
        Uint256::from_nat(self@ * df() / rhs@)
    }
}

impl core::ops::Mul<Uint256> for Decimal256 {
    type Output = Uint256;

    fn mul(self, rhs: Uint256) -> (r: Uint256) {
        proof {
            assert(self@ * rhs@ == rhs@ * self@) by (nonlinear_arith);
        }
        rhs * self
    }
}

impl vstd::std_specs::ops::MulSpecImpl<Uint256> for Decimal256 {
    open spec fn obeys_mul_spec() -> bool {
        true
    }

    open spec fn mul_req(self, rhs: Uint256) -> bool {
        self@ * rhs@ < pow256()
    }

    open spec fn mul_spec(self, rhs: Uint256) -> Uint256 {
        Uint256::from_nat(self@ * rhs@ / df())
    }
}

} // verus!
