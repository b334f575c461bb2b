//! `Uint256`: an unsigned 256-bit integer.

use vstd::prelude::*;
use vstd::string::StringExecFns;
use super::backend::{
    all_digits, decimal_string, digits_value, pow128, pow192, pow256, pow64, words_add,
    words_div, words_from_dec_str, words_mul, words_sub, words_to_string, words_value,
};

verus! {

/// An unsigned integer below 2^256, held as four little-endian 64-bit words.
#[derive(Clone, Copy, Debug, Default, PartialEq, Eq, Structural)]
pub struct Uint256 {
    pub w0: u64,
    pub w1: u64,
    pub w2: u64,
    pub w3: u64,
}

impl View for Uint256 {
    type V = nat;

    open spec fn view(&self) -> nat {
        words_value(self.spec_words())
    }
}

impl Uint256 {
    /// The words, least significant first.
    pub open spec fn spec_words(&self) -> [u64; 4] {
        [self.w0, self.w1, self.w2, self.w3]
    }

    /// The value `n` (taken modulo 2^256).
    pub open spec fn from_nat(n: nat) -> Uint256 {
        Uint256 {
            w0: (n % pow64()) as u64,
            w1: ((n / pow64()) % pow64()) as u64,
            w2: ((n / pow128()) % pow64()) as u64,
            w3: ((n / pow192()) % pow64()) as u64,
        }
    }

    pub fn words(&self) -> (r: [u64; 4])
        ensures
            r == self.spec_words(),
            words_value(r) == self@,
    {
        [self.w0, self.w1, self.w2, self.w3]
    }

    /// The integer whose little-endian words these are.
    pub fn from_words(w: [u64; 4]) -> (r: Uint256)
        ensures
            r@ == words_value(w),
    {
        Uint256 { w0: w[0], w1: w[1], w2: w[2], w3: w[3] }
    }

    /// Creates a Uint256(0)
    pub fn zero() -> (r: Uint256)
        ensures
            r@ == 0,
    {
        Uint256 { w0: 0, w1: 0, w2: 0, w3: 0 }
    }

    /// Creates a Uint256(1)
    pub fn one() -> (r: Uint256)
        ensures
            r@ == 1,
    {
        Uint256 { w0: 1, w1: 0, w2: 0, w3: 0 }
    }

    pub fn is_zero(&self) -> (r: bool)
        ensures
            r == (self@ == 0),
    {
        self.w0 == 0 && self.w1 == 0 && self.w2 == 0 && self.w3 == 0
    }
}


/// The high and the low 64 bits of a `u128`.
pub fn split_u128(a: u128) -> (r: (u64, u64))
    ensures
        r.0 as nat * pow64() + r.1 as nat == a as nat,
{
    let hi = (a >> 64u32) as u64;
    let lo = (a & 0xFFFF_FFFF_FFFF_FFFFu128) as u64;
    assert(hi as nat * 0x1_0000_0000_0000_0000nat + lo as nat == a as nat) by (bit_vector)
        requires
            hi == (a >> 64u32) as u64,
            lo == (a & 0xFFFF_FFFF_FFFF_FFFFu128) as u64,
    ;
    (hi, lo)
}

impl From<u128> for Uint256 {
    fn from(val: u128) -> (r: Uint256) {
        let (hi, low) = split_u128(val);
        let r = Uint256 { w0: low, w1: hi, w2: 0, w3: 0 };
        proof {
            lemma_view_from_nat(r);
        }
        r
    }
}

impl vstd::std_specs::convert::FromSpecImpl<u128> for Uint256 {
    open spec fn obeys_from_spec() -> bool {
        true
    }

    open spec fn from_spec(v: u128) -> Uint256 {
        Uint256::from_nat(v as nat)
    }
}

impl From<u64> for Uint256 {
    fn from(val: u64) -> (r: Uint256) {
        let r = Uint256 { w0: val, w1: 0, w2: 0, w3: 0 };
        proof {
            lemma_view_from_nat(r);
        }
        r
    }
}

impl vstd::std_specs::convert::FromSpecImpl<u64> for Uint256 {
    open spec fn obeys_from_spec() -> bool {
        true
    }

    open spec fn from_spec(v: u64) -> Uint256 {
        Uint256::from_nat(v as nat)
    }
}

impl Uint256 {
    /// The value as a `u128`; it must fit.
    pub fn into_u128(self) -> (r: u128)
        requires
            self@ < pow128(),
        ensures
            r as nat == self@,
    {
        let hi = self.w1;
        let low = self.w0;
        assert(self.w2 == 0 && self.w3 == 0);
        let h = (hi as u128) << 64u32;
        assert(h as nat == hi as nat * 0x1_0000_0000_0000_0000nat && h as nat + low as nat <= 0xFFFF_FFFF_FFFF_FFFF_FFFF_FFFF_FFFF_FFFFnat) by (bit_vector)
            requires
                h == (hi as u128) << 64u32,
        ;
        h + (low as u128)
    }
}

impl core::ops::Add for Uint256 {
    type Output = Uint256;

    fn add(self, rhs: Uint256) -> (r: Uint256) {
        let r = Uint256::from_words(words_add(self.words(), rhs.words()));
        proof {
            lemma_view_from_nat(r);
        }
        r
    }
}

impl vstd::std_specs::ops::AddSpecImpl for Uint256 {
    open spec fn obeys_add_spec() -> bool {
        true
    }

    open spec fn add_req(self, rhs: Uint256) -> bool {
        self@ + rhs@ < pow256()
    }

    open spec fn add_spec(self, rhs: Uint256) -> Uint256 {
        Uint256::from_nat(self@ + rhs@)
    }
}


impl core::ops::Sub for Uint256 {
    type Output = Uint256;

    fn sub(self, rhs: Uint256) -> (r: Uint256) {
        let r = Uint256::from_words(words_sub(self.words(), rhs.words()));
        proof {
            lemma_view_from_nat(r);
        }
        r
    }
}

impl vstd::std_specs::ops::SubSpecImpl for Uint256 {
    open spec fn obeys_sub_spec() -> bool {
        true
    }

    /// Subtraction asks `self >= rhs`; a smaller minuend is an underflow.
    open spec fn sub_req(self, rhs: Uint256) -> bool {
        self@ >= rhs@
    }

    open spec fn sub_spec(self, rhs: Uint256) -> Uint256 {
        Uint256::from_nat((self@ - rhs@) as nat)
    }
}

impl core::ops::Mul for Uint256 {
    type Output = Uint256;

    fn mul(self, rhs: Uint256) -> (r: Uint256) {
        // 0*a and b*0 is always 0
        if self.is_zero() || rhs.is_zero() {
            let z = Uint256::zero();
            proof {
                lemma_view_from_nat(z);
                assert(self@ * rhs@ == 0) by (nonlinear_arith)
                    requires
                        self@ == 0 || rhs@ == 0,
                ;
            }
            return z;
        }
        let r = Uint256::from_words(words_mul(self.words(), rhs.words()));
        proof {
            lemma_view_from_nat(r);
        }
        r
    }
}

impl vstd::std_specs::ops::MulSpecImpl for Uint256 {
    open spec fn obeys_mul_spec() -> bool {
        true
    }

    open spec fn mul_req(self, rhs: Uint256) -> bool {
        self@ * rhs@ < pow256()
    }

    open spec fn mul_spec(self, rhs: Uint256) -> Uint256 {
        Uint256::from_nat(self@ * rhs@)
    }
}

impl Uint256 {
    /// returns self * nom / denom
    pub fn multiply_ratio(&self, nom: Uint256, denom: Uint256) -> (r: Uint256)
        requires
            denom@ != 0,
            self@ * nom@ < pow256(),
        ensures
            r@ == self@ * nom@ / denom@,
    {
        let product = words_mul(self.words(), nom.words());
        Uint256::from_words(words_div(product, denom.words()))
    }

    /// The decimal digits of the value.
    pub fn to_string(&self) -> (r: String)
        ensures
            r@ == decimal_string(self@),
    {
        words_to_string(self.words())
    }

    /// Parses a string of decimal digits.
    pub fn from_str(input: &str) -> (r: Result<Uint256, NumberError>)
        ensures
            r is Ok <==> (all_digits(input@) && digits_value(input@) < pow256()),
            r matches Ok(v) ==> v@ == digits_value(input@),
            r matches Err(e) ==> e == NumberError::ParseNumber,
    {
        match words_from_dec_str(input) {
            Some(w) => Ok(Uint256::from_words(w)),
            None => Err(NumberError::ParseNumber),
        }
    }

    /// Parses a string of decimal digits; the error names the input.
    pub fn try_from_str(val: &str) -> (r: Result<Uint256, NumberError>)
        ensures
            r is Ok <==> (all_digits(val@) && digits_value(val@) < pow256()),
            r matches Ok(v) ==> v@ == digits_value(val@),
            r matches Err(e) ==> (e matches NumberError::InvalidUint256(m) && m@ == val@),
    {
        match words_from_dec_str(val) {
            Some(w) => Ok(Uint256::from_words(w)),
            None => Err(NumberError::InvalidUint256(val.to_owned())),
        }
    }
}

/// Why a number could not be read from a string.
#[derive(Clone, Debug, PartialEq, Eq)]
pub enum NumberError {
    /// "Error parsing whole"
    ParseWhole,
    /// "Error parsing fractional"
    ParseFractional,
    /// "Cannot parse more than 18 fractional digits"
    TooManyFractionalDigits,
    /// "Unexpected number of dots"
    UnexpectedDots,
    /// "Error parsing number"
    ParseNumber,
    /// "invalid Uint256 '...'", with the rejected input
    InvalidUint256(String),
}

impl NumberError {
    /// The message the error carries.
    pub fn message(&self) -> (r: String)
        ensures
            *self == NumberError::ParseWhole ==> r@ == "Error parsing whole"@,
            *self == NumberError::ParseFractional ==> r@ == "Error parsing fractional"@,
            *self == NumberError::TooManyFractionalDigits ==> r@
                == "Cannot parse more than 18 fractional digits"@,
            *self == NumberError::UnexpectedDots ==> r@ == "Unexpected number of dots"@,
            *self == NumberError::ParseNumber ==> r@ == "Error parsing number"@,
            self matches NumberError::InvalidUint256(m) ==> r@ == "invalid Uint256 '"@ + m@
                + "'"@,
    {
        match self {
            NumberError::ParseWhole => String::from_str("Error parsing whole"),
            NumberError::ParseFractional => String::from_str("Error parsing fractional"),
            NumberError::TooManyFractionalDigits => String::from_str(
                "Cannot parse more than 18 fractional digits",
            ),
            NumberError::UnexpectedDots => String::from_str("Unexpected number of dots"),
            NumberError::ParseNumber => String::from_str("Error parsing number"),
            NumberError::InvalidUint256(m) => {
                let mut r = String::from_str("invalid Uint256 '");
                r.append(m.as_str());
                r.append("'");
                r
            },
        }
    }
}

/// Every value below 2^256 is the value of the words `from_nat` gives it.
pub broadcast proof fn lemma_from_nat_view(n: nat)
    requires
        n < pow256(),
    ensures
        #[trigger] Uint256::from_nat(n)@ == n,
{
    let q1 = n / pow64();
    let q2 = n / pow128();
    let q3 = n / pow192();
    assert(q2 == q1 / pow64()) by {
        vstd::arithmetic::div_mod::lemma_div_denominator(n as int, pow64() as int, pow64() as int);
    }
    assert(q3 == q2 / pow64()) by {
        vstd::arithmetic::div_mod::lemma_div_denominator(n as int, pow128() as int, pow64() as int);
    }
    assert(q3 < pow64()) by {
        vstd::arithmetic::div_mod::lemma_div_is_ordered(n as int, pow256() as int, pow192() as int);
    }
    vstd::arithmetic::div_mod::lemma_fundamental_div_mod(n as int, pow64() as int);
    vstd::arithmetic::div_mod::lemma_fundamental_div_mod(q1 as int, pow64() as int);
    vstd::arithmetic::div_mod::lemma_fundamental_div_mod(q2 as int, pow64() as int);
    vstd::arithmetic::div_mod::lemma_small_mod(q3, pow64());
}

/// A value's words are the ones `from_nat` computes from it.
pub broadcast proof fn lemma_view_from_nat(x: Uint256)
    ensures
        #[trigger] Uint256::from_nat(x@) == x,
{
    let n = x@;
    let a = x.w0 as nat;
    let b = x.w1 as nat;
    let c = x.w2 as nat;
    let d = x.w3 as nat;
    let t1 = b + c * pow64() + d * pow128();
    let t2 = c + d * pow64();
    assert(n == a + t1 * pow64());
    assert(t1 == b + t2 * pow64());
    vstd::arithmetic::div_mod::lemma_fundamental_div_mod_converse(n as int, pow64() as int, t1 as int, a as int);
    vstd::arithmetic::div_mod::lemma_fundamental_div_mod_converse(t1 as int, pow64() as int, t2 as int, b as int);
    vstd::arithmetic::div_mod::lemma_fundamental_div_mod_converse(t2 as int, pow64() as int, d as int, c as int);
    vstd::arithmetic::div_mod::lemma_div_denominator(n as int, pow64() as int, pow64() as int);
    vstd::arithmetic::div_mod::lemma_div_denominator(n as int, pow128() as int, pow64() as int);
    vstd::arithmetic::div_mod::lemma_small_mod(d, pow64());
}

pub broadcast group group_uint256 {
    lemma_from_nat_view,
    lemma_view_from_nat,
}

} // verus!
