//! Reading a `Decimal256` from its decimal notation and writing it back.

use vstd::prelude::*;
use vstd::string::StrSliceExecFns;

use super::backend::{
    all_digits, decimal_string, digit_char, digit_value, digits_value, is_digit, nat_pow, pow256, string_push,
    words_add, words_div, words_from_dec_str, words_mul, words_pow, words_rem, words_to_string,
    words_value,
};
use super::decimal256::{df, Decimal256};
use super::uint256::{NumberError, Uint256, group_uint256};

verus! {

/// No character of `s` is a dot.
pub open spec fn no_dot(s: Seq<char>) -> bool {
    forall|i: int| 0 <= i < s.len() ==> #[trigger] s[i] != '.'
}

/// `s` holds exactly one dot, at position `p`.
pub open spec fn single_dot_at(s: Seq<char>, p: int) -> bool {
    &&& 0 <= p < s.len()
    &&& s[p] == '.'
    &&& no_dot(s.take(p))
    &&& no_dot(s.skip(p + 1))
}

/// A string of digits that `bigint::U256::from_dec_str` accepts.
pub open spec fn parses_as_u256(s: Seq<char>) -> bool {
    all_digits(s) && digits_value(s) < pow256()
}

/// What `Decimal256::from_str` gives for `s`: the number of atomics, or the
/// error. A dot needs a whole part before it; without a dot, the empty
/// string reads as zero. The atomics may exceed the 256-bit range; that
/// input panics.
pub open spec fn decimal_parse(s: Seq<char>) -> Result<nat, NumberError> {
    if no_dot(s) {
        if parses_as_u256(s) {
            Ok(digits_value(s) * df())
        } else {
            Err(NumberError::ParseWhole)
        }
    } else if exists|p: int| single_dot_at(s, p) {
        let p = choose|p: int| single_dot_at(s, p);
        let whole = s.take(p);
        let fractional = s.skip(p + 1);
        if whole.len() == 0 || !parses_as_u256(whole) {
            Err(NumberError::ParseWhole)
        } else if !parses_as_u256(fractional) {
            Err(NumberError::ParseFractional)
        } else if fractional.len() > 18 {
            Err(NumberError::TooManyFractionalDigits)
        } else {
            Ok(digits_value(whole) * df() + digits_value(fractional) * nat_pow(
                10,
                (18 - fractional.len()) as nat,
            ))
        }
    } else {
        Err(NumberError::UnexpectedDots)
    }
}

/// An input whose value, if it has one, fits in 256 bits.
pub open spec fn decimal_parse_fits(s: Seq<char>) -> bool {
    decimal_parse(s) matches Ok(v) ==> v < pow256()
}

proof fn lemma_single_dot_unique(s: Seq<char>, p: int, q: int)
    requires
        single_dot_at(s, p),
        single_dot_at(s, q),
    ensures
        p == q,
{
    if p < q {
        assert(s.take(q)[p] == s[p]);
    } else if q < p {
        assert(s.take(p)[q] == s[q]);
    }
}

proof fn lemma_pow10_monotone(a: nat, b: nat)
    requires
        a <= b,
    ensures
        1 <= nat_pow(10, a) <= nat_pow(10, b),
    decreases b,
{
    if b > a {
        lemma_pow10_monotone(a, (b - 1) as nat);
    } else if a > 0 {
        lemma_pow10_monotone((a - 1) as nat, (a - 1) as nat);
    }
}

proof fn lemma_pow10_small(e: nat)
    requires
        e <= 18,
    ensures
        1 <= nat_pow(10, e) <= 1_000_000_000_000_000_000,
{
    lemma_pow10_monotone(e, 18);
    reveal_with_fuel(nat_pow, 19);
    assert(nat_pow(10, 18) == 1_000_000_000_000_000_000);
}

impl Decimal256 {
    /// Converts the decimal string to a Decimal256
    /// Possible inputs: "1.23", "1", "000012", "1.123000000", and "" (zero)
    /// Disallowed: ".23" (a dot with no whole part before it)
    ///
    /// This never performs any kind of rounding.
    /// More than 18 fractional digits, even zeros, result in an error.
    pub fn from_str(input: &str) -> (r: Result<Decimal256, NumberError>)
        requires
            decimal_parse_fits(input@),
        ensures
            r matches Ok(d) ==> decimal_parse(input@) == Ok::<nat, NumberError>(d@),
            r matches Err(e) ==> decimal_parse(input@) == Err::<nat, NumberError>(e),
    {
        proof {
            broadcast use group_uint256;
        }
        let ghost s = input@;
        let n = input.unicode_len();
        let mut dots: usize = 0;
        let mut first: usize = 0;
        let ghost mut second: int = 0;
        let mut i: usize = 0;
        while i < n
            invariant
                n == s.len(),
                s == input@,
                i <= n,
                dots <= 2,
                dots == 0 ==> no_dot(s.take(i as int)),
                dots >= 1 ==> first < i && s[first as int] == '.' && no_dot(s.take(first as int)),
                dots == 1 ==> no_dot(s.subrange(first + 1, i as int)),
                dots == 2 ==> first < second < i && s[second] == '.',
            decreases n - i,
        {
            let c = input.get_char(i);
            if c == '.' {
                if dots == 0 {
                    first = i;
                    dots = 1;
                    assert(s.take(first as int) =~= s.take(i as int));
                } else if dots == 1 {
                    proof {
                        second = i as int;
                    }
                    dots = 2;
                }
            }
            proof {
                if dots == 0 {
                    assert forall|k: int| 0 <= k < i + 1 implies #[trigger] s.take(i + 1)[k] != '.' by {
                        if k < i {
                            assert(s.take(i as int)[k] == s[k]);
                        }
                    }
                }
                if dots == 1 && first < i {
                    assert forall|k: int| 0 <= k < i - first implies #[trigger] s.subrange(first + 1, i + 1)[k] != '.' by {
                        if k < i - first - 1 {
                            assert(s.subrange(first + 1, i as int)[k] == s[first + 1 + k]);
                        }
                    }
                }
                if dots == 1 && first == i {
                    assert(s.subrange(first + 1, i + 1) =~= Seq::<char>::empty());
                }
            }
            i = i + 1;
        }
        if dots == 0 {
            assert(s.take(n as int) =~= s);
            let whole = match words_from_dec_str(input) {
                Some(w) => w,
                None => {
                    return Err(NumberError::ParseWhole);
                },
            };
            assert(digits_value(s) * df() < pow256());
            let atomics = words_mul(whole, Decimal256::decimal_fractional().words());
            return Ok(Decimal256(Uint256::from_words(atomics)));
        }
        if dots == 2 {
            proof {
                assert(!no_dot(s));
                assert forall|p: int| !single_dot_at(s, p) by {
                    if single_dot_at(s, p) {
                        if p < first {
                            assert(s.skip(p + 1)[first - p - 1] == s[first as int]);
                        } else if p > first {
                            assert(s.take(p)[first as int] == s[first as int]);
                        } else {
                            assert(s.skip(p + 1)[second - p - 1] == s[second]);
                        }
                    }
                }
            }
            return Err(NumberError::UnexpectedDots);
        }
        proof {
            assert(s.subrange(first + 1, n as int) =~= s.skip(first + 1));
            assert(single_dot_at(s, first as int));
            assert(!no_dot(s));
            let p = choose|p: int| single_dot_at(s, p);
            lemma_single_dot_unique(s, p, first as int);
        }
        if first == 0 {
            return Err(NumberError::ParseWhole);
        }
        let whole_str = input.substring_char(0, first);
        let fractional_str = input.substring_char(first + 1, n);
        assert(whole_str@ =~= s.take(first as int));
        assert(fractional_str@ =~= s.skip(first + 1));
        let whole = match words_from_dec_str(whole_str) {
            Some(w) => w,
            None => {
                return Err(NumberError::ParseWhole);
            },
        };
        let fractional = match words_from_dec_str(fractional_str) {
            Some(w) => w,
            None => {
                return Err(NumberError::ParseFractional);
            },
        };
        let fractional_len = fractional_str.unicode_len();
        if fractional_len > 18 {
            return Err(NumberError::TooManyFractionalDigits);
        }
        let exp = 18 - fractional_len;
        let ten = Uint256::from(10u64);
        let exp_words = Uint256::from(exp as u64);
        let fractional_factor = words_pow(ten.words(), exp_words.words());
        proof {
            lemma_pow10_small(exp as nat);
            let wv = digits_value(s.take(first as int));
            let fv = digits_value(s.skip(first + 1));
            let f = nat_pow(10, exp as nat);
            assert(wv * df() + fv * f < pow256());
            assert(wv * df() <= wv * df() + fv * f) by (nonlinear_arith)
                requires f >= 1;
            assert(fv * f <= wv * df() + fv * f) by (nonlinear_arith)
                requires f >= 1;
        }
        let whole_as_atomics = words_mul(whole, Decimal256::decimal_fractional().words());
        let fractional_atomics = words_mul(fractional, fractional_factor);
        let atomics = words_add(whole_as_atomics, fractional_atomics);
        Ok(Decimal256(Uint256::from_words(atomics)))
    }
}

/// `s` without its trailing '0' characters.
pub open spec fn trim_trailing_zeros(s: Seq<char>) -> Seq<char>
    decreases s.len(),
{
    if s.len() > 0 && s.last() == '0' {
        trim_trailing_zeros(s.drop_last())
    } else {
        s
    }
}

/// `s` with '0' characters put in front of it up to `width` characters.
pub open spec fn left_pad_zeros(s: Seq<char>, width: nat) -> Seq<char> {
    Seq::new((width - s.len()) as nat, |i: int| '0') + s
}

/// The `Display` form of a decimal with `v` atomics: the whole part, and,
/// where the fraction is not zero, a dot and the 18 fractional digits
/// without their trailing zeros.
pub open spec fn decimal_display(v: nat) -> Seq<char> {
    let whole = v / df();
    let fractional = v % df();
    if fractional == 0 {
        decimal_string(whole)
    } else {
        decimal_string(whole) + seq!['.'] + trim_trailing_zeros(
            left_pad_zeros(decimal_string(fractional), 18),
        )
    }
}

proof fn lemma_decimal_string_len(n: nat, k: nat)
    requires
        k >= 1,
        n < nat_pow(10, k),
    ensures
        decimal_string(n).len() <= k,
    decreases n,
{
    if n >= 10 {
        if k == 1 {
            reveal_with_fuel(nat_pow, 2);
            assert(false);
        }
        let k1 = (k - 1) as nat;
        assert(nat_pow(10, k) == 10 * nat_pow(10, k1));
        assert(n / 10 < nat_pow(10, k1)) by (nonlinear_arith)
            requires
                n < 10 * nat_pow(10, k1),
        ;
        lemma_decimal_string_len(n / 10, k1);
    }
}

proof fn lemma_trim_is_take(p: Seq<char>, end: int)
    requires
        0 <= end <= p.len(),
        forall|k: int| end <= k < p.len() ==> p[k] == '0',
        end == 0 || p[end - 1] != '0',
    ensures
        trim_trailing_zeros(p) == p.take(end),
    decreases p.len(),
{
    if p.len() == end {
        assert(p.take(end) =~= p);
    } else {
        assert(p.last() == '0');
        assert(p.drop_last().take(end) =~= p.take(end));
        lemma_trim_is_take(p.drop_last(), end);
    }
}

impl Decimal256 {
    /// The decimal notation of the value, as its `Display` writes it.
    pub fn to_string(&self) -> (r: String)
        ensures
            r@ == decimal_display(self@),
    {
        proof {
            broadcast use group_uint256;
        }
        let fraction_unit = Decimal256::decimal_fractional();
        let whole = words_div(self.0.words(), fraction_unit.words());
        let fractional = words_rem(self.0.words(), fraction_unit.words());
        let mut out = words_to_string(whole);
        if Uint256::from_words(fractional).is_zero() {
            return out;
        }
        let ghost prefix = out@;
        let fractional_string = words_to_string(fractional);
        let fractional_str = fractional_string.as_str();
        let flen = fractional_str.unicode_len();
        proof {
            reveal_with_fuel(nat_pow, 19);
            lemma_decimal_string_len(words_value(fractional), 18);
        }
        let zeros = 18 - flen;
        let ghost padded = left_pad_zeros(fractional_str@, 18);
        assert(padded.len() == 18);
        let mut end: usize = 18;
        while end > 0
            invariant
                end <= 18,
                padded.len() == 18,
                padded == left_pad_zeros(fractional_str@, 18),
                zeros + fractional_str@.len() == 18,
                forall|k: int| end <= k < 18 ==> padded[k] == '0',
            ensures
                end <= 18,
                forall|k: int| end <= k < 18 ==> padded[k] == '0',
                end == 0 || padded[end - 1] != '0',
            decreases end,
        {
            let c = if end - 1 < zeros {
                '0'
            } else {
                fractional_str.get_char(end - 1 - zeros)
            };
            assert(c == padded[end - 1]);
            if c != '0' {
                break;
            }
            end = end - 1;
        }
        proof {
            lemma_trim_is_take(padded, end as int);
        }
        string_push(&mut out, '.');
        let mut k: usize = 0;
        while k < end
            invariant
                k <= end <= 18,
                padded.len() == 18,
                padded == left_pad_zeros(fractional_str@, 18),
                zeros + fractional_str@.len() == 18,
                out@ == prefix + seq!['.'] + padded.take(k as int),
            decreases end - k,
        {
            let c = if k < zeros {
                '0'
            } else {
                fractional_str.get_char(k - zeros)
            };
            assert(c == padded[k as int]);
            string_push(&mut out, c);
            assert(padded.take(k + 1) =~= padded.take(k as int).push(c));
            k = k + 1;
        }
        out
    }
}

/// The decimal representation of `n` is digits (no dot) that denote `n`.
proof fn lemma_decimal_string_digits(n: nat)
    ensures
        all_digits(decimal_string(n)),
        no_dot(decimal_string(n)),
        digits_value(decimal_string(n)) == n,
    decreases n,
{
    let s = decimal_string(n);
    if n < 10 {
        assert(s.drop_last() =~= Seq::<char>::empty());
        assert(digit_value(digit_char(n)) == n);
        assert(is_digit(s[0]));
        assert(digits_value(Seq::<char>::empty()) == 0);
        assert(digits_value(s) == digits_value(s.drop_last()) * 10 + digit_value(s.last()));
    } else {
        lemma_decimal_string_digits(n / 10);
        let d = decimal_string(n / 10);
        assert(s.drop_last() =~= d);
        assert(digit_value(digit_char(n % 10)) == n % 10);
        assert forall|i: int| 0 <= i < s.len() implies #[trigger] is_digit(s[i]) && s[i] != '.' by {
            if i < d.len() {
                assert(s[i] == d[i]);
                assert(is_digit(d[i]));
            }
        }
        assert((n / 10) * 10 + n % 10 == n);
        assert(digits_value(s) == digits_value(s.drop_last()) * 10 + digit_value(s.last()));
    }
}

/// The value of digits written after others.
proof fn lemma_digits_value_concat(a: Seq<char>, b: Seq<char>)
    ensures
        digits_value(a + b) == digits_value(a) * nat_pow(10, b.len()) + digits_value(b),
    decreases b.len(),
{
    if b.len() == 0 {
        assert(a + b =~= a);
        assert(nat_pow(10, 0) == 1);
        assert(digits_value(b) == 0);
    } else {
        lemma_digits_value_concat(a, b.drop_last());
        assert((a + b).drop_last() =~= a + b.drop_last());
        assert((a + b).last() == b.last());
        let p = nat_pow(10, (b.len() - 1) as nat);
        assert(nat_pow(10, b.len()) == 10 * p);
        let x = digits_value(a);
        let y = digits_value(b.drop_last());
        assert((x * p + y) * 10 == x * (10 * p) + y * 10) by (nonlinear_arith);
        assert(digits_value(a + b) == digits_value((a + b).drop_last()) * 10 + digit_value((a + b).last()));
        assert(digits_value(b) == digits_value(b.drop_last()) * 10 + digit_value(b.last()));
    }
}

/// Zeros denote zero.
proof fn lemma_zeros_value(k: nat)
    ensures
        digits_value(Seq::new(k, |i: int| '0')) == 0,
        all_digits(Seq::new(k, |i: int| '0')),
    decreases k,
{
    let z = Seq::new(k, |i: int| '0');
    if k > 0 {
        lemma_zeros_value((k - 1) as nat);
        assert(z.drop_last() =~= Seq::new((k - 1) as nat, |i: int| '0'));
    }
    assert forall|i: int| 0 <= i < k implies #[trigger] is_digit(z[i]) by {}
}

/// Trailing zeros cut from digits leave digits whose value, shifted by
/// the zeros cut, is that of the whole.
proof fn lemma_trim_value(p: Seq<char>)
    requires
        all_digits(p),
    ensures
        all_digits(trim_trailing_zeros(p)),
        trim_trailing_zeros(p).len() <= p.len(),
        digits_value(p) == digits_value(trim_trailing_zeros(p)) * nat_pow(
            10,
            (p.len() - trim_trailing_zeros(p).len()) as nat,
        ),
    decreases p.len(),
{
    if p.len() > 0 && p.last() == '0' {
        let d = p.drop_last();
        assert(all_digits(d)) by {
            assert forall|i: int| 0 <= i < d.len() implies #[trigger] is_digit(d[i]) by {
                assert(d[i] == p[i]);
            }
        }
        lemma_trim_value(d);
        let t = trim_trailing_zeros(d);
        assert(trim_trailing_zeros(p) == t);
        let k = (d.len() - t.len()) as nat;
        assert(nat_pow(10, k + 1) == 10 * nat_pow(10, k));
        assert(digit_value('0') == 0);
        assert(digits_value(p) == digits_value(d) * 10 + digit_value(p.last()));
        assert(digits_value(p) == digits_value(d) * 10);
        assert(digits_value(t) * nat_pow(10, k) * 10 == digits_value(t) * (10 * nat_pow(10, k))) by (nonlinear_arith);
        assert((p.len() - t.len()) as nat == k + 1);
        assert(digits_value(p) == digits_value(t) * nat_pow(10, k + 1));
    } else {
        assert(trim_trailing_zeros(p) == p);
        assert(nat_pow(10, 0) == 1);
        assert((p.len() - p.len()) as nat == 0);
    }
}

/// A decimal's text reads back as the same decimal: `from_str` of what
/// `to_string` writes gives the value written.
pub proof fn lemma_display_parse_roundtrip(v: nat)
    requires
        v < pow256(),
    ensures
        decimal_parse(decimal_display(v)) == Ok::<nat, NumberError>(v),
{
    let w = v / df();
    let f = v % df();
    vstd::arithmetic::div_mod::lemma_fundamental_div_mod(v as int, df() as int);
    lemma_decimal_string_digits(w);
    let dw = decimal_string(w);
    assert(w <= v) by (nonlinear_arith)
        requires w == v / df(), df() > 0;
    if f == 0 {
        assert(digits_value(dw) * df() == v);
    } else {
        lemma_decimal_string_digits(f);
        let df_ = decimal_string(f);
        reveal_with_fuel(nat_pow, 19);
        assert(nat_pow(10, 18) == df());
        lemma_decimal_string_len(f, 18);
        let z = Seq::new((18 - df_.len()) as nat, |i: int| '0');
        let padded = left_pad_zeros(df_, 18);
        assert(padded == z + df_);
        lemma_zeros_value((18 - df_.len()) as nat);
        lemma_digits_value_concat(z, df_);
        assert(digits_value(padded) == f);
        assert(all_digits(padded)) by {
            assert forall|i: int| 0 <= i < padded.len() implies #[trigger] is_digit(padded[i]) by {
                if i < z.len() {
                    assert(padded[i] == z[i]);
                    assert(is_digit(z[i]));
                } else {
                    assert(padded[i] == df_[i - z.len()]);
                    assert(is_digit(df_[i - z.len()]));
                }
            }
        }
        lemma_trim_value(padded);
        let t = trim_trailing_zeros(padded);
        let e = (18 - t.len()) as nat;
        lemma_pow10_monotone(0, e);
        assert(digits_value(t) <= f) by (nonlinear_arith)
            requires
                f == digits_value(t) * nat_pow(10, e),
                nat_pow(10, e) >= 1,
        ;
        let s = dw + seq!['.'] + t;
        assert(s == decimal_display(v));
        let p = dw.len() as int;
        assert(s.take(p) =~= dw);
        assert(s.skip(p + 1) =~= t);
        assert(s[p] == '.');
        assert(no_dot(t)) by {
            assert forall|i: int| 0 <= i < t.len() implies #[trigger] t[i] != '.' by {
                assert(is_digit(t[i]));
            }
        }
        assert(single_dot_at(s, p));
        assert(!no_dot(s));
        let q = choose|q: int| single_dot_at(s, q);
        lemma_single_dot_unique(s, p, q);
    }
}

proof fn lemma_view_below_pow256(u: Uint256)
    ensures
        u@ < pow256(),
{
    let a = u.w0 as nat;
    let b = u.w1 as nat;
    let c = u.w2 as nat;
    let d = u.w3 as nat;
    assert(a + b * 0x1_0000_0000_0000_0000nat + c * 0x1_0000_0000_0000_0000_0000_0000_0000_0000nat
        + d * 0x1_0000_0000_0000_0000_0000_0000_0000_0000_0000_0000_0000_0000nat
        < 0x1_0000_0000_0000_0000_0000_0000_0000_0000_0000_0000_0000_0000_0000_0000_0000_0000nat)
        by (nonlinear_arith)
        requires
            a < 0x1_0000_0000_0000_0000nat,
            b < 0x1_0000_0000_0000_0000nat,
            c < 0x1_0000_0000_0000_0000nat,
            d < 0x1_0000_0000_0000_0000nat,
    ;
}

/// A decimal's text reads back as the decimal itself: what `to_string`
/// writes for `d` is accepted by `from_str` (its value fits), it reads as
/// `d`'s value, and the only decimal with that value is `d`; so
/// `from_str(&d.to_string())` is `Ok(d)`.
pub proof fn lemma_decimal_text_roundtrip(d: Decimal256)
    ensures
        decimal_parse_fits(decimal_display(d@)),
        decimal_parse(decimal_display(d@)) == Ok::<nat, NumberError>(d@),
        forall|e: Decimal256| e@ == d@ ==> e == d,
{
    broadcast use group_uint256;
    lemma_view_below_pow256(d.0);
    lemma_display_parse_roundtrip(d@);
    assert forall|e: Decimal256| e@ == d@ implies e == d by {
        assert(Uint256::from_nat(e.0@) == e.0);
        assert(Uint256::from_nat(d.0@) == d.0);
    }
}

/// An integer's text reads back as the same integer: what
/// `Uint256::to_string` writes is digits that `Uint256::from_str` accepts,
/// with the value written.
pub proof fn lemma_uint256_text_roundtrip(n: nat)
    requires
        n < pow256(),
    ensures
        all_digits(decimal_string(n)),
        digits_value(decimal_string(n)) == n,
{
    lemma_decimal_string_digits(n);
}

} // verus!
