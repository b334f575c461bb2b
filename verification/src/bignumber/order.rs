//! The numeric order of `Uint256` and `Decimal256`.

use core::cmp::Ordering;
use vstd::prelude::*;

use super::decimal256::Decimal256;
use super::uint256::Uint256;

verus! {

/// Orders two words, the lower first.
fn order_words(a: u64, b: u64) -> (r: Ordering)
    ensures
        a < b ==> r == Ordering::Less,
        a == b ==> r == Ordering::Equal,
        a > b ==> r == Ordering::Greater,
{
    if a < b {
        Ordering::Less
    } else if a == b {
        Ordering::Equal
    } else {
        Ordering::Greater
    }
}

/// The order of two values, as `partial_cmp` reports it.
pub open spec fn order_of(a: nat, b: nat) -> Option<Ordering> {
    if a < b {
        Some(Ordering::Less)
    } else if a == b {
        Some(Ordering::Equal)
    } else {
        Some(Ordering::Greater)
    }
}

/// Comparing the words from the most significant one down compares values.
proof fn lemma_words_order(a: Uint256, b: Uint256)
    ensures
        a.w3 < b.w3 ==> a@ < b@,
        a.w3 == b.w3 && a.w2 < b.w2 ==> a@ < b@,
        a.w3 == b.w3 && a.w2 == b.w2 && a.w1 < b.w1 ==> a@ < b@,
        a.w3 == b.w3 && a.w2 == b.w2 && a.w1 == b.w1 ==> (a@ < b@ <==> a.w0 < b.w0),
        a.w3 == b.w3 && a.w2 == b.w2 && a.w1 == b.w1 ==> (a@ == b@ <==> a.w0 == b.w0),
{
    let p64 = 0x1_0000_0000_0000_0000int;
    let p128 = 0x1_0000_0000_0000_0000_0000_0000_0000_0000int;
    let p192 = 0x1_0000_0000_0000_0000_0000_0000_0000_0000_0000_0000_0000_0000int;
    assert(a@ == a.w0 + a.w1 * p64 + a.w2 * p128 + a.w3 * p192);
    assert(b@ == b.w0 + b.w1 * p64 + b.w2 * p128 + b.w3 * p192);
    assert(a.w0 + a.w1 * p64 < p128);
    assert(b.w0 + b.w1 * p64 < p128);
    assert(a.w0 + a.w1 * p64 + a.w2 * p128 < p192);
    assert(b.w0 + b.w1 * p64 + b.w2 * p128 < p192);
}

impl PartialOrd for Uint256 {
    /// Compares the words from the most significant one down.
    fn partial_cmp(&self, other: &Uint256) -> (r: Option<Ordering>) {
        proof {
            lemma_words_order(*self, *other);
            lemma_words_order(*other, *self);
        }
        if self.w3 != other.w3 {
            return Some(order_words(self.w3, other.w3));
        }
        if self.w2 != other.w2 {
            return Some(order_words(self.w2, other.w2));
        }
        if self.w1 != other.w1 {
            return Some(order_words(self.w1, other.w1));
        }
        Some(order_words(self.w0, other.w0))
    }
}

impl vstd::std_specs::cmp::PartialOrdSpecImpl for Uint256 {
    open spec fn obeys_partial_cmp_spec() -> bool {
        true
    }

    open spec fn partial_cmp_spec(&self, other: &Uint256) -> Option<Ordering> {
        order_of(self@, other@)
    }
}

impl PartialOrd for Decimal256 {
    fn partial_cmp(&self, other: &Decimal256) -> (r: Option<Ordering>) {
        self.0.partial_cmp(&other.0)
    }
}

impl vstd::std_specs::cmp::PartialOrdSpecImpl for Decimal256 {
    open spec fn obeys_partial_cmp_spec() -> bool {
        true
    }

    open spec fn partial_cmp_spec(&self, other: &Decimal256) -> Option<Ordering> {
        order_of(self@, other@)
    }
}

} // verus!
