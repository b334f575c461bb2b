//! Bookkeeping of a borrower's collateral tokens: lists of
//! (token address, amount) that are added to and subtracted from.

use vstd::prelude::*;

use crate::bignumber::backend::pow256;
use crate::bignumber::uint256::group_uint256;
use crate::bignumber::Uint256;

verus! {

/// A token address (a canonical address: its bytes) and an amount.
pub type Token = (Vec<u8>, Uint256);

pub type Tokens = Vec<Token>;

/// The lexicographic order of byte strings (as `<[u8]>::cmp` orders them).
pub open spec fn bytes_lt(a: Seq<u8>, b: Seq<u8>) -> bool
    decreases a.len(),
{
    if a.len() == 0 {
        b.len() > 0
    } else if b.len() == 0 {
        false
    } else if a[0] < b[0] {
        true
    } else if a[0] > b[0] {
        false
    } else {
        bytes_lt(a.drop_first(), b.drop_first())
    }
}

/// The total amount that entries for `addr` hold.
pub open spec fn amount_of(s: Seq<Token>, addr: Seq<u8>) -> nat
    decreases s.len(),
{
    if s.len() == 0 {
        0
    } else {
        amount_of(s.drop_last(), addr) + if s.last().0@ == addr {
            s.last().1@
        } else {
            0
        }
    }
}

/// The number of entries for `addr`.
pub open spec fn count_of(s: Seq<Token>, addr: Seq<u8>) -> nat
    decreases s.len(),
{
    if s.len() == 0 {
        0
    } else {
        count_of(s.drop_last(), addr) + if s.last().0@ == addr {
            1nat
        } else {
            0
        }
    }
}

/// No address occurs twice.
pub open spec fn no_duplicate_addrs(s: Seq<Token>) -> bool {
    forall|i: int, j: int| 0 <= i < j < s.len() ==> #[trigger] s[i].0@ != #[trigger] s[j].0@
}

/// No two neighbouring entries have one address.
pub open spec fn no_adjacent_duplicates(s: Seq<Token>) -> bool {
    forall|i: int| 0 <= i < s.len() - 1 ==> #[trigger] s[i].0@ != s[i + 1].0@
}

/// The addresses are strictly increasing.
pub open spec fn sorted_by_addr(s: Seq<Token>) -> bool {
    forall|i: int, j: int| 0 <= i < j < s.len() ==> bytes_lt(#[trigger] s[i].0@, #[trigger] s[j].0@)
}

/// No entry holds a zero amount.
pub open spec fn no_zero_amounts(s: Seq<Token>) -> bool {
    forall|i: int| 0 <= i < s.len() ==> #[trigger] s[i].1@ > 0
}

/// For every address, the two lists' totals together fit in 256 bits.
pub open spec fn sums_fit(s: Seq<Token>, t: Seq<Token>) -> bool {
    forall|a: Seq<u8>| #[trigger] amount_of(s, a) + amount_of(t, a) < pow256()
}

/// Every address of `t` is in `s`, with at least the amount `t` names.
pub open spec fn covers(s: Seq<Token>, t: Seq<Token>) -> bool {
    forall|a: Seq<u8>|
        #[trigger] count_of(t, a) > 0 ==> count_of(s, a) > 0 && amount_of(t, a) <= amount_of(s, a)
}

// ---- the order of byte strings ----
pub proof fn lemma_bytes_lt_irreflexive(a: Seq<u8>)
    ensures
        !bytes_lt(a, a),
    decreases a.len(),
{
    if a.len() > 0 {
        lemma_bytes_lt_irreflexive(a.drop_first());
    }
}

pub proof fn lemma_bytes_lt_transitive(a: Seq<u8>, b: Seq<u8>, c: Seq<u8>)
    requires
        bytes_lt(a, b),
        bytes_lt(b, c),
    ensures
        bytes_lt(a, c),
    decreases a.len(),
{
    if a.len() > 0 && b.len() > 0 && c.len() > 0 && a[0] == b[0] && b[0] == c[0] {
        lemma_bytes_lt_transitive(a.drop_first(), b.drop_first(), c.drop_first());
    }
}

pub proof fn lemma_bytes_lt_total(a: Seq<u8>, b: Seq<u8>)
    ensures
        a == b || bytes_lt(a, b) || bytes_lt(b, a),
    decreases a.len(),
{
    if a.len() > 0 && b.len() > 0 && a[0] == b[0] {
        lemma_bytes_lt_total(a.drop_first(), b.drop_first());
        if a.drop_first() == b.drop_first() {
            assert(a =~= seq![a[0]] + a.drop_first());
            assert(b =~= seq![b[0]] + b.drop_first());
        }
    } else if a.len() == 0 && b.len() == 0 {
        assert(a =~= b);
    }
}

pub proof fn lemma_bytes_lt_asymmetric(a: Seq<u8>, b: Seq<u8>)
    requires
        bytes_lt(a, b),
    ensures
        !bytes_lt(b, a),
        a != b,
{
    lemma_bytes_lt_irreflexive(a);
    if bytes_lt(b, a) {
        lemma_bytes_lt_transitive(a, b, a);
    }
}

/// Whether `a` orders before `b`.
pub fn bytes_less(a: &Vec<u8>, b: &Vec<u8>) -> (r: bool)
    ensures
        r == bytes_lt(a@, b@),
{
    let mut i: usize = 0;
    assert(a@.skip(0) =~= a@);
    assert(b@.skip(0) =~= b@);
    while i < a.len() && i < b.len()
        invariant
            i <= a@.len(),
            i <= b@.len(),
            bytes_lt(a@, b@) == bytes_lt(a@.skip(i as int), b@.skip(i as int)),
        decreases a.len() - i,
    {
        if a[i] < b[i] {
            return true;
        }
        if a[i] > b[i] {
            return false;
        }
        assert(a@.skip(i as int).drop_first() =~= a@.skip(i + 1));
        assert(b@.skip(i as int).drop_first() =~= b@.skip(i + 1));
        i = i + 1;
    }
    i < b.len()
}

/// Whether `a` and `b` hold the same bytes.
pub fn bytes_equal(a: &Vec<u8>, b: &Vec<u8>) -> (r: bool)
    ensures
        r == (a@ == b@),
{
    if a.len() != b.len() {
        return false;
    }
    let mut i: usize = 0;
    while i < a.len()
        invariant
            a@.len() == b@.len(),
            i <= a@.len(),
            forall|k: int| 0 <= k < i ==> a@[k] == b@[k],
        decreases a.len() - i,
    {
        if a[i] != b[i] {
            return false;
        }
        i = i + 1;
    }
    assert(a@ =~= b@);
    true
}

fn clone_bytes(a: &Vec<u8>) -> (r: Vec<u8>)
    ensures
        r@ == a@,
{
    let r = a.clone();
    assert(r@ =~= a@);
    r
}

// ---- totals per address ----
proof fn lemma_push(s: Seq<Token>, x: Token, a: Seq<u8>)
    ensures
        amount_of(s.push(x), a) == amount_of(s, a) + if x.0@ == a {
            x.1@
        } else {
            0
        },
        count_of(s.push(x), a) == count_of(s, a) + if x.0@ == a {
            1nat
        } else {
            0
        },
{
    assert(s.push(x).drop_last() =~= s);
}

proof fn lemma_take_next(s: Seq<Token>, i: int, a: Seq<u8>)
    requires
        0 <= i < s.len(),
    ensures
        amount_of(s.take(i + 1), a) == amount_of(s.take(i), a) + if s[i].0@ == a {
            s[i].1@
        } else {
            0
        },
        count_of(s.take(i + 1), a) == count_of(s.take(i), a) + if s[i].0@ == a {
            1nat
        } else {
            0
        },
{
    assert(s.take(i + 1) =~= s.take(i).push(s[i]));
    lemma_push(s.take(i), s[i], a);
}

proof fn lemma_insert(s: Seq<Token>, p: int, x: Token, a: Seq<u8>)
    requires
        0 <= p <= s.len(),
    ensures
        amount_of(s.insert(p, x), a) == amount_of(s, a) + if x.0@ == a {
            x.1@
        } else {
            0
        },
        count_of(s.insert(p, x), a) == count_of(s, a) + if x.0@ == a {
            1nat
        } else {
            0
        },
    decreases s.len(),
{
    if p == s.len() {
        assert(s.insert(p, x) =~= s.push(x));
        lemma_push(s, x, a);
    } else {
        let l = s.last();
        assert(s.insert(p, x).drop_last() =~= s.drop_last().insert(p, x));
        assert(s.insert(p, x).last() == l);
        lemma_insert(s.drop_last(), p, x, a);
    }
}

/// In a list without repeated addresses, the total of an address is the
/// amount of its one entry, and it has an entry iff its count is positive.
proof fn lemma_lookup(s: Seq<Token>, k: int)
    requires
        no_duplicate_addrs(s),
        0 <= k < s.len(),
    ensures
        amount_of(s, s[k].0@) == s[k].1@,
        count_of(s, s[k].0@) == 1,
    decreases s.len(),
{
    if k < s.len() - 1 {
        assert(s.last().0@ != s[k].0@);
        assert(s.drop_last()[k] == s[k]);
        lemma_lookup(s.drop_last(), k);
    } else {
        lemma_absent(s.drop_last(), s[k].0@);
    }
}

/// An address that no entry has has total zero and count zero.
proof fn lemma_absent(s: Seq<Token>, a: Seq<u8>)
    requires
        forall|k: int| 0 <= k < s.len() ==> #[trigger] s[k].0@ != a,
    ensures
        amount_of(s, a) == 0,
        count_of(s, a) == 0,
    decreases s.len(),
{
    if s.len() > 0 {
        assert(s.last().0@ != a);
        assert forall|k: int| 0 <= k < s.drop_last().len() implies #[trigger] s.drop_last()[k].0@ != a by {
            assert(s.drop_last()[k] == s[k]);
        }
        lemma_absent(s.drop_last(), a);
    }
}

/// An address with a positive count has an entry.
proof fn lemma_present(s: Seq<Token>, a: Seq<u8>) -> (k: int)
    requires
        count_of(s, a) > 0,
    ensures
        0 <= k < s.len(),
        s[k].0@ == a,
{
    if forall|k: int| 0 <= k < s.len() ==> #[trigger] s[k].0@ != a {
        lemma_absent(s, a);
        assert(false);
        0
    } else {
        choose|k: int| 0 <= k < s.len() && #[trigger] s[k].0@ == a
    }
}

proof fn lemma_sorted_no_duplicates(s: Seq<Token>)
    requires
        sorted_by_addr(s),
    ensures
        no_duplicate_addrs(s),
{
    assert forall|i: int, j: int| 0 <= i < j < s.len() implies #[trigger] s[i].0@ != #[trigger] s[j].0@ by {
        lemma_bytes_lt_asymmetric(s[i].0@, s[j].0@);
    }
}

proof fn lemma_no_duplicates_adjacent(s: Seq<Token>)
    requires
        no_duplicate_addrs(s),
    ensures
        no_adjacent_duplicates(s),
{
    assert forall|i: int| 0 <= i < s.len() - 1 implies #[trigger] s[i].0@ != s[i + 1].0@ by {
        assert(s[i + 1].0@ == s[i + 1].0@);
    }
}

/// The list's entries, ordered by address; nothing else changes.
fn sort_tokens(s: &Tokens) -> (r: Tokens)
    requires
        no_duplicate_addrs(s@),
    ensures
        sorted_by_addr(r@),
        r@.len() == s@.len(),
        forall|a: Seq<u8>| #[trigger] amount_of(r@, a) == amount_of(s@, a),
        forall|a: Seq<u8>| #[trigger] count_of(r@, a) == count_of(s@, a),
        no_zero_amounts(s@) ==> no_zero_amounts(r@),
{
    let mut sorted: Tokens = Vec::new();
    let mut i: usize = 0;
    while i < s.len()
        invariant
            i <= s@.len(),
            no_duplicate_addrs(s@),
            sorted@.len() == i,
            sorted_by_addr(sorted@),
            forall|a: Seq<u8>| #[trigger] amount_of(sorted@, a) == amount_of(s@.take(i as int), a),
            forall|a: Seq<u8>| #[trigger] count_of(sorted@, a) == count_of(s@.take(i as int), a),
            forall|k: int| 0 <= k < sorted@.len() ==> count_of(s@.take(i as int), #[trigger] sorted@[k].0@) > 0,
            no_zero_amounts(s@) ==> no_zero_amounts(sorted@),
        decreases s.len() - i,
    {
        let x: Token = (clone_bytes(&s[i].0), s[i].1);
        let mut p: usize = 0;
        while p < sorted.len() && bytes_less(&sorted[p].0, &x.0)
            invariant
                p <= sorted@.len(),
                forall|k: int| 0 <= k < p ==> bytes_lt(#[trigger] sorted@[k].0@, x.0@),
            decreases sorted.len() - p,
        {
            p = p + 1;
        }
        proof {
            // x's address is not yet among the sorted ones.
            assert forall|k: int| 0 <= k < sorted@.len() implies #[trigger] sorted@[k].0@ != x.0@ by {
                let a = sorted@[k].0@;
                let w = lemma_present(s@.take(i as int), a);
                assert(s@.take(i as int)[w] == s@[w]);
            }
            if p < sorted@.len() {
                lemma_bytes_lt_total(sorted@[p as int].0@, x.0@);
                assert(bytes_lt(x.0@, sorted@[p as int].0@));
            }
            assert forall|k: int| p <= k < sorted@.len() implies bytes_lt(x.0@, #[trigger] sorted@[k].0@) by {
                if k > p {
                    lemma_bytes_lt_transitive(x.0@, sorted@[p as int].0@, sorted@[k].0@);
                }
            }
        }
        let ghost old_sorted = sorted@;
        sorted.insert(p, x);
        proof {
            assert forall|a: Seq<u8>| #[trigger] amount_of(sorted@, a) == amount_of(s@.take(i + 1), a) by {
                lemma_insert(old_sorted, p as int, x, a);
                lemma_take_next(s@, i as int, a);
            }
            assert forall|a: Seq<u8>| #[trigger] count_of(sorted@, a) == count_of(s@.take(i + 1), a) by {
                lemma_insert(old_sorted, p as int, x, a);
                lemma_take_next(s@, i as int, a);
            }
            assert forall|k: int| 0 <= k < sorted@.len() implies count_of(s@.take(i + 1), #[trigger] sorted@[k].0@) > 0 by {
                lemma_take_next(s@, i as int, sorted@[k].0@);
                if k < p {
                    assert(sorted@[k] == old_sorted[k]);
                } else if k > p {
                    assert(sorted@[k] == old_sorted[k - 1]);
                }
            }
            assert forall|a: int, b: int| 0 <= a < b < sorted@.len() implies bytes_lt(#[trigger] sorted@[a].0@, #[trigger] sorted@[b].0@) by {
                if a < p && b < p {
                    assert(sorted@[a] == old_sorted[a] && sorted@[b] == old_sorted[b]);
                } else if a < p && b == p {
                } else if a < p {
                    assert(sorted@[a] == old_sorted[a] && sorted@[b] == old_sorted[b - 1]);
                    lemma_bytes_lt_transitive(old_sorted[a].0@, x.0@, old_sorted[b - 1].0@);
                } else if a == p {
                    assert(sorted@[b] == old_sorted[b - 1]);
                } else {
                    assert(sorted@[a] == old_sorted[a - 1] && sorted@[b] == old_sorted[b - 1]);
                }
            }
            if no_zero_amounts(s@) {
                assert forall|k: int| 0 <= k < sorted@.len() implies #[trigger] sorted@[k].1@ > 0 by {
                    if k < p {
                        assert(sorted@[k] == old_sorted[k]);
                    } else if k > p {
                        assert(sorted@[k] == old_sorted[k - 1]);
                    }
                }
            }
        }
        i = i + 1;
    }
    assert(s@.take(s@.len() as int) =~= s@);
    sorted
}

/// The entries with a nonzero amount, in their order.
fn without_zero_amounts(s: Tokens) -> (r: Tokens)
    requires
        sorted_by_addr(s@),
    ensures
        sorted_by_addr(r@),
        no_zero_amounts(r@),
        forall|a: Seq<u8>| #[trigger] amount_of(r@, a) == amount_of(s@, a),
        forall|a: Seq<u8>| #[trigger] count_of(r@, a) <= count_of(s@, a),
        forall|a: Seq<u8>| amount_of(s@, a) > 0 ==> #[trigger] count_of(r@, a) > 0,
{
    let mut out: Tokens = Vec::new();
    let mut i: usize = 0;
    let n = s.len();
    while i < n
        invariant
            n == s@.len(),
            i <= n,
            sorted_by_addr(s@),
            sorted_by_addr(out@),
            no_zero_amounts(out@),
            out@.len() > 0 ==> forall|k: int| i <= k < n ==> bytes_lt(out@.last().0@, #[trigger] s@[k].0@),
            forall|a: Seq<u8>| #[trigger] amount_of(out@, a) == amount_of(s@.take(i as int), a),
            forall|a: Seq<u8>| #[trigger] count_of(out@, a) <= count_of(s@.take(i as int), a),
            forall|a: Seq<u8>| amount_of(s@.take(i as int), a) > 0 ==> #[trigger] count_of(out@, a) > 0,
        decreases n - i,
    {
        proof {
            broadcast use group_uint256;
        }
        if !s[i].1.is_zero() {
            let x: Token = (clone_bytes(&s[i].0), s[i].1);
            let ghost old_out = out@;
            out.push(x);
            proof {
                assert forall|a: int, b: int| 0 <= a < b < out@.len() implies bytes_lt(#[trigger] out@[a].0@, #[trigger] out@[b].0@) by {
                    if b == out@.len() - 1 && a < b {
                        if a < b - 1 {
                            assert(out@[a] == old_out[a]);
                            lemma_bytes_lt_transitive(old_out[a].0@, old_out.last().0@, x.0@);
                        }
                    } else {
                        assert(out@[a] == old_out[a] && out@[b] == old_out[b]);
                    }
                }
                assert forall|k: int| i + 1 <= k < n implies bytes_lt(out@.last().0@, #[trigger] s@[k].0@) by {
                }
                assert forall|a: Seq<u8>| #[trigger] amount_of(out@, a) == amount_of(s@.take(i + 1), a) by {
                    lemma_push(old_out, x, a);
                    lemma_take_next(s@, i as int, a);
                }
                assert forall|a: Seq<u8>| #[trigger] count_of(out@, a) <= count_of(s@.take(i + 1), a) by {
                    lemma_push(old_out, x, a);
                    lemma_take_next(s@, i as int, a);
                }
                assert forall|a: Seq<u8>| amount_of(s@.take(i + 1), a) > 0 implies #[trigger] count_of(out@, a) > 0 by {
                    lemma_push(old_out, x, a);
                    lemma_take_next(s@, i as int, a);
                }
            }
        } else {
            proof {
                assert forall|a: Seq<u8>| #[trigger] amount_of(out@, a) == amount_of(s@.take(i + 1), a) by {
                    lemma_take_next(s@, i as int, a);
                }
                assert forall|a: Seq<u8>| #[trigger] count_of(out@, a) <= count_of(s@.take(i + 1), a) by {
                    lemma_take_next(s@, i as int, a);
                }
                assert forall|a: Seq<u8>| amount_of(s@.take(i + 1), a) > 0 implies #[trigger] count_of(out@, a) > 0 by {
                    lemma_take_next(s@, i as int, a);
                }
                if out@.len() > 0 {
                    assert forall|k: int| i + 1 <= k < n implies bytes_lt(out@.last().0@, #[trigger] s@[k].0@) by {
                        assert(bytes_lt(out@.last().0@, s@[k].0@));
                    }
                }
            }
        }
        i = i + 1;
    }
    assert(s@.take(n as int) =~= s@);
    out
}

pub trait TokensMath {
    /// The entries of the list.
    spec fn token_entries(&self) -> Seq<Token>;

    /// Subtracts `collaterals` from the list: every address of `collaterals`
    /// must be in the list with at least that amount, else it is an error.
    fn sub(&mut self, collaterals: Tokens) -> (r: Result<(), TokensError>)
        requires
            no_duplicate_addrs(old(self).token_entries()),
            no_duplicate_addrs(collaterals@),
        ensures
            r is Ok <==> covers(old(self).token_entries(), collaterals@),
            r is Ok ==> sub_ok_state(old(self).token_entries(), collaterals@, final(self).token_entries()),
            r is Err ==> sub_err_state(old(self).token_entries(), final(self).token_entries()),
    ;

    /// Adds `collaterals` to the list, address by address.
    fn add(&mut self, collaterals: Tokens)
        requires
            no_duplicate_addrs(old(self).token_entries()),
            no_duplicate_addrs(collaterals@),
            sums_fit(old(self).token_entries(), collaterals@),
        ensures
            sorted_by_addr(final(self).token_entries()),
            no_zero_amounts(final(self).token_entries()),
            forall|a: Seq<u8>|
                #[trigger] amount_of(final(self).token_entries(), a) == amount_of(
                    old(self).token_entries(),
                    a,
                ) + amount_of(collaterals@, a),
    ;

    /// Checks that no two neighbouring entries share an address; a list
    /// where two do is a "duplicate token address" panic, which the
    /// precondition rules out.
    fn assert_duplicate_token(&self)
        requires
            no_adjacent_duplicates(self.token_entries()),
    ;
}

/// Why tokens could not be subtracted.
#[derive(Clone, Copy, Debug, PartialEq, Eq)]
pub enum TokensError {
    /// "Subtraction underflow"
    SubtractionUnderflow,
}

/// What the merge in `sub` keeps: `cur` is `s0` (the sorted list) with the
/// first `j` entries of `t` (the sorted tokens) subtracted, all of them
/// matched among the first `i` entries of `s0`.
#[verifier::opaque]
pub open spec fn sub_inv(
    orig: Seq<Token>,
    t0: Seq<Token>,
    s0: Seq<Token>,
    t: Seq<Token>,
    cur: Seq<Token>,
    i: int,
    j: int,
) -> bool {
    &&& 0 <= i <= s0.len()
    &&& 0 <= j <= t.len()
    &&& cur.len() == s0.len()
    &&& orig.len() == s0.len()
    &&& sorted_by_addr(s0)
    &&& sorted_by_addr(t)
    &&& sorted_by_addr(cur)
    &&& forall|a: Seq<u8>| #[trigger] amount_of(s0, a) == amount_of(orig, a)
    &&& forall|a: Seq<u8>| #[trigger] count_of(s0, a) == count_of(orig, a)
    &&& forall|a: Seq<u8>| #[trigger] amount_of(t, a) == amount_of(t0, a)
    &&& forall|a: Seq<u8>| #[trigger] count_of(t, a) == count_of(t0, a)
    &&& forall|k: int| 0 <= k < s0.len() ==> #[trigger] cur[k].0@ == s0[k].0@
    &&& forall|k: int| i <= k < s0.len() ==> #[trigger] cur[k] == s0[k]
    &&& forall|a: Seq<u8>|
        #[trigger] amount_of(cur, a) + amount_of(t.take(j), a) == amount_of(s0, a)
    &&& forall|a: Seq<u8>| #[trigger] count_of(cur, a) == count_of(s0, a)
    &&& forall|a: Seq<u8>|
        #[trigger] count_of(t.take(j), a) > 0 ==> count_of(s0, a) > 0 && amount_of(t.take(j), a)
            <= amount_of(s0, a)
    &&& j < t.len() ==> forall|k: int| 0 <= k < i ==> bytes_lt(#[trigger] s0[k].0@, t[j].0@)
}

/// What a successful `sub` leaves: the list ordered by address, without
/// zero amounts, each address's amount reduced by what `t` names.
pub open spec fn sub_ok_state(orig: Seq<Token>, t: Seq<Token>, cur: Seq<Token>) -> bool {
    &&& sorted_by_addr(cur)
    &&& no_zero_amounts(cur)
    &&& forall|a: Seq<u8>| #[trigger] amount_of(cur, a) == amount_of(orig, a) - amount_of(t, a)
}

/// What an early error of `sub` leaves: the addresses, in order, with no
/// amount grown.
pub open spec fn sub_err_state(orig: Seq<Token>, cur: Seq<Token>) -> bool {
    &&& sorted_by_addr(cur)
    &&& cur.len() == orig.len()
    &&& forall|a: Seq<u8>|
        #[trigger] count_of(cur, a) == count_of(orig, a) && amount_of(cur, a) <= amount_of(orig, a)
}

proof fn sub_start(orig: Seq<Token>, t0: Seq<Token>, s0: Seq<Token>, t: Seq<Token>)
    requires
        orig.len() == s0.len(),
        sorted_by_addr(s0),
        sorted_by_addr(t),
        forall|a: Seq<u8>| #[trigger] amount_of(s0, a) == amount_of(orig, a),
        forall|a: Seq<u8>| #[trigger] count_of(s0, a) == count_of(orig, a),
        forall|a: Seq<u8>| #[trigger] amount_of(t, a) == amount_of(t0, a),
        forall|a: Seq<u8>| #[trigger] count_of(t, a) == count_of(t0, a),
    ensures
        sub_inv(orig, t0, s0, t, s0, 0, 0),
{
    reveal(sub_inv);
    assert(t.take(0) =~= Seq::<Token>::empty());
}

proof fn sub_err_from_inv(orig: Seq<Token>, t0: Seq<Token>, s0: Seq<Token>, t: Seq<Token>, cur: Seq<Token>, i: int, j: int)
    requires
        sub_inv(orig, t0, s0, t, cur, i, j),
    ensures
        sub_err_state(orig, cur),
{
    reveal(sub_inv);
    assert forall|a: Seq<u8>| #[trigger] count_of(cur, a) == count_of(orig, a) && amount_of(cur, a) <= amount_of(orig, a) by {
        assert(amount_of(cur, a) + amount_of(t.take(j), a) == amount_of(s0, a));
    }
}

/// Matching entries whose amount in `t` is larger: not covered.
proof fn sub_err_underflow(orig: Seq<Token>, t0: Seq<Token>, s0: Seq<Token>, t: Seq<Token>, cur: Seq<Token>, i: int, j: int)
    requires
        sub_inv(orig, t0, s0, t, cur, i, j),
        i < s0.len(),
        j < t.len(),
        cur[i].0@ == t[j].0@,
        cur[i].1@ < t[j].1@,
    ensures
        !covers(orig, t0),
        sub_err_state(orig, cur),
{
    reveal(sub_inv);
    sub_err_from_inv(orig, t0, s0, t, cur, i, j);
    let a = t[j].0@;
    lemma_sorted_no_duplicates(t);
    lemma_sorted_no_duplicates(s0);
    lemma_lookup(t, j);
    lemma_lookup(s0, i);
    assert(count_of(t0, a) > 0);
    assert(amount_of(t0, a) > amount_of(orig, a));
}

/// `t[j]`'s address is before `cur[i]`'s, so it is nowhere in the list.
proof fn sub_err_missing(orig: Seq<Token>, t0: Seq<Token>, s0: Seq<Token>, t: Seq<Token>, cur: Seq<Token>, i: int, j: int)
    requires
        sub_inv(orig, t0, s0, t, cur, i, j),
        i <= s0.len(),
        j < t.len(),
        i < s0.len() ==> cur[i].0@ != t[j].0@ && !bytes_lt(cur[i].0@, t[j].0@),
    ensures
        !covers(orig, t0),
        sub_err_state(orig, cur),
{
    reveal(sub_inv);
    sub_err_from_inv(orig, t0, s0, t, cur, i, j);
    let a = t[j].0@;
    if i < s0.len() {
        lemma_bytes_lt_total(s0[i].0@, a);
    }
    assert forall|k: int| 0 <= k < s0.len() implies #[trigger] s0[k].0@ != a by {
        if k < i {
            lemma_bytes_lt_asymmetric(s0[k].0@, a);
        } else if k > i {
            lemma_bytes_lt_transitive(a, s0[i].0@, s0[k].0@);
            lemma_bytes_lt_asymmetric(a, s0[k].0@);
        }
    }
    lemma_absent(s0, a);
    lemma_sorted_no_duplicates(t);
    lemma_lookup(t, j);
    assert(count_of(t0, a) > 0);
}

/// The list's entry orders before `t[j]`: move on in the list.
proof fn sub_skip(orig: Seq<Token>, t0: Seq<Token>, s0: Seq<Token>, t: Seq<Token>, cur: Seq<Token>, i: int, j: int)
    requires
        sub_inv(orig, t0, s0, t, cur, i, j),
        i < s0.len(),
        j < t.len(),
        bytes_lt(cur[i].0@, t[j].0@),
    ensures
        sub_inv(orig, t0, s0, t, cur, i + 1, j),
{
    reveal(sub_inv);
}

/// Matching entries: the list's amount goes down by `t[j]`'s.
proof fn sub_match(orig: Seq<Token>, t0: Seq<Token>, s0: Seq<Token>, t: Seq<Token>, cur: Seq<Token>, next: Seq<Token>, i: int, j: int)
    requires
        sub_inv(orig, t0, s0, t, cur, i, j),
        i < s0.len(),
        j < t.len(),
        cur[i].0@ == t[j].0@,
        t[j].1@ <= cur[i].1@,
        next.len() == cur.len(),
        next[i].0@ == cur[i].0@,
        next[i].1@ == cur[i].1@ - t[j].1@,
        forall|k: int| 0 <= k < cur.len() && k != i ==> #[trigger] next[k] == cur[k],
    ensures
        sub_inv(orig, t0, s0, t, next, i + 1, j + 1),
{
    reveal(sub_inv);
    assert(next =~= cur.update(i, next[i]));
    let x = t[j];
    let na = next[i];
    assert forall|a: Seq<u8>| #[trigger] amount_of(next, a) + amount_of(t.take(j + 1), a) == amount_of(s0, a) by {
        lemma_take_next(t, j, a);
        lemma_replace(cur, i, na, a);
    }
    assert forall|a: Seq<u8>| #[trigger] count_of(next, a) == count_of(s0, a) by {
        lemma_replace(cur, i, na, a);
    }
    assert forall|k: int| 0 <= k < t.take(j).len() implies #[trigger] t.take(j)[k].0@ != x.0@ by {
        assert(t.take(j)[k] == t[k]);
        lemma_bytes_lt_asymmetric(t[k].0@, x.0@);
    }
    lemma_absent(t.take(j), x.0@);
    lemma_sorted_no_duplicates(s0);
    lemma_lookup(s0, i);
    assert forall|a: Seq<u8>| #[trigger] count_of(t.take(j + 1), a) > 0 implies count_of(s0, a) > 0
        && amount_of(t.take(j + 1), a) <= amount_of(s0, a) by {
        lemma_take_next(t, j, a);
    }
    if j + 1 < t.len() {
        assert forall|k: int| 0 <= k < i + 1 implies bytes_lt(#[trigger] s0[k].0@, t[j + 1].0@) by {
            if k < i {
                lemma_bytes_lt_transitive(s0[k].0@, t[j].0@, t[j + 1].0@);
            }
        }
    }
    assert forall|a: int, b: int| 0 <= a < b < next.len() implies bytes_lt(#[trigger] next[a].0@, #[trigger] next[b].0@) by {
        assert(bytes_lt(s0[a].0@, s0[b].0@));
    }
}

/// All of `t` matched: covered, and the amounts are the differences.
proof fn sub_done(orig: Seq<Token>, t0: Seq<Token>, s0: Seq<Token>, t: Seq<Token>, cur: Seq<Token>, i: int)
    requires
        sub_inv(orig, t0, s0, t, cur, i, t.len() as int),
    ensures
        covers(orig, t0),
        sorted_by_addr(cur),
        forall|a: Seq<u8>| #[trigger] amount_of(cur, a) == amount_of(orig, a) - amount_of(t0, a),
{
    reveal(sub_inv);
    assert(t.take(t.len() as int) =~= t);
    assert forall|a: Seq<u8>| #[trigger] count_of(t0, a) > 0 implies count_of(orig, a) > 0 && amount_of(t0, a) <= amount_of(orig, a) by {
        assert(count_of(t.take(t.len() as int), a) > 0);
    }
    assert forall|a: Seq<u8>| #[trigger] amount_of(cur, a) == amount_of(orig, a) - amount_of(t0, a) by {
        assert(amount_of(cur, a) + amount_of(t.take(t.len() as int), a) == amount_of(s0, a));
    }
}

/// What the merge in `add` keeps: `tmp` holds, in order, the sums of the
/// first `i` entries of `s` and the first `j` of `t`.
#[verifier::opaque]
pub open spec fn add_inv(s: Seq<Token>, t: Seq<Token>, tmp: Seq<Token>, i: int, j: int) -> bool {
    &&& 0 <= i <= s.len()
    &&& 0 <= j <= t.len()
    &&& sorted_by_addr(s)
    &&& sorted_by_addr(t)
    &&& sums_fit(s, t)
    &&& sorted_by_addr(tmp)
    &&& tmp.len() > 0 ==> forall|k: int| i <= k < s.len() ==> bytes_lt(tmp.last().0@, #[trigger] s[k].0@)
    &&& tmp.len() > 0 ==> forall|k: int| j <= k < t.len() ==> bytes_lt(tmp.last().0@, #[trigger] t[k].0@)
    &&& forall|a: Seq<u8>| #[trigger] amount_of(tmp, a) == amount_of(s.take(i), a) + amount_of(t.take(j), a)
}

proof fn add_start(s: Seq<Token>, t: Seq<Token>)
    requires
        sorted_by_addr(s),
        sorted_by_addr(t),
        sums_fit(s, t),
    ensures
        add_inv(s, t, Seq::<Token>::empty(), 0, 0),
{
    reveal(add_inv);
    assert(s.take(0) =~= Seq::<Token>::empty());
    assert(t.take(0) =~= Seq::<Token>::empty());
}

/// Matching entries: their sum fits.
proof fn add_fits(s: Seq<Token>, t: Seq<Token>, tmp: Seq<Token>, i: int, j: int)
    requires
        add_inv(s, t, tmp, i, j),
        i < s.len(),
        j < t.len(),
        s[i].0@ == t[j].0@,
    ensures
        s[i].1@ + t[j].1@ < pow256(),
{
    reveal(add_inv);
    let a = s[i].0@;
    lemma_sorted_no_duplicates(s);
    lemma_sorted_no_duplicates(t);
    lemma_lookup(s, i);
    lemma_lookup(t, j);
    assert(amount_of(s, a) + amount_of(t, a) < pow256());
}

proof fn add_order(s: Seq<Token>, t: Seq<Token>, tmp: Seq<Token>, i: int, j: int)
    requires
        add_inv(s, t, tmp, i, j),
        i < s.len(),
        j < t.len(),
        s[i].0@ != t[j].0@,
        !bytes_lt(s[i].0@, t[j].0@),
    ensures
        bytes_lt(t[j].0@, s[i].0@),
{
    lemma_bytes_lt_total(s[i].0@, t[j].0@);
}

/// One step of the merge: `x` is appended, made of `s[i]` (if `from_s`),
/// of `t[j]` (if `from_t`), or of both.
proof fn add_step(s: Seq<Token>, t: Seq<Token>, old_tmp: Seq<Token>, tmp: Seq<Token>, i: int, j: int, x: Token, from_s: bool, from_t: bool)
    requires
        add_inv(s, t, old_tmp, i, j),
        from_s || from_t,
        from_s ==> i < s.len(),
        from_t ==> j < t.len(),
        tmp == old_tmp.push(x),
        from_s ==> x.0@ == s[i].0@,
        from_t ==> x.0@ == t[j].0@,
        from_s && from_t ==> x.1@ == s[i].1@ + t[j].1@,
        from_s && !from_t ==> x.1@ == s[i].1@,
        !from_s && from_t ==> x.1@ == t[j].1@,
        from_s && !from_t && j < t.len() ==> bytes_lt(s[i].0@, t[j].0@),
        !from_s && from_t && i < s.len() ==> bytes_lt(t[j].0@, s[i].0@),
    ensures
        add_inv(s, t, tmp, if from_s { i + 1 } else { i }, if from_t { j + 1 } else { j }),
{
    reveal(add_inv);
    add_step_proof(s, t, old_tmp, tmp, i, j, x, from_s, from_t);
}

proof fn add_done(s: Seq<Token>, t: Seq<Token>, tmp: Seq<Token>)
    requires
        add_inv(s, t, tmp, s.len() as int, t.len() as int),
    ensures
        sorted_by_addr(tmp),
        forall|a: Seq<u8>| #[trigger] amount_of(tmp, a) == amount_of(s, a) + amount_of(t, a),
{
    reveal(add_inv);
    assert(s.take(s.len() as int) =~= s);
    assert(t.take(t.len() as int) =~= t);
}

impl TokensMath for Tokens {
    open spec fn token_entries(&self) -> Seq<Token> {
        self@
    }

    fn sub(&mut self, tokens: Tokens) -> (r: Result<(), TokensError>) {
        let ghost orig = self@;
        let sorted = sort_tokens(self);
        *self = sorted;
        proof {
            lemma_sorted_no_duplicates(self@);
            lemma_no_duplicates_adjacent(self@);
        }
        self.assert_duplicate_token();

        let ghost t0 = tokens@;
        let sorted_tokens = sort_tokens(&tokens);
        proof {
            lemma_sorted_no_duplicates(sorted_tokens@);
            lemma_no_duplicates_adjacent(sorted_tokens@);
        }
        sorted_tokens.assert_duplicate_token();

        let ghost s0 = self@;
        let ghost t = sorted_tokens@;
        proof {
            sub_start(orig, t0, s0, t);
        }
        let n = self.len();
        let m = sorted_tokens.len();
        let mut i: usize = 0;
        let mut j: usize = 0;
        while i < n && j < m
            invariant
                n == s0.len(),
                m == t.len(),
                n == self@.len(),
                t == sorted_tokens@,
                t0 == tokens@,
                orig == old(self)@,
                i <= n,
                j <= m,
                sub_inv(orig, t0, s0, t, self@, i as int, j as int),
            decreases n - i + m - j,
        {
            if bytes_equal(&self[i].0, &sorted_tokens[j].0) {
                if self[i].1 < sorted_tokens[j].1 {
                    proof {
                        sub_err_underflow(orig, t0, s0, t, self@, i as int, j as int);
                    }
                    return Err(TokensError::SubtractionUnderflow);
                }
                let ghost before = self@;
                let new_amount = self[i].1 - sorted_tokens[j].1;
                proof {
                    crate::bignumber::uint256::lemma_from_nat_view((self@[i as int].1@ - t[j as int].1@) as nat);
                }
                let addr = clone_bytes(&self[i].0);
                self.set(i, (addr, new_amount));
                proof {
                    sub_match(orig, t0, s0, t, before, self@, i as int, j as int);
                }
                i = i + 1;
                j = j + 1;
            } else if bytes_less(&self[i].0, &sorted_tokens[j].0) {
                proof {
                    sub_skip(orig, t0, s0, t, self@, i as int, j as int);
                }
                i = i + 1;
            } else {
                proof {
                    sub_err_missing(orig, t0, s0, t, self@, i as int, j as int);
                    assert(sub_err_state(orig, self@));
                }
                return Err(TokensError::SubtractionUnderflow);
            }
        }

        if j != m {
            proof {
                reveal(sub_inv);
                sub_err_missing(orig, t0, s0, t, self@, i as int, j as int);
            }
            return Err(TokensError::SubtractionUnderflow);
        }
        proof {
            sub_done(orig, t0, s0, t, self@, i as int);
        }
        // remove zero tokens
        let mut v: Tokens = Vec::new();
        core::mem::swap(&mut v, self);
        let kept = without_zero_amounts(v);
        *self = kept;
        Ok(())
    }

    fn add(&mut self, tokens: Tokens) {
        let ghost orig = self@;
        let sorted = sort_tokens(self);
        *self = sorted;
        proof {
            lemma_sorted_no_duplicates(self@);
            lemma_no_duplicates_adjacent(self@);
        }
        self.assert_duplicate_token();

        let ghost t0 = tokens@;
        let sorted_tokens = sort_tokens(&tokens);
        proof {
            lemma_sorted_no_duplicates(sorted_tokens@);
            lemma_no_duplicates_adjacent(sorted_tokens@);
        }
        sorted_tokens.assert_duplicate_token();

        let ghost s = self@;
        let ghost t = sorted_tokens@;
        proof {
            assert forall|a: Seq<u8>| #[trigger] amount_of(s, a) + amount_of(t, a) < pow256() by {
                assert(amount_of(orig, a) + amount_of(t0, a) < pow256());
            }
            add_start(s, t);
        }
        let n = self.len();
        let m = sorted_tokens.len();
        let mut tmp_tokens: Tokens = Vec::new();
        let mut i: usize = 0;
        let mut j: usize = 0;
        while i < n && j < m
            invariant
                n == s.len(),
                m == t.len(),
                s == self@,
                t == sorted_tokens@,
                t0 == tokens@,
                i <= n,
                j <= m,
                add_inv(s, t, tmp_tokens@, i as int, j as int),
            decreases n - i + m - j,
        {
            let ghost old_tmp = tmp_tokens@;
            if bytes_equal(&self[i].0, &sorted_tokens[j].0) {
                proof {
                    add_fits(s, t, old_tmp, i as int, j as int);
                }
                let sum = self[i].1 + sorted_tokens[j].1;
                proof {
                    crate::bignumber::uint256::lemma_from_nat_view(s[i as int].1@ + t[j as int].1@);
                }
                let x: Token = (clone_bytes(&self[i].0), sum);
                tmp_tokens.push(x);
                proof {
                    add_step(s, t, old_tmp, tmp_tokens@, i as int, j as int, x, true, true);
                }
                i = i + 1;
                j = j + 1;
            } else if !bytes_less(&self[i].0, &sorted_tokens[j].0) {
                proof {
                    add_order(s, t, old_tmp, i as int, j as int);
                }
                let x: Token = (clone_bytes(&sorted_tokens[j].0), sorted_tokens[j].1);
                tmp_tokens.push(x);
                proof {
                    add_step(s, t, old_tmp, tmp_tokens@, i as int, j as int, x, false, true);
                }
                j = j + 1;
            } else {
                let x: Token = (clone_bytes(&self[i].0), self[i].1);
                tmp_tokens.push(x);
                proof {
                    add_step(s, t, old_tmp, tmp_tokens@, i as int, j as int, x, true, false);
                }
                i = i + 1;
            }
        }

        while j < m
            invariant
                n == s.len(),
                m == t.len(),
                s == self@,
                t == sorted_tokens@,
                t0 == tokens@,
                i == n || j == m,
                i <= n,
                j <= m,
                add_inv(s, t, tmp_tokens@, i as int, j as int),
            decreases m - j,
        {
            let ghost old_tmp = tmp_tokens@;
            let x: Token = (clone_bytes(&sorted_tokens[j].0), sorted_tokens[j].1);
            tmp_tokens.push(x);
            proof {
                add_step(s, t, old_tmp, tmp_tokens@, i as int, j as int, x, false, true);
            }
            j = j + 1;
        }

        while i < n
            invariant
                n == s.len(),
                m == t.len(),
                s == self@,
                t == sorted_tokens@,
                t0 == tokens@,
                j == m,
                i <= n,
                j <= m,
                add_inv(s, t, tmp_tokens@, i as int, j as int),
            decreases n - i,
        {
            let ghost old_tmp = tmp_tokens@;
            let x: Token = (clone_bytes(&self[i].0), self[i].1);
            tmp_tokens.push(x);
            proof {
                add_step(s, t, old_tmp, tmp_tokens@, i as int, j as int, x, true, false);
            }
            i = i + 1;
        }
        proof {
            add_done(s, t, tmp_tokens@);
        }

        // remove zero tokens
        let kept = without_zero_amounts(tmp_tokens);
        *self = kept;
    }

    fn assert_duplicate_token(&self) {
        if self.len() > 1 {
            let mut i: usize = 1;
            while i < self.len()
                invariant
                    1 <= i <= self@.len(),
                    no_adjacent_duplicates(self@),
                decreases self.len() - i,
            {
                if bytes_equal(&self[i - 1].0, &self[i].0) {
                    // "duplicate token address"
                    assert(false);
                }
                i = i + 1;
            }
        }
    }
}

proof fn lemma_replace(s: Seq<Token>, i: int, x: Token, a: Seq<u8>)
    requires
        0 <= i < s.len(),
        x.0@ == s[i].0@,
    ensures
        amount_of(s.update(i, x), a) + (if s[i].0@ == a { s[i].1@ } else { 0 }) == amount_of(s, a) + if x.0@ == a {
            x.1@
        } else {
            0
        },
        count_of(s.update(i, x), a) == count_of(s, a),
    decreases s.len(),
{
    if i == s.len() - 1 {
        assert(s.update(i, x).drop_last() =~= s.drop_last());
    } else {
        assert(s.update(i, x).drop_last() =~= s.drop_last().update(i, x));
        lemma_replace(s.drop_last(), i, x, a);
    }
}

proof fn prefix_bound(s: Seq<Token>, i: int, a: Seq<u8>)
    requires
        0 <= i <= s.len(),
    ensures
        amount_of(s.take(i), a) <= amount_of(s, a),
        count_of(s.take(i), a) <= count_of(s, a),
    decreases s.len() - i,
{
    if i < s.len() {
        lemma_take_next(s, i, a);
        prefix_bound(s, i + 1, a);
    } else {
        assert(s.take(i) =~= s);
    }
}

/// One step of the merge in `add`: `x` is appended, made of `s[i]` (if
/// `from_s`), of `t[j]` (if `from_t`), or of both.
proof fn add_step_proof(
    s: Seq<Token>,
    t: Seq<Token>,
    old_tmp: Seq<Token>,
    tmp: Seq<Token>,
    i: int,
    j: int,
    x: Token,
    from_s: bool,
    from_t: bool,
)
    requires
        from_s || from_t,
        from_s ==> 0 <= i < s.len(),
        from_t ==> 0 <= j < t.len(),
        0 <= i <= s.len(),
        0 <= j <= t.len(),
        sorted_by_addr(s),
        sorted_by_addr(t),
        sorted_by_addr(old_tmp),
        tmp == old_tmp.push(x),
        from_s ==> x.0@ == s[i].0@,
        from_t ==> x.0@ == t[j].0@,
        from_s && from_t ==> x.1@ == s[i].1@ + t[j].1@,
        from_s && !from_t ==> x.1@ == s[i].1@,
        !from_s && from_t ==> x.1@ == t[j].1@,
        from_s && !from_t && j < t.len() ==> bytes_lt(s[i].0@, t[j].0@),
        !from_s && from_t && i < s.len() ==> bytes_lt(t[j].0@, s[i].0@),
        old_tmp.len() > 0 ==> forall|k: int| i <= k < s.len() ==> bytes_lt(old_tmp.last().0@, #[trigger] s[k].0@),
        old_tmp.len() > 0 ==> forall|k: int| j <= k < t.len() ==> bytes_lt(old_tmp.last().0@, #[trigger] t[k].0@),
        forall|a: Seq<u8>|
            #[trigger] amount_of(old_tmp, a) == amount_of(s.take(i), a) + amount_of(t.take(j), a),
    ensures
        ({
            let i2 = if from_s { i + 1 } else { i };
            let j2 = if from_t { j + 1 } else { j };
            &&& sorted_by_addr(tmp)
            &&& forall|k: int| i2 <= k < s.len() ==> bytes_lt(tmp.last().0@, #[trigger] s[k].0@)
            &&& forall|k: int| j2 <= k < t.len() ==> bytes_lt(tmp.last().0@, #[trigger] t[k].0@)
            &&& forall|a: Seq<u8>|
                #[trigger] amount_of(tmp, a) == amount_of(s.take(i2), a) + amount_of(t.take(j2), a)
            &&& forall|a: Seq<u8>| #[trigger] amount_of(s.take(i2), a) <= amount_of(s, a)
            &&& forall|a: Seq<u8>| #[trigger] amount_of(t.take(j2), a) <= amount_of(t, a)
        }),
{
    let i2 = if from_s { i + 1 } else { i };
    let j2 = if from_t { j + 1 } else { j };
    assert forall|a: int, b: int| 0 <= a < b < tmp.len() implies bytes_lt(#[trigger] tmp[a].0@, #[trigger] tmp[b].0@) by {
        if b == tmp.len() - 1 {
            if from_s {
                assert(bytes_lt(old_tmp.last().0@, s[i].0@));
                if a < b - 1 {
                    lemma_bytes_lt_transitive(old_tmp[a].0@, old_tmp.last().0@, x.0@);
                }
            } else {
                assert(bytes_lt(old_tmp.last().0@, t[j].0@));
                if a < b - 1 {
                    lemma_bytes_lt_transitive(old_tmp[a].0@, old_tmp.last().0@, x.0@);
                }
            }
        } else {
            assert(tmp[a] == old_tmp[a] && tmp[b] == old_tmp[b]);
        }
    }
    assert forall|k: int| i2 <= k < s.len() implies bytes_lt(tmp.last().0@, #[trigger] s[k].0@) by {
        if from_s {
        } else {
            if k > i {
                lemma_bytes_lt_transitive(x.0@, s[i].0@, s[k].0@);
            }
        }
    }
    assert forall|k: int| j2 <= k < t.len() implies bytes_lt(tmp.last().0@, #[trigger] t[k].0@) by {
        if from_t {
        } else {
            if k > j {
                lemma_bytes_lt_transitive(x.0@, t[j].0@, t[k].0@);
            }
        }
    }
    assert forall|a: Seq<u8>| #[trigger] amount_of(tmp, a) == amount_of(s.take(i2), a) + amount_of(t.take(j2), a) by {
        lemma_push(old_tmp, x, a);
        if from_s {
            lemma_take_next(s, i, a);
        }
        if from_t {
            lemma_take_next(t, j, a);
        }
    }
    assert forall|a: Seq<u8>| #[trigger] amount_of(s.take(i2), a) <= amount_of(s, a) by {
        prefix_bound(s, i2, a);
    }
    assert forall|a: Seq<u8>| #[trigger] amount_of(t.take(j2), a) <= amount_of(t, a) by {
        prefix_bound(t, j2, a);
    }
}

/// A token with a positive total has an entry.
proof fn lemma_amount_means_entry(s: Seq<Token>, a: Seq<u8>)
    requires
        amount_of(s, a) > 0,
    ensures
        count_of(s, a) > 0,
    decreases s.len(),
{
    if s.len() > 0 && s.last().0@ != a {
        lemma_amount_means_entry(s.drop_last(), a);
    }
}

/// Without zero amounts, a token with an entry has a positive total.
proof fn lemma_entry_means_amount(s: Seq<Token>, a: Seq<u8>)
    requires
        no_zero_amounts(s),
        count_of(s, a) > 0,
    ensures
        amount_of(s, a) > 0,
    decreases s.len(),
{
    if s.len() > 0 && s.last().0@ != a {
        assert(no_zero_amounts(s.drop_last())) by {
            assert forall|i: int| 0 <= i < s.drop_last().len() implies #[trigger] s.drop_last()[i].1@ > 0 by {
                assert(s.drop_last()[i] == s[i]);
            }
        }
        lemma_entry_means_amount(s.drop_last(), a);
    } else if s.len() > 0 {
        assert(s.last() == s[s.len() - 1]);
    }
}

/// Collateral that was added (`added`: `s` with `t` added, token by token)
/// can be taken away again, and that leaves every token's amount as in
/// `s`. Tokens named with a zero amount are left out: they are dropped
/// on adding, and then cannot be taken away.
pub proof fn lemma_add_then_sub(s: Seq<Token>, t: Seq<Token>, added: Seq<Token>, left: Seq<Token>)
    requires
        no_zero_amounts(t),
        forall|a: Seq<u8>| #[trigger] amount_of(added, a) == amount_of(s, a) + amount_of(t, a),
    ensures
        covers(added, t),
        sub_ok_state(added, t, left) ==> forall|a: Seq<u8>| #[trigger] amount_of(left, a) == amount_of(s, a),
{
    assert forall|a: Seq<u8>| #[trigger] count_of(t, a) > 0 implies count_of(added, a) > 0 && amount_of(t, a)
        <= amount_of(added, a) by {
        lemma_entry_means_amount(t, a);
        assert(amount_of(added, a) == amount_of(s, a) + amount_of(t, a));
        lemma_amount_means_entry(added, a);
    }
    if sub_ok_state(added, t, left) {
        assert forall|a: Seq<u8>| #[trigger] amount_of(left, a) == amount_of(s, a) by {
            assert(amount_of(left, a) == amount_of(added, a) - amount_of(t, a));
            assert(amount_of(added, a) == amount_of(s, a) + amount_of(t, a));
        }
    }
}

} // verus!
