//! Table keys and their order.
//!
//! Every key type is ordered by an integer rank. Fixed-width byte strings rank as
//! big-endian numbers, which is the byte-wise lexicographic order; composite keys
//! rank their leading component highest.

use vstd::prelude::*;

verus! {

/// 20-byte account identifier.
pub type Address = [u8; 20];

/// 32-byte storage slot identifier.
pub type StorageKey = [u8; 32];

/// 32-byte transaction hash.
pub type TxHash = [u8; 32];

/// Height of a block in the chain.
pub type BlockNumber = u64;

/// Number of a transaction, counted over the whole chain.
pub type TxNumber = u64;

/// Number of distinct byte strings of length `n`.
pub open spec fn radix(n: nat) -> int
    decreases n,
{
    if n == 0 {
        1
    } else {
        256 * radix((n - 1) as nat)
    }
}

/// Value of `bytes` read as a big-endian number.
pub open spec fn be_value(bytes: Seq<u8>) -> int
    decreases bytes.len(),
{
    if bytes.len() == 0 {
        0
    } else {
        be_value(bytes.drop_last()) * 256 + bytes.last()
    }
}

/// A byte string's value is below the number of strings of its length.
pub proof fn lemma_be_value_bound(bytes: Seq<u8>)
    ensures
        0 <= be_value(bytes) < radix(bytes.len()),
    decreases bytes.len(),
{
    if bytes.len() > 0 {
        lemma_be_value_bound(bytes.drop_last());
    }
}

/// Two byte strings of one length with the same value are the same string.
pub proof fn lemma_be_value_injective(a: Seq<u8>, b: Seq<u8>)
    requires
        a.len() == b.len(),
        be_value(a) == be_value(b),
    ensures
        a == b,
    decreases a.len(),
{
    if a.len() > 0 {
        lemma_be_value_injective(a.drop_last(), b.drop_last());
        assert(a =~= a.drop_last().push(a.last()));
        assert(b =~= b.drop_last().push(b.last()));
    } else {
        assert(a =~= b);
    }
}

/// The first byte at which two strings differ decides their order.
pub proof fn lemma_be_value_first_difference(a: Seq<u8>, b: Seq<u8>, i: int)
    requires
        a.len() == b.len(),
        0 <= i < a.len(),
        a.take(i) == b.take(i),
        a[i] < b[i],
    ensures
        be_value(a) < be_value(b),
    decreases a.len(),
{
    if i == a.len() - 1 {
        assert(a.drop_last() =~= a.take(i));
        assert(b.drop_last() =~= b.take(i));
    } else {
        assert(a.drop_last().take(i) =~= a.take(i));
        assert(b.drop_last().take(i) =~= b.take(i));
        lemma_be_value_first_difference(a.drop_last(), b.drop_last(), i);
    }
}

/// Lexicographic order of pairs `(hi, lo)` with `0 <= lo < base` is the order of
/// `hi * base + lo`.
pub proof fn lemma_pair_rank_order(hi1: int, lo1: int, hi2: int, lo2: int, base: int)
    requires
        0 <= lo1 < base,
        0 <= lo2 < base,
    ensures
        (hi1 * base + lo1 < hi2 * base + lo2) <==> (hi1 < hi2 || (hi1 == hi2 && lo1 < lo2)),
        (hi1 * base + lo1 == hi2 * base + lo2) <==> (hi1 == hi2 && lo1 == lo2),
{
    if hi1 < hi2 {
        assert((hi1 + 1) * base <= hi2 * base) by (nonlinear_arith)
            requires
                hi1 + 1 <= hi2,
                base > 0,
        ;
        assert((hi1 + 1) * base == hi1 * base + base) by (nonlinear_arith);
    } else if hi2 < hi1 {
        assert((hi2 + 1) * base <= hi1 * base) by (nonlinear_arith)
            requires
                hi2 + 1 <= hi1,
                base > 0,
        ;
        assert((hi2 + 1) * base == hi2 * base + base) by (nonlinear_arith);
    }
}

/// The rank `hi * base + lo` of a pair lies below `hi_bound * base`.
pub proof fn lemma_pair_rank_bound(hi: int, lo: int, hi_bound: int, base: int)
    requires
        0 <= hi < hi_bound,
        0 <= lo < base,
    ensures
        0 <= hi * base + lo < hi_bound * base,
{
    assert(hi * base >= 0) by (nonlinear_arith)
        requires
            hi >= 0,
            base > 0,
    ;
    assert((hi + 1) * base <= hi_bound * base) by (nonlinear_arith)
        requires
            hi + 1 <= hi_bound,
            base > 0,
    ;
    assert((hi + 1) * base == hi * base + base) by (nonlinear_arith);
}

/// A key of an ordered table.
///
/// Keys are ordered by `rank`; two keys with the same rank are the same key.
pub trait TableKey: Sized + Copy {
    /// Position of the key in the table's order.
    spec fn rank(&self) -> int;

    /// Exclusive upper bound of the ranks of this key type.
    spec fn rank_bound() -> int;

    proof fn lemma_rank_in_bound(&self)
        ensures
            0 <= self.rank() < Self::rank_bound(),
    ;

    proof fn lemma_rank_identifies(&self, other: &Self)
        requires
            self.rank() == other.rank(),
        ensures
            *self == *other,
    ;

    /// Whether `self` sorts strictly before `other`.
    fn less(&self, other: &Self) -> (r: bool)
        ensures
            r == (self.rank() < other.rank()),
    ;
}

/// Whether two keys are the same key.
pub fn same_key<K: TableKey>(a: &K, b: &K) -> (r: bool)
    ensures
        r == (*a == *b),
        r == (a.rank() == b.rank()),
{
    proof {
        if a.rank() == b.rank() {
            a.lemma_rank_identifies(b);
        }
    }
    !a.less(b) && !b.less(a)
}

impl TableKey for u64 {
    open spec fn rank(&self) -> int {
        *self as int
    }

    open spec fn rank_bound() -> int {
        0x1_0000_0000_0000_0000
    }

    proof fn lemma_rank_in_bound(&self) {
    }

    proof fn lemma_rank_identifies(&self, other: &Self) {
    }

    fn less(&self, other: &Self) -> (r: bool) {
        *self < *other
    }
}

impl<const N: usize> TableKey for [u8; N] {
    open spec fn rank(&self) -> int {
        be_value(self@)
    }

    open spec fn rank_bound() -> int {
        radix(N as nat)
    }

    proof fn lemma_rank_in_bound(&self) {
        lemma_be_value_bound(self@);
    }

    proof fn lemma_rank_identifies(&self, other: &Self) {
        lemma_be_value_injective(self@, other@);
        assert(*self =~= *other);
    }

    fn less(&self, other: &Self) -> (r: bool) {
        let mut i: usize = 0;
        while i < N
            invariant
                i <= N,
                self@.len() == N,
                other@.len() == N,
                self@.take(i as int) == other@.take(i as int),
            decreases N - i,
        {
            if self[i] < other[i] {
                proof {
                    lemma_be_value_first_difference(self@, other@, i as int);
                }
                return true;
            }
            if self[i] > other[i] {
                proof {
                    lemma_be_value_first_difference(other@, self@, i as int);
                }
                return false;
            }
            assert(self@.take(i + 1) =~= self@.take(i as int).push(self@[i as int]));
            assert(other@.take(i + 1) =~= other@.take(i as int).push(other@[i as int]));
            i = i + 1;
        }
        assert(self@ =~= self@.take(N as int));
        assert(other@ =~= other@.take(N as int));
        false
    }
}

} // verus!
