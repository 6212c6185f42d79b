//! Ordered tables: rows kept in key order, deleted by key range or by key list.

use crate::keys::TableKey;
use vstd::prelude::*;

verus! {

/// Rows in non-decreasing key order.
pub open spec fn sorted_by_key<K: TableKey, V>(rows: Seq<(K, V)>) -> bool {
    forall|i: int, j: int| 0 <= i <= j < rows.len() ==> rows[i].0.rank() <= rows[j].0.rank()
}

/// Keys in non-decreasing order.
pub open spec fn sorted_keys<K: TableKey>(keys: Seq<K>) -> bool {
    forall|i: int, j: int| 0 <= i <= j < keys.len() ==> keys[i].rank() <= keys[j].rank()
}

/// Whether `k` lies in the inclusive range from `lo` to `hi`.
pub open spec fn key_in_range<K: TableKey>(k: K, lo: K, hi: K) -> bool {
    lo.rank() <= k.rank() <= hi.rank()
}

/// The rows whose key lies in the inclusive range from `lo` to `hi`.
pub open spec fn within_range<K: TableKey, V>(rows: Seq<(K, V)>, lo: K, hi: K) -> Seq<(K, V)> {
    rows.filter(|row: (K, V)| key_in_range(row.0, lo, hi))
}

/// The rows whose key lies outside the inclusive range from `lo` to `hi`.
pub open spec fn without_range<K: TableKey, V>(rows: Seq<(K, V)>, lo: K, hi: K) -> Seq<(K, V)> {
    rows.filter(|row: (K, V)| !key_in_range(row.0, lo, hi))
}

/// The rows whose key is not among `keys`.
pub open spec fn without_keys<K: TableKey, V>(rows: Seq<(K, V)>, keys: Seq<K>) -> Seq<(K, V)> {
    rows.filter(|row: (K, V)| !keys.contains(row.0))
}

/// Number of rows whose key does not sort after `key`.
pub open spec fn rows_up_to<K: TableKey, V>(rows: Seq<(K, V)>, key: K) -> int {
    rows.filter(|row: (K, V)| row.0.rank() <= key.rank()).len() as int
}

/// Key of the last row, if there is one.
pub open spec fn last_key<K: TableKey, V>(rows: Seq<(K, V)>) -> Option<K> {
    if rows.len() == 0 {
        None
    } else {
        Some(rows.last().0)
    }
}

/// A filter keeps a sequence unchanged when every element passes.
pub proof fn lemma_filter_keeps_all<A>(s: Seq<A>, pred: spec_fn(A) -> bool)
    requires
        forall|i: int| 0 <= i < s.len() ==> pred(#[trigger] s[i]),
    ensures
        s.filter(pred) == s,
    decreases s.len(),
{
    reveal(Seq::filter);
    if s.len() > 0 {
        lemma_filter_keeps_all(s.drop_last(), pred);
        assert(s =~= s.drop_last().push(s.last()));
    }
}

/// A filter leaves nothing when no element passes.
pub proof fn lemma_filter_keeps_none<A>(s: Seq<A>, pred: spec_fn(A) -> bool)
    requires
        forall|i: int| 0 <= i < s.len() ==> !pred(#[trigger] s[i]),
    ensures
        s.filter(pred) == Seq::<A>::empty(),
    decreases s.len(),
{
    reveal(Seq::filter);
    if s.len() > 0 {
        lemma_filter_keeps_none(s.drop_last(), pred);
    }
}

/// Filtering a sequence whose failing elements are exactly those at `i..j`
/// removes that stretch.
pub proof fn lemma_filter_removes_stretch<A>(s: Seq<A>, pred: spec_fn(A) -> bool, i: int, j: int)
    requires
        0 <= i <= j <= s.len(),
        forall|k: int| 0 <= k < i ==> pred(#[trigger] s[k]),
        forall|k: int| i <= k < j ==> !pred(#[trigger] s[k]),
        forall|k: int| j <= k < s.len() ==> pred(#[trigger] s[k]),
    ensures
        s.filter(pred) == s.subrange(0, i) + s.subrange(j, s.len() as int),
{
    let a = s.subrange(0, i);
    let b = s.subrange(i, j);
    let c = s.subrange(j, s.len() as int);
    assert(s =~= (a + b) + c);
    Seq::filter_distributes_over_add(a + b, c, pred);
    Seq::filter_distributes_over_add(a, b, pred);
    lemma_filter_keeps_all(a, pred);
    lemma_filter_keeps_none(b, pred);
    lemma_filter_keeps_all(c, pred);
    assert(a + Seq::<A>::empty() =~= a);
}

/// Filtering a sequence whose passing elements are exactly those at `i..j`
/// leaves that stretch.
pub proof fn lemma_filter_keeps_stretch<A>(s: Seq<A>, pred: spec_fn(A) -> bool, i: int, j: int)
    requires
        0 <= i <= j <= s.len(),
        forall|k: int| 0 <= k < i ==> !pred(#[trigger] s[k]),
        forall|k: int| i <= k < j ==> pred(#[trigger] s[k]),
        forall|k: int| j <= k < s.len() ==> !pred(#[trigger] s[k]),
    ensures
        s.filter(pred) == s.subrange(i, j),
{
    let a = s.subrange(0, i);
    let b = s.subrange(i, j);
    let c = s.subrange(j, s.len() as int);
    assert(s =~= (a + b) + c);
    Seq::filter_distributes_over_add(a + b, c, pred);
    Seq::filter_distributes_over_add(a, b, pred);
    lemma_filter_keeps_none(a, pred);
    lemma_filter_keeps_all(b, pred);
    lemma_filter_keeps_none(c, pred);
    assert((Seq::<A>::empty() + b) + Seq::<A>::empty() =~= b);
}

/// Filtering keeps rows in key order.
pub proof fn lemma_filter_sorted<K: TableKey, V>(rows: Seq<(K, V)>, pred: spec_fn((K, V)) -> bool)
    requires
        sorted_by_key(rows),
    ensures
        sorted_by_key(rows.filter(pred)),
    decreases rows.len(),
{
    reveal(Seq::filter);
    if rows.len() > 0 {
        let front = rows.drop_last();
        lemma_filter_sorted(front, pred);
        let kept = front.filter(pred);
        assert forall|i: int| 0 <= i < kept.len() implies (#[trigger] kept[i]).0.rank()
            <= rows.last().0.rank() by {
            assert(kept.contains(kept[i]));
            front.lemma_filter_contains_rev(pred, kept[i]);
            let j = choose|j: int| 0 <= j < front.len() && front[j] == kept[i];
            assert(rows[j] == front[j]);
        }
    }
}

/// A table whose rows are kept in key order. Several rows may share a key.
#[derive(Clone, Debug, PartialEq, Eq)]
pub struct Table<K: TableKey, V> {
    pub rows: Vec<(K, V)>,
}

impl<K: TableKey, V> View for Table<K, V> {
    type V = Seq<(K, V)>;

    open spec fn view(&self) -> Seq<(K, V)> {
        self.rows@
    }
}

impl<K: TableKey, V> Table<K, V> {
    /// The rows are in key order.
    pub open spec fn wf(&self) -> bool {
        sorted_by_key(self@)
    }

    /// An empty table.
    pub fn new() -> (t: Self)
        ensures
            t@ == Seq::<(K, V)>::empty(),
            t.wf(),
    {
        Table { rows: Vec::new() }
    }

    /// A table of the given rows, or `None` when they are not in key order.
    pub fn from_rows(rows: Vec<(K, V)>) -> (t: Option<Self>)
        ensures
            t is Some <==> sorted_by_key(rows@),
            t matches Some(table) ==> table@ == rows@ && table.wf(),
    {
        let n = rows.len();
        let mut i: usize = 1;
        while i < n
            invariant
                n == rows.len(),
                1 <= i,
                forall|a: int, b: int|
                    0 <= a <= b < i && b < n ==> rows@[a].0.rank() <= rows@[b].0.rank(),
            decreases n - i,
        {
            if rows[i].0.less(&rows[i - 1].0) {
                return None;
            }
            i = i + 1;
        }
        Some(Table { rows })
    }

    /// Number of rows.
    pub fn len(&self) -> (n: usize)
        ensures
            n == self@.len(),
    {
        self.rows.len()
    }

    /// Key of the row at position `i`.
    pub fn key_at(&self, i: usize) -> (k: K)
        requires
            i < self@.len(),
        ensures
            k == self@[i as int].0,
    {
        self.rows[i].0
    }

    /// Value of the row at position `i`.
    pub fn value_at(&self, i: usize) -> (v: &V)
        requires
            i < self@.len(),
        ensures
            *v == self@[i as int].1,
    {
        &self.rows[i].1
    }

    /// Position of the first row whose key does not sort before `key`.
    pub fn lower_bound(&self, key: &K) -> (pos: usize)
        requires
            self.wf(),
        ensures
            pos <= self@.len(),
            forall|i: int| 0 <= i < pos ==> (#[trigger] self@[i]).0.rank() < key.rank(),
            forall|i: int| pos <= i < self@.len() ==> (#[trigger] self@[i]).0.rank() >= key.rank(),
    {
        let mut lo: usize = 0;
        let mut hi: usize = self.rows.len();
        while lo < hi
            invariant
                lo <= hi <= self@.len(),
                self.wf(),
                forall|i: int| 0 <= i < lo ==> (#[trigger] self@[i]).0.rank() < key.rank(),
                forall|i: int| hi <= i < self@.len() ==> (#[trigger] self@[i]).0.rank() >= key.rank(),
            decreases hi - lo,
        {
            let mid = lo + (hi - lo) / 2;
            if self.rows[mid].0.less(key) {
                lo = mid + 1;
            } else {
                hi = mid;
            }
        }
        lo
    }

    /// Position of the first row whose key sorts after `key`.
    pub fn upper_bound(&self, key: &K) -> (pos: usize)
        requires
            self.wf(),
        ensures
            pos <= self@.len(),
            forall|i: int| 0 <= i < pos ==> (#[trigger] self@[i]).0.rank() <= key.rank(),
            forall|i: int| pos <= i < self@.len() ==> (#[trigger] self@[i]).0.rank() > key.rank(),
    {
        let mut lo: usize = 0;
        let mut hi: usize = self.rows.len();
        while lo < hi
            invariant
                lo <= hi <= self@.len(),
                self.wf(),
                forall|i: int| 0 <= i < lo ==> (#[trigger] self@[i]).0.rank() <= key.rank(),
                forall|i: int| hi <= i < self@.len() ==> (#[trigger] self@[i]).0.rank() > key.rank(),
            decreases hi - lo,
        {
            let mid = lo + (hi - lo) / 2;
            if key.less(&self.rows[mid].0) {
                hi = mid;
            } else {
                lo = mid + 1;
            }
        }
        lo
    }

    /// Puts a row into the table, behind the rows whose key does not sort after its key.
    pub fn insert(&mut self, key: K, value: V)
        requires
            old(self).wf(),
            old(self)@.len() < usize::MAX,
        ensures
            final(self).wf(),
            final(self)@ == old(self)@.insert(rows_up_to(old(self)@, key), (key, value)),
    {
        let pos = self.upper_bound(&key);
        let ghost before = self@;
        proof {
            lemma_filter_keeps_stretch(
                before,
                |row: (K, V)| row.0.rank() <= key.rank(),
                0,
                pos as int,
            );
        }
        self.rows.insert(pos, (key, value));
        assert forall|i: int, j: int| 0 <= i <= j < self@.len() implies self@[i].0.rank()
            <= self@[j].0.rank() by {
            let i0 = if i < pos { i } else { i - 1 };
            let j0 = if j < pos { j } else { j - 1 };
            if i != pos {
                assert(self@[i] == before[i0]);
            }
            if j != pos {
                assert(self@[j] == before[j0]);
            }
        }
    }

    /// Deletes every row whose key lies in the inclusive range from `lo` to `hi`.
    ///
    /// Returns the key of the last row deleted and the number of rows deleted.
    pub fn delete_range(&mut self, lo: &K, hi: &K) -> (r: (Option<K>, usize))
        requires
            old(self).wf(),
        ensures
            final(self).wf(),
            final(self)@ == without_range(old(self)@, *lo, *hi),
            r.0 == last_key(within_range(old(self)@, *lo, *hi)),
            r.1 == within_range(old(self)@, *lo, *hi).len(),
            r.1 == old(self)@.len() - final(self)@.len(),
    {
        let from = self.lower_bound(lo);
        let upto = self.upper_bound(hi);
        let ghost before = self@;
        let ghost gone = |row: (K, V)| key_in_range(row.0, *lo, *hi);
        let ghost stays = |row: (K, V)| !key_in_range(row.0, *lo, *hi);
        if upto <= from {
            proof {
                lemma_filter_keeps_all(before, stays);
                lemma_filter_keeps_none(before, gone);
            }
            return (None, 0);
        }
        let last = self.rows[upto - 1].0;
        let mut tail = self.rows.split_off(upto);
        self.rows.truncate(from);
        self.rows.append(&mut tail);
        proof {
            lemma_filter_removes_stretch(before, stays, from as int, upto as int);
            lemma_filter_keeps_stretch(before, gone, from as int, upto as int);
        }
        (Some(last), upto - from)
    }

    /// Deletes every row whose key is listed in `keys`, which must be in key order,
    /// by one forward sweep over rows and keys. Returns the number of rows deleted.
    pub fn delete_by_keys(&mut self, keys: &Vec<K>) -> (count: usize)
        requires
            old(self).wf(),
            sorted_keys(keys@),
        ensures
            final(self).wf(),
            final(self)@ == without_keys(old(self)@, keys@),
            count == old(self)@.len() - final(self)@.len(),
    {
        let ghost before = self@;
        let ghost stays = |row: (K, V)| !keys@.contains(row.0);
        let mut rows: Vec<(K, V)> = Vec::new();
        core::mem::swap(&mut rows, &mut self.rows);
        let total = rows.len();
        let mut k: usize = 0;
        let mut count: usize = 0;
        proof {
            assert(before.take(0) =~= Seq::<(K, V)>::empty());
            lemma_filter_keeps_none(before.take(0), stays);
        }
        for row in it: rows
            invariant
                it.seq() == before,
                before.len() == total,
                sorted_by_key(before),
                sorted_keys(keys@),
                stays == |row: (K, V)| !keys@.contains(row.0),
                k <= keys@.len(),
                count + self@.len() == it.index(),
                self@ == before.take(it.index()).filter(stays),
                forall|j: int|
                    0 <= j < k && it.index() < before.len() ==> (#[trigger] keys@[j]).rank()
                        < before[it.index()].0.rank(),
        {
            let ghost p = it.index();
            while k < keys.len() && keys[k].less(&row.0)
                invariant
                    k <= keys@.len(),
                    sorted_keys(keys@),
                    forall|j: int| 0 <= j < k ==> (#[trigger] keys@[j]).rank() < row.0.rank(),
                decreases keys@.len() - k,
            {
                k = k + 1;
            }
            let listed = k < keys.len() && !row.0.less(&keys[k]);
            proof {
                assert(before.take(p + 1) =~= before.take(p).push(row));
                before.take(p).lemma_filter_push(row, stays);
                if listed {
                    keys@[k as int].lemma_rank_identifies(&row.0);
                    assert(keys@.contains(row.0));
                } else {
                    if keys@.contains(row.0) {
                        let j = choose|j: int| 0 <= j < keys@.len() && keys@[j] == row.0;
                        if j >= k {
                            assert(keys@[k as int].rank() <= keys@[j].rank());
                        }
                    }
                }
            }
            if listed {
                count = count + 1;
            } else {
                self.rows.push(row);
            }
        }
        proof {
            assert(before.take(before.len() as int) =~= before);
            lemma_filter_sorted(before, stays);
        }
        count
    }
}

} // verus!
