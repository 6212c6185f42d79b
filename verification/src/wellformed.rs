//! Checking at run time that a store is fit for pruning.

use crate::block_list::{is_pre_sorted, pre_sorted, BlockList};
use crate::history::{
    has_sentinel, history_wf, lemma_logical_order, lemma_wf_ordered, lemma_wf_sentinel,
    lemma_wf_shard, same_logical, shard_wf, shards_ordered, HistoryKey, Shard,
};
use crate::indices::shard_views;
use crate::keys::TableKey;
use crate::store::{bodies_wf, Store};
use crate::table::Table;
use crate::types::BlockBodyIndices;
use vstd::prelude::*;

verus! {

/// Whether the row at `i` is a shard that may stand where it stands: it is non-empty
/// and ascending and holds no block above its bound; it sorts behind the row before
/// it, and above that row's bound where both belong to one logical key; and it is
/// bounded by `u64::MAX` where it is the last row of its logical key.
pub open spec fn shard_fits<K: HistoryKey>(shards: Seq<Shard<K>>, i: int) -> bool {
    &&& shard_wf(shards[i])
    &&& i > 0 ==> shards[i - 1].0.rank() < shards[i].0.rank()
    &&& i > 0 && same_logical(shards[i - 1].0, shards[i].0) ==> shards[i].1[0] > shards[i
        - 1].0.highest()
    &&& (i + 1 == shards.len() || !same_logical(shards[i].0, shards[i + 1].0))
        ==> shards[i].0.highest() == u64::MAX
}

/// Rows that each sort behind the one before are in key order, strictly.
proof fn lemma_fits_sorted<K: HistoryKey>(shards: Seq<Shard<K>>, i: int, j: int)
    requires
        forall|k: int| 0 <= k < shards.len() ==> shard_fits(shards, k),
        0 <= i < j < shards.len(),
    ensures
        shards[i].0.rank() < shards[j].0.rank(),
    decreases j - i,
{
    assert(shard_fits(shards, j));
    if i + 1 < j {
        lemma_fits_sorted(shards, i, j - 1);
    }
}

/// Of two rows of one logical key, every block of the later lies above the bound of
/// the earlier.
proof fn lemma_fits_ordered<K: HistoryKey>(shards: Seq<Shard<K>>, i: int, j: int)
    requires
        forall|k: int| 0 <= k < shards.len() ==> shard_fits(shards, k),
        0 <= i < j < shards.len(),
        same_logical(shards[i].0, shards[j].0),
    ensures
        shards[j].1[0] > shards[i].0.highest(),
    decreases j - i,
{
    assert(shard_fits(shards, j));
    lemma_fits_sorted(shards, i, j);
    lemma_logical_order(shards[i].0, shards[j].0);
    if i + 1 < j {
        lemma_fits_sorted(shards, i, j - 1);
        lemma_fits_sorted(shards, j - 1, j);
        lemma_logical_order(shards[i].0, shards[j - 1].0);
        lemma_logical_order(shards[j - 1].0, shards[j].0);
        lemma_fits_ordered(shards, i, j - 1);
        assert(shard_fits(shards, j - 1));
    }
}

/// The last row of the logical key of the row at `i`.
proof fn lemma_fits_sentinel<K: HistoryKey>(shards: Seq<Shard<K>>, i: int)
    requires
        forall|k: int| 0 <= k < shards.len() ==> shard_fits(shards, k),
        0 <= i < shards.len(),
    ensures
        has_sentinel(shards, shards[i].0),
    decreases shards.len() - i,
{
    assert(shard_fits(shards, i));
    if i + 1 == shards.len() || !same_logical(shards[i].0, shards[i + 1].0) {
        assert(same_logical(shards[i].0, shards[i].0));
    } else {
        lemma_fits_sentinel(shards, i + 1);
        let j = choose|j: int|
            0 <= j < shards.len() && same_logical((#[trigger] shards[j]).0, shards[i + 1].0)
                && shards[j].0.highest() == u64::MAX;
        assert(same_logical(shards[j].0, shards[i].0));
    }
}

/// A table whose rows all fit keeps the invariants of a history table.
proof fn lemma_fitting_rows_wf<K: HistoryKey>(shards: Seq<Shard<K>>)
    requires
        forall|k: int| 0 <= k < shards.len() ==> shard_fits(shards, k),
    ensures
        history_wf(shards),
{
    assert forall|i: int| 0 <= i < shards.len() implies shard_wf(#[trigger] shards[i]) by {
        assert(shard_fits(shards, i));
    }
    assert forall|i: int, j: int| 0 <= i < j < shards.len() implies shards_ordered(
        #[trigger] shards[i],
        #[trigger] shards[j],
    ) by {
        lemma_fits_sorted(shards, i, j);
        if same_logical(shards[i].0, shards[j].0) {
            lemma_fits_ordered(shards, i, j);
            assert(shard_fits(shards, j));
        }
    }
    assert forall|i: int| 0 <= i < shards.len() implies has_sentinel(
        shards,
        (#[trigger] shards[i]).0,
    ) by {
        lemma_fits_sentinel(shards, i);
    }
    reveal(history_wf);
}

/// In a table that keeps the invariants of a history table, every row fits.
proof fn lemma_wf_row_fits<K: HistoryKey>(shards: Seq<Shard<K>>, k: int)
    requires
        history_wf(shards),
        0 <= k < shards.len(),
    ensures
        shard_fits(shards, k),
{
    lemma_wf_shard(shards, k);
    if k > 0 {
        lemma_wf_ordered(shards, k - 1, k);
    }
    if k + 1 == shards.len() || !same_logical(shards[k].0, shards[k + 1].0) {
        lemma_wf_sentinel(shards, k);
        let j = choose|j: int|
            0 <= j < shards.len() && same_logical((#[trigger] shards[j]).0, shards[k].0)
                && shards[j].0.highest() == u64::MAX;
        if j < k {
            lemma_wf_ordered(shards, j, k);
            lemma_logical_order(shards[j].0, shards[k].0);
        }
        if j > k {
            lemma_wf_ordered(shards, k, k + 1);
            lemma_logical_order(shards[k].0, shards[k + 1].0);
            if j > k + 1 {
                lemma_wf_ordered(shards, k + 1, j);
                lemma_logical_order(shards[k + 1].0, shards[j].0);
            }
        }
    }
}

/// A table keeps the invariants of a history table exactly when each of its rows fits.
pub proof fn lemma_history_wf_by_rows<K: HistoryKey>(shards: Seq<Shard<K>>)
    ensures
        history_wf(shards) <==> forall|k: int| 0 <= k < shards.len() ==> shard_fits(shards, k),
{
    if forall|k: int| 0 <= k < shards.len() ==> shard_fits(shards, k) {
        lemma_fitting_rows_wf(shards);
    }
    if history_wf(shards) {
        assert forall|k: int| 0 <= k < shards.len() implies shard_fits(shards, k) by {
            lemma_wf_row_fits(shards, k);
        }
    }
}

/// Whether the rows of a table are in key order.
pub fn is_sorted_by_key<K: TableKey, V>(table: &Table<K, V>) -> (r: bool)
    ensures
        r == table.wf(),
{
    let n = table.rows.len();
    let mut i: usize = 1;
    while i < n
        invariant
            n == table@.len(),
            1 <= i,
            forall|a: int, b: int|
                0 <= a <= b < i && b < n ==> table@[a].0.rank() <= table@[b].0.rank(),
        decreases n - i,
    {
        if table.rows[i].0.less(&table.rows[i - 1].0) {
            return false;
        }
        i = i + 1;
    }
    true
}

/// Whether a shard is non-empty and ascending and holds no block above `highest`.
fn is_shard_wf(highest: u64, blocks: &BlockList) -> (r: bool)
    ensures
        r == (blocks@.len() > 0 && pre_sorted(blocks@) && forall|b: int|
            0 <= b < blocks@.len() ==> blocks@[b] <= highest),
{
    let n = blocks.len();
    if n == 0 || !is_pre_sorted(&blocks.blocks) {
        return false;
    }
    blocks.get(n - 1) <= highest
}

/// Whether a table keeps the invariants of a history table.
pub fn is_history_wf<K: HistoryKey>(table: &Table<K, BlockList>) -> (r: bool)
    ensures
        r == history_wf(shard_views(table@)),
{
    let ghost shards = shard_views(table@);
    let n = table.rows.len();
    let mut i: usize = 0;
    proof {
        lemma_history_wf_by_rows(shards);
    }
    while i < n
        invariant
            i <= n,
            n == table@.len(),
            shards == shard_views(table@),
            forall|k: int| 0 <= k < i ==> shard_fits(shards, k),
            history_wf(shards) <==> forall|k: int| 0 <= k < shards.len() ==> shard_fits(shards, k),
        decreases n - i,
    {
        let key = &table.rows[i].0;
        let blocks = &table.rows[i].1;
        let mut fits = is_shard_wf(key.highest_block_number(), blocks);
        if fits && i > 0 {
            let before = &table.rows[i - 1].0;
            fits = before.less(key) && (!before.key_matches(key) || blocks.get(0)
                > before.highest_block_number());
        }
        if fits && (i + 1 == n || !key.key_matches(&table.rows[i + 1].0)) {
            fits = key.highest_block_number() == u64::MAX;
        }
        proof {
            assert(shards[i as int] == (table@[i as int].0, table@[i as int].1@));
            if i > 0 {
                assert(shards[i - 1] == (table@[i - 1].0, table@[i - 1].1@));
            }
            if i + 1 < n {
                assert(shards[i + 1] == (table@[i + 1].0, table@[i + 1].1@));
            }
            assert(fits == shard_fits(shards, i as int));
        }
        if !fits {
            return false;
        }
        i = i + 1;
    }
    true
}

/// Whether the transaction numbers of every body are representable.
pub fn is_bodies_wf(bodies: &Vec<BlockBodyIndices>) -> (r: bool)
    ensures
        r == bodies_wf(bodies@),
{
    let n = bodies.len();
    let mut i: usize = 0;
    while i < n
        invariant
            i <= n,
            n == bodies@.len(),
            forall|b: int| 0 <= b < i ==> (#[trigger] bodies@[b]).wf(),
        decreases n - i,
    {
        if bodies[i].first_tx_num.checked_add(bodies[i].tx_count).is_none() {
            return false;
        }
        i = i + 1;
    }
    true
}

impl Store {
    /// Whether the store is fit for pruning: every table in key order, the history
    /// tables with their invariants, every body with representable transaction numbers.
    pub fn is_wf(&self) -> (r: bool)
        ensures
            r == self.wf(),
    {
        is_bodies_wf(&self.bodies) && is_sorted_by_key(&self.transactions) && is_sorted_by_key(
            &self.receipts,
        ) && is_sorted_by_key(&self.tx_senders) && is_sorted_by_key(&self.tx_hash_numbers)
            && is_sorted_by_key(&self.account_changesets) && is_sorted_by_key(
            &self.storage_changesets,
        ) && is_history_wf(&self.account_history) && is_history_wf(&self.storage_history)
    }
}

} // verus!
