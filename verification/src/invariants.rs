//! What holds of a store after every batch: nothing of a block at or below a part's
//! checkpoint is left in the tables of that part.

use crate::block_list::lemma_blocks_above_members;
use crate::changesets::{address_span, lemma_address_span, BlockNumberAddress};
use crate::history::{pruned_shard, pruned_shards, survives, HistoryKey, Shard};
use crate::indices::{lemma_pruned_member, lemma_pruned_shards_wf};
use crate::keys::{BlockNumber, TableKey, TxHash, TxNumber};
use crate::planner::next_block;
use crate::store::{bodies_wf, hashes_of, StoreView};
use crate::table::{
    key_in_range, lemma_filter_sorted, sorted_by_key, within_range, without_keys, without_range,
};
use crate::types::{BlockBodyIndices, InclusiveRange, PruneMode, PrunePart};
use vstd::prelude::*;

verus! {

/// Every block's transactions follow those of the block before it.
pub open spec fn chain_contiguous(bodies: Seq<BlockBodyIndices>) -> bool {
    forall|b: int|
        0 <= b && b + 1 < bodies.len() ==> (#[trigger] bodies[b + 1]).first_tx_num
            == bodies[b].next_tx()
}

/// Whether transaction `tx` belongs to block `b`.
pub open spec fn tx_in_block(bodies: Seq<BlockBodyIndices>, b: int, tx: TxNumber) -> bool {
    0 <= b < bodies.len() && bodies[b].first_tx_num <= tx < bodies[b].next_tx()
}

/// Whether transaction `tx` belongs to a block at or below `upto`.
pub open spec fn tx_at_or_below(bodies: Seq<BlockBodyIndices>, tx: TxNumber, upto: int) -> bool {
    exists|b: int| 0 <= b <= upto && #[trigger] tx_in_block(bodies, b, tx)
}

/// No row is keyed by a transaction of a block at or below `upto`.
pub open spec fn tx_rows_above<V>(
    rows: Seq<(TxNumber, V)>,
    bodies: Seq<BlockBodyIndices>,
    upto: int,
) -> bool {
    forall|i: int| 0 <= i < rows.len() ==> !tx_at_or_below(bodies, (#[trigger] rows[i]).0, upto)
}

/// No row points to a transaction of a block at or below `upto`.
pub open spec fn tx_numbers_above(
    rows: Seq<(TxHash, TxNumber)>,
    bodies: Seq<BlockBodyIndices>,
    upto: int,
) -> bool {
    forall|i: int| 0 <= i < rows.len() ==> !tx_at_or_below(bodies, (#[trigger] rows[i]).1, upto)
}

/// Every hash in the lookup table is the hash of the transaction it points to.
pub open spec fn lookup_indexed(
    lookup: Seq<(TxHash, TxNumber)>,
    transactions: Seq<(TxNumber, TxHash)>,
) -> bool {
    forall|i: int|
        0 <= i < lookup.len() ==> transactions.contains(
            ((#[trigger] lookup[i]).1, lookup[i].0),
        )
}

/// Every account change belongs to a block above `upto`.
pub open spec fn account_changes_above<V>(rows: Seq<(BlockNumber, V)>, upto: int) -> bool {
    forall|i: int| 0 <= i < rows.len() ==> (#[trigger] rows[i]).0 > upto
}

/// Every storage change belongs to a block above `upto`.
pub open spec fn storage_changes_above<V>(rows: Seq<(BlockNumberAddress, V)>, upto: int) -> bool {
    forall|i: int| 0 <= i < rows.len() ==> (#[trigger] rows[i]).0.block_number > upto
}

/// Every block in every shard is above `upto`.
pub open spec fn shards_above<K: HistoryKey>(shards: Seq<Shard<K>>, upto: int) -> bool {
    forall|i: int, b: int|
        0 <= i < shards.len() && 0 <= b < shards[i].1.len() ==> #[trigger] shards[i].1[b] > upto
}

impl StoreView {
    /// The store is consistent with its checkpoints: the blocks number their
    /// transactions without gaps, the lookup table agrees with the transactions, and
    /// for every part with a checkpoint nothing of a block at or below it is left.
    pub open spec fn pruned(self) -> bool {
        &&& chain_contiguous(self.bodies)
        &&& lookup_indexed(self.tx_hash_numbers, self.transactions)
        &&& self.checkpoint(PrunePart::Receipts) matches Some(c) ==> tx_rows_above(
            self.receipts,
            self.bodies,
            c.block_number as int,
        )
        &&& self.checkpoint(PrunePart::SenderRecovery) matches Some(c) ==> tx_rows_above(
            self.tx_senders,
            self.bodies,
            c.block_number as int,
        )
        &&& self.checkpoint(PrunePart::TransactionLookup) matches Some(c) ==> tx_numbers_above(
            self.tx_hash_numbers,
            self.bodies,
            c.block_number as int,
        )
        &&& self.checkpoint(PrunePart::AccountHistory) matches Some(c) ==> account_changes_above(
            self.account_changesets,
            c.block_number as int,
        ) && shards_above(self.account_history, c.block_number as int)
        &&& self.checkpoint(PrunePart::StorageHistory) matches Some(c) ==> storage_changes_above(
            self.storage_changesets,
            c.block_number as int,
        ) && shards_above(self.storage_history, c.block_number as int)
    }
}

/// Before anything is pruned there is nothing to ask for: a store without checkpoints
/// is consistent with them when its blocks number their transactions without gaps and
/// its lookup table agrees with its transactions.
pub proof fn lemma_unpruned_store(s: StoreView)
    requires
        chain_contiguous(s.bodies),
        lookup_indexed(s.tx_hash_numbers, s.transactions),
        forall|part: PrunePart| s.checkpoint(part) is None,
    ensures
        s.pruned(),
{
    assert(s.checkpoint(PrunePart::Receipts) is None);
    assert(s.checkpoint(PrunePart::SenderRecovery) is None);
    assert(s.checkpoint(PrunePart::TransactionLookup) is None);
    assert(s.checkpoint(PrunePart::AccountHistory) is None);
    assert(s.checkpoint(PrunePart::StorageHistory) is None);
}

/// Later blocks hold later transactions.
pub proof fn lemma_chain_monotone(bodies: Seq<BlockBodyIndices>, a: int, b: int)
    requires
        chain_contiguous(bodies),
        0 <= a <= b < bodies.len(),
    ensures
        bodies[a].first_tx_num <= bodies[b].first_tx_num,
        bodies[a].next_tx() <= bodies[b].next_tx(),
    decreases b - a,
{
    if a < b {
        lemma_chain_monotone(bodies, a, b - 1);
        assert(bodies[b - 1 + 1].first_tx_num == bodies[b - 1].next_tx());
    }
}

/// The rows that a range deletion leaves were there before and lie outside the range.
pub proof fn lemma_without_range_rows<K: TableKey, V>(rows: Seq<(K, V)>, lo: K, hi: K)
    ensures
        forall|i: int|
            0 <= i < without_range(rows, lo, hi).len() ==> {
                &&& rows.contains(#[trigger] without_range(rows, lo, hi)[i])
                &&& !key_in_range(without_range(rows, lo, hi)[i].0, lo, hi)
            },
        sorted_by_key(rows) ==> sorted_by_key(without_range(rows, lo, hi)),
{
    let stays = |row: (K, V)| !key_in_range(row.0, lo, hi);
    let left = rows.filter(stays);
    assert forall|i: int| 0 <= i < left.len() implies rows.contains(#[trigger] left[i])
        && !key_in_range(left[i].0, lo, hi) by {
        rows.lemma_filter_pred(stays, i);
        assert(left.contains(left[i]));
        rows.lemma_filter_contains_rev(stays, left[i]);
    }
    if sorted_by_key(rows) {
        lemma_filter_sorted(rows, stays);
    }
}

/// The rows that a deletion by keys leaves were there before and have none of the keys.
pub proof fn lemma_without_keys_rows<K: TableKey, V>(rows: Seq<(K, V)>, keys: Seq<K>)
    ensures
        forall|i: int|
            0 <= i < without_keys(rows, keys).len() ==> {
                &&& rows.contains(#[trigger] without_keys(rows, keys)[i])
                &&& !keys.contains(without_keys(rows, keys)[i].0)
            },
        sorted_by_key(rows) ==> sorted_by_key(without_keys(rows, keys)),
{
    let stays = |row: (K, V)| !keys.contains(row.0);
    let left = rows.filter(stays);
    assert forall|i: int| 0 <= i < left.len() implies rows.contains(#[trigger] left[i])
        && !keys.contains(left[i].0) by {
        rows.lemma_filter_pred(stays, i);
        assert(left.contains(left[i]));
        rows.lemma_filter_contains_rev(stays, left[i]);
    }
    if sorted_by_key(rows) {
        lemma_filter_sorted(rows, stays);
    }
}

/// A transaction of a planned block lies in the planned transaction range; a batch
/// without transaction range has no transaction in its blocks.
pub proof fn lemma_planned_txs_cover(
    bodies: Seq<BlockBodyIndices>,
    blocks: InclusiveRange,
    b: int,
    tx: TxNumber,
)
    requires
        chain_contiguous(bodies),
        blocks.start <= b <= blocks.end < bodies.len(),
        tx_in_block(bodies, b, tx),
    ensures
        bodies[blocks.start as int].first_tx_num <= tx <= bodies[blocks.end as int].last_tx(),
{
    lemma_chain_monotone(bodies, blocks.start as int, b);
    lemma_chain_monotone(bodies, b, blocks.end as int);
}

/// After a batch over `blocks` that deleted every row keyed by a transaction of its
/// blocks, no row is left of a block up to the batch's last.
pub proof fn lemma_tx_rows_stay_above<V>(
    before: Seq<(TxNumber, V)>,
    after: Seq<(TxNumber, V)>,
    bodies: Seq<BlockBodyIndices>,
    blocks: InclusiveRange,
)
    requires
        chain_contiguous(bodies),
        blocks.start <= blocks.end < bodies.len(),
        tx_rows_above(before, bodies, blocks.start - 1),
        forall|i: int|
            0 <= i < after.len() ==> before.contains(#[trigger] after[i]) && !(bodies[blocks.start as int].first_tx_num
                <= after[i].0 <= bodies[blocks.end as int].last_tx()),
    ensures
        tx_rows_above(after, bodies, blocks.end as int),
{
    assert forall|i: int| 0 <= i < after.len() implies !tx_at_or_below(
        bodies,
        (#[trigger] after[i]).0,
        blocks.end as int,
    ) by {
        let tx = after[i].0;
        if tx_at_or_below(bodies, tx, blocks.end as int) {
            let b = choose|b: int| 0 <= b <= blocks.end && #[trigger] tx_in_block(bodies, b, tx);
            let j = choose|j: int| 0 <= j < before.len() && before[j] == after[i];
            if b < blocks.start {
                assert(tx_at_or_below(bodies, before[j].0, blocks.start - 1));
            } else {
                lemma_planned_txs_cover(bodies, blocks, b, tx);
            }
        }
    }
}

/// A planned batch of transactions lies in blocks that the store has, behind the
/// checkpoint.
pub proof fn lemma_tx_plan_blocks(s: StoreView, part: PrunePart, to_block: u64, limit: usize)
    requires
        bodies_wf(s.bodies),
    ensures
        match s.tx_plan(part, to_block, limit) {
            Some(((blocks, txs), _)) => {
                &&& blocks.start == next_block(s.checkpoint(part))
                &&& blocks.start <= blocks.end <= to_block
                &&& blocks.end < s.bodies.len()
                &&& txs matches Some(t) ==> t.start == s.bodies[blocks.start as int].first_tx_num
                    && t.end == s.bodies[blocks.end as int].last_tx() && t.start <= t.end
                &&& txs is None ==> s.bodies[blocks.start as int].first_tx_num
                    > s.bodies[blocks.end as int].last_tx()
            },
            None => true,
        },
{
}

/// A batch of receipts keeps the store well-formed and consistent with its checkpoints.
pub proof fn lemma_receipts_batch_keeps(s: StoreView, to_block: u64, mode: PruneMode, limit: usize)
    requires
        s.wf(),
        s.pruned(),
    ensures
        s.receipts_batch(to_block, mode, limit).1.wf(),
        s.receipts_batch(to_block, mode, limit).1.pruned(),
{
    let part = PrunePart::Receipts;
    let after = s.receipts_batch(to_block, mode, limit).1;
    if let Some(((blocks, txs), _)) = s.tx_plan(part, to_block, limit) {
        lemma_tx_plan_blocks(s, part, to_block, limit);
        if let Some(t) = txs {
            lemma_without_range_rows(s.receipts, t.start, t.end);
        }
        if s.checkpoint(part) is None {
            assert(tx_rows_above(s.receipts, s.bodies, blocks.start - 1)) by {
                assert forall|i: int| 0 <= i < s.receipts.len() implies !tx_at_or_below(
                    s.bodies,
                    (#[trigger] s.receipts[i]).0,
                    blocks.start - 1,
                ) by {}
            }
        }
        lemma_tx_rows_stay_above(s.receipts, after.receipts, s.bodies, blocks);
    }
}

/// A batch of senders keeps the store well-formed and consistent with its checkpoints.
pub proof fn lemma_senders_batch_keeps(s: StoreView, to_block: u64, mode: PruneMode, limit: usize)
    requires
        s.wf(),
        s.pruned(),
    ensures
        s.senders_batch(to_block, mode, limit).1.wf(),
        s.senders_batch(to_block, mode, limit).1.pruned(),
{
    let part = PrunePart::SenderRecovery;
    let after = s.senders_batch(to_block, mode, limit).1;
    if let Some(((blocks, txs), _)) = s.tx_plan(part, to_block, limit) {
        lemma_tx_plan_blocks(s, part, to_block, limit);
        if let Some(t) = txs {
            lemma_without_range_rows(s.tx_senders, t.start, t.end);
        }
        if s.checkpoint(part) is None {
            assert(tx_rows_above(s.tx_senders, s.bodies, blocks.start - 1)) by {
                assert forall|i: int| 0 <= i < s.tx_senders.len() implies !tx_at_or_below(
                    s.bodies,
                    (#[trigger] s.tx_senders[i]).0,
                    blocks.start - 1,
                ) by {}
            }
        }
        lemma_tx_rows_stay_above(s.tx_senders, after.tx_senders, s.bodies, blocks);
    }
}

/// The hash of a stored transaction numbered in `range` is among the hashes of the range.
pub proof fn lemma_hashes_in_contains(s: StoreView, range: InclusiveRange, n: TxNumber, h: TxHash)
    requires
        s.transactions.contains((n, h)),
        range.start <= n <= range.end,
    ensures
        s.hashes_in(range).contains(h),
{
    let inside = |row: (TxNumber, TxHash)| key_in_range(row.0, range.start, range.end);
    let j = choose|j: int| 0 <= j < s.transactions.len() && s.transactions[j] == (n, h);
    s.transactions.lemma_filter_contains(inside, j);
    let found = within_range(s.transactions, range.start, range.end);
    let k = choose|k: int| 0 <= k < found.len() && found[k] == (n, h);
    assert(hashes_of(found)[k] == h);
}

/// A batch of the transaction lookup keeps the store well-formed and consistent with
/// its checkpoints.
pub proof fn lemma_lookup_batch_keeps(s: StoreView, to_block: u64, mode: PruneMode, limit: usize)
    requires
        s.wf(),
        s.pruned(),
    ensures
        s.lookup_batch(to_block, mode, limit).1.wf(),
        s.lookup_batch(to_block, mode, limit).1.pruned(),
{
    let part = PrunePart::TransactionLookup;
    let after = s.lookup_batch(to_block, mode, limit).1;
    if let Some(((blocks, txs), _)) = s.tx_plan(part, to_block, limit) {
        lemma_tx_plan_blocks(s, part, to_block, limit);
        if s.lookup_batch(to_block, mode, limit).0 is Ok {
            let before = s.tx_hash_numbers;
            let left = after.tx_hash_numbers;
            if let Some(t) = txs {
                lemma_without_keys_rows(before, s.hashes_in(t));
            }
            assert forall|i: int| 0 <= i < left.len() implies before.contains(#[trigger] left[i]) by {
                if txs is None {
                    assert(left[i] == before[i]);
                }
            }
            assert(lookup_indexed(left, s.transactions)) by {
                assert forall|i: int| 0 <= i < left.len() implies s.transactions.contains(
                    ((#[trigger] left[i]).1, left[i].0),
                ) by {
                    let j = choose|j: int| 0 <= j < before.len() && before[j] == left[i];
                }
            }
            assert forall|i: int| 0 <= i < left.len() implies !tx_at_or_below(
                s.bodies,
                (#[trigger] left[i]).1,
                blocks.end as int,
            ) by {
                let (h, n) = left[i];
                if tx_at_or_below(s.bodies, n, blocks.end as int) {
                    let b = choose|b: int|
                        0 <= b <= blocks.end && #[trigger] tx_in_block(s.bodies, b, n);
                    let j = choose|j: int| 0 <= j < before.len() && before[j] == left[i];
                    if b < blocks.start {
                        assert(tx_at_or_below(s.bodies, before[j].1, blocks.start - 1));
                    } else {
                        lemma_planned_txs_cover(s.bodies, blocks, b, n);
                        lemma_hashes_in_contains(s, txs->0, n, h);
                    }
                }
            }
        }
    }
}

/// What pruning leaves of a history table holds only blocks above the target.
pub proof fn lemma_pruned_shards_above<K: HistoryKey>(shards: Seq<Shard<K>>, to_block: u64)
    ensures
        shards_above(pruned_shards(shards, to_block), to_block as int),
{
    let left = pruned_shards(shards, to_block);
    assert forall|i: int, b: int| 0 <= i < left.len() && 0 <= b < left[i].1.len() implies #[trigger] left[i].1[b]
        > to_block by {
        lemma_pruned_member(shards, to_block, i);
        let j = choose|j: int|
            0 <= j < shards.len() && survives(#[trigger] shards[j], to_block) && left[i]
                == pruned_shard(shards[j], to_block);
        lemma_blocks_above_members(shards[j].1, to_block);
    }
}

/// A batch of account history keeps the store well-formed and consistent with its
/// checkpoints.
pub proof fn lemma_account_history_batch_keeps(
    s: StoreView,
    to_block: u64,
    mode: PruneMode,
    limit: usize,
)
    requires
        s.wf(),
        s.pruned(),
    ensures
        s.account_history_batch(to_block, mode, limit).1.wf(),
        s.account_history_batch(to_block, mode, limit).1.pruned(),
{
    let part = PrunePart::AccountHistory;
    let after = s.account_history_batch(to_block, mode, limit).1;
    if let Some((blocks, _)) = s.block_plan(part, to_block, limit) {
        let before = s.account_changesets;
        let left = after.account_changesets;
        lemma_without_range_rows(before, blocks.start, blocks.end);
        lemma_pruned_shards_wf(s.account_history, blocks.end);
        lemma_pruned_shards_above(s.account_history, blocks.end);
        assert forall|i: int| 0 <= i < left.len() implies (#[trigger] left[i]).0 > blocks.end by {
            let j = choose|j: int| 0 <= j < before.len() && before[j] == left[i];
        }
    }
}

/// A batch of storage history keeps the store well-formed and consistent with its
/// checkpoints.
pub proof fn lemma_storage_history_batch_keeps(
    s: StoreView,
    to_block: u64,
    mode: PruneMode,
    limit: usize,
)
    requires
        s.wf(),
        s.pruned(),
    ensures
        s.storage_history_batch(to_block, mode, limit).1.wf(),
        s.storage_history_batch(to_block, mode, limit).1.pruned(),
{
    let part = PrunePart::StorageHistory;
    let after = s.storage_history_batch(to_block, mode, limit).1;
    if let Some((blocks, _)) = s.block_plan(part, to_block, limit) {
        let before = s.storage_changesets;
        let left = after.storage_changesets;
        let (lo, hi) = address_span(blocks);
        lemma_without_range_rows(before, lo, hi);
        lemma_pruned_shards_wf(s.storage_history, blocks.end);
        lemma_pruned_shards_above(s.storage_history, blocks.end);
        assert forall|i: int| 0 <= i < left.len() implies (#[trigger] left[i]).0.block_number
            > blocks.end by {
            let j = choose|j: int| 0 <= j < before.len() && before[j] == left[i];
            lemma_address_span(blocks, left[i].0);
        }
    }
}

/// After every batch of every part, the store is well-formed and nothing of a block at
/// or below a checkpoint is left in the tables of its part.
pub proof fn lemma_batch_keeps_pruned(
    s: StoreView,
    part: PrunePart,
    to_block: u64,
    mode: PruneMode,
    limit: usize,
)
    requires
        s.wf(),
        s.pruned(),
    ensures
        s.batch(part, to_block, mode, limit).1.wf(),
        s.batch(part, to_block, mode, limit).1.pruned(),
{
    match part {
        PrunePart::Receipts => lemma_receipts_batch_keeps(s, to_block, mode, limit),
        PrunePart::TransactionLookup => lemma_lookup_batch_keeps(s, to_block, mode, limit),
        PrunePart::SenderRecovery => lemma_senders_batch_keeps(s, to_block, mode, limit),
        PrunePart::AccountHistory => lemma_account_history_batch_keeps(s, to_block, mode, limit),
        PrunePart::StorageHistory => lemma_storage_history_batch_keeps(s, to_block, mode, limit),
    }
}

} // verus!
