//! Batching does not change the outcome: a part driven to its target leaves the same
//! store whatever the batch limit.

use crate::changesets::{address_span, lemma_address_span, BlockNumberAddress};
use crate::history::pruned_shards;
use crate::indices::lemma_pruned_twice;
use crate::invariants::{chain_contiguous, lemma_chain_monotone, lemma_tx_plan_blocks};
use crate::keys::{BlockNumber, TxHash, TxNumber};
use crate::laws::lemma_nothing_left;
use crate::planner::{next_block, planned_tx_range};
use crate::store::{bodies_wf, hashes_of, StoreView};
use crate::table::{
    key_in_range, lemma_filter_keeps_all, within_range, without_keys, without_range,
};
use crate::types::{BlockBodyIndices, InclusiveRange, PruneMode, PrunePart, PrunerError};
use vstd::prelude::*;

verus! {

/// Filtering twice is filtering by both conditions.
pub proof fn lemma_filter_twice<A>(s: Seq<A>, first: spec_fn(A) -> bool, second: spec_fn(A) -> bool)
    ensures
        s.filter(first).filter(second) == s.filter(|x: A| first(x) && second(x)),
    decreases s.len(),
{
    let both = |x: A| first(x) && second(x);
    reveal(Seq::filter);
    if s.len() > 0 {
        lemma_filter_twice(s.drop_last(), first, second);
        if first(s.last()) {
            s.drop_last().filter(first).lemma_filter_push(s.last(), second);
        }
    } else {
        assert(s.filter(first) =~= s);
    }
}

/// The rows whose key is not a transaction number from `lo` up to, but not
/// including, `hi`.
pub open spec fn without_txs<V>(rows: Seq<(TxNumber, V)>, lo: int, hi: int) -> Seq<(TxNumber, V)> {
    rows.filter(|row: (TxNumber, V)| !(lo <= row.0 < hi))
}

/// The rows whose block is not in `blocks`.
pub open spec fn without_blocks<V>(rows: Seq<(BlockNumber, V)>, lo: int, hi: int) -> Seq<
    (BlockNumber, V),
> {
    rows.filter(|row: (BlockNumber, V)| !(lo <= row.0 <= hi))
}

/// The storage changes whose block is not in `blocks`.
pub open spec fn without_storage_blocks<V>(rows: Seq<(BlockNumberAddress, V)>, lo: int, hi: int) -> Seq<
    (BlockNumberAddress, V),
> {
    rows.filter(|row: (BlockNumberAddress, V)| !(lo <= row.0.block_number <= hi))
}

/// The hashes of the stored transactions numbered from `lo` up to, but not including,
/// `hi`.
pub open spec fn hashes_between(transactions: Seq<(TxNumber, TxHash)>, lo: int, hi: int) -> Seq<
    TxHash,
> {
    hashes_of(transactions.filter(|row: (TxNumber, TxHash)| lo <= row.0 < hi))
}

/// What a batch leaves of a table keyed by transaction number, told by the numbers of
/// the first transaction of its first block and the one behind its last block.
pub proof fn lemma_tx_batch_rows<V>(
    rows: Seq<(TxNumber, V)>,
    first: BlockBodyIndices,
    last: BlockBodyIndices,
)
    requires
        last.wf(),
    ensures
        match planned_tx_range(first, last) {
            Some(txs) => without_range(rows, txs.start, txs.end) == without_txs(
                rows,
                first.first_tx_num as int,
                last.next_tx(),
            ),
            None => rows == without_txs(rows, first.first_tx_num as int, last.next_tx()),
        },
{
    let lo = first.first_tx_num as int;
    let hi = last.next_tx();
    let outside = |row: (TxNumber, V)| !(lo <= row.0 < hi);
    match planned_tx_range(first, last) {
        Some(txs) => {
            let stays = |row: (TxNumber, V)| !key_in_range(row.0, txs.start, txs.end);
            assert(stays =~= outside);
        },
        None => {
            lemma_filter_keeps_all(rows, outside);
        },
    }
}

/// Deleting two adjoining stretches of transaction numbers is deleting the whole stretch.
pub proof fn lemma_without_txs_adjoining<V>(rows: Seq<(TxNumber, V)>, lo: int, mid: int, hi: int)
    requires
        lo <= mid <= hi,
    ensures
        without_txs(without_txs(rows, lo, mid), mid, hi) == without_txs(rows, lo, hi),
{
    let first = |row: (TxNumber, V)| !(lo <= row.0 < mid);
    let second = |row: (TxNumber, V)| !(mid <= row.0 < hi);
    let whole = |row: (TxNumber, V)| !(lo <= row.0 < hi);
    lemma_filter_twice(rows, first, second);
    let both = |row: (TxNumber, V)| first(row) && second(row);
    assert(both =~= whole);
}

/// Deleting two adjoining ranges of blocks is deleting the whole range.
pub proof fn lemma_without_blocks_adjoining<V>(rows: Seq<(BlockNumber, V)>, lo: int, mid: int, hi: int)
    requires
        lo <= mid + 1,
        mid <= hi,
    ensures
        without_blocks(without_blocks(rows, lo, mid), mid + 1, hi) == without_blocks(rows, lo, hi),
{
    let first = |row: (BlockNumber, V)| !(lo <= row.0 <= mid);
    let second = |row: (BlockNumber, V)| !(mid + 1 <= row.0 <= hi);
    let whole = |row: (BlockNumber, V)| !(lo <= row.0 <= hi);
    lemma_filter_twice(rows, first, second);
    let both = |row: (BlockNumber, V)| first(row) && second(row);
    assert(both =~= whole);
}

/// Deleting two adjoining ranges of blocks of storage changes is deleting the whole range.
pub proof fn lemma_without_storage_blocks_adjoining<V>(
    rows: Seq<(BlockNumberAddress, V)>,
    lo: int,
    mid: int,
    hi: int,
)
    requires
        lo <= mid + 1,
        mid <= hi,
    ensures
        without_storage_blocks(without_storage_blocks(rows, lo, mid), mid + 1, hi)
            == without_storage_blocks(rows, lo, hi),
{
    let first = |row: (BlockNumberAddress, V)| !(lo <= row.0.block_number <= mid);
    let second = |row: (BlockNumberAddress, V)| !(mid + 1 <= row.0.block_number <= hi);
    let whole = |row: (BlockNumberAddress, V)| !(lo <= row.0.block_number <= hi);
    lemma_filter_twice(rows, first, second);
    let both = |row: (BlockNumberAddress, V)| first(row) && second(row);
    assert(both =~= whole);
}

/// Deleting a range of block numbers, told by blocks.
pub proof fn lemma_block_batch_rows<V>(rows: Seq<(BlockNumber, V)>, blocks: InclusiveRange)
    ensures
        without_range(rows, blocks.start, blocks.end) == without_blocks(
            rows,
            blocks.start as int,
            blocks.end as int,
        ),
{
    let stays = |row: (BlockNumber, V)| !key_in_range(row.0, blocks.start, blocks.end);
    let outside = |row: (BlockNumber, V)| !(blocks.start as int <= row.0 <= blocks.end as int);
    assert(stays =~= outside);
}

/// Deleting the span of a range of blocks from the storage changes, told by blocks.
pub proof fn lemma_storage_batch_rows<V>(rows: Seq<(BlockNumberAddress, V)>, blocks: InclusiveRange)
    ensures
        without_range(rows, address_span(blocks).0, address_span(blocks).1)
            == without_storage_blocks(rows, blocks.start as int, blocks.end as int),
{
    let (lo, hi) = address_span(blocks);
    let stays = |row: (BlockNumberAddress, V)| !key_in_range(row.0, lo, hi);
    let outside = |row: (BlockNumberAddress, V)|
        !(blocks.start as int <= row.0.block_number <= blocks.end as int);
    assert forall|row: (BlockNumberAddress, V)| #[trigger] stays(row) == outside(row) by {
        lemma_address_span(blocks, row.0);
    }
    assert(stays =~= outside);
}

impl StoreView {
    /// Account history pruned through `to_block` in one step.
    pub open spec fn account_history_through(self, to_block: u64, mode: PruneMode) -> StoreView {
        StoreView {
            account_changesets: without_blocks(
                self.account_changesets,
                next_block(self.checkpoint(PrunePart::AccountHistory)),
                to_block as int,
            ),
            account_history: pruned_shards(self.account_history, to_block),
            ..self
        }.saved(PrunePart::AccountHistory, to_block, mode)
    }

    /// Storage history pruned through `to_block` in one step.
    pub open spec fn storage_history_through(self, to_block: u64, mode: PruneMode) -> StoreView {
        StoreView {
            storage_changesets: without_storage_blocks(
                self.storage_changesets,
                next_block(self.checkpoint(PrunePart::StorageHistory)),
                to_block as int,
            ),
            storage_history: pruned_shards(self.storage_history, to_block),
            ..self
        }.saved(PrunePart::StorageHistory, to_block, mode)
    }

    /// Number of the first transaction not yet pruned for `part`.
    pub open spec fn first_tx_left(self, part: PrunePart) -> int {
        self.bodies[next_block(self.checkpoint(part))].first_tx_num as int
    }

    /// Receipts pruned through `to_block` in one step.
    pub open spec fn receipts_through(self, to_block: u64, mode: PruneMode) -> StoreView {
        StoreView {
            receipts: without_txs(
                self.receipts,
                self.first_tx_left(PrunePart::Receipts),
                self.bodies[to_block as int].next_tx(),
            ),
            ..self
        }.saved(PrunePart::Receipts, to_block, mode)
    }

    /// Senders pruned through `to_block` in one step.
    pub open spec fn senders_through(self, to_block: u64, mode: PruneMode) -> StoreView {
        StoreView {
            tx_senders: without_txs(
                self.tx_senders,
                self.first_tx_left(PrunePart::SenderRecovery),
                self.bodies[to_block as int].next_tx(),
            ),
            ..self
        }.saved(PrunePart::SenderRecovery, to_block, mode)
    }

    /// The store has the bodies of all blocks up to `to_block`, numbered without gaps.
    pub open spec fn has_blocks_through(self, to_block: u64) -> bool {
        &&& bodies_wf(self.bodies)
        &&& chain_contiguous(self.bodies)
        &&& to_block < self.bodies.len()
    }
}

/// Account history driven to its target leaves the store that pruning in one step
/// leaves, whatever the batch limit.
pub proof fn lemma_account_history_batching(s: StoreView, to_block: u64, mode: PruneMode, limit: usize)
    requires
        limit >= 1,
        next_block(s.checkpoint(PrunePart::AccountHistory)) <= to_block,
    ensures
        s.driven(PrunePart::AccountHistory, to_block, mode, limit) == (
            Ok::<(), PrunerError>(()),
            s.account_history_through(to_block, mode),
        ),
    decreases s.blocks_left(PrunePart::AccountHistory, to_block),
{
    let part = PrunePart::AccountHistory;
    let (blocks, last) = s.block_plan(part, to_block, limit)->0;
    let next = s.batch(part, to_block, mode, limit).1;
    lemma_block_batch_rows(s.account_changesets, blocks);
    if !last {
        lemma_account_history_batching(next, to_block, mode, limit);
        lemma_without_blocks_adjoining(
            s.account_changesets,
            blocks.start as int,
            blocks.end as int,
            to_block as int,
        );
        lemma_pruned_twice(s.account_history, blocks.end, to_block);
        assert(next.account_history_through(to_block, mode) == s.account_history_through(
            to_block,
            mode,
        ));
    }
}

/// Storage history driven to its target leaves the store that pruning in one step
/// leaves, whatever the batch limit.
pub proof fn lemma_storage_history_batching(s: StoreView, to_block: u64, mode: PruneMode, limit: usize)
    requires
        limit >= 1,
        next_block(s.checkpoint(PrunePart::StorageHistory)) <= to_block,
    ensures
        s.driven(PrunePart::StorageHistory, to_block, mode, limit) == (
            Ok::<(), PrunerError>(()),
            s.storage_history_through(to_block, mode),
        ),
    decreases s.blocks_left(PrunePart::StorageHistory, to_block),
{
    let part = PrunePart::StorageHistory;
    let (blocks, last) = s.block_plan(part, to_block, limit)->0;
    let next = s.batch(part, to_block, mode, limit).1;
    lemma_storage_batch_rows(s.storage_changesets, blocks);
    if !last {
        lemma_storage_history_batching(next, to_block, mode, limit);
        lemma_without_storage_blocks_adjoining(
            s.storage_changesets,
            blocks.start as int,
            blocks.end as int,
            to_block as int,
        );
        lemma_pruned_twice(s.storage_history, blocks.end, to_block);
        assert(next.storage_history_through(to_block, mode) == s.storage_history_through(
            to_block,
            mode,
        ));
    }
}

/// Receipts driven to their target leave the store that pruning in one step leaves,
/// whatever the batch limit, where the store has the bodies of all blocks up to the
/// target.
pub proof fn lemma_receipts_batching(s: StoreView, to_block: u64, mode: PruneMode, limit: usize)
    requires
        limit >= 1,
        next_block(s.checkpoint(PrunePart::Receipts)) <= to_block,
        s.has_blocks_through(to_block),
    ensures
        s.driven(PrunePart::Receipts, to_block, mode, limit) == (
            Ok::<(), PrunerError>(()),
            s.receipts_through(to_block, mode),
        ),
    decreases s.blocks_left(PrunePart::Receipts, to_block),
{
    let part = PrunePart::Receipts;
    lemma_tx_plan_blocks(s, part, to_block, limit);
    let ((blocks, txs), last) = s.tx_plan(part, to_block, limit)->0;
    let next = s.batch(part, to_block, mode, limit).1;
    let first_body = s.bodies[blocks.start as int];
    let last_body = s.bodies[blocks.end as int];
    lemma_tx_batch_rows(s.receipts, first_body, last_body);
    if !last {
        lemma_receipts_batching(next, to_block, mode, limit);
        lemma_chain_monotone(s.bodies, blocks.start as int, blocks.end as int);
        lemma_chain_monotone(s.bodies, blocks.end + 1, to_block as int);
        assert(s.bodies[blocks.end + 1].first_tx_num == last_body.next_tx());
        lemma_without_txs_adjoining(
            s.receipts,
            first_body.first_tx_num as int,
            last_body.next_tx(),
            s.bodies[to_block as int].next_tx(),
        );
        assert(next.receipts_through(to_block, mode) == s.receipts_through(to_block, mode));
    }
}

/// Senders driven to their target leave the store that pruning in one step leaves,
/// whatever the batch limit, where the store has the bodies of all blocks up to the
/// target.
pub proof fn lemma_senders_batching(s: StoreView, to_block: u64, mode: PruneMode, limit: usize)
    requires
        limit >= 1,
        next_block(s.checkpoint(PrunePart::SenderRecovery)) <= to_block,
        s.has_blocks_through(to_block),
    ensures
        s.driven(PrunePart::SenderRecovery, to_block, mode, limit) == (
            Ok::<(), PrunerError>(()),
            s.senders_through(to_block, mode),
        ),
    decreases s.blocks_left(PrunePart::SenderRecovery, to_block),
{
    let part = PrunePart::SenderRecovery;
    lemma_tx_plan_blocks(s, part, to_block, limit);
    let ((blocks, txs), last) = s.tx_plan(part, to_block, limit)->0;
    let next = s.batch(part, to_block, mode, limit).1;
    let first_body = s.bodies[blocks.start as int];
    let last_body = s.bodies[blocks.end as int];
    lemma_tx_batch_rows(s.tx_senders, first_body, last_body);
    if !last {
        lemma_senders_batching(next, to_block, mode, limit);
        lemma_chain_monotone(s.bodies, blocks.start as int, blocks.end as int);
        lemma_chain_monotone(s.bodies, blocks.end + 1, to_block as int);
        assert(s.bodies[blocks.end + 1].first_tx_num == last_body.next_tx());
        lemma_without_txs_adjoining(
            s.tx_senders,
            first_body.first_tx_num as int,
            last_body.next_tx(),
            s.bodies[to_block as int].next_tx(),
        );
        assert(next.senders_through(to_block, mode) == s.senders_through(to_block, mode));
    }
}

/// The store holds a transaction for every number of every range from `lo` up to, but
/// not including, `hi`.
pub open spec fn transactions_complete(transactions: Seq<(TxNumber, TxHash)>, lo: int, hi: int) -> bool {
    forall|a: u64, b: u64|
        lo <= a <= b < hi ==> (#[trigger] within_range(transactions, a, b)).len() == b - a + 1
}

/// A hash is among those of a stretch of transaction numbers exactly when a stored
/// transaction of the stretch has it.
pub proof fn lemma_hashes_between_contains(
    transactions: Seq<(TxNumber, TxHash)>,
    lo: int,
    hi: int,
    h: TxHash,
)
    ensures
        hashes_between(transactions, lo, hi).contains(h) <==> exists|j: int|
            0 <= j < transactions.len() && (#[trigger] transactions[j]).1 == h && lo
                <= transactions[j].0 < hi,
{
    let inside = |row: (TxNumber, TxHash)| lo <= row.0 < hi;
    let found = transactions.filter(inside);
    let hashes = hashes_of(found);
    if hashes.contains(h) {
        let k = choose|k: int| 0 <= k < hashes.len() && hashes[k] == h;
        transactions.lemma_filter_pred(inside, k);
        assert(found.contains(found[k]));
        transactions.lemma_filter_contains_rev(inside, found[k]);
        let j = choose|j: int| 0 <= j < transactions.len() && transactions[j] == found[k];
        assert(transactions[j].1 == h && lo <= transactions[j].0 < hi);
    }
    if exists|j: int|
        0 <= j < transactions.len() && (#[trigger] transactions[j]).1 == h && lo
            <= transactions[j].0 < hi {
        let j = choose|j: int|
            0 <= j < transactions.len() && (#[trigger] transactions[j]).1 == h && lo
                <= transactions[j].0 < hi;
        transactions.lemma_filter_contains(inside, j);
        let k = choose|k: int| 0 <= k < found.len() && found[k] == transactions[j];
        assert(hashes[k] == h);
    }
}

/// Deleting the hashes of two adjoining stretches of transaction numbers is deleting
/// those of the whole stretch.
pub proof fn lemma_without_hashes_adjoining(
    rows: Seq<(TxHash, TxNumber)>,
    transactions: Seq<(TxNumber, TxHash)>,
    lo: int,
    mid: int,
    hi: int,
)
    requires
        lo <= mid <= hi,
    ensures
        without_keys(
            without_keys(rows, hashes_between(transactions, lo, mid)),
            hashes_between(transactions, mid, hi),
        ) == without_keys(rows, hashes_between(transactions, lo, hi)),
{
    let one = hashes_between(transactions, lo, mid);
    let two = hashes_between(transactions, mid, hi);
    let all = hashes_between(transactions, lo, hi);
    let first = |row: (TxHash, TxNumber)| !one.contains(row.0);
    let second = |row: (TxHash, TxNumber)| !two.contains(row.0);
    let whole = |row: (TxHash, TxNumber)| !all.contains(row.0);
    lemma_filter_twice(rows, first, second);
    let both = |row: (TxHash, TxNumber)| first(row) && second(row);
    assert forall|row: (TxHash, TxNumber)| #[trigger] both(row) == whole(row) by {
        lemma_hashes_between_contains(transactions, lo, mid, row.0);
        lemma_hashes_between_contains(transactions, mid, hi, row.0);
        lemma_hashes_between_contains(transactions, lo, hi, row.0);
    }
    assert(both =~= whole);
}

/// What a batch leaves of the lookup table, told by the numbers of the first
/// transaction of its first block and the one behind its last block.
pub proof fn lemma_lookup_batch_rows(
    rows: Seq<(TxHash, TxNumber)>,
    s: StoreView,
    first: BlockBodyIndices,
    last: BlockBodyIndices,
)
    requires
        last.wf(),
    ensures
        match planned_tx_range(first, last) {
            Some(txs) => s.hashes_in(txs) == hashes_between(
                s.transactions,
                first.first_tx_num as int,
                last.next_tx(),
            ),
            None => rows == without_keys(
                rows,
                hashes_between(s.transactions, first.first_tx_num as int, last.next_tx()),
            ),
        },
{
    let lo = first.first_tx_num as int;
    let hi = last.next_tx();
    let inside = |row: (TxNumber, TxHash)| lo <= row.0 < hi;
    match planned_tx_range(first, last) {
        Some(txs) => {
            let ranged = |row: (TxNumber, TxHash)| key_in_range(row.0, txs.start, txs.end);
            assert(ranged =~= inside);
        },
        None => {
            crate::table::lemma_filter_keeps_none(s.transactions, inside);
            let none = hashes_between(s.transactions, lo, hi);
            assert(none =~= Seq::<TxHash>::empty());
            lemma_filter_keeps_all(rows, |row: (TxHash, TxNumber)| !none.contains(row.0));
        },
    }
}

impl StoreView {
    /// The transaction lookup pruned through `to_block` in one step.
    pub open spec fn lookup_through(self, to_block: u64, mode: PruneMode) -> StoreView {
        StoreView {
            tx_hash_numbers: without_keys(
                self.tx_hash_numbers,
                hashes_between(
                    self.transactions,
                    self.first_tx_left(PrunePart::TransactionLookup),
                    self.bodies[to_block as int].next_tx(),
                ),
            ),
            ..self
        }.saved(PrunePart::TransactionLookup, to_block, mode)
    }
}

/// The transaction lookup driven to its target leaves the store that pruning in one
/// step leaves, whatever the batch limit, where the store has the bodies of all blocks
/// up to the target and a transaction for every number in them.
pub proof fn lemma_lookup_batching(s: StoreView, to_block: u64, mode: PruneMode, limit: usize)
    requires
        limit >= 1,
        next_block(s.checkpoint(PrunePart::TransactionLookup)) <= to_block,
        s.has_blocks_through(to_block),
        transactions_complete(
            s.transactions,
            s.first_tx_left(PrunePart::TransactionLookup),
            s.bodies[to_block as int].next_tx(),
        ),
    ensures
        s.driven(PrunePart::TransactionLookup, to_block, mode, limit) == (
            Ok::<(), PrunerError>(()),
            s.lookup_through(to_block, mode),
        ),
    decreases s.blocks_left(PrunePart::TransactionLookup, to_block),
{
    let part = PrunePart::TransactionLookup;
    lemma_tx_plan_blocks(s, part, to_block, limit);
    let ((blocks, txs), last) = s.tx_plan(part, to_block, limit)->0;
    let next = s.batch(part, to_block, mode, limit).1;
    let first_body = s.bodies[blocks.start as int];
    let last_body = s.bodies[blocks.end as int];
    lemma_lookup_batch_rows(s.tx_hash_numbers, s, first_body, last_body);
    lemma_chain_monotone(s.bodies, blocks.start as int, blocks.end as int);
    lemma_chain_monotone(s.bodies, blocks.end as int, to_block as int);
    if let Some(t) = txs {
        assert(within_range(s.transactions, t.start, t.end).len() == t.end - t.start + 1);
    }
    if !last {
        assert(s.bodies[blocks.end + 1].first_tx_num == last_body.next_tx());
        assert(transactions_complete(
            next.transactions,
            next.first_tx_left(part),
            next.bodies[to_block as int].next_tx(),
        ));
        lemma_lookup_batching(next, to_block, mode, limit);
        lemma_without_hashes_adjoining(
            s.tx_hash_numbers,
            s.transactions,
            first_body.first_tx_num as int,
            last_body.next_tx(),
            s.bodies[to_block as int].next_tx(),
        );
        assert(next.lookup_through(to_block, mode) == s.lookup_through(to_block, mode));
    }
}

/// For any two batch limits, a part driven to its target leaves the same store.
///
/// For the parts planned by transaction number this holds where the store has the
/// bodies of all blocks up to the target, numbered without gaps; for the transaction
/// lookup, where it also has a transaction for every number in them.
pub proof fn lemma_batching_does_not_matter(
    s: StoreView,
    part: PrunePart,
    to_block: u64,
    mode: PruneMode,
    one: usize,
    other: usize,
)
    requires
        one >= 1,
        other >= 1,
        crate::laws::planned_by_tx(part) ==> s.has_blocks_through(to_block),
        part == PrunePart::TransactionLookup && next_block(s.checkpoint(part)) <= to_block
            ==> transactions_complete(
            s.transactions,
            s.first_tx_left(part),
            s.bodies[to_block as int].next_tx(),
        ),
    ensures
        s.driven(part, to_block, mode, one) == s.driven(part, to_block, mode, other),
{
    if next_block(s.checkpoint(part)) <= to_block {
        match part {
            PrunePart::Receipts => {
                lemma_receipts_batching(s, to_block, mode, one);
                lemma_receipts_batching(s, to_block, mode, other);
            },
            PrunePart::TransactionLookup => {
                lemma_lookup_batching(s, to_block, mode, one);
                lemma_lookup_batching(s, to_block, mode, other);
            },
            PrunePart::SenderRecovery => {
                lemma_senders_batching(s, to_block, mode, one);
                lemma_senders_batching(s, to_block, mode, other);
            },
            PrunePart::AccountHistory => {
                lemma_account_history_batching(s, to_block, mode, one);
                lemma_account_history_batching(s, to_block, mode, other);
            },
            PrunePart::StorageHistory => {
                lemma_storage_history_batching(s, to_block, mode, one);
                lemma_storage_history_batching(s, to_block, mode, other);
            },
        }
    } else {
        lemma_nothing_left(s, part, to_block, mode, one);
        lemma_nothing_left(s, part, to_block, mode, other);
    }
}

} // verus!
