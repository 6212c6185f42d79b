//! What pruning does to a store: one batch of a part, a part driven to its target,
//! and a whole run.

use crate::changesets::address_span;
use crate::history::pruned_shards;
use crate::planner::{next_block, planned_block_range, planned_tx_range};
use crate::store::StoreView;
use crate::table::{within_range, without_keys, without_range};
use crate::types::{
    CommitThresholds, Inconsistency, InclusiveRange, PruneCheckpoint, PruneMode, PrunePart,
    PrunerError,
};
use vstd::prelude::*;

verus! {

/// Outcome of one batch of a part: the number of rows deleted and whether the batch
/// reached the target, or `None` when there was nothing to prune.
pub type PartResult = Result<Option<(usize, bool)>, PrunerError>;

/// Outcome of a run.
pub type PrunerResult = Result<(), PrunerError>;

/// A planned batch of a part that is pruned by transaction number: its blocks, its
/// transactions if it has any, and whether it reaches the target.
pub type TxPlan = ((InclusiveRange, Option<InclusiveRange>), bool);

/// The target block of a part and the mode it came from; `None` for a part that is
/// not pruned; an error where the mode could not be resolved.
pub type Target = Result<Option<(u64, PruneMode)>, PrunerError>;

/// The targets of all parts for one run.
pub struct PruneTargets {
    pub receipts: Target,
    pub transaction_lookup: Target,
    pub sender_recovery: Target,
    pub account_history: Target,
    pub storage_history: Target,
}

impl PruneTargets {
    /// The target of `part`.
    pub open spec fn spec_target(&self, part: PrunePart) -> Target {
        match part {
            PrunePart::Receipts => self.receipts,
            PrunePart::TransactionLookup => self.transaction_lookup,
            PrunePart::SenderRecovery => self.sender_recovery,
            PrunePart::AccountHistory => self.account_history,
            PrunePart::StorageHistory => self.storage_history,
        }
    }

    /// The target of `part`.
    #[verifier::when_used_as_spec(spec_target)]
    pub fn target(&self, part: PrunePart) -> (t: Target)
        ensures
            t == self.spec_target(part),
    {
        match part {
            PrunePart::Receipts => self.receipts,
            PrunePart::TransactionLookup => self.transaction_lookup,
            PrunePart::SenderRecovery => self.sender_recovery,
            PrunePart::AccountHistory => self.account_history,
            PrunePart::StorageHistory => self.storage_history,
        }
    }
}

impl StoreView {
    /// This store with the checkpoint of `part` set to `block`.
    pub open spec fn saved(self, part: PrunePart, block: u64, mode: PruneMode) -> StoreView {
        StoreView {
            checkpoints: self.checkpoints.with(
                part,
                PruneCheckpoint { block_number: block, prune_mode: mode },
            ),
            ..self
        }
    }

    /// The next batch of blocks of `part`.
    pub open spec fn block_plan(self, part: PrunePart, to_block: u64, limit: usize) -> Option<
        (InclusiveRange, bool),
    > {
        planned_block_range(self.checkpoint(part), to_block, limit)
    }

    /// The next batch of `part` with its transactions. There is none when there is no
    /// block left, or when the store lacks the body of the first or the last block.
    pub open spec fn tx_plan(self, part: PrunePart, to_block: u64, limit: usize) -> Option<TxPlan> {
        match self.block_plan(part, to_block, limit) {
            None => None,
            Some((blocks, last)) => match (
                self.body_at(blocks.start as int),
                self.body_at(blocks.end as int),
            ) {
                (Some(first_body), Some(last_body)) => Some(
                    ((blocks, planned_tx_range(first_body, last_body)), last),
                ),
                _ => None,
            },
        }
    }

    /// One batch of receipts: the receipts of the planned transactions go.
    pub open spec fn receipts_batch(self, to_block: u64, mode: PruneMode, limit: usize) -> (
        PartResult,
        StoreView,
    ) {
        match self.tx_plan(PrunePart::Receipts, to_block, limit) {
            None => (Ok(None), self),
            Some(((blocks, None), last)) => (
                Ok(Some((0, last))),
                self.saved(PrunePart::Receipts, blocks.end, mode),
            ),
            Some(((blocks, Some(txs)), last)) => (
                Ok(Some((within_range(self.receipts, txs.start, txs.end).len() as usize, last))),
                StoreView { receipts: without_range(self.receipts, txs.start, txs.end), ..self }.saved(
                    PrunePart::Receipts,
                    blocks.end,
                    mode,
                ),
            ),
        }
    }

    /// One batch of senders: the senders of the planned transactions go.
    pub open spec fn senders_batch(self, to_block: u64, mode: PruneMode, limit: usize) -> (
        PartResult,
        StoreView,
    ) {
        match self.tx_plan(PrunePart::SenderRecovery, to_block, limit) {
            None => (Ok(None), self),
            Some(((blocks, None), last)) => (
                Ok(Some((0, last))),
                self.saved(PrunePart::SenderRecovery, blocks.end, mode),
            ),
            Some(((blocks, Some(txs)), last)) => (
                Ok(Some((within_range(self.tx_senders, txs.start, txs.end).len() as usize, last))),
                StoreView {
                    tx_senders: without_range(self.tx_senders, txs.start, txs.end),
                    ..self
                }.saved(PrunePart::SenderRecovery, blocks.end, mode),
            ),
        }
    }

    /// One batch of the transaction lookup: the hashes of the planned transactions
    /// go. Where the store holds fewer transactions than the plan numbers, the batch
    /// fails and changes nothing.
    pub open spec fn lookup_batch(self, to_block: u64, mode: PruneMode, limit: usize) -> (
        PartResult,
        StoreView,
    ) {
        match self.tx_plan(PrunePart::TransactionLookup, to_block, limit) {
            None => (Ok(None), self),
            Some(((blocks, None), last)) => (
                Ok(Some((0, last))),
                self.saved(PrunePart::TransactionLookup, blocks.end, mode),
            ),
            Some(((blocks, Some(txs)), last)) => {
                let hashes = self.hashes_in(txs);
                let left = without_keys(self.tx_hash_numbers, hashes);
                if hashes.len() != txs.count() {
                    (Err(PrunerError::InconsistentData(Inconsistency::TransactionCount)), self)
                } else {
                    (
                        Ok(Some(((self.tx_hash_numbers.len() - left.len()) as usize, last))),
                        StoreView { tx_hash_numbers: left, ..self }.saved(
                            PrunePart::TransactionLookup,
                            blocks.end,
                            mode,
                        ),
                    )
                }
            },
        }
    }

    /// One batch of account history: the change sets of the planned blocks go, and
    /// the history index loses every block up to the last planned one.
    pub open spec fn account_history_batch(self, to_block: u64, mode: PruneMode, limit: usize) -> (
        PartResult,
        StoreView,
    ) {
        match self.block_plan(PrunePart::AccountHistory, to_block, limit) {
            None => (Ok(None), self),
            Some((blocks, last)) => (
                Ok(
                    Some(
                        (
                            within_range(
                                self.account_changesets,
                                blocks.start,
                                blocks.end,
                            ).len() as usize,
                            last,
                        ),
                    ),
                ),
                StoreView {
                    account_changesets: without_range(
                        self.account_changesets,
                        blocks.start,
                        blocks.end,
                    ),
                    account_history: pruned_shards(self.account_history, blocks.end),
                    ..self
                }.saved(PrunePart::AccountHistory, blocks.end, mode),
            ),
        }
    }

    /// One batch of storage history: the change sets of the planned blocks go, and
    /// the history index loses every block up to the last planned one.
    pub open spec fn storage_history_batch(self, to_block: u64, mode: PruneMode, limit: usize) -> (
        PartResult,
        StoreView,
    ) {
        match self.block_plan(PrunePart::StorageHistory, to_block, limit) {
            None => (Ok(None), self),
            Some((blocks, last)) => (
                Ok(
                    Some(
                        (
                            within_range(
                                self.storage_changesets,
                                address_span(blocks).0,
                                address_span(blocks).1,
                            ).len() as usize,
                            last,
                        ),
                    ),
                ),
                StoreView {
                    storage_changesets: without_range(
                        self.storage_changesets,
                        address_span(blocks).0,
                        address_span(blocks).1,
                    ),
                    storage_history: pruned_shards(self.storage_history, blocks.end),
                    ..self
                }.saved(PrunePart::StorageHistory, blocks.end, mode),
            ),
        }
    }

    /// One batch of `part`.
    pub open spec fn batch(self, part: PrunePart, to_block: u64, mode: PruneMode, limit: usize) -> (
        PartResult,
        StoreView,
    ) {
        match part {
            PrunePart::Receipts => self.receipts_batch(to_block, mode, limit),
            PrunePart::TransactionLookup => self.lookup_batch(to_block, mode, limit),
            PrunePart::SenderRecovery => self.senders_batch(to_block, mode, limit),
            PrunePart::AccountHistory => self.account_history_batch(to_block, mode, limit),
            PrunePart::StorageHistory => self.storage_history_batch(to_block, mode, limit),
        }
    }

    /// Blocks of `part` that lie between its checkpoint and `to_block`.
    pub open spec fn blocks_left(self, part: PrunePart, to_block: u64) -> nat {
        if next_block(self.checkpoint(part)) <= to_block {
            (to_block + 1 - next_block(self.checkpoint(part))) as nat
        } else {
            0
        }
    }

    /// `part` driven batch by batch until a batch reaches the target, finds nothing to
    /// prune, or fails. Every batch before a failing one stays.
    pub open spec fn driven(self, part: PrunePart, to_block: u64, mode: PruneMode, limit: usize) -> (
        PrunerResult,
        StoreView,
    )
        decreases self.blocks_left(part, to_block),
    {
        let (result, next) = self.batch(part, to_block, mode, limit);
        match result {
            Err(e) => (Err(e), self),
            Ok(None) => (Ok(()), self),
            Ok(Some((_, last))) => if last {
                (Ok(()), next)
            } else {
                next.driven(part, to_block, mode, limit)
            },
        }
    }

    /// One part of a run: nothing for a part without target, the error of a target
    /// that could not be resolved, else the part driven to its target.
    pub open spec fn part_run(self, part: PrunePart, target: Target, limit: usize) -> (
        PrunerResult,
        StoreView,
    ) {
        match target {
            Err(e) => (Err(e), self),
            Ok(None) => (Ok(()), self),
            Ok(Some((to_block, mode))) => self.driven(part, to_block, mode, limit),
        }
    }
}

/// A run continued by one more part: a run that has failed stays as it is.
pub open spec fn then_part(
    so_far: (PrunerResult, StoreView),
    part: PrunePart,
    targets: PruneTargets,
    thresholds: CommitThresholds,
) -> (PrunerResult, StoreView) {
    match so_far.0 {
        Err(e) => so_far,
        Ok(_) => so_far.1.part_run(part, targets.spec_target(part), thresholds.spec_limit(part)),
    }
}

/// A whole run: receipts, transaction lookup, sender recovery, account history and
/// storage history, one after the other. The first part that fails ends the run.
pub open spec fn run_outcome(store: StoreView, targets: PruneTargets, thresholds: CommitThresholds) -> (
    PrunerResult,
    StoreView,
) {
    let receipts = then_part((Ok(()), store), PrunePart::Receipts, targets, thresholds);
    let lookup = then_part(receipts, PrunePart::TransactionLookup, targets, thresholds);
    let senders = then_part(lookup, PrunePart::SenderRecovery, targets, thresholds);
    let accounts = then_part(senders, PrunePart::AccountHistory, targets, thresholds);
    then_part(accounts, PrunePart::StorageHistory, targets, thresholds)
}

} // verus!
