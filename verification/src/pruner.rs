//! The pruner: batches of each part, the part driver and the run over all parts.

use crate::changesets::BlockNumberAddress;
use crate::effects::{
    run_outcome, PartResult, PruneTargets, PrunerResult, Target, TxPlan,
};
use crate::gate::{is_due, pruning_due};
use crate::indices::prune_history_indices;
use crate::invariants::lemma_batch_keeps_pruned;
use crate::laws::{lemma_driven_keeps_pruned, lemma_run_keeps_pruned};
use crate::keys::{BlockNumber, TableKey};
use crate::planner::{plan_block_range, plan_tx_range};
use crate::sort::{lemma_same_keys, sort_keys};
use crate::store::Store;
use crate::table::without_keys;
use crate::types::{
    CommitThresholds, Inconsistency, InclusiveRange, PruneCheckpoint, PruneMode, PruneModes,
    PrunePart, PrunerError,
};
use vstd::prelude::*;

verus! {

/// Prunes the parts of a store up to their targets, batch by batch, and remembers the
/// tip of its last run.
pub struct Pruner {
    /// A run is due when the tip has advanced this many blocks since the last run.
    pub min_block_interval: u64,
    /// Tip of the last run that succeeded.
    pub last_pruned_block_number: Option<BlockNumber>,
    pub modes: PruneModes,
    pub commit_thresholds: CommitThresholds,
}

/// What the driver of a part does after a batch that did not fail.
#[derive(Clone, Copy, Debug, PartialEq, Eq, Structural)]
pub enum AfterBatch {
    /// There was nothing to prune: the part is done, and there is nothing to commit.
    Done,
    /// The batch reached the target: commit it; the part is done.
    CommitAndFinish,
    /// The batch stopped short of the target: commit it and go on with the next.
    CommitAndContinue,
}

/// Decides what the driver of a part does after a batch with this outcome.
pub fn after_batch(outcome: Option<(usize, bool)>) -> (step: AfterBatch)
    ensures
        step == match outcome {
            None => AfterBatch::Done,
            Some((_, true)) => AfterBatch::CommitAndFinish,
            Some((_, false)) => AfterBatch::CommitAndContinue,
        },
{
    match outcome {
        None => AfterBatch::Done,
        Some((_, done)) => if done {
            AfterBatch::CommitAndFinish
        } else {
            AfterBatch::CommitAndContinue
        },
    }
}

/// Deleting the keys of one list or of another that names the same keys leaves the
/// same rows.
pub proof fn lemma_without_same_keys<K: TableKey, V>(rows: Seq<(K, V)>, a: Seq<K>, b: Seq<K>)
    requires
        forall|k: K| a.contains(k) == b.contains(k),
    ensures
        without_keys(rows, a) == without_keys(rows, b),
{
    let stays_a = |row: (K, V)| !a.contains(row.0);
    let stays_b = |row: (K, V)| !b.contains(row.0);
    assert(stays_a =~= stays_b);
}

impl Pruner {
    /// A pruner that has not run yet.
    pub fn new(min_block_interval: u64, modes: PruneModes, commit_thresholds: CommitThresholds) -> (pruner:
        Self)
        ensures
            pruner.min_block_interval == min_block_interval,
            pruner.last_pruned_block_number is None,
            pruner.modes == modes,
            pruner.commit_thresholds == commit_thresholds,
    {
        Pruner { min_block_interval, last_pruned_block_number: None, modes, commit_thresholds }
    }

    /// Whether pruning is due at the tip `tip_block_number`: always before the first
    /// run, afterwards when the tip lies at least `min_block_interval` blocks above
    /// that of the last run. A tip below that of the last run never makes a run due.
    pub fn is_pruning_needed(&self, tip_block_number: BlockNumber) -> (needed: bool)
        ensures
            needed == pruning_due(
                self.last_pruned_block_number,
                self.min_block_interval,
                tip_block_number,
            ),
    {
        is_due(self.last_pruned_block_number, self.min_block_interval, tip_block_number)
    }

    /// Plans the next batch of blocks of `prune_part`.
    pub fn get_next_block_range_from_checkpoint(
        &self,
        store: &Store,
        prune_part: PrunePart,
        to_block: BlockNumber,
        limit: usize,
    ) -> (plan: Result<Option<(InclusiveRange, bool)>, PrunerError>)
        ensures
            plan == Ok::<_, PrunerError>(store@.block_plan(prune_part, to_block, limit)),
    {
        Ok(plan_block_range(store.get_prune_checkpoint(prune_part), to_block, limit))
    }

    /// Plans the next batch of `prune_part` with its transactions.
    pub fn get_next_tx_num_range_from_checkpoint(
        &self,
        store: &Store,
        prune_part: PrunePart,
        to_block: BlockNumber,
        limit: usize,
    ) -> (plan: Result<Option<TxPlan>, PrunerError>)
        requires
            store.wf(),
        ensures
            plan == Ok::<_, PrunerError>(store@.tx_plan(prune_part, to_block, limit)),
    {
        let (blocks, last) = match plan_block_range(
            store.get_prune_checkpoint(prune_part),
            to_block,
            limit,
        ) {
            Some(plan) => plan,
            None => return Ok(None),
        };
        let first_body = match store.block_body_indices(blocks.start) {
            Some(body) => body,
            None => return Ok(None),
        };
        let last_body = match store.block_body_indices(blocks.end) {
            Some(body) => body,
            None => return Ok(None),
        };
        Ok(Some(((blocks, plan_tx_range(&first_body, &last_body)), last)))
    }

    /// Prunes one batch of receipts up to `to_block`.
    pub fn prune_receipts(&self, store: &mut Store, to_block: BlockNumber, prune_mode: PruneMode) -> (r:
        PartResult)
        requires
            old(store).wf(),
        ensures
            final(store).wf(),
            (r, final(store)@) == old(store)@.receipts_batch(
                to_block,
                prune_mode,
                self.commit_thresholds.receipts,
            ),
    {
        let plan = self.get_next_tx_num_range_from_checkpoint(
            store,
            PrunePart::Receipts,
            to_block,
            self.commit_thresholds.receipts,
        );
        let ((blocks, txs), last) = match plan {
            Ok(Some(plan)) => plan,
            Ok(None) => return Ok(None),
            Err(e) => return Err(e),
        };
        let rows = match txs {
            Some(txs) => store.receipts.delete_range(&txs.start, &txs.end).1,
            None => 0,
        };
        store.save_prune_checkpoint(
            PrunePart::Receipts,
            PruneCheckpoint { block_number: blocks.end, prune_mode },
        );
        Ok(Some((rows, last)))
    }

    /// Prunes one batch of the transaction lookup up to `to_block`: collects the
    /// hashes of the planned transactions, sorts them, and deletes them in one sweep.
    pub fn prune_transaction_lookup(
        &self,
        store: &mut Store,
        to_block: BlockNumber,
        prune_mode: PruneMode,
    ) -> (r: PartResult)
        requires
            old(store).wf(),
        ensures
            final(store).wf(),
            (r, final(store)@) == old(store)@.lookup_batch(
                to_block,
                prune_mode,
                self.commit_thresholds.transaction_lookup,
            ),
    {
        let plan = self.get_next_tx_num_range_from_checkpoint(
            store,
            PrunePart::TransactionLookup,
            to_block,
            self.commit_thresholds.transaction_lookup,
        );
        let ((blocks, txs), last) = match plan {
            Ok(Some(plan)) => plan,
            Ok(None) => return Ok(None),
            Err(e) => return Err(e),
        };
        let rows = match txs {
            Some(txs) => {
                let hashes = store.transactions_by_tx_range(txs);
                let ghost found = hashes@;
                let expected: u128 = (txs.end - txs.start) as u128 + 1;
                if hashes.len() as u128 != expected {
                    return Err(PrunerError::InconsistentData(Inconsistency::TransactionCount));
                }
                let sorted = sort_keys(hashes);
                proof {
                    lemma_same_keys(sorted@, found);
                    lemma_without_same_keys(store.tx_hash_numbers@, sorted@, found);
                }
                store.tx_hash_numbers.delete_by_keys(&sorted)
            },
            None => 0,
        };
        store.save_prune_checkpoint(
            PrunePart::TransactionLookup,
            PruneCheckpoint { block_number: blocks.end, prune_mode },
        );
        Ok(Some((rows, last)))
    }

    /// Prunes one batch of transaction senders up to `to_block`.
    pub fn prune_transaction_senders(
        &self,
        store: &mut Store,
        to_block: BlockNumber,
        prune_mode: PruneMode,
    ) -> (r: PartResult)
        requires
            old(store).wf(),
        ensures
            final(store).wf(),
            (r, final(store)@) == old(store)@.senders_batch(
                to_block,
                prune_mode,
                self.commit_thresholds.transaction_senders,
            ),
    {
        let plan = self.get_next_tx_num_range_from_checkpoint(
            store,
            PrunePart::SenderRecovery,
            to_block,
            self.commit_thresholds.transaction_senders,
        );
        let ((blocks, txs), last) = match plan {
            Ok(Some(plan)) => plan,
            Ok(None) => return Ok(None),
            Err(e) => return Err(e),
        };
        let rows = match txs {
            Some(txs) => store.tx_senders.delete_range(&txs.start, &txs.end).1,
            None => 0,
        };
        store.save_prune_checkpoint(
            PrunePart::SenderRecovery,
            PruneCheckpoint { block_number: blocks.end, prune_mode },
        );
        Ok(Some((rows, last)))
    }

    /// Prunes one batch of account history up to `to_block`: the change sets of the
    /// planned blocks, then the history index up to the last planned block.
    pub fn prune_account_history(
        &self,
        store: &mut Store,
        to_block: BlockNumber,
        prune_mode: PruneMode,
    ) -> (r: PartResult)
        requires
            old(store).wf(),
        ensures
            final(store).wf(),
            (r, final(store)@) == old(store)@.account_history_batch(
                to_block,
                prune_mode,
                self.commit_thresholds.account_history,
            ),
    {
        let plan = self.get_next_block_range_from_checkpoint(
            store,
            PrunePart::AccountHistory,
            to_block,
            self.commit_thresholds.account_history,
        );
        let (blocks, last) = match plan {
            Ok(Some(plan)) => plan,
            Ok(None) => return Ok(None),
            Err(e) => return Err(e),
        };
        let (_, rows) = store.account_changesets.delete_range(&blocks.start, &blocks.end);
        prune_history_indices(&mut store.account_history, blocks.end);
        store.save_prune_checkpoint(
            PrunePart::AccountHistory,
            PruneCheckpoint { block_number: blocks.end, prune_mode },
        );
        Ok(Some((rows, last)))
    }

    /// Prunes one batch of storage history up to `to_block`: the change sets of the
    /// planned blocks, then the history index up to the last planned block.
    pub fn prune_storage_history(
        &self,
        store: &mut Store,
        to_block: BlockNumber,
        prune_mode: PruneMode,
    ) -> (r: PartResult)
        requires
            old(store).wf(),
        ensures
            final(store).wf(),
            (r, final(store)@) == old(store)@.storage_history_batch(
                to_block,
                prune_mode,
                self.commit_thresholds.storage_history,
            ),
    {
        let plan = self.get_next_block_range_from_checkpoint(
            store,
            PrunePart::StorageHistory,
            to_block,
            self.commit_thresholds.storage_history,
        );
        let (blocks, last) = match plan {
            Ok(Some(plan)) => plan,
            Ok(None) => return Ok(None),
            Err(e) => return Err(e),
        };
        let (first_key, last_key) = BlockNumberAddress::range(blocks);
        let (_, rows) = store.storage_changesets.delete_range(&first_key, &last_key);
        prune_history_indices(&mut store.storage_history, blocks.end);
        store.save_prune_checkpoint(
            PrunePart::StorageHistory,
            PruneCheckpoint { block_number: blocks.end, prune_mode },
        );
        Ok(Some((rows, last)))
    }

    /// Prunes one batch of `prune_part` up to `to_block`.
    pub fn prune_batch(
        &self,
        store: &mut Store,
        prune_part: PrunePart,
        to_block: BlockNumber,
        prune_mode: PruneMode,
    ) -> (r: PartResult)
        requires
            old(store).wf(),
        ensures
            final(store).wf(),
            (r, final(store)@) == old(store)@.batch(
                prune_part,
                to_block,
                prune_mode,
                self.commit_thresholds.spec_limit(prune_part),
            ),
            old(store)@.pruned() ==> final(store)@.pruned(),
    {
        proof {
            if store@.pruned() {
                lemma_batch_keeps_pruned(
                    store@,
                    prune_part,
                    to_block,
                    prune_mode,
                    self.commit_thresholds.spec_limit(prune_part),
                );
            }
        }
        match prune_part {
            PrunePart::Receipts => self.prune_receipts(store, to_block, prune_mode),
            PrunePart::TransactionLookup => self.prune_transaction_lookup(
                store,
                to_block,
                prune_mode,
            ),
            PrunePart::SenderRecovery => self.prune_transaction_senders(
                store,
                to_block,
                prune_mode,
            ),
            PrunePart::AccountHistory => self.prune_account_history(store, to_block, prune_mode),
            PrunePart::StorageHistory => self.prune_storage_history(store, to_block, prune_mode),
        }
    }

    /// Prunes `prune_part` batch by batch until a batch reaches `to_block` or finds
    /// nothing to prune. A batch that fails changes nothing and ends the part with its
    /// error; the batches before it stay.
    pub fn prune_part_until_completion(
        &self,
        store: &mut Store,
        prune_part: PrunePart,
        to_block: BlockNumber,
        prune_mode: PruneMode,
    ) -> (r: PrunerResult)
        requires
            old(store).wf(),
        ensures
            final(store).wf(),
            (r, final(store)@) == old(store)@.driven(
                prune_part,
                to_block,
                prune_mode,
                self.commit_thresholds.spec_limit(prune_part),
            ),
            old(store)@.pruned() ==> final(store)@.pruned(),
    {
        let ghost limit = self.commit_thresholds.spec_limit(prune_part);
        proof {
            if store@.pruned() {
                lemma_driven_keeps_pruned(store@, prune_part, to_block, prune_mode, limit);
            }
        }
        loop
            invariant
                store.wf(),
                limit == self.commit_thresholds.spec_limit(prune_part),
                old(store)@.pruned() ==> old(store)@.driven(
                    prune_part,
                    to_block,
                    prune_mode,
                    limit,
                ).1.pruned(),
                store@.driven(prune_part, to_block, prune_mode, limit) == old(store)@.driven(
                    prune_part,
                    to_block,
                    prune_mode,
                    limit,
                ),
            decreases store@.blocks_left(prune_part, to_block),
        {
            match self.prune_batch(store, prune_part, to_block, prune_mode) {
                Err(e) => {
                    return Err(e);
                },
                Ok(outcome) => match after_batch(outcome) {
                    AfterBatch::Done | AfterBatch::CommitAndFinish => {
                        return Ok(());
                    },
                    AfterBatch::CommitAndContinue => {},
                },
            }
        }
    }

    /// Prunes `prune_part` as `target` says: not at all without a target, up to the
    /// target block otherwise; a target that could not be resolved fails the part.
    pub fn prune_part(&self, store: &mut Store, prune_part: PrunePart, target: Target) -> (r:
        PrunerResult)
        requires
            old(store).wf(),
        ensures
            final(store).wf(),
            (r, final(store)@) == old(store)@.part_run(
                prune_part,
                target,
                self.commit_thresholds.spec_limit(prune_part),
            ),
    {
        match target {
            Err(e) => Err(e),
            Ok(None) => Ok(()),
            Ok(Some((to_block, prune_mode))) => self.prune_part_until_completion(
                store,
                prune_part,
                to_block,
                prune_mode,
            ),
        }
    }

    /// Runs the pruner at the tip `tip_block_number`: receipts, transaction lookup,
    /// sender recovery, account history and storage history, in this order, each up to
    /// its target. The first part that fails ends the run with its error; what was
    /// pruned before stays. A run that succeeds is remembered as the last run.
    pub fn run(&mut self, store: &mut Store, tip_block_number: BlockNumber, targets: &PruneTargets) -> (r:
        PrunerResult)
        requires
            old(store).wf(),
        ensures
            final(store).wf(),
            (r, final(store)@) == run_outcome(
                old(store)@,
                *targets,
                old(self).commit_thresholds,
            ),
            final(self).last_pruned_block_number == if r is Ok {
                Some(tip_block_number)
            } else {
                old(self).last_pruned_block_number
            },
            final(self).min_block_interval == old(self).min_block_interval,
            final(self).modes == old(self).modes,
            final(self).commit_thresholds == old(self).commit_thresholds,
            old(store)@.pruned() ==> final(store)@.pruned(),
    {
        let ghost start = store@;
        proof {
            if start.pruned() {
                lemma_run_keeps_pruned(start, *targets, self.commit_thresholds);
            }
        }
        let receipts = self.prune_part(
            store,
            PrunePart::Receipts,
            targets.target(PrunePart::Receipts),
        );
        if let Err(e) = receipts {
            return Err(e);
        }
        let lookup = self.prune_part(
            store,
            PrunePart::TransactionLookup,
            targets.target(PrunePart::TransactionLookup),
        );
        if let Err(e) = lookup {
            return Err(e);
        }
        let senders = self.prune_part(
            store,
            PrunePart::SenderRecovery,
            targets.target(PrunePart::SenderRecovery),
        );
        if let Err(e) = senders {
            return Err(e);
        }
        let accounts = self.prune_part(
            store,
            PrunePart::AccountHistory,
            targets.target(PrunePart::AccountHistory),
        );
        if let Err(e) = accounts {
            return Err(e);
        }
        let storage = self.prune_part(
            store,
            PrunePart::StorageHistory,
            targets.target(PrunePart::StorageHistory),
        );
        if storage.is_ok() {
            self.last_pruned_block_number = Some(tip_block_number);
        }
        storage
    }
}

} // verus!
