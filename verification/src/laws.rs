//! What holds of parts driven to their targets and of whole runs.

use crate::effects::{run_outcome, then_part, PruneTargets, PrunerResult, Target};
use crate::invariants::lemma_batch_keeps_pruned;
use crate::planner::next_block;
use crate::store::StoreView;
use crate::types::{CommitThresholds, PruneCheckpoint, PruneMode, PrunePart, PrunerError};
use vstd::prelude::*;

verus! {

/// Whether a part is planned by transaction number.
pub open spec fn planned_by_tx(part: PrunePart) -> bool {
    part == PrunePart::Receipts || part == PrunePart::TransactionLookup || part
        == PrunePart::SenderRecovery
}

/// Whether the planner finds no batch for `part`.
pub open spec fn nothing_left(s: StoreView, part: PrunePart, to_block: u64, limit: usize) -> bool {
    if planned_by_tx(part) {
        s.tx_plan(part, to_block, limit) is None
    } else {
        s.block_plan(part, to_block, limit) is None
    }
}

/// A batch that prunes something moves the checkpoint of its part forward, to a block
/// at or below the target, and leaves the checkpoints of the other parts and the block
/// bodies alone. A batch that prunes nothing, or fails, leaves the store as it is.
#[verifier::rlimit(40)]
pub proof fn lemma_batch_moves_checkpoint(
    s: StoreView,
    part: PrunePart,
    to_block: u64,
    mode: PruneMode,
    limit: usize,
)
    ensures
        s.batch(part, to_block, mode, limit).1.bodies == s.bodies,
        s.batch(part, to_block, mode, limit).1.transactions == s.transactions,
        forall|other: PrunePart|
            other != part ==> s.batch(part, to_block, mode, limit).1.checkpoint(other)
                == s.checkpoint(other),
        match s.batch(part, to_block, mode, limit).0 {
            Ok(Some((_, last))) => {
                &&& !nothing_left(s, part, to_block, limit)
                &&& s.batch(part, to_block, mode, limit).1.checkpoint(part) matches Some(c)
                &&& next_block(s.checkpoint(part)) <= c.block_number <= to_block
                &&& c.prune_mode == mode
                &&& last == (c.block_number == to_block)
            },
            Ok(None) => nothing_left(s, part, to_block, limit) && s.batch(
                part,
                to_block,
                mode,
                limit,
            ).1 == s,
            Err(_) => s.batch(part, to_block, mode, limit).1 == s,
        },
{
    match part {
        PrunePart::Receipts => {
            assert(s.batch(part, to_block, mode, limit) == s.receipts_batch(to_block, mode, limit));
        },
        PrunePart::TransactionLookup => {
            assert(s.batch(part, to_block, mode, limit) == s.lookup_batch(to_block, mode, limit));
        },
        PrunePart::SenderRecovery => {
            assert(s.batch(part, to_block, mode, limit) == s.senders_batch(to_block, mode, limit));
        },
        PrunePart::AccountHistory => {
            assert(s.batch(part, to_block, mode, limit) == s.account_history_batch(
                to_block,
                mode,
                limit,
            ));
        },
        PrunePart::StorageHistory => {
            assert(s.batch(part, to_block, mode, limit) == s.storage_history_batch(
                to_block,
                mode,
                limit,
            ));
        },
    }
}

/// A batch whose blocks hold no transaction deletes nothing and still moves the
/// checkpoint of its part to the last of its blocks.
pub proof fn lemma_empty_blocks_move_checkpoint(
    s: StoreView,
    part: PrunePart,
    to_block: u64,
    mode: PruneMode,
    limit: usize,
)
    requires
        planned_by_tx(part),
        s.tx_plan(part, to_block, limit) matches Some(((_, txs), _)) && txs is None,
    ensures
        match s.tx_plan(part, to_block, limit) {
            Some(((blocks, _), last)) => {
                &&& s.batch(part, to_block, mode, limit) == (
                    Ok::<Option<(usize, bool)>, PrunerError>(Some((0usize, last))),
                    s.saved(part, blocks.end, mode),
                )
                &&& s.saved(part, blocks.end, mode).checkpoint(part) == Some(
                    PruneCheckpoint { block_number: blocks.end, prune_mode: mode },
                )
                &&& next_block(s.checkpoint(part)) <= blocks.end
            },
            None => true,
        },
{
}

/// A part's checkpoint never moves backwards: what driving the part leaves as
/// checkpoint is at or above what was there.
pub proof fn lemma_driven_moves_checkpoint(
    s: StoreView,
    part: PrunePart,
    to_block: u64,
    mode: PruneMode,
    limit: usize,
)
    ensures
        s.driven(part, to_block, mode, limit).1.bodies == s.bodies,
        s.driven(part, to_block, mode, limit).1.transactions == s.transactions,
        forall|other: PrunePart|
            other != part ==> s.driven(part, to_block, mode, limit).1.checkpoint(other)
                == s.checkpoint(other),
        next_block(s.checkpoint(part)) <= next_block(
            s.driven(part, to_block, mode, limit).1.checkpoint(part),
        ),
        s.driven(part, to_block, mode, limit).0 is Ok ==> nothing_left(
            s.driven(part, to_block, mode, limit).1,
            part,
            to_block,
            limit,
        ),
    decreases s.blocks_left(part, to_block),
{
    lemma_batch_moves_checkpoint(s, part, to_block, mode, limit);
    let (result, next) = s.batch(part, to_block, mode, limit);
    match result {
        Ok(Some((_, last))) => {
            if !last {
                lemma_driven_moves_checkpoint(next, part, to_block, mode, limit);
            }
        },
        _ => {},
    }
}

/// Where the planner finds no batch, a batch prunes nothing and driving the part
/// changes nothing.
pub proof fn lemma_nothing_left(
    s: StoreView,
    part: PrunePart,
    to_block: u64,
    mode: PruneMode,
    limit: usize,
)
    requires
        nothing_left(s, part, to_block, limit),
    ensures
        s.batch(part, to_block, mode, limit) == (Ok::<Option<(usize, bool)>, PrunerError>(None), s),
        s.driven(part, to_block, mode, limit) == (Ok::<(), PrunerError>(()), s),
{
}

/// Driving a part keeps the store well-formed and consistent with its checkpoints.
pub proof fn lemma_driven_keeps_pruned(
    s: StoreView,
    part: PrunePart,
    to_block: u64,
    mode: PruneMode,
    limit: usize,
)
    requires
        s.wf(),
        s.pruned(),
    ensures
        s.driven(part, to_block, mode, limit).1.wf(),
        s.driven(part, to_block, mode, limit).1.pruned(),
    decreases s.blocks_left(part, to_block),
{
    lemma_batch_keeps_pruned(s, part, to_block, mode, limit);
    lemma_batch_moves_checkpoint(s, part, to_block, mode, limit);
    let (result, next) = s.batch(part, to_block, mode, limit);
    match result {
        Ok(Some((_, last))) => {
            if !last {
                lemma_driven_keeps_pruned(next, part, to_block, mode, limit);
            }
        },
        _ => {},
    }
}

/// One more part of a run keeps the store well-formed and consistent with its
/// checkpoints.
pub proof fn lemma_then_part_keeps_pruned(
    so_far: (PrunerResult, StoreView),
    part: PrunePart,
    targets: PruneTargets,
    thresholds: CommitThresholds,
)
    requires
        so_far.1.wf(),
        so_far.1.pruned(),
    ensures
        then_part(so_far, part, targets, thresholds).1.wf(),
        then_part(so_far, part, targets, thresholds).1.pruned(),
{
    if let Ok(Some((to_block, mode))) = targets.spec_target(part) {
        lemma_driven_keeps_pruned(so_far.1, part, to_block, mode, thresholds.spec_limit(part));
    }
}

/// A run keeps the store well-formed and consistent with its checkpoints, whether it
/// succeeds or fails: after it, every row left in the tables of a part belongs to a
/// block above the part's checkpoint, no shard is empty, and every logical key that is
/// left has its last shard.
pub proof fn lemma_run_keeps_pruned(s: StoreView, targets: PruneTargets, thresholds: CommitThresholds)
    requires
        s.wf(),
        s.pruned(),
    ensures
        run_outcome(s, targets, thresholds).1.wf(),
        run_outcome(s, targets, thresholds).1.pruned(),
{
    let start = (Ok::<(), PrunerError>(()), s);
    let receipts = then_part(start, PrunePart::Receipts, targets, thresholds);
    lemma_then_part_keeps_pruned(start, PrunePart::Receipts, targets, thresholds);
    let lookup = then_part(receipts, PrunePart::TransactionLookup, targets, thresholds);
    lemma_then_part_keeps_pruned(receipts, PrunePart::TransactionLookup, targets, thresholds);
    let senders = then_part(lookup, PrunePart::SenderRecovery, targets, thresholds);
    lemma_then_part_keeps_pruned(lookup, PrunePart::SenderRecovery, targets, thresholds);
    let accounts = then_part(senders, PrunePart::AccountHistory, targets, thresholds);
    lemma_then_part_keeps_pruned(senders, PrunePart::AccountHistory, targets, thresholds);
    lemma_then_part_keeps_pruned(accounts, PrunePart::StorageHistory, targets, thresholds);
}

/// Whether nothing is left to plan for `part` under its target, if it has one.
pub open spec fn part_settled(s: StoreView, part: PrunePart, target: Target, limit: usize) -> bool {
    target matches Ok(t) && (t matches Some((to_block, _)) ==> nothing_left(
        s,
        part,
        to_block,
        limit,
    ))
}

/// One more part of a run that succeeds settles that part and leaves the parts
/// settled that were.
proof fn lemma_then_part_settles(
    so_far: (PrunerResult, StoreView),
    part: PrunePart,
    targets: PruneTargets,
    thresholds: CommitThresholds,
)
    requires
        then_part(so_far, part, targets, thresholds).0 is Ok,
    ensures
        so_far.0 is Ok,
        part_settled(
            then_part(so_far, part, targets, thresholds).1,
            part,
            targets.spec_target(part),
            thresholds.spec_limit(part),
        ),
        forall|other: PrunePart|
            other != part && part_settled(
                so_far.1,
                other,
                targets.spec_target(other),
                thresholds.spec_limit(other),
            ) ==> part_settled(
                then_part(so_far, part, targets, thresholds).1,
                other,
                targets.spec_target(other),
                thresholds.spec_limit(other),
            ),
{
    if let Ok(Some((to_block, mode))) = targets.spec_target(part) {
        lemma_driven_moves_checkpoint(so_far.1, part, to_block, mode, thresholds.spec_limit(part));
    }
}

/// One more part of a run changes nothing in a store in which the part is settled.
proof fn lemma_then_part_settled(
    s: StoreView,
    part: PrunePart,
    targets: PruneTargets,
    thresholds: CommitThresholds,
)
    requires
        part_settled(s, part, targets.spec_target(part), thresholds.spec_limit(part)),
    ensures
        then_part((Ok(()), s), part, targets, thresholds) == (Ok::<(), PrunerError>(()), s),
{
    if let Ok(Some((to_block, mode))) = targets.spec_target(part) {
        lemma_nothing_left(s, part, to_block, mode, thresholds.spec_limit(part));
    }
}

/// A run that follows a run that succeeded, with the same targets, changes nothing:
/// for every part the planner finds no batch.
pub proof fn lemma_second_run_changes_nothing(
    s: StoreView,
    targets: PruneTargets,
    thresholds: CommitThresholds,
)
    requires
        run_outcome(s, targets, thresholds).0 is Ok,
    ensures
        run_outcome(run_outcome(s, targets, thresholds).1, targets, thresholds) == (
            Ok::<(), PrunerError>(()),
            run_outcome(s, targets, thresholds).1,
        ),
        forall|part: PrunePart|
            part_settled(
                run_outcome(s, targets, thresholds).1,
                part,
                targets.spec_target(part),
                thresholds.spec_limit(part),
            ),
{
    let start = (Ok::<(), PrunerError>(()), s);
    let receipts = then_part(start, PrunePart::Receipts, targets, thresholds);
    let lookup = then_part(receipts, PrunePart::TransactionLookup, targets, thresholds);
    let senders = then_part(lookup, PrunePart::SenderRecovery, targets, thresholds);
    let accounts = then_part(senders, PrunePart::AccountHistory, targets, thresholds);
    let storage = then_part(accounts, PrunePart::StorageHistory, targets, thresholds);
    lemma_then_part_settles(accounts, PrunePart::StorageHistory, targets, thresholds);
    lemma_then_part_settles(senders, PrunePart::AccountHistory, targets, thresholds);
    lemma_then_part_settles(lookup, PrunePart::SenderRecovery, targets, thresholds);
    lemma_then_part_settles(receipts, PrunePart::TransactionLookup, targets, thresholds);
    lemma_then_part_settles(start, PrunePart::Receipts, targets, thresholds);
    let end = storage.1;
    assert forall|part: PrunePart|
        part_settled(end, part, targets.spec_target(part), thresholds.spec_limit(part)) by {
        match part {
            PrunePart::Receipts => {},
            PrunePart::TransactionLookup => {},
            PrunePart::SenderRecovery => {},
            PrunePart::AccountHistory => {},
            PrunePart::StorageHistory => {},
        }
    }
    lemma_then_part_settled(end, PrunePart::Receipts, targets, thresholds);
    lemma_then_part_settled(end, PrunePart::TransactionLookup, targets, thresholds);
    lemma_then_part_settled(end, PrunePart::SenderRecovery, targets, thresholds);
    lemma_then_part_settled(end, PrunePart::AccountHistory, targets, thresholds);
    lemma_then_part_settled(end, PrunePart::StorageHistory, targets, thresholds);
}

} // verus!
