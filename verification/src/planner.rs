//! The range planner: which blocks, and which transactions, the next batch of a part covers.

use crate::types::{BlockBodyIndices, InclusiveRange, PruneCheckpoint};
use vstd::prelude::*;

verus! {

/// First block that is not pruned yet: the one behind the checkpoint, or block 0.
pub open spec fn next_block(checkpoint: Option<PruneCheckpoint>) -> int {
    match checkpoint {
        Some(c) => c.block_number + 1,
        None => 0,
    }
}

/// Last block of a batch of at most `limit` blocks that starts at `from` and must
/// not pass `to_block`.
pub open spec fn batch_end(from: int, to_block: u64, limit: usize) -> int {
    if to_block <= from + limit - 1 {
        to_block as int
    } else {
        from + limit - 1
    }
}

/// The next batch of blocks and whether it is the last one, or `None` when there is
/// no block left to prune.
pub open spec fn planned_block_range(
    checkpoint: Option<PruneCheckpoint>,
    to_block: u64,
    limit: usize,
) -> Option<(InclusiveRange, bool)> {
    let from = next_block(checkpoint);
    let end = batch_end(from, to_block, limit);
    if from > end {
        None
    } else {
        Some((InclusiveRange { start: from as u64, end: end as u64 }, end == to_block))
    }
}

/// The transactions from the first of the block `first` to the last of the block
/// `last`, or `None` when there is none.
pub open spec fn planned_tx_range(first: BlockBodyIndices, last: BlockBodyIndices) -> Option<
    InclusiveRange,
> {
    if first.first_tx_num > last.last_tx() {
        None
    } else {
        Some(InclusiveRange { start: first.first_tx_num, end: last.last_tx() as u64 })
    }
}

/// Plans the next batch of blocks of a part: from the block behind `checkpoint`, or
/// block 0, at most `limit` blocks and not beyond `to_block`. The flag says whether
/// the batch reaches `to_block`.
pub fn plan_block_range(checkpoint: Option<PruneCheckpoint>, to_block: u64, limit: usize) -> (plan:
    Option<(InclusiveRange, bool)>)
    ensures
        plan == planned_block_range(checkpoint, to_block, limit),
{
    let from: u64 = match checkpoint {
        Some(c) => {
            if c.block_number == u64::MAX {
                return None;
            }
            c.block_number + 1
        },
        None => 0,
    };
    if limit == 0 || from > to_block {
        return None;
    }
    let room: u64 = to_block - from;
    let step: u64 = (limit - 1) as u64;
    if step >= room {
        Some((InclusiveRange { start: from, end: to_block }, true))
    } else {
        Some((InclusiveRange { start: from, end: from + step }, false))
    }
}

/// Plans the transactions of a batch of blocks from the body indices of its first and
/// its last block. `None` says that all blocks of the batch are empty.
pub fn plan_tx_range(first: &BlockBodyIndices, last: &BlockBodyIndices) -> (range: Option<
    InclusiveRange,
>)
    requires
        last.wf(),
    ensures
        range == planned_tx_range(*first, *last),
{
    let next: u64 = last.first_tx_num + last.tx_count;
    if first.first_tx_num >= next {
        None
    } else {
        Some(InclusiveRange { start: first.first_tx_num, end: next - 1 })
    }
}

} // verus!
