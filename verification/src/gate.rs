//! The interval gate: decides whether a new chain tip is far enough from the last run.

use vstd::prelude::*;

verus! {

/// Distance from `last` up to `tip`, zero when the tip lies at or below `last`.
pub open spec fn tip_advance(tip: u64, last: u64) -> int {
    if tip >= last {
        tip - last
    } else {
        0
    }
}

/// Whether a run is due at `tip`: always when no run is recorded, otherwise when the
/// tip has advanced by at least `min_block_interval` blocks since the last run.
pub open spec fn pruning_due(last: Option<u64>, min_block_interval: u64, tip: u64) -> bool {
    match last {
        None => true,
        Some(l) => tip_advance(tip, l) >= min_block_interval,
    }
}

/// Whether a run is due at `tip`, given the tip of the last run and the interval.
pub fn is_due(last: Option<u64>, min_block_interval: u64, tip: u64) -> (due: bool)
    ensures
        due == pruning_due(last, min_block_interval, tip),
{
    match last {
        None => true,
        Some(l) => tip.saturating_sub(l) >= min_block_interval,
    }
}

} // verus!
