use pruner::pruner::Pruner;
use pruner::types::{CommitThresholds, PruneModes};

#[test]
fn is_pruning_needed() {
    let pruner = Pruner::new(5, PruneModes::default(), CommitThresholds::default());

    // No last pruned block number was set before
    let first_block_number = 1;
    assert!(pruner.is_pruning_needed(first_block_number));

    // Delta is not less than min block interval
    let second_block_number = first_block_number + pruner.min_block_interval;
    assert!(pruner.is_pruning_needed(second_block_number));

    // Delta is less than min block interval
    let third_block_number = second_block_number;
    assert!(pruner.is_pruning_needed(third_block_number));
}
