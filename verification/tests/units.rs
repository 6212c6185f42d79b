use pruner::block_list::{is_pre_sorted, BlockList};
use pruner::changesets::BlockNumberAddress;
use pruner::gate::is_due;
use pruner::history::{HistoryKey, ShardedKey, StorageShardedKey};
use pruner::indices::{
    emptied_sentinel_fate, judge_shard, prune_history_indices, seek_behind, settle_emptied_sentinel,
    SentinelFate, ShardVerdict,
};
use pruner::keys::{same_key, TableKey};
use pruner::planner::{plan_block_range, plan_tx_range};
use pruner::sort::{merge_keys, sort_keys};
use pruner::store::{Checkpoints, Store};
use pruner::table::Table;
use pruner::wellformed::{is_bodies_wf, is_history_wf, is_sorted_by_key};
use pruner::types::{
    BlockBodyIndices, CommitThresholds, InclusiveRange, PruneCheckpoint, PruneMode, PruneModes,
    PrunePart,
};

fn checkpoint(block_number: u64) -> Option<PruneCheckpoint> {
    Some(PruneCheckpoint { block_number, prune_mode: PruneMode::Full })
}

fn range(start: u64, end: u64) -> InclusiveRange {
    InclusiveRange { start, end }
}

fn list(blocks: &[u64]) -> BlockList {
    BlockList::new(blocks.to_vec()).unwrap()
}

fn account(byte: u8) -> [u8; 20] {
    [byte; 20]
}

fn history(shards: &[(u8, u64, &[u64])]) -> Table<ShardedKey<[u8; 20]>, BlockList> {
    let rows = shards
        .iter()
        .map(|(byte, highest, blocks)| (ShardedKey::new(account(*byte), *highest), list(blocks)))
        .collect();
    Table::from_rows(rows).unwrap()
}

fn rows_of(table: &Table<ShardedKey<[u8; 20]>, BlockList>) -> Vec<(u8, u64, Vec<u64>)> {
    table
        .rows
        .iter()
        .map(|(key, blocks)| (key.key[0], key.highest_block_number, blocks.iter(0)))
        .collect()
}

#[test]
fn gate_is_due_without_last_run() {
    assert!(is_due(None, 5, 0));
    assert!(is_due(None, u64::MAX, 0));
}

#[test]
fn gate_counts_blocks_since_last_run() {
    assert!(!is_due(Some(10), 5, 14));
    assert!(is_due(Some(10), 5, 15));
    assert!(is_due(Some(10), 0, 3));
    assert!(!is_due(Some(10), 1, 3));
    assert!(!is_due(Some(u64::MAX), 1, 0));
    assert!(is_due(Some(0), u64::MAX, u64::MAX));
}

#[test]
fn block_range_starts_at_genesis_without_checkpoint() {
    assert_eq!(plan_block_range(None, 10, 10), Some((range(0, 9), false)));
    assert_eq!(plan_block_range(None, 10, 11), Some((range(0, 10), true)));
    assert_eq!(plan_block_range(None, 10, 12), Some((range(0, 10), true)));
    assert_eq!(plan_block_range(None, 0, 1), Some((range(0, 0), true)));
}

#[test]
fn block_range_continues_behind_checkpoint() {
    assert_eq!(plan_block_range(checkpoint(9), 10, 10), Some((range(10, 10), true)));
    assert_eq!(plan_block_range(checkpoint(9), 100, 10), Some((range(10, 19), false)));
    assert_eq!(plan_block_range(checkpoint(2999), 4000, 3000), Some((range(3000, 4000), true)));
}

#[test]
fn block_range_is_none_when_nothing_is_left() {
    assert_eq!(plan_block_range(checkpoint(10), 10, 10), None);
    assert_eq!(plan_block_range(checkpoint(20), 10, 10), None);
    assert_eq!(plan_block_range(None, 10, 0), None);
    assert_eq!(plan_block_range(checkpoint(3), 10, 0), None);
    assert_eq!(plan_block_range(checkpoint(u64::MAX), u64::MAX, 10), None);
}

#[test]
fn block_range_near_the_largest_block() {
    let top = u64::MAX;
    assert_eq!(plan_block_range(checkpoint(top - 3), top, 2), Some((range(top - 2, top - 1), false)));
    assert_eq!(plan_block_range(checkpoint(top - 3), top, 3), Some((range(top - 2, top), true)));
    assert_eq!(
        plan_block_range(checkpoint(top - 3), top, usize::MAX),
        Some((range(top - 2, top), true))
    );
    assert_eq!(plan_block_range(None, top, usize::MAX), Some((range(0, usize::MAX as u64 - 1), false)));
}

#[test]
fn tx_range_spans_first_to_last_block() {
    let first = BlockBodyIndices { first_tx_num: 7, tx_count: 3 };
    let last = BlockBodyIndices { first_tx_num: 20, tx_count: 5 };
    assert_eq!(plan_tx_range(&first, &last), Some(range(7, 24)));
    assert_eq!(plan_tx_range(&first, &first), Some(range(7, 9)));
}

#[test]
fn tx_range_of_empty_blocks_is_none() {
    let empty = BlockBodyIndices { first_tx_num: 7, tx_count: 0 };
    assert_eq!(plan_tx_range(&empty, &empty), None);
    let genesis = BlockBodyIndices { first_tx_num: 0, tx_count: 0 };
    assert_eq!(plan_tx_range(&genesis, &genesis), None);
    let one = BlockBodyIndices { first_tx_num: 0, tx_count: 1 };
    assert_eq!(plan_tx_range(&genesis, &one), Some(range(0, 0)));
}

#[test]
fn thresholds_default_to_ten_thousand() {
    let thresholds = CommitThresholds::default();
    for part in [
        PrunePart::Receipts,
        PrunePart::TransactionLookup,
        PrunePart::SenderRecovery,
        PrunePart::AccountHistory,
        PrunePart::StorageHistory,
    ] {
        assert_eq!(thresholds.limit(part), 10_000);
    }
    let thresholds = CommitThresholds { transaction_senders: 3, ..thresholds };
    assert_eq!(thresholds.limit(PrunePart::SenderRecovery), 3);
    assert_eq!(thresholds.limit(PrunePart::Receipts), 10_000);
}

#[test]
fn modes_are_kept_by_part() {
    assert_eq!(PruneModes::none(), PruneModes::default());
    let modes = PruneModes { receipts: Some(PruneMode::Before(11)), ..PruneModes::none() };
    assert_eq!(modes.mode_of(PrunePart::Receipts), Some(PruneMode::Before(11)));
    assert_eq!(modes.mode_of(PrunePart::StorageHistory), None);
}

#[test]
fn checkpoints_are_kept_by_part() {
    let mut checkpoints = Checkpoints::new();
    assert_eq!(checkpoints.get(PrunePart::AccountHistory), None);
    checkpoints.set(PrunePart::AccountHistory, checkpoint(4).unwrap());
    assert_eq!(checkpoints.get(PrunePart::AccountHistory), checkpoint(4));
    assert_eq!(checkpoints.get(PrunePart::StorageHistory), None);

    let mut store = Store::new();
    store.save_prune_checkpoint(PrunePart::Receipts, checkpoint(8).unwrap());
    assert_eq!(store.get_prune_checkpoint(PrunePart::Receipts), checkpoint(8));
    assert_eq!(store.get_prune_checkpoint(PrunePart::SenderRecovery), None);
}

#[test]
fn store_answers_for_the_blocks_it_has() {
    let mut store = Store::new();
    assert_eq!(store.block_body_indices(0), None);
    store.bodies.push(BlockBodyIndices { first_tx_num: 0, tx_count: 2 });
    store.bodies.push(BlockBodyIndices { first_tx_num: 2, tx_count: 1 });
    assert_eq!(store.block_body_indices(1), Some(BlockBodyIndices { first_tx_num: 2, tx_count: 1 }));
    assert_eq!(store.block_body_indices(2), None);
    assert_eq!(store.block_body_indices(u64::MAX), None);

    for n in [0u64, 1, 2, 5] {
        store.transactions.insert(n, [n as u8; 32]);
    }
    assert_eq!(store.transactions_by_tx_range(range(1, 4)), vec![[1u8; 32], [2u8; 32]]);
    assert_eq!(store.transactions_by_tx_range(range(3, 4)), Vec::<[u8; 32]>::new());
    assert_eq!(store.transactions_by_tx_range(range(4, 1)), Vec::<[u8; 32]>::new());
    assert_eq!(store.transactions_by_tx_range(range(0, u64::MAX)).len(), 4);
}

#[test]
fn byte_strings_order_by_their_first_difference() {
    let low = [0u8, 0, 9];
    let mid = [0u8, 1, 0];
    let high = [1u8, 0, 0];
    assert!(low.less(&mid) && mid.less(&high) && low.less(&high));
    assert!(!mid.less(&low) && !high.less(&mid) && !low.less(&low));
    assert!(same_key(&mid, &[0u8, 1, 0]));
    assert!(!same_key(&mid, &high));
    assert!(5u64.less(&6) && !6u64.less(&6) && !7u64.less(&6));
}

#[test]
fn table_order_agrees_with_the_order_of_the_parts() {
    let mut keys = vec![
        ShardedKey::new(account(2), 5),
        ShardedKey::new(account(1), u64::MAX),
        ShardedKey::new(account(2), u64::MAX),
        ShardedKey::new(account(1), 7),
        ShardedKey::new(account(2), 0),
    ];
    let mut expected = keys.clone();
    expected.sort_by_key(|key| (key.key, key.highest_block_number));
    keys = sort_keys(keys);
    assert_eq!(keys, expected);

    let a = StorageShardedKey::new(account(1), [9u8; 32], 3);
    let b = StorageShardedKey::new(account(1), [9u8; 32], 4);
    let c = StorageShardedKey::new(account(1), [10u8; 32], 0);
    let d = StorageShardedKey::new(account(2), [0u8; 32], 0);
    assert!(a.less(&b) && b.less(&c) && c.less(&d) && !d.less(&a) && !a.less(&a));

    let e = BlockNumberAddress::new(3, account(255));
    let f = BlockNumberAddress::new(4, account(0));
    assert!(e.less(&f) && !f.less(&e));
    assert!(BlockNumberAddress::new(4, account(0)).less(&BlockNumberAddress::new(4, account(1))));
}

#[test]
fn history_keys_know_their_logical_key() {
    let key = ShardedKey::new(account(3), 17);
    assert_eq!(key.highest_block_number(), 17);
    assert!(key.key_matches(&ShardedKey::new(account(3), 99)));
    assert!(!key.key_matches(&ShardedKey::new(account(4), 17)));
    assert_eq!(key.last_key(), ShardedKey::last(account(3)));
    assert_eq!(ShardedKey::last(account(3)).highest_block_number, u64::MAX);

    let key = StorageShardedKey::new(account(3), [1u8; 32], 17);
    assert_eq!(key.highest_block_number(), 17);
    assert!(key.key_matches(&StorageShardedKey::new(account(3), [1u8; 32], 5)));
    assert!(!key.key_matches(&StorageShardedKey::new(account(3), [2u8; 32], 17)));
    assert!(!key.key_matches(&StorageShardedKey::new(account(4), [1u8; 32], 17)));
    assert_eq!(key.last_key(), StorageShardedKey::last(account(3), [1u8; 32]));
}

#[test]
fn storage_change_keys_span_whole_blocks() {
    let (first, last) = BlockNumberAddress::range(range(3, 8));
    assert_eq!(first, BlockNumberAddress::new(3, [0u8; 20]));
    assert_eq!(last, BlockNumberAddress::new(8, [0xffu8; 20]));
}

#[test]
fn sort_puts_keys_in_order() {
    let keys: Vec<u64> = vec![9, 3, 7, 3, 0, 12, 1];
    assert_eq!(sort_keys(keys), vec![0, 1, 3, 3, 7, 9, 12]);
    assert_eq!(sort_keys(Vec::<u64>::new()), Vec::<u64>::new());
    let hashes = vec![[3u8; 32], [1u8; 32], [2u8; 32]];
    assert_eq!(sort_keys(hashes), vec![[1u8; 32], [2u8; 32], [3u8; 32]]);
    assert_eq!(merge_keys(&vec![1u64, 4, 9], &vec![2u64, 4, 5]), vec![1, 2, 4, 4, 5, 9]);
}

#[test]
fn delete_range_reports_last_key_and_count() {
    let rows: Vec<(u64, char)> = vec![(1, 'a'), (3, 'b'), (3, 'c'), (4, 'd'), (9, 'e')];
    let mut table = Table::from_rows(rows).unwrap();
    assert_eq!(table.delete_range(&5, &8), (None, 0));
    assert_eq!(table.delete_range(&8, &5), (None, 0));
    assert_eq!(table.len(), 5);
    assert_eq!(table.delete_range(&2, &4), (Some(4), 3));
    assert_eq!(table.rows, vec![(1, 'a'), (9, 'e')]);
    assert_eq!(table.delete_range(&0, &u64::MAX), (Some(9), 2));
    assert_eq!(table.len(), 0);
}

#[test]
fn delete_by_keys_sweeps_rows_and_keys() {
    let rows: Vec<(u64, char)> = vec![(1, 'a'), (3, 'b'), (3, 'c'), (4, 'd'), (9, 'e')];
    let mut table = Table::from_rows(rows).unwrap();
    assert_eq!(table.delete_by_keys(&vec![0, 3, 5, 9, 9, 11]), 3);
    assert_eq!(table.rows, vec![(1, 'a'), (4, 'd')]);
    assert_eq!(table.delete_by_keys(&vec![]), 0);
    assert_eq!(table.delete_by_keys(&vec![2]), 0);
    assert_eq!(table.key_at(1), 4);
    assert_eq!(*table.value_at(1), 'd');
}

#[test]
fn table_bounds_and_insert() {
    let mut table: Table<u64, u8> = Table::new();
    for (key, value) in [(5, 0), (1, 1), (5, 2), (3, 3)] {
        table.insert(key, value);
    }
    assert_eq!(table.rows, vec![(1, 1), (3, 3), (5, 0), (5, 2)]);
    assert_eq!(table.lower_bound(&5), 2);
    assert_eq!(table.upper_bound(&5), 4);
    assert_eq!(table.lower_bound(&4), 2);
    assert_eq!(table.upper_bound(&0), 0);
}

#[test]
fn block_lists_are_sorted_and_not_empty() {
    assert!(BlockList::new(vec![]).is_none());
    assert!(BlockList::new(vec![3, 2]).is_none());
    assert!(is_pre_sorted(&vec![1, 1, 2]));
    assert!(!is_pre_sorted(&vec![1, 0]));
    let blocks = list(&[1, 4, 4, 9]);
    assert_eq!(blocks.len(), 4);
    assert_eq!(blocks.get(1), 4);
    assert_eq!(blocks.iter(0), vec![1, 4, 4, 9]);
    assert_eq!(blocks.iter(3), vec![9]);
    assert_eq!(blocks.iter(4), Vec::<u64>::new());
    assert_eq!(blocks.iter(9), Vec::<u64>::new());
    assert_eq!(blocks.above(0), vec![1, 4, 4, 9]);
    assert_eq!(blocks.above(4), vec![9]);
    assert_eq!(blocks.above(9), Vec::<u64>::new());
    assert_eq!(BlockList::new_pre_sorted(vec![2, 3]), list(&[2, 3]));
}

#[test]
fn shard_verdicts() {
    let blocks = list(&[10, 20, 30]);
    assert!(matches!(judge_shard(30, &blocks, 31), ShardVerdict::Delete { seek: false }));
    assert!(matches!(judge_shard(30, &blocks, 30), ShardVerdict::Delete { seek: true }));
    assert!(matches!(judge_shard(30, &blocks, 9), ShardVerdict::Unchanged));
    match judge_shard(30, &blocks, 10) {
        ShardVerdict::Rewrite { blocks } => assert_eq!(blocks, vec![20, 30]),
        _ => panic!("some blocks remain"),
    }
    match judge_shard(u64::MAX, &blocks, 29) {
        ShardVerdict::Rewrite { blocks } => assert_eq!(blocks, vec![30]),
        _ => panic!("one block remains"),
    }
    assert!(matches!(judge_shard(40, &blocks, 30), ShardVerdict::Emptied { sentinel: false }));
    assert!(matches!(judge_shard(u64::MAX, &blocks, 30), ShardVerdict::Emptied { sentinel: true }));
    assert!(matches!(
        judge_shard(u64::MAX, &blocks, u64::MAX),
        ShardVerdict::Delete { seek: true }
    ));
}

#[test]
fn emptied_sentinel_takes_the_shard_before_it() {
    let sentinel = ShardedKey::last(account(2));
    let same = ShardedKey::new(account(2), 5);
    let other = ShardedKey::last(account(1));
    assert!(matches!(emptied_sentinel_fate(&sentinel, Some(&same)), SentinelFate::TakePrevious));
    assert!(matches!(emptied_sentinel_fate(&sentinel, Some(&other)), SentinelFate::Delete));
    assert!(matches!(emptied_sentinel_fate(&sentinel, None), SentinelFate::Delete));

    // With a shard of the same logical key before it: its blocks move under the last key.
    let mut table = history(&[(1, u64::MAX, &[8]), (2, 5, &[3, 5]), (2, u64::MAX, &[7, 9]), (3, u64::MAX, &[1])]);
    assert!(settle_emptied_sentinel(&mut table, 2));
    assert_eq!(
        rows_of(&table),
        vec![(1, u64::MAX, vec![8]), (2, u64::MAX, vec![3, 5]), (3, u64::MAX, vec![1])]
    );

    // Without: the last shard goes, and the logical key with it.
    assert!(!settle_emptied_sentinel(&mut table, 1));
    assert_eq!(rows_of(&table), vec![(1, u64::MAX, vec![8]), (3, u64::MAX, vec![1])]);
    assert!(!settle_emptied_sentinel(&mut table, 0));
    assert_eq!(rows_of(&table), vec![(3, u64::MAX, vec![1])]);
}

#[test]
fn seek_goes_behind_the_logical_key() {
    let table = history(&[(1, 4, &[4]), (1, u64::MAX, &[8]), (2, u64::MAX, &[7]), (4, u64::MAX, &[1])]);
    assert_eq!(seek_behind(&table, &ShardedKey::new(account(1), 0)), 2);
    assert_eq!(seek_behind(&table, &ShardedKey::new(account(3), 0)), 3);
    assert_eq!(seek_behind(&table, &ShardedKey::new(account(0), 0)), 0);
    assert_eq!(seek_behind(&table, &ShardedKey::new(account(4), 9)), 4);
}

#[test]
fn target_on_a_shard_bound_deletes_the_shard_and_skips_the_key() {
    let mut table = history(&[
        (1, 10, &[2, 10]),
        (1, 20, &[11, 20]),
        (1, u64::MAX, &[25]),
        (2, 15, &[9, 15]),
        (2, u64::MAX, &[16, 30]),
    ]);
    prune_history_indices(&mut table, 10);
    assert_eq!(
        rows_of(&table),
        vec![
            (1, 20, vec![11, 20]),
            (1, u64::MAX, vec![25]),
            (2, 15, vec![15]),
            (2, u64::MAX, vec![16, 30]),
        ]
    );
}

#[test]
fn emptied_last_shard_takes_its_logical_key_away() {
    let mut table = history(&[
        (1, 10, &[2, 10]),
        (1, u64::MAX, &[12, 14]),
        (2, u64::MAX, &[3, 40]),
        (3, 50, &[1, 14]),
        (3, u64::MAX, &[60]),
    ]);
    prune_history_indices(&mut table, 14);
    assert_eq!(rows_of(&table), vec![(2, u64::MAX, vec![40]), (3, u64::MAX, vec![60])]);

    prune_history_indices(&mut table, 14);
    assert_eq!(rows_of(&table), vec![(2, u64::MAX, vec![40]), (3, u64::MAX, vec![60])]);

    prune_history_indices(&mut table, u64::MAX);
    assert_eq!(rows_of(&table), vec![]);
}

#[test]
fn pruning_in_steps_is_pruning_at_once() {
    let shards: &[(u8, u64, &[u64])] = &[
        (1, 10, &[2, 10]),
        (1, 20, &[11, 20]),
        (1, u64::MAX, &[25]),
        (2, 15, &[9, 15]),
        (2, u64::MAX, &[16, 30]),
    ];
    for target in 0..=31 {
        let mut at_once = history(shards);
        prune_history_indices(&mut at_once, target);
        for first in 0..=target {
            let mut in_steps = history(shards);
            prune_history_indices(&mut in_steps, first);
            prune_history_indices(&mut in_steps, target);
            assert_eq!(in_steps, at_once);
        }
        assert!(at_once.rows.iter().all(|(_, blocks)| blocks.iter(0).iter().all(|b| *b > target)));
    }
}

#[test]
fn history_tables_are_checked_row_by_row() {
    let table = history(&[
        (1, 10, &[2, 10]),
        (1, 20, &[11, 20]),
        (1, u64::MAX, &[25]),
        (2, u64::MAX, &[16, 30]),
    ]);
    assert!(is_history_wf(&table));
    assert!(is_history_wf(&history(&[])));

    // A logical key without its last shard.
    assert!(!is_history_wf(&history(&[(1, 10, &[2, 10]), (2, u64::MAX, &[16])])));
    assert!(!is_history_wf(&history(&[(1, u64::MAX, &[2, 10]), (2, 40, &[16])])));
    // A block above the bound of its shard.
    assert!(!is_history_wf(&history(&[(1, 10, &[2, 11]), (1, u64::MAX, &[16])])));
    // A block at or below the bound of the shard before.
    assert!(!is_history_wf(&history(&[(1, 10, &[2, 10]), (1, u64::MAX, &[10, 16])])));
    // The same key twice.
    let mut twice = history(&[(1, u64::MAX, &[2, 10])]);
    twice.rows.push((ShardedKey::last(account(1)), list(&[11])));
    assert!(!is_history_wf(&twice));
    // Rows out of order.
    let mut unsorted = history(&[(2, u64::MAX, &[2, 10])]);
    unsorted.rows.push((ShardedKey::last(account(1)), list(&[11])));
    assert!(!is_history_wf(&unsorted));
    // An empty shard, or one that is not ascending.
    let mut empty = history(&[(1, u64::MAX, &[2, 10])]);
    empty.rows[0].1 = BlockList { blocks: vec![] };
    assert!(!is_history_wf(&empty));
    empty.rows[0].1 = BlockList { blocks: vec![3, 2] };
    assert!(!is_history_wf(&empty));
}

#[test]
fn stores_are_checked_table_by_table() {
    let mut store = Store::new();
    assert!(store.is_wf());
    store.bodies.push(BlockBodyIndices { first_tx_num: u64::MAX, tx_count: 0 });
    assert!(is_bodies_wf(&store.bodies));
    store.bodies.push(BlockBodyIndices { first_tx_num: u64::MAX, tx_count: 1 });
    assert!(!is_bodies_wf(&store.bodies));
    assert!(!store.is_wf());
    store.bodies.pop();
    assert!(store.is_wf());

    store.receipts.rows.push((4, vec![]));
    store.receipts.rows.push((3, vec![]));
    assert!(!is_sorted_by_key(&store.receipts));
    assert!(!store.is_wf());
    store.receipts.rows.pop();
    assert!(is_sorted_by_key(&store.receipts));

    store.storage_history.rows.push((StorageShardedKey::new(account(1), [0u8; 32], 9), list(&[9])));
    assert!(!store.is_wf());
    store.storage_history.rows.push((StorageShardedKey::last(account(1), [0u8; 32]), list(&[10])));
    assert!(store.is_wf());
}
