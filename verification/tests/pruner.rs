use pruner::block_list::BlockList;
use pruner::changesets::BlockNumberAddress;
use pruner::effects::PruneTargets;
use pruner::history::{ShardedKey, StorageShardedKey};
use pruner::keys::{Address, StorageKey, TxHash};
use pruner::pruner::Pruner;
use pruner::store::Store;
use pruner::table::Table;
use pruner::types::{
    BlockBodyIndices, CommitThresholds, Inconsistency, PruneCheckpoint, PruneMode, PruneModes,
    PrunePart, PrunerError,
};
use std::ops::RangeInclusive;

/// A small generator of repeatable numbers.
struct Numbers(u64);

impl Numbers {
    fn next(&mut self) -> u64 {
        self.0 = self.0.wrapping_add(0x9e37_79b9_7f4a_7c15);
        let mut z = self.0;
        z = (z ^ (z >> 30)).wrapping_mul(0xbf58_476d_1ce4_e5b9);
        z = (z ^ (z >> 27)).wrapping_mul(0x94d0_49bb_1331_11eb);
        z ^ (z >> 31)
    }

    fn bytes32(&mut self) -> [u8; 32] {
        let mut out = [0u8; 32];
        for chunk in out.chunks_mut(8) {
            chunk.copy_from_slice(&self.next().to_be_bytes());
        }
        out
    }

    fn bytes20(&mut self) -> [u8; 20] {
        let mut out = [0u8; 20];
        out.copy_from_slice(&self.bytes32()[..20]);
        out
    }
}

/// For each block `0..=last`, a number of transactions below `below`.
fn tx_counts(numbers: &mut Numbers, last: u64, below: u64) -> Vec<u64> {
    (0..=last).map(|_| numbers.next() % below).collect()
}

/// A store with one body per count and a hash for every transaction.
fn store_with_blocks(numbers: &mut Numbers, counts: &[u64]) -> (Store, Vec<TxHash>) {
    let mut store = Store::new();
    let mut hashes = Vec::new();
    let mut first_tx_num = 0;
    for &tx_count in counts {
        store.bodies.push(BlockBodyIndices { first_tx_num, tx_count });
        for n in first_tx_num..first_tx_num + tx_count {
            let hash = numbers.bytes32();
            store.transactions.insert(n, hash);
            hashes.push(hash);
        }
        first_tx_num += tx_count;
    }
    (store, hashes)
}

fn txs_in(counts: &[u64]) -> usize {
    counts.iter().sum::<u64>() as usize
}

fn no_targets() -> PruneTargets {
    PruneTargets {
        receipts: Ok(None),
        transaction_lookup: Ok(None),
        sender_recovery: Ok(None),
        account_history: Ok(None),
        storage_history: Ok(None),
    }
}

#[test]
fn prune_receipts() {
    let mut numbers = Numbers(1);
    let counts = tx_counts(&mut numbers, 100, 10);
    let (mut store, _) = store_with_blocks(&mut numbers, &counts);

    for n in 0..txs_in(&counts) as u64 {
        store.receipts.insert(n, n.to_be_bytes().to_vec());
    }

    assert_eq!(store.transactions.len(), txs_in(&counts));
    assert_eq!(store.transactions.len(), store.receipts.len());

    assert!(store.is_wf());

    let mut test_prune = |to_block, pruned_blocks: RangeInclusive<usize>, is_final_range| {
        let prune_mode = PruneMode::Before(to_block);
        let pruner = Pruner::new(
            5,
            PruneModes { receipts: Some(prune_mode), ..Default::default() },
            CommitThresholds { receipts: 10, ..Default::default() },
        );

        let last_pruned_block = *pruned_blocks.end();
        let pruned = txs_in(&counts[pruned_blocks]);

        assert_eq!(
            pruner.prune_receipts(&mut store, to_block, prune_mode),
            Ok(Some((pruned, is_final_range)))
        );

        assert_eq!(store.receipts.len(), txs_in(&counts[last_pruned_block + 1..]));
        assert_eq!(
            store.get_prune_checkpoint(PrunePart::Receipts),
            Some(PruneCheckpoint { block_number: last_pruned_block as u64, prune_mode })
        );
    };

    // Pruning first time ever, no previous checkpoint is present
    test_prune(11, 0..=9, false);
    // Prune second time, previous checkpoint is present, should continue pruning from where
    // ended last time
    test_prune(11, 10..=11, true);

    assert!(store.is_wf());
}

#[test]
fn prune_transaction_lookup() {
    let mut numbers = Numbers(2);
    let counts = tx_counts(&mut numbers, 100, 10);
    let (mut store, hashes) = store_with_blocks(&mut numbers, &counts);

    for (n, hash) in hashes.iter().enumerate() {
        store.tx_hash_numbers.insert(*hash, n as u64);
    }

    assert_eq!(store.transactions.len(), txs_in(&counts));
    assert_eq!(store.transactions.len(), store.tx_hash_numbers.len());

    assert!(store.is_wf());

    let mut test_prune = |to_block: u64, pruned_blocks: RangeInclusive<usize>, is_final_range| {
        let prune_mode = PruneMode::Before(to_block);
        let pruner = Pruner::new(
            5,
            PruneModes { transaction_lookup: Some(prune_mode), ..Default::default() },
            CommitThresholds { transaction_lookup: 10, ..Default::default() },
        );

        let last_pruned_block = *pruned_blocks.end();
        let pruned = txs_in(&counts[pruned_blocks]);

        assert_eq!(
            pruner.prune_transaction_lookup(&mut store, to_block, prune_mode),
            Ok(Some((pruned, is_final_range)))
        );

        assert_eq!(store.tx_hash_numbers.len(), txs_in(&counts[last_pruned_block + 1..]));
        assert_eq!(
            store.get_prune_checkpoint(PrunePart::TransactionLookup),
            Some(PruneCheckpoint { block_number: last_pruned_block as u64, prune_mode })
        );
    };

    // Pruning first time ever, no previous checkpoint is present
    test_prune(11, 0..=9, false);
    // Prune second time, previous checkpoint is present, should continue pruning from where
    // ended last time
    test_prune(11, 10..=11, true);

    // What is left are the hashes of the transactions of the blocks behind.
    let first_left = txs_in(&counts[..12]) as u64;
    assert!(store.tx_hash_numbers.rows.iter().all(|(_, n)| *n >= first_left));
    let mut left: Vec<TxHash> = hashes[first_left as usize..].to_vec();
    left.sort_unstable();
    let kept: Vec<TxHash> = store.tx_hash_numbers.rows.iter().map(|(hash, _)| *hash).collect();
    assert_eq!(kept, left);
}

#[test]
fn prune_transaction_senders() {
    let mut numbers = Numbers(3);
    let counts = tx_counts(&mut numbers, 100, 10);
    let (mut store, _) = store_with_blocks(&mut numbers, &counts);

    for n in 0..txs_in(&counts) as u64 {
        store.tx_senders.insert(n, numbers.bytes20());
    }

    assert_eq!(store.transactions.len(), txs_in(&counts));
    assert_eq!(store.transactions.len(), store.tx_senders.len());

    assert!(store.is_wf());

    let mut test_prune = |to_block: u64, pruned_blocks: RangeInclusive<usize>, is_final_range| {
        let prune_mode = PruneMode::Before(to_block);
        let pruner = Pruner::new(
            5,
            PruneModes { sender_recovery: Some(prune_mode), ..Default::default() },
            CommitThresholds { transaction_senders: 10, ..Default::default() },
        );

        let last_pruned_block = *pruned_blocks.end();
        let pruned = txs_in(&counts[pruned_blocks]);

        assert_eq!(
            pruner.prune_transaction_senders(&mut store, to_block, prune_mode),
            Ok(Some((pruned, is_final_range)))
        );

        assert_eq!(store.tx_senders.len(), txs_in(&counts[last_pruned_block + 1..]));
        assert_eq!(
            store.get_prune_checkpoint(PrunePart::SenderRecovery),
            Some(PruneCheckpoint { block_number: last_pruned_block as u64, prune_mode })
        );
    };

    // Pruning first time ever, no previous checkpoint is present
    test_prune(11, 0..=9, false);
    // Prune second time, previous checkpoint is present, should continue pruning from where
    // ended last time
    test_prune(11, 10..=11, true);

    assert!(store.is_wf());
}

/// Three accounts in key order.
fn accounts(numbers: &mut Numbers) -> Vec<Address> {
    let mut accounts: Vec<Address> = (0..3).map(|_| numbers.bytes20()).collect();
    accounts.sort_unstable();
    accounts
}

/// The blocks `0..=last` cut into shards of 2000, the last one open.
fn shards_of(last: u64) -> Vec<(u64, Vec<u64>)> {
    let blocks: Vec<u64> = (0..=last).collect();
    let chunks: Vec<&[u64]> = blocks.chunks(2000).collect();
    chunks
        .iter()
        .enumerate()
        .map(|(i, chunk)| {
            let highest = if i + 1 == chunks.len() { u64::MAX } else { *chunk.last().unwrap() };
            (highest, chunk.to_vec())
        })
        .collect()
}

fn blocks_behind(blocks: &BlockList, last_pruned_block: usize) -> Vec<u64> {
    blocks.iter(0).into_iter().skip_while(|block| *block <= last_pruned_block as u64).collect()
}

#[test]
fn prune_account_history() {
    let mut numbers = Numbers(4);

    let block_num = 7000;
    let counts = tx_counts(&mut numbers, block_num, 1);
    let (mut store, _) = store_with_blocks(&mut numbers, &counts);

    let accounts = accounts(&mut numbers);

    // One change per block and account.
    let changesets: Vec<Vec<Address>> = (0..=block_num).map(|_| accounts.clone()).collect();
    for (block, changes) in changesets.iter().enumerate() {
        for address in changes {
            store.account_changesets.insert(block as u64, *address);
        }
    }
    for address in &accounts {
        for (highest, blocks) in shards_of(block_num) {
            store
                .account_history
                .insert(ShardedKey::new(*address, highest), BlockList::new_pre_sorted(blocks));
        }
    }

    let occurrences = store.account_history.rows.iter().filter(|(key, _)| key.key == accounts[0]);
    assert!(occurrences.count() > 1);

    assert_eq!(store.account_changesets.len(), changesets.iter().flatten().count());

    let original_shards = store.account_history.rows.clone();

    assert!(store.is_wf());

    let mut test_prune = |to_block: u64, pruned_blocks: RangeInclusive<usize>, is_final_range| {
        let prune_mode = PruneMode::Before(to_block);
        let pruner = Pruner::new(
            5,
            PruneModes { account_history: Some(prune_mode), ..Default::default() },
            CommitThresholds {
                // Less than total amount of blocks to prune to test the batching logic
                account_history: 3000,
                ..Default::default()
            },
        );

        let last_pruned_block = *pruned_blocks.end();

        assert_eq!(
            pruner.prune_account_history(&mut store, to_block, prune_mode),
            Ok(Some((changesets[pruned_blocks].iter().flatten().count(), is_final_range)))
        );

        assert_eq!(
            store.account_changesets.len(),
            changesets[last_pruned_block + 1..].iter().flatten().count()
        );

        let actual_shards = store.account_history.rows.clone();

        let expected_shards = original_shards
            .iter()
            .filter(|(key, _)| key.highest_block_number > last_pruned_block as u64)
            .map(|(key, blocks)| {
                let new_blocks = blocks_behind(blocks, last_pruned_block);
                (*key, BlockList::new_pre_sorted(new_blocks))
            })
            .collect::<Vec<_>>();

        assert_eq!(actual_shards, expected_shards);

        assert_eq!(
            store.get_prune_checkpoint(PrunePart::AccountHistory),
            Some(PruneCheckpoint { block_number: last_pruned_block as u64, prune_mode })
        );
    };

    // Prune first time: no previous checkpoint is present
    test_prune(4000, 0..=2999, false);
    // Prune second time: previous checkpoint is present, should continue pruning from where
    // ended last time
    test_prune(4000, 3000..=4000, true);

    assert!(store.is_wf());
    assert!(store.account_history.rows.iter().all(|(_, blocks)| blocks.len() > 0));
    assert!(store.account_changesets.rows.iter().all(|(block, _)| *block >= 4001));
}

#[test]
fn prune_storage_history() {
    let mut numbers = Numbers(5);

    let block_num = 7000;
    let counts = tx_counts(&mut numbers, block_num, 1);
    let (mut store, _) = store_with_blocks(&mut numbers, &counts);

    let accounts = accounts(&mut numbers);
    let slots: Vec<StorageKey> = accounts.iter().map(|_| numbers.bytes32()).collect();

    // One changed slot per block and account.
    let changesets: Vec<Vec<(Address, StorageKey)>> = (0..=block_num)
        .map(|_| accounts.iter().copied().zip(slots.iter().copied()).collect())
        .collect();
    for (block, changes) in changesets.iter().enumerate() {
        for (address, slot) in changes {
            store.storage_changesets.insert(BlockNumberAddress::new(block as u64, *address), *slot);
        }
    }
    for (address, slot) in accounts.iter().zip(slots.iter()) {
        for (highest, blocks) in shards_of(block_num) {
            store.storage_history.insert(
                StorageShardedKey::new(*address, *slot, highest),
                BlockList::new_pre_sorted(blocks),
            );
        }
    }

    let occurrences = store
        .storage_history
        .rows
        .iter()
        .filter(|(key, _)| key.address == accounts[0] && key.sharded_key.key == slots[0]);
    assert!(occurrences.count() > 1);

    assert_eq!(store.storage_changesets.len(), changesets.iter().flatten().count());

    let original_shards = store.storage_history.rows.clone();

    assert!(store.is_wf());

    let mut test_prune = |to_block: u64, pruned_blocks: RangeInclusive<usize>, is_final_range| {
        let prune_mode = PruneMode::Before(to_block);
        let pruner = Pruner::new(
            5,
            PruneModes { storage_history: Some(prune_mode), ..Default::default() },
            CommitThresholds {
                // Less than total amount of blocks to prune to test the batching logic
                storage_history: 3000,
                ..Default::default()
            },
        );

        let last_pruned_block = *pruned_blocks.end();

        assert_eq!(
            pruner.prune_storage_history(&mut store, to_block, prune_mode),
            Ok(Some((changesets[pruned_blocks].iter().flatten().count(), is_final_range)))
        );

        assert_eq!(
            store.storage_changesets.len(),
            changesets[last_pruned_block + 1..].iter().flatten().count()
        );

        let actual_shards = store.storage_history.rows.clone();

        let expected_shards = original_shards
            .iter()
            .filter(|(key, _)| key.sharded_key.highest_block_number > last_pruned_block as u64)
            .map(|(key, blocks)| {
                let new_blocks = blocks_behind(blocks, last_pruned_block);
                (*key, BlockList::new_pre_sorted(new_blocks))
            })
            .collect::<Vec<_>>();

        assert_eq!(actual_shards, expected_shards);

        assert_eq!(
            store.get_prune_checkpoint(PrunePart::StorageHistory),
            Some(PruneCheckpoint { block_number: last_pruned_block as u64, prune_mode })
        );
    };

    // Prune first time: no previous checkpoint is present
    test_prune(4000, 0..=2999, false);
    // Prune second time: previous checkpoint is present, should continue pruning from where
    // ended last time
    test_prune(4000, 3000..=4000, true);

    assert!(store.is_wf());
}

#[test]
fn interval_gate_follows_the_last_run() {
    let mut store = Store::new();
    let mut pruner = Pruner::new(5, PruneModes::default(), CommitThresholds::default());
    assert!(pruner.is_pruning_needed(1));

    assert_eq!(pruner.run(&mut store, 1, &no_targets()), Ok(()));
    assert_eq!(pruner.last_pruned_block_number, Some(1));
    for tip in 2..=5 {
        assert!(!pruner.is_pruning_needed(tip));
    }
    assert!(pruner.is_pruning_needed(6));

    // A tip below that of the last run.
    assert_eq!(pruner.run(&mut store, 100, &no_targets()), Ok(()));
    assert!(!pruner.is_pruning_needed(40));
    assert!(!pruner.is_pruning_needed(104));
    assert!(pruner.is_pruning_needed(105));
}

/// A store with receipts, senders and lookup rows for every transaction.
fn full_tx_store(seed: u64) -> (Store, Vec<u64>) {
    let mut numbers = Numbers(seed);
    let counts = tx_counts(&mut numbers, 100, 10);
    let (mut store, hashes) = store_with_blocks(&mut numbers, &counts);
    for (n, hash) in hashes.iter().enumerate() {
        store.receipts.insert(n as u64, vec![n as u8]);
        store.tx_senders.insert(n as u64, numbers.bytes20());
        store.tx_hash_numbers.insert(*hash, n as u64);
    }
    assert!(store.is_wf());
    (store, counts)
}

fn tx_targets(to_block: u64) -> PruneTargets {
    let target = Ok(Some((to_block, PruneMode::Before(to_block + 1))));
    PruneTargets {
        receipts: target,
        transaction_lookup: target,
        sender_recovery: target,
        ..no_targets()
    }
}

#[test]
fn run_prunes_every_part_to_its_target() {
    let (mut store, counts) = full_tx_store(6);
    let thresholds = CommitThresholds {
        receipts: 10,
        transaction_lookup: 10,
        transaction_senders: 10,
        ..Default::default()
    };
    let mut pruner = Pruner::new(5, PruneModes::default(), thresholds);

    assert_eq!(pruner.run(&mut store, 100, &tx_targets(10)), Ok(()));

    let checkpoint = Some(PruneCheckpoint { block_number: 10, prune_mode: PruneMode::Before(11) });
    assert_eq!(store.get_prune_checkpoint(PrunePart::Receipts), checkpoint);
    assert_eq!(store.get_prune_checkpoint(PrunePart::TransactionLookup), checkpoint);
    assert_eq!(store.get_prune_checkpoint(PrunePart::SenderRecovery), checkpoint);
    assert_eq!(store.get_prune_checkpoint(PrunePart::AccountHistory), None);
    assert_eq!(store.get_prune_checkpoint(PrunePart::StorageHistory), None);

    // What is left belongs to the blocks 11..=100.
    let first_left = txs_in(&counts[..11]) as u64;
    let left = txs_in(&counts[11..]);
    assert_eq!(store.receipts.len(), left);
    assert_eq!(store.tx_senders.len(), left);
    assert_eq!(store.tx_hash_numbers.len(), left);
    assert!(store.receipts.rows.iter().all(|(n, _)| *n >= first_left));
    assert!(store.tx_senders.rows.iter().all(|(n, _)| *n >= first_left));
    assert!(store.tx_hash_numbers.rows.iter().all(|(_, n)| *n >= first_left));
    assert_eq!(pruner.last_pruned_block_number, Some(100));
}

#[test]
fn second_run_changes_nothing() {
    let (mut store, _) = full_tx_store(7);
    let mut pruner = Pruner::new(5, PruneModes::default(), CommitThresholds::default());
    assert_eq!(pruner.run(&mut store, 100, &tx_targets(40)), Ok(()));
    let after_first = store.clone();

    let first_batches = [
        pruner.prune_receipts(&mut store, 40, PruneMode::Before(41)),
        pruner.prune_transaction_lookup(&mut store, 40, PruneMode::Before(41)),
        pruner.prune_transaction_senders(&mut store, 40, PruneMode::Before(41)),
    ];
    assert_eq!(first_batches, [Ok(None), Ok(None), Ok(None)]);
    assert_eq!(pruner.run(&mut store, 100, &tx_targets(40)), Ok(()));
    assert_eq!(store, after_first);
}

#[test]
fn batch_limits_do_not_change_the_outcome() {
    let (store, _) = full_tx_store(8);
    let mut outcomes = Vec::new();
    for limit in [1, 3, 10, 41, 10_000] {
        let thresholds = CommitThresholds {
            receipts: limit,
            transaction_lookup: limit,
            transaction_senders: limit,
            ..Default::default()
        };
        let mut pruner = Pruner::new(5, PruneModes::default(), thresholds);
        let mut pruned = store.clone();
        assert_eq!(pruner.run(&mut pruned, 100, &tx_targets(40)), Ok(()));
        outcomes.push(pruned);
    }
    assert_ne!(outcomes[0], store);
    assert!(outcomes.iter().all(|outcome| *outcome == outcomes[0]));
}

#[test]
fn history_batch_limits_do_not_change_the_outcome() {
    let mut numbers = Numbers(9);
    let mut store = Store::new();
    let accounts = accounts(&mut numbers);
    for block in 0..=700u64 {
        for address in &accounts {
            store.account_changesets.insert(block, *address);
            store.storage_changesets.insert(BlockNumberAddress::new(block, *address), [7u8; 32]);
        }
    }
    for address in &accounts {
        let blocks: Vec<u64> = (0..=700).collect();
        for (i, chunk) in blocks.chunks(200).enumerate() {
            let highest = if i == 3 { u64::MAX } else { *chunk.last().unwrap() };
            let list = BlockList::new_pre_sorted(chunk.to_vec());
            store.account_history.insert(ShardedKey::new(*address, highest), list.clone());
            store.storage_history.insert(StorageShardedKey::new(*address, [7u8; 32], highest), list);
        }
    }
    assert!(store.is_wf());
    let target = Ok(Some((450, PruneMode::Distance(250))));
    let targets = PruneTargets { account_history: target, storage_history: target, ..no_targets() };

    let mut outcomes = Vec::new();
    for limit in [1, 7, 199, 200, 201, 10_000] {
        let thresholds =
            CommitThresholds { account_history: limit, storage_history: limit, ..Default::default() };
        let mut pruner = Pruner::new(5, PruneModes::default(), thresholds);
        let mut pruned = store.clone();
        assert_eq!(pruner.run(&mut pruned, 700, &targets), Ok(()));
        outcomes.push(pruned);
    }
    assert!(outcomes.iter().all(|outcome| *outcome == outcomes[0] && outcome.is_wf()));

    let pruned = &outcomes[0];
    assert_eq!(pruned.account_changesets.len(), 3 * 250);
    assert_eq!(pruned.storage_changesets.len(), 3 * 250);
    // Of each account the shard up to 399 is gone, the shard up to 599 is cut, the last stays.
    assert_eq!(pruned.account_history.len(), 3 * 2);
    for (key, blocks) in &pruned.account_history.rows {
        if key.highest_block_number == 599 {
            assert_eq!(blocks.iter(0), (451..=599).collect::<Vec<u64>>());
        } else {
            assert_eq!(key.highest_block_number, u64::MAX);
            assert_eq!(blocks.iter(0), (600..=700).collect::<Vec<u64>>());
        }
    }
    assert_eq!(
        pruned.get_prune_checkpoint(PrunePart::StorageHistory),
        Some(PruneCheckpoint { block_number: 450, prune_mode: PruneMode::Distance(250) })
    );
}

#[test]
fn blocks_without_transactions_advance_the_checkpoint() {
    let mut store = Store::new();
    // Five empty blocks, then one with two transactions.
    for _ in 0..5 {
        store.bodies.push(BlockBodyIndices { first_tx_num: 0, tx_count: 0 });
    }
    store.bodies.push(BlockBodyIndices { first_tx_num: 0, tx_count: 2 });
    store.receipts.insert(0, vec![]);
    store.receipts.insert(1, vec![]);
    let mode = PruneMode::Before(5);
    let pruner = Pruner::new(
        5,
        PruneModes::default(),
        CommitThresholds { receipts: 3, ..Default::default() },
    );

    assert_eq!(pruner.prune_receipts(&mut store, 4, mode), Ok(Some((0, false))));
    assert_eq!(
        store.get_prune_checkpoint(PrunePart::Receipts),
        Some(PruneCheckpoint { block_number: 2, prune_mode: mode })
    );
    assert_eq!(pruner.prune_receipts(&mut store, 4, mode), Ok(Some((0, true))));
    assert_eq!(
        store.get_prune_checkpoint(PrunePart::Receipts),
        Some(PruneCheckpoint { block_number: 4, prune_mode: mode })
    );
    assert_eq!(store.receipts.len(), 2);
    assert_eq!(pruner.prune_receipts(&mut store, 4, mode), Ok(None));
}

#[test]
fn missing_body_ends_the_part() {
    let (mut store, _) = full_tx_store(10);
    let before = store.clone();
    let pruner = Pruner::new(5, PruneModes::default(), CommitThresholds::default());
    // The batch would end at block 150, which the store does not have.
    assert_eq!(pruner.prune_receipts(&mut store, 150, PruneMode::Full), Ok(None));
    assert_eq!(store, before);
    assert_eq!(
        pruner.prune_part_until_completion(&mut store, PrunePart::Receipts, 150, PruneMode::Full),
        Ok(())
    );
    assert_eq!(store, before);
}

#[test]
fn lookup_fails_on_missing_transactions() {
    let (mut store, counts) = full_tx_store(11);
    // Lose one transaction of block 12 or later.
    let lost = txs_in(&counts[..12]) as u64;
    assert!(counts[12..20].iter().sum::<u64>() > 0);
    assert_eq!(store.transactions.delete_range(&lost, &lost), (Some(lost), 1));
    let thresholds = CommitThresholds { transaction_lookup: 10, ..Default::default() };
    let mut pruner = Pruner::new(5, PruneModes::default(), thresholds);
    let mode = PruneMode::Before(31);

    let error = PrunerError::InconsistentData(Inconsistency::TransactionCount);
    assert_eq!(pruner.run(&mut store, 100, &tx_targets(30)), Err(error));
    // Receipts came first and are done; the lookup stopped behind its first batch; the
    // senders were never reached; the run is not remembered.
    assert_eq!(
        store.get_prune_checkpoint(PrunePart::Receipts),
        Some(PruneCheckpoint { block_number: 30, prune_mode: mode })
    );
    assert_eq!(
        store.get_prune_checkpoint(PrunePart::TransactionLookup),
        Some(PruneCheckpoint { block_number: 9, prune_mode: mode })
    );
    assert_eq!(store.get_prune_checkpoint(PrunePart::SenderRecovery), None);
    assert_eq!(pruner.last_pruned_block_number, None);

    let before = store.clone();
    assert_eq!(pruner.prune_transaction_lookup(&mut store, 30, mode), Err(error));
    assert_eq!(store, before);
}

#[test]
fn unresolved_target_fails_the_run() {
    let (mut store, _) = full_tx_store(12);
    let error = PrunerError::Configuration(PrunePart::SenderRecovery);
    let targets = PruneTargets { sender_recovery: Err(error), ..tx_targets(20) };
    let mut pruner = Pruner::new(5, PruneModes::default(), CommitThresholds::default());
    assert_eq!(pruner.run(&mut store, 100, &targets), Err(error));
    assert!(store.get_prune_checkpoint(PrunePart::Receipts).is_some());
    assert!(store.get_prune_checkpoint(PrunePart::TransactionLookup).is_some());
    assert_eq!(store.get_prune_checkpoint(PrunePart::SenderRecovery), None);
    assert_eq!(pruner.last_pruned_block_number, None);
}

#[test]
fn table_from_rows_checks_the_order() {
    let sorted: Vec<(u64, u8)> = vec![(1, 0), (1, 1), (4, 2)];
    assert!(Table::from_rows(sorted).is_some());
    let unsorted: Vec<(u64, u8)> = vec![(4, 0), (1, 1)];
    assert!(Table::from_rows(unsorted).is_none());
}
