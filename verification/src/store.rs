//! The store that the pruner works on: the tables it prunes, the tables it reads, and
//! the checkpoints, held in memory.

use crate::block_list::BlockList;
use crate::changesets::BlockNumberAddress;
use crate::history::{
    history_wf, lemma_empty_history_wf, Shard, ShardedKey, StorageShardedKey,
};
use crate::indices::shard_views;
use crate::keys::{Address, BlockNumber, StorageKey, TxHash, TxNumber};
use crate::table::{lemma_filter_keeps_stretch, sorted_by_key, within_range, Table};
use crate::types::{BlockBodyIndices, InclusiveRange, PruneCheckpoint, PrunePart};
use vstd::prelude::*;

verus! {

/// The checkpoint of each part; `None` where the part was never pruned.
#[derive(Clone, Copy, Debug, PartialEq, Eq, Structural)]
pub struct Checkpoints {
    pub receipts: Option<PruneCheckpoint>,
    pub transaction_lookup: Option<PruneCheckpoint>,
    pub sender_recovery: Option<PruneCheckpoint>,
    pub account_history: Option<PruneCheckpoint>,
    pub storage_history: Option<PruneCheckpoint>,
}

impl Checkpoints {
    /// The checkpoint of `part`.
    pub open spec fn spec_get(&self, part: PrunePart) -> Option<PruneCheckpoint> {
        match part {
            PrunePart::Receipts => self.receipts,
            PrunePart::TransactionLookup => self.transaction_lookup,
            PrunePart::SenderRecovery => self.sender_recovery,
            PrunePart::AccountHistory => self.account_history,
            PrunePart::StorageHistory => self.storage_history,
        }
    }

    /// These checkpoints with that of `part` replaced.
    pub open spec fn with(self, part: PrunePart, checkpoint: PruneCheckpoint) -> Checkpoints {
        match part {
            PrunePart::Receipts => Checkpoints { receipts: Some(checkpoint), ..self },
            PrunePart::TransactionLookup => Checkpoints {
                transaction_lookup: Some(checkpoint),
                ..self
            },
            PrunePart::SenderRecovery => Checkpoints { sender_recovery: Some(checkpoint), ..self },
            PrunePart::AccountHistory => Checkpoints { account_history: Some(checkpoint), ..self },
            PrunePart::StorageHistory => Checkpoints { storage_history: Some(checkpoint), ..self },
        }
    }

    /// No part has a checkpoint.
    pub fn new() -> (c: Self)
        ensures
            forall|part: PrunePart| c.spec_get(part) is None,
    {
        Checkpoints {
            receipts: None,
            transaction_lookup: None,
            sender_recovery: None,
            account_history: None,
            storage_history: None,
        }
    }

    #[verifier::when_used_as_spec(spec_get)]
    /// The checkpoint of `part`.
    pub fn get(&self, part: PrunePart) -> (checkpoint: Option<PruneCheckpoint>)
        ensures
            checkpoint == self.spec_get(part),
    {
        match part {
            PrunePart::Receipts => self.receipts,
            PrunePart::TransactionLookup => self.transaction_lookup,
            PrunePart::SenderRecovery => self.sender_recovery,
            PrunePart::AccountHistory => self.account_history,
            PrunePart::StorageHistory => self.storage_history,
        }
    }

    /// Replaces the checkpoint of `part`.
    pub fn set(&mut self, part: PrunePart, checkpoint: PruneCheckpoint)
        ensures
            *final(self) == old(self).with(part, checkpoint),
    {
        match part {
            PrunePart::Receipts => {
                self.receipts = Some(checkpoint);
            },
            PrunePart::TransactionLookup => {
                self.transaction_lookup = Some(checkpoint);
            },
            PrunePart::SenderRecovery => {
                self.sender_recovery = Some(checkpoint);
            },
            PrunePart::AccountHistory => {
                self.account_history = Some(checkpoint);
            },
            PrunePart::StorageHistory => {
                self.storage_history = Some(checkpoint);
            },
        }
    }
}

/// Stored form of a receipt. Pruning never looks into it.
pub type Receipt = Vec<u8>;

/// The tables and checkpoints of a node, as far as pruning reads or changes them.
#[derive(Clone, Debug, PartialEq, Eq)]
pub struct Store {
    /// Body indices by block number: the entry at position `b` is that of block `b`.
    pub bodies: Vec<BlockBodyIndices>,
    /// Hash of each transaction, by transaction number.
    pub transactions: Table<TxNumber, TxHash>,
    pub receipts: Table<TxNumber, Receipt>,
    pub tx_senders: Table<TxNumber, Address>,
    pub tx_hash_numbers: Table<TxHash, TxNumber>,
    /// Accounts changed, by block number.
    pub account_changesets: Table<BlockNumber, Address>,
    /// Storage slots changed, by block number and account.
    pub storage_changesets: Table<BlockNumberAddress, StorageKey>,
    pub account_history: Table<ShardedKey<Address>, BlockList>,
    pub storage_history: Table<StorageShardedKey, BlockList>,
    pub checkpoints: Checkpoints,
}

/// What a store holds.
pub struct StoreView {
    pub bodies: Seq<BlockBodyIndices>,
    pub transactions: Seq<(TxNumber, TxHash)>,
    pub receipts: Seq<(TxNumber, Receipt)>,
    pub tx_senders: Seq<(TxNumber, Address)>,
    pub tx_hash_numbers: Seq<(TxHash, TxNumber)>,
    pub account_changesets: Seq<(BlockNumber, Address)>,
    pub storage_changesets: Seq<(BlockNumberAddress, StorageKey)>,
    pub account_history: Seq<Shard<ShardedKey<Address>>>,
    pub storage_history: Seq<Shard<StorageShardedKey>>,
    pub checkpoints: Checkpoints,
}

impl View for Store {
    type V = StoreView;

    open spec fn view(&self) -> StoreView {
        StoreView {
            bodies: self.bodies@,
            transactions: self.transactions@,
            receipts: self.receipts@,
            tx_senders: self.tx_senders@,
            tx_hash_numbers: self.tx_hash_numbers@,
            account_changesets: self.account_changesets@,
            storage_changesets: self.storage_changesets@,
            account_history: shard_views(self.account_history@),
            storage_history: shard_views(self.storage_history@),
            checkpoints: self.checkpoints,
        }
    }
}

/// Every body's transaction numbers are representable.
pub open spec fn bodies_wf(bodies: Seq<BlockBodyIndices>) -> bool {
    forall|b: int| 0 <= b < bodies.len() ==> (#[trigger] bodies[b]).wf()
}

/// The hashes of rows of the transaction table, in their order.
pub open spec fn hashes_of(rows: Seq<(TxNumber, TxHash)>) -> Seq<TxHash> {
    rows.map_values(|row: (TxNumber, TxHash)| row.1)
}

impl StoreView {
    /// Every table is in key order, the history tables keep their invariants, and
    /// every body's transaction numbers are representable.
    pub open spec fn wf(self) -> bool {
        &&& bodies_wf(self.bodies)
        &&& sorted_by_key(self.transactions)
        &&& sorted_by_key(self.receipts)
        &&& sorted_by_key(self.tx_senders)
        &&& sorted_by_key(self.tx_hash_numbers)
        &&& sorted_by_key(self.account_changesets)
        &&& sorted_by_key(self.storage_changesets)
        &&& history_wf(self.account_history)
        &&& history_wf(self.storage_history)
    }

    /// The checkpoint of `part`.
    pub open spec fn checkpoint(self, part: PrunePart) -> Option<PruneCheckpoint> {
        self.checkpoints.spec_get(part)
    }

    /// The body indices of block `b`, if the store has them.
    pub open spec fn body_at(self, b: int) -> Option<BlockBodyIndices> {
        if 0 <= b < self.bodies.len() {
            Some(self.bodies[b])
        } else {
            None
        }
    }

    /// The hashes of the transactions numbered in `range`, in number order.
    pub open spec fn hashes_in(self, range: InclusiveRange) -> Seq<TxHash> {
        hashes_of(within_range(self.transactions, range.start, range.end))
    }
}

impl Store {
    /// What the store holds is well-formed.
    pub open spec fn wf(&self) -> bool {
        self@.wf()
    }

    /// A store without blocks, rows or checkpoints.
    pub fn new() -> (store: Self)
        ensures
            store.wf(),
            store@.bodies.len() == 0,
            store@.transactions.len() == 0,
            store@.receipts.len() == 0,
            store@.tx_senders.len() == 0,
            store@.tx_hash_numbers.len() == 0,
            store@.account_changesets.len() == 0,
            store@.storage_changesets.len() == 0,
            store@.account_history.len() == 0,
            store@.storage_history.len() == 0,
            forall|part: PrunePart| store@.checkpoint(part) is None,
    {
        let store = Store {
            bodies: Vec::new(),
            transactions: Table::new(),
            receipts: Table::new(),
            tx_senders: Table::new(),
            tx_hash_numbers: Table::new(),
            account_changesets: Table::new(),
            storage_changesets: Table::new(),
            account_history: Table::new(),
            storage_history: Table::new(),
            checkpoints: Checkpoints::new(),
        };
        proof {
            lemma_empty_history_wf::<ShardedKey<Address>>();
            lemma_empty_history_wf::<StorageShardedKey>();
            assert(store@.account_history =~= Seq::empty());
            assert(store@.storage_history =~= Seq::empty());
        }
        store
    }

    /// The checkpoint of `part`, if the part was pruned before.
    pub fn get_prune_checkpoint(&self, part: PrunePart) -> (checkpoint: Option<PruneCheckpoint>)
        ensures
            checkpoint == self@.checkpoint(part),
    {
        self.checkpoints.get(part)
    }

    /// Replaces the checkpoint of `part`.
    pub fn save_prune_checkpoint(&mut self, part: PrunePart, checkpoint: PruneCheckpoint)
        ensures
            final(self)@ == (StoreView {
                checkpoints: old(self)@.checkpoints.with(part, checkpoint),
                ..old(self)@
            }),
    {
        self.checkpoints.set(part, checkpoint);
    }

    /// The body indices of block `block_number`, if the store has them.
    pub fn block_body_indices(&self, block_number: BlockNumber) -> (body: Option<BlockBodyIndices>)
        ensures
            body == self@.body_at(block_number as int),
    {
        let n = self.bodies.len();
        if block_number < n as u64 {
            Some(self.bodies[block_number as usize])
        } else {
            None
        }
    }

    /// The hashes of the transactions numbered in `range`, in number order.
    pub fn transactions_by_tx_range(&self, range: InclusiveRange) -> (hashes: Vec<TxHash>)
        requires
            self.transactions.wf(),
        ensures
            hashes@ == self@.hashes_in(range),
    {
        let from = self.transactions.lower_bound(&range.start);
        let upto = self.transactions.upper_bound(&range.end);
        let ghost rows = self.transactions@;
        let ghost inside = |row: (TxNumber, TxHash)|
            crate::table::key_in_range(row.0, range.start, range.end);
        let mut hashes: Vec<TxHash> = Vec::new();
        if upto <= from {
            proof {
                crate::table::lemma_filter_keeps_none(rows, inside);
                assert(hashes@ =~= hashes_of(Seq::<(TxNumber, TxHash)>::empty()));
            }
            return hashes;
        }
        let mut i: usize = from;
        while i < upto
            invariant
                from <= i <= upto <= self.transactions@.len(),
                rows == self.transactions@,
                hashes@ == hashes_of(rows.subrange(from as int, i as int)),
            decreases upto - i,
        {
            hashes.push(*self.transactions.value_at(i));
            proof {
                assert(rows.subrange(from as int, i + 1) =~= rows.subrange(
                    from as int,
                    i as int,
                ).push(rows[i as int]));
                assert(hashes@ =~= hashes_of(rows.subrange(from as int, i + 1)));
            }
            i = i + 1;
        }
        proof {
            lemma_filter_keeps_stretch(rows, inside, from as int, upto as int);
        }
        hashes
    }
}

} // verus!
