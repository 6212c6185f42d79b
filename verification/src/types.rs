//! Plain data of the pruner: parts, modes, checkpoints, ranges, limits and errors.

use crate::keys::{BlockNumber, TxNumber};
use vstd::prelude::*;

verus! {

/// A category of historical data that is pruned as a unit.
#[derive(Clone, Copy, Debug, PartialEq, Eq, Structural)]
pub enum PrunePart {
    Receipts,
    TransactionLookup,
    SenderRecovery,
    AccountHistory,
    StorageHistory,
}

/// How far back a part is pruned.
#[derive(Clone, Copy, Debug, PartialEq, Eq, Structural)]
pub enum PruneMode {
    /// Everything.
    Full,
    /// Everything further than this many blocks behind the tip.
    Distance(u64),
    /// Everything before this block.
    Before(BlockNumber),
}

/// How far a part has been pruned: all its data of blocks up to `block_number` is gone.
#[derive(Clone, Copy, Debug, PartialEq, Eq, Structural)]
pub struct PruneCheckpoint {
    pub block_number: BlockNumber,
    pub prune_mode: PruneMode,
}

/// Where the transactions of a block lie among all transactions.
#[derive(Clone, Copy, Debug, PartialEq, Eq, Structural)]
pub struct BlockBodyIndices {
    pub first_tx_num: TxNumber,
    pub tx_count: u64,
}

/// The numbers from `start` to `end`, both included.
#[derive(Clone, Copy, Debug, PartialEq, Eq, Structural)]
pub struct InclusiveRange {
    pub start: u64,
    pub end: u64,
}

/// Why a run failed.
#[derive(Clone, Copy, Debug, PartialEq, Eq, Structural)]
pub enum PrunerError {
    /// The stored data contradicts itself.
    InconsistentData(Inconsistency),
    /// The configured mode of this part yields no target block.
    Configuration(PrunePart),
}

/// The contradictions that pruning can meet.
#[derive(Clone, Copy, Debug, PartialEq, Eq, Structural)]
pub enum Inconsistency {
    /// A range of transaction numbers holds fewer transactions than numbers.
    TransactionCount,
}

/// The configured mode of each part; `None` leaves the part alone.
#[derive(Clone, Copy, Debug, PartialEq, Eq, Structural)]
pub struct PruneModes {
    pub sender_recovery: Option<PruneMode>,
    pub transaction_lookup: Option<PruneMode>,
    pub receipts: Option<PruneMode>,
    pub account_history: Option<PruneMode>,
    pub storage_history: Option<PruneMode>,
}

/// For each part, the number of blocks pruned in one batch before it is committed.
#[derive(Clone, Copy, Debug, PartialEq, Eq, Structural)]
pub struct CommitThresholds {
    pub receipts: usize,
    pub transaction_lookup: usize,
    pub transaction_senders: usize,
    pub account_history: usize,
    pub storage_history: usize,
}

impl BlockBodyIndices {
    /// The number behind the block's last transaction fits a transaction number.
    pub open spec fn wf(&self) -> bool {
        self.first_tx_num + self.tx_count <= u64::MAX
    }

    /// Number of the transaction behind the block's last one.
    pub open spec fn next_tx(&self) -> int {
        self.first_tx_num + self.tx_count
    }

    /// Number of the block's last transaction; below `first_tx_num` for an empty block.
    pub open spec fn last_tx(&self) -> int {
        self.first_tx_num + self.tx_count - 1
    }
}

impl InclusiveRange {
    /// Whether `n` lies in the range.
    pub open spec fn contains(&self, n: int) -> bool {
        self.start <= n <= self.end
    }

    /// How many numbers the range holds.
    pub open spec fn count(&self) -> int {
        if self.start <= self.end {
            self.end - self.start + 1
        } else {
            0
        }
    }
}

impl PruneModes {
    /// No part is pruned.
    pub fn none() -> (m: Self)
        ensures
            m == (PruneModes {
                sender_recovery: None,
                transaction_lookup: None,
                receipts: None,
                account_history: None,
                storage_history: None,
            }),
    {
        PruneModes {
            sender_recovery: None,
            transaction_lookup: None,
            receipts: None,
            account_history: None,
            storage_history: None,
        }
    }

    /// The mode configured for `part`.
    pub fn mode_of(&self, part: PrunePart) -> (mode: Option<PruneMode>)
        ensures
            mode == match part {
                PrunePart::Receipts => self.receipts,
                PrunePart::TransactionLookup => self.transaction_lookup,
                PrunePart::SenderRecovery => self.sender_recovery,
                PrunePart::AccountHistory => self.account_history,
                PrunePart::StorageHistory => self.storage_history,
            },
    {
        match part {
            PrunePart::Receipts => self.receipts,
            PrunePart::TransactionLookup => self.transaction_lookup,
            PrunePart::SenderRecovery => self.sender_recovery,
            PrunePart::AccountHistory => self.account_history,
            PrunePart::StorageHistory => self.storage_history,
        }
    }
}

impl CommitThresholds {
    /// The batch limit of `part`.
    pub open spec fn spec_limit(&self, part: PrunePart) -> usize {
        match part {
            PrunePart::Receipts => self.receipts,
            PrunePart::TransactionLookup => self.transaction_lookup,
            PrunePart::SenderRecovery => self.transaction_senders,
            PrunePart::AccountHistory => self.account_history,
            PrunePart::StorageHistory => self.storage_history,
        }
    }

    /// The batch limit of `part`.
    #[verifier::when_used_as_spec(spec_limit)]
    pub fn limit(&self, part: PrunePart) -> (n: usize)
        ensures
            n == self.spec_limit(part),
    {
        match part {
            PrunePart::Receipts => self.receipts,
            PrunePart::TransactionLookup => self.transaction_lookup,
            PrunePart::SenderRecovery => self.transaction_senders,
            PrunePart::AccountHistory => self.account_history,
            PrunePart::StorageHistory => self.storage_history,
        }
    }
}

impl Default for CommitThresholds {
    fn default() -> (t: Self)
        ensures
            t == (CommitThresholds {
                receipts: 10000,
                transaction_lookup: 10000,
                transaction_senders: 10000,
                account_history: 10000,
                storage_history: 10000,
            }),
    {
        CommitThresholds {
            receipts: 10000,
            transaction_lookup: 10000,
            transaction_senders: 10000,
            account_history: 10000,
            storage_history: 10000,
        }
    }
}

impl Default for PruneModes {
    fn default() -> (m: Self)
        ensures
            m == (PruneModes {
                sender_recovery: None,
                transaction_lookup: None,
                receipts: None,
                account_history: None,
                storage_history: None,
            }),
    {
        PruneModes::none()
    }
}

} // verus!
