//! Sharded history indices: their keys, their invariants and what pruning leaves of them.

use crate::block_list::{blocks_above, pre_sorted};
use crate::keys::{lemma_pair_rank_bound, lemma_pair_rank_order, Address, StorageKey, TableKey};
use vstd::prelude::*;

verus! {

/// Number of distinct block numbers: the weight of the logical key in a shard key's rank.
pub open spec fn block_span() -> int {
    0x1_0000_0000_0000_0000
}

/// Key of one shard of the block list of the logical key `key`. The shard holds
/// blocks up to `highest_block_number`; the last shard of a logical key has
/// `u64::MAX` there.
#[derive(Clone, Copy, Debug, PartialEq, Eq)]
pub struct ShardedKey<S> {
    pub key: S,
    pub highest_block_number: u64,
}

/// Key of one shard of the block list of a storage slot of an account.
#[derive(Clone, Copy, Debug, PartialEq, Eq)]
pub struct StorageShardedKey {
    pub address: Address,
    pub sharded_key: ShardedKey<StorageKey>,
}

/// A shard key: a logical key together with the highest block its shard may hold.
pub trait HistoryKey: TableKey {
    /// Rank of the logical key, the same for all shards of one block list.
    spec fn logical_rank(&self) -> int;

    /// Upper bound of the blocks in the shard.
    spec fn highest(&self) -> u64;

    /// Shards are ordered by logical key first, then by their highest block.
    proof fn lemma_rank_splits(&self)
        ensures
            self.rank() == self.logical_rank() * block_span() + self.highest(),
    ;

    fn highest_block_number(&self) -> (h: u64)
        ensures
            h == self.highest(),
    ;

    /// Whether both keys belong to one logical key.
    fn key_matches(&self, other: &Self) -> (r: bool)
        ensures
            r == (self.logical_rank() == other.logical_rank()),
    ;

    /// Key of the last shard of this key's logical key.
    fn last_key(&self) -> (k: Self)
        ensures
            k.logical_rank() == self.logical_rank(),
            k.highest() == u64::MAX,
    ;
}

/// Whether two shard keys belong to one logical key.
pub open spec fn same_logical<K: HistoryKey>(a: K, b: K) -> bool {
    a.logical_rank() == b.logical_rank()
}

/// Keys in table order have their logical keys in order.
pub proof fn lemma_logical_order<K: HistoryKey>(a: K, b: K)
    ensures
        a.rank() < b.rank() <==> (a.logical_rank() < b.logical_rank() || (same_logical(a, b)
            && a.highest() < b.highest())),
        a.rank() == b.rank() <==> (same_logical(a, b) && a.highest() == b.highest()),
{
    a.lemma_rank_splits();
    b.lemma_rank_splits();
    lemma_pair_rank_order(
        a.logical_rank(),
        a.highest() as int,
        b.logical_rank(),
        b.highest() as int,
        block_span(),
    );
}

impl<S: TableKey> ShardedKey<S> {
    /// Key of the shard of `key` that holds blocks up to `highest_block_number`.
    pub fn new(key: S, highest_block_number: u64) -> (k: Self)
        ensures
            k.key == key,
            k.highest_block_number == highest_block_number,
    {
        ShardedKey { key, highest_block_number }
    }

    /// Key of the last shard of `key`.
    pub fn last(key: S) -> (k: Self)
        ensures
            k.key == key,
            k.highest_block_number == u64::MAX,
    {
        ShardedKey { key, highest_block_number: u64::MAX }
    }
}

impl<S: TableKey> TableKey for ShardedKey<S> {
    open spec fn rank(&self) -> int {
        self.key.rank() * block_span() + self.highest_block_number
    }

    open spec fn rank_bound() -> int {
        S::rank_bound() * block_span()
    }

    proof fn lemma_rank_in_bound(&self) {
        self.key.lemma_rank_in_bound();
        lemma_pair_rank_bound(
            self.key.rank(),
            self.highest_block_number as int,
            S::rank_bound(),
            block_span(),
        );
    }

    proof fn lemma_rank_identifies(&self, other: &Self) {
        lemma_pair_rank_order(
            self.key.rank(),
            self.highest_block_number as int,
            other.key.rank(),
            other.highest_block_number as int,
            block_span(),
        );
        self.key.lemma_rank_identifies(&other.key);
    }

    fn less(&self, other: &Self) -> (r: bool) {
        proof {
            lemma_pair_rank_order(
                self.key.rank(),
                self.highest_block_number as int,
                other.key.rank(),
                other.highest_block_number as int,
                block_span(),
            );
        }
        if self.key.less(&other.key) {
            true
        } else if other.key.less(&self.key) {
            false
        } else {
            self.highest_block_number < other.highest_block_number
        }
    }
}

impl<S: TableKey> HistoryKey for ShardedKey<S> {
    open spec fn logical_rank(&self) -> int {
        self.key.rank()
    }

    open spec fn highest(&self) -> u64 {
        self.highest_block_number
    }

    proof fn lemma_rank_splits(&self) {
    }

    fn highest_block_number(&self) -> (h: u64) {
        self.highest_block_number
    }

    fn key_matches(&self, other: &Self) -> (r: bool) {
        !self.key.less(&other.key) && !other.key.less(&self.key)
    }

    fn last_key(&self) -> (k: Self) {
        ShardedKey { key: self.key, highest_block_number: u64::MAX }
    }
}

impl StorageShardedKey {
    /// Key of the shard of the slot `storage_key` of `address` that holds blocks up to
    /// `highest_block_number`.
    pub fn new(address: Address, storage_key: StorageKey, highest_block_number: u64) -> (k: Self)
        ensures
            k.address == address,
            k.sharded_key.key == storage_key,
            k.sharded_key.highest_block_number == highest_block_number,
    {
        StorageShardedKey {
            address,
            sharded_key: ShardedKey { key: storage_key, highest_block_number },
        }
    }

    /// Key of the last shard of the slot `storage_key` of `address`.
    pub fn last(address: Address, storage_key: StorageKey) -> (k: Self)
        ensures
            k.address == address,
            k.sharded_key.key == storage_key,
            k.sharded_key.highest_block_number == u64::MAX,
    {
        StorageShardedKey {
            address,
            sharded_key: ShardedKey { key: storage_key, highest_block_number: u64::MAX },
        }
    }
}

impl TableKey for StorageShardedKey {
    open spec fn rank(&self) -> int {
        self.address.rank() * ShardedKey::<StorageKey>::rank_bound() + self.sharded_key.rank()
    }

    open spec fn rank_bound() -> int {
        Address::rank_bound() * ShardedKey::<StorageKey>::rank_bound()
    }

    proof fn lemma_rank_in_bound(&self) {
        self.address.lemma_rank_in_bound();
        self.sharded_key.lemma_rank_in_bound();
        lemma_pair_rank_bound(
            self.address.rank(),
            self.sharded_key.rank(),
            Address::rank_bound(),
            ShardedKey::<StorageKey>::rank_bound(),
        );
    }

    proof fn lemma_rank_identifies(&self, other: &Self) {
        self.sharded_key.lemma_rank_in_bound();
        other.sharded_key.lemma_rank_in_bound();
        lemma_pair_rank_order(
            self.address.rank(),
            self.sharded_key.rank(),
            other.address.rank(),
            other.sharded_key.rank(),
            ShardedKey::<StorageKey>::rank_bound(),
        );
        self.address.lemma_rank_identifies(&other.address);
        self.sharded_key.lemma_rank_identifies(&other.sharded_key);
    }

    fn less(&self, other: &Self) -> (r: bool) {
        proof {
            self.sharded_key.lemma_rank_in_bound();
            other.sharded_key.lemma_rank_in_bound();
            lemma_pair_rank_order(
                self.address.rank(),
                self.sharded_key.rank(),
                other.address.rank(),
                other.sharded_key.rank(),
                ShardedKey::<StorageKey>::rank_bound(),
            );
        }
        if self.address.less(&other.address) {
            true
        } else if other.address.less(&self.address) {
            false
        } else {
            self.sharded_key.less(&other.sharded_key)
        }
    }
}

impl HistoryKey for StorageShardedKey {
    open spec fn logical_rank(&self) -> int {
        self.address.rank() * StorageKey::rank_bound() + self.sharded_key.key.rank()
    }

    open spec fn highest(&self) -> u64 {
        self.sharded_key.highest_block_number
    }

    proof fn lemma_rank_splits(&self) {
        let a = self.address.rank();
        let r = StorageKey::rank_bound();
        let s = self.sharded_key.key.rank();
        let w = block_span();
        assert(a * (r * w) + (s * w) == (a * r + s) * w) by (nonlinear_arith);
    }

    fn highest_block_number(&self) -> (h: u64) {
        self.sharded_key.highest_block_number
    }

    fn key_matches(&self, other: &Self) -> (r: bool) {
        proof {
            self.sharded_key.key.lemma_rank_in_bound();
            other.sharded_key.key.lemma_rank_in_bound();
            lemma_pair_rank_order(
                self.address.rank(),
                self.sharded_key.key.rank(),
                other.address.rank(),
                other.sharded_key.key.rank(),
                StorageKey::rank_bound(),
            );
        }
        !self.address.less(&other.address) && !other.address.less(&self.address)
            && !self.sharded_key.key.less(&other.sharded_key.key) && !other.sharded_key.key.less(
            &self.sharded_key.key,
        )
    }

    fn last_key(&self) -> (k: Self) {
        StorageShardedKey {
            address: self.address,
            sharded_key: ShardedKey { key: self.sharded_key.key, highest_block_number: u64::MAX },
        }
    }
}

/// A shard as the invariants see it: its key and its blocks.
pub type Shard<K> = (K, Seq<u64>);

/// A shard is non-empty and ascending, and holds no block above its key's bound.
pub open spec fn shard_wf<K: HistoryKey>(shard: Shard<K>) -> bool {
    &&& shard.1.len() > 0
    &&& pre_sorted(shard.1)
    &&& forall|b: int| 0 <= b < shard.1.len() ==> shard.1[b] <= shard.0.highest()
}

/// `earlier` sorts before `later`, and where both belong to one logical key every
/// block of `later` lies above the bound of `earlier`.
pub open spec fn shards_ordered<K: HistoryKey>(earlier: Shard<K>, later: Shard<K>) -> bool {
    &&& earlier.0.rank() < later.0.rank()
    &&& same_logical(earlier.0, later.0) ==> forall|b: int|
        0 <= b < later.1.len() ==> later.1[b] > earlier.0.highest()
}

/// The logical key of `key` has its last shard, the one bounded by `u64::MAX`.
pub open spec fn has_sentinel<K: HistoryKey>(shards: Seq<Shard<K>>, key: K) -> bool {
    exists|j: int|
        0 <= j < shards.len() && same_logical((#[trigger] shards[j]).0, key) && shards[j].0.highest()
            == u64::MAX
}

/// The invariants of a history table: no empty shard, shards in order, and for
/// every logical key present its last shard.
#[verifier::opaque]
pub open spec fn history_wf<K: HistoryKey>(shards: Seq<Shard<K>>) -> bool {
    &&& forall|i: int| 0 <= i < shards.len() ==> shard_wf(#[trigger] shards[i])
    &&& forall|i: int, j: int|
        0 <= i < j < shards.len() ==> shards_ordered(#[trigger] shards[i], #[trigger] shards[j])
    &&& forall|i: int| 0 <= i < shards.len() ==> has_sentinel(shards, (#[trigger] shards[i]).0)
}

/// In a well-formed table every shard is well-formed.
pub proof fn lemma_wf_shard<K: HistoryKey>(shards: Seq<Shard<K>>, i: int)
    requires
        history_wf(shards),
        0 <= i < shards.len(),
    ensures
        shard_wf(shards[i]),
{
    reveal(history_wf);
}

/// In a well-formed table every two shards are in order.
pub proof fn lemma_wf_ordered<K: HistoryKey>(shards: Seq<Shard<K>>, i: int, j: int)
    requires
        history_wf(shards),
        0 <= i < j < shards.len(),
    ensures
        shards_ordered(shards[i], shards[j]),
{
    reveal(history_wf);
}

/// In a well-formed table every logical key has its last shard.
pub proof fn lemma_wf_sentinel<K: HistoryKey>(shards: Seq<Shard<K>>, i: int)
    requires
        history_wf(shards),
        0 <= i < shards.len(),
    ensures
        has_sentinel(shards, shards[i].0),
{
    reveal(history_wf);
}

/// In a well-formed table a logical key has exactly one last shard: two shards of one
/// logical key that are both bounded by `u64::MAX` are the same row.
pub proof fn lemma_one_sentinel<K: HistoryKey>(shards: Seq<Shard<K>>, i: int, j: int)
    requires
        history_wf(shards),
        0 <= i < shards.len(),
        0 <= j < shards.len(),
        same_logical(shards[i].0, shards[j].0),
        shards[i].0.highest() == u64::MAX,
        shards[j].0.highest() == u64::MAX,
    ensures
        i == j,
{
    lemma_logical_order(shards[i].0, shards[j].0);
    if i < j {
        lemma_wf_ordered(shards, i, j);
    }
    if j < i {
        lemma_wf_ordered(shards, j, i);
    }
}

/// A table without shards keeps the invariants.
pub proof fn lemma_empty_history_wf<K: HistoryKey>()
    ensures
        history_wf(Seq::<Shard<K>>::empty()),
{
    reveal(history_wf);
}

/// Whether anything of the shard is left once blocks up to `to_block` are pruned.
pub open spec fn survives<K: HistoryKey>(shard: Shard<K>, to_block: u64) -> bool {
    shard.0.highest() > to_block && blocks_above(shard.1, to_block).len() > 0
}

/// The shard with its blocks up to `to_block` dropped.
pub open spec fn pruned_shard<K: HistoryKey>(shard: Shard<K>, to_block: u64) -> Shard<K> {
    (shard.0, blocks_above(shard.1, to_block))
}

/// What pruning up to `to_block` leaves of a history table: of every shard the
/// blocks above `to_block`, and no shard without such blocks.
pub open spec fn pruned_shards<K: HistoryKey>(shards: Seq<Shard<K>>, to_block: u64) -> Seq<
    Shard<K>,
> {
    shards.filter(|s: Shard<K>| survives(s, to_block)).map_values(
        |s: Shard<K>| pruned_shard(s, to_block),
    )
}

} // verus!
