//! Pruning of sharded history indices: what to do with one shard, and the pass over a table.

use crate::block_list::{
    blocks_above, lemma_blocks_above_members, lemma_blocks_above_sorted, lemma_blocks_above_twice,
    lemma_blocks_above_unchanged, pre_sorted, BlockList,
};
use crate::history::{
    has_sentinel, history_wf, lemma_logical_order, pruned_shard, pruned_shards, same_logical,
    shard_wf, shards_ordered, survives, HistoryKey, Shard,
};
use crate::table::{sorted_by_key, Table};
use vstd::prelude::*;

verus! {

/// What pruning up to a target block does to one shard.
pub enum ShardVerdict {
    /// The shard lies wholly at or below the target: delete it. With `seek`, the
    /// shard ends exactly at the target, so the walk goes on behind the last shard
    /// of its logical key.
    Delete { seek: bool },
    /// No block of the shard is at or below the target.
    Unchanged,
    /// Some blocks are dropped and these remain: write them back under the same key.
    Rewrite { blocks: Vec<u64> },
    /// Every block is dropped though the shard reaches above the target. `sentinel`
    /// says whether it is the last shard of its logical key.
    Emptied { sentinel: bool },
}

/// What becomes of a last shard that pruning has emptied.
pub enum SentinelFate {
    /// The shard before it belongs to the same logical key: its blocks move under
    /// the last shard's key, and its own row goes.
    TakePrevious,
    /// There is no such shard: the last shard goes, and the logical key with it.
    Delete,
}

/// Decides what pruning up to `to_block` does to a shard bounded by `highest`.
pub fn judge_shard(highest: u64, blocks: &BlockList, to_block: u64) -> (verdict: ShardVerdict)
    ensures
        match verdict {
            ShardVerdict::Delete { seek } => highest <= to_block && seek == (highest == to_block),
            ShardVerdict::Unchanged => highest > to_block && blocks_above(blocks@, to_block).len()
                == blocks@.len(),
            ShardVerdict::Rewrite { blocks: rest } => {
                &&& highest > to_block
                &&& rest@ == blocks_above(blocks@, to_block)
                &&& 0 < rest@.len() < blocks@.len()
            },
            ShardVerdict::Emptied { sentinel } => {
                &&& highest > to_block
                &&& blocks_above(blocks@, to_block).len() == 0
                &&& blocks@.len() > 0
                &&& sentinel == (highest == u64::MAX)
            },
        },
{
    if highest <= to_block {
        return ShardVerdict::Delete { seek: highest == to_block };
    }
    let rest = blocks.above(to_block);
    proof {
        lemma_blocks_above_members(blocks@, to_block);
    }
    if rest.len() == blocks.len() {
        ShardVerdict::Unchanged
    } else if rest.len() == 0 {
        ShardVerdict::Emptied { sentinel: highest == u64::MAX }
    } else {
        ShardVerdict::Rewrite { blocks: rest }
    }
}

/// Decides what becomes of the emptied last shard `key`, given the key of the row
/// before it, if there is one.
pub fn emptied_sentinel_fate<K: HistoryKey>(key: &K, previous: Option<&K>) -> (fate: SentinelFate)
    ensures
        fate is TakePrevious <==> (previous matches Some(p) && same_logical(*p, *key)),
{
    match previous {
        Some(p) => {
            if p.key_matches(key) {
                SentinelFate::TakePrevious
            } else {
                SentinelFate::Delete
            }
        },
        None => SentinelFate::Delete,
    }
}

/// The shards of a table's rows.
pub open spec fn shard_views<K: HistoryKey>(rows: Seq<(K, BlockList)>) -> Seq<Shard<K>> {
    rows.map_values(|row: (K, BlockList)| (row.0, row.1@))
}

/// Pruning a table with one more shard at its end.
pub proof fn lemma_pruned_push<K: HistoryKey>(shards: Seq<Shard<K>>, shard: Shard<K>, to_block: u64)
    ensures
        pruned_shards(shards.push(shard), to_block) == if survives(shard, to_block) {
            pruned_shards(shards, to_block).push(pruned_shard(shard, to_block))
        } else {
            pruned_shards(shards, to_block)
        },
{
    let keep = |s: Shard<K>| survives(s, to_block);
    let cut = |s: Shard<K>| pruned_shard(s, to_block);
    shards.lemma_filter_push(shard, keep);
    if survives(shard, to_block) {
        shards.filter(keep).lemma_push_map_commute(cut, shard);
    }
}

/// Pruning the first `p + 1` shards, from pruning the first `p`.
pub proof fn lemma_pruned_take_next<K: HistoryKey>(shards: Seq<Shard<K>>, to_block: u64, p: int)
    requires
        0 <= p < shards.len(),
    ensures
        pruned_shards(shards.take(p + 1), to_block) == if survives(shards[p], to_block) {
            pruned_shards(shards.take(p), to_block).push(pruned_shard(shards[p], to_block))
        } else {
            pruned_shards(shards.take(p), to_block)
        },
{
    assert(shards.take(p + 1) =~= shards.take(p).push(shards[p]));
    lemma_pruned_push(shards.take(p), shards[p], to_block);
}

/// Pruning passes over a stretch of shards that it leaves as they are.
pub proof fn lemma_pruned_take_untouched<K: HistoryKey>(
    shards: Seq<Shard<K>>,
    to_block: u64,
    p: int,
    q: int,
)
    requires
        0 <= p <= q <= shards.len(),
        forall|k: int|
            p <= k < q ==> survives(#[trigger] shards[k], to_block) && pruned_shard(
                shards[k],
                to_block,
            ) == shards[k],
    ensures
        pruned_shards(shards.take(q), to_block) == pruned_shards(shards.take(p), to_block)
            + shards.subrange(p, q),
    decreases q - p,
{
    if p == q {
        assert(shards.subrange(p, q) =~= Seq::<Shard<K>>::empty());
        assert(pruned_shards(shards.take(p), to_block) + Seq::<Shard<K>>::empty()
            =~= pruned_shards(shards.take(p), to_block));
    } else {
        lemma_pruned_take_untouched(shards, to_block, p, q - 1);
        lemma_pruned_take_next(shards, to_block, q - 1);
        assert(shards.subrange(p, q) =~= shards.subrange(p, q - 1).push(shards[q - 1]));
        assert((pruned_shards(shards.take(p), to_block) + shards.subrange(p, q - 1)).push(
            shards[q - 1],
        ) =~= pruned_shards(shards.take(p), to_block) + shards.subrange(p, q));
    }
}

/// Every shard that pruning leaves comes from a shard that survives.
pub proof fn lemma_pruned_member<K: HistoryKey>(shards: Seq<Shard<K>>, to_block: u64, k: int)
    requires
        0 <= k < pruned_shards(shards, to_block).len(),
    ensures
        exists|i: int|
            0 <= i < shards.len() && survives(#[trigger] shards[i], to_block) && pruned_shards(
                shards,
                to_block,
            )[k] == pruned_shard(shards[i], to_block),
{
    let keep = |s: Shard<K>| survives(s, to_block);
    let kept = shards.filter(keep);
    shards.lemma_filter_pred(keep, k);
    assert(kept.contains(kept[k]));
    shards.lemma_filter_contains_rev(keep, kept[k]);
    let i = choose|i: int| 0 <= i < shards.len() && shards[i] == kept[k];
    assert(survives(shards[i], to_block));
}

/// Every shard that survives is left by pruning, cut down.
pub proof fn lemma_pruned_contains<K: HistoryKey>(shards: Seq<Shard<K>>, to_block: u64, i: int)
    requires
        0 <= i < shards.len(),
        survives(shards[i], to_block),
    ensures
        exists|k: int|
            0 <= k < pruned_shards(shards, to_block).len() && #[trigger] pruned_shards(
                shards,
                to_block,
            )[k] == pruned_shard(shards[i], to_block),
{
    let keep = |s: Shard<K>| survives(s, to_block);
    let kept = shards.filter(keep);
    shards.lemma_filter_contains(keep, i);
    let k = choose|k: int| 0 <= k < kept.len() && kept[k] == shards[i];
    assert(pruned_shards(shards, to_block)[k] == pruned_shard(shards[i], to_block));
}

/// In a well-formed table, the shards of a logical key behind one that reaches the
/// target hold only blocks above the target.
pub proof fn lemma_later_shards_untouched<K: HistoryKey>(
    shards: Seq<Shard<K>>,
    to_block: u64,
    p: int,
    k: int,
)
    requires
        history_wf(shards),
        0 <= p < k < shards.len(),
        same_logical(shards[p].0, shards[k].0),
        shards[p].0.highest() >= to_block,
    ensures
        survives(shards[k], to_block),
        pruned_shard(shards[k], to_block) == shards[k],
{
    reveal(history_wf);
    assert(shards_ordered(shards[p], shards[k]));
    assert(shard_wf(shards[k]));
    lemma_blocks_above_unchanged(shards[k].1, to_block);
    assert(shards[k].1[0] > shards[p].0.highest());
}

/// Settles a last shard that pruning has emptied, at position `i` of the table.
///
/// Where the row before it belongs to the same logical key, that row's blocks move
/// under the last shard's key and the row itself goes; otherwise the last shard
/// goes. Returns whether blocks were moved.
pub fn settle_emptied_sentinel<K: HistoryKey>(table: &mut Table<K, BlockList>, i: usize) -> (moved:
    bool)
    requires
        i < old(table)@.len(),
    ensures
        moved == (i > 0 && same_logical(old(table)@[i - 1].0, old(table)@[i as int].0)),
        moved ==> shard_views(final(table)@) == shard_views(old(table)@).remove(i - 1).update(
            i - 1,
            (old(table)@[i as int].0, old(table)@[i - 1].1@),
        ),
        !moved ==> shard_views(final(table)@) == shard_views(old(table)@).remove(i as int),
        !moved ==> final(table)@ == old(table)@.remove(i as int),
{
    let key = table.rows[i].0;
    let fate = if i > 0 {
        emptied_sentinel_fate(&key, Some(&table.rows[i - 1].0))
    } else {
        emptied_sentinel_fate(&key, None)
    };
    match fate {
        SentinelFate::TakePrevious => {
            let previous = table.rows.remove(i - 1);
            table.rows[i - 1] = (key, previous.1);
            assert(shard_views(table@) =~= shard_views(old(table)@).remove(i - 1).update(
                i - 1,
                (old(table)@[i as int].0, old(table)@[i - 1].1@),
            ));
            true
        },
        SentinelFate::Delete => {
            table.rows.remove(i);
            assert(shard_views(table@) =~= shard_views(old(table)@).remove(i as int));
            false
        },
    }
}

/// Position behind the last row of the logical key of `key`.
pub fn seek_behind<K: HistoryKey>(table: &Table<K, BlockList>, key: &K) -> (pos: usize)
    requires
        table.wf(),
    ensures
        pos <= table@.len(),
        forall|k: int|
            0 <= k < pos ==> (#[trigger] table@[k]).0.logical_rank() <= key.logical_rank(),
        forall|k: int|
            pos <= k < table@.len() ==> (#[trigger] table@[k]).0.logical_rank()
                > key.logical_rank(),
{
    let last = key.last_key();
    let pos = table.upper_bound(&last);
    proof {
        assert forall|k: int| 0 <= k < pos implies (#[trigger] table@[k]).0.logical_rank()
            <= key.logical_rank() by {
            lemma_logical_order(last, table@[k].0);
        }
        assert forall|k: int| pos <= k < table@.len() implies (#[trigger] table@[k]).0.logical_rank()
            > key.logical_rank() by {
            lemma_logical_order(last, table@[k].0);
        }
    }
    pos
}

/// State of a walk over a history table: the first `i` rows of `cur` are what pruning
/// leaves of the first `p` shards of `orig`, and the rows behind them are the shards
/// of `orig` from `p` on.
spec fn walk_split<K: HistoryKey>(
    orig: Seq<Shard<K>>,
    cur: Seq<Shard<K>>,
    i: int,
    p: int,
    to_block: u64,
) -> bool {
    &&& 0 <= p <= orig.len()
    &&& 0 <= i <= cur.len()
    &&& cur.take(i) == pruned_shards(orig.take(p), to_block)
    &&& cur.skip(i) == orig.skip(p)
}

/// The rows before `i` belong to logical keys before that of the next shard.
spec fn walk_ahead<K: HistoryKey>(orig: Seq<Shard<K>>, cur: Seq<Shard<K>>, i: int, p: int) -> bool {
    forall|k: int|
        0 <= k < i && p < orig.len() ==> (#[trigger] cur[k]).0.logical_rank()
            < orig[p].0.logical_rank()
}

proof fn lemma_walk_start<K: HistoryKey>(orig: Seq<Shard<K>>, to_block: u64)
    ensures
        walk_split(orig, orig, 0, 0, to_block),
        walk_ahead(orig, orig, 0, 0),
{
    let keep = |s: Shard<K>| survives(s, to_block);
    assert(orig.take(0) =~= Seq::<Shard<K>>::empty());
    orig.take(0).lemma_filter_len(keep);
    assert(orig.take(0) =~= pruned_shards(orig.take(0), to_block));
    assert(orig.skip(0) =~= orig);
}

proof fn lemma_walk_end<K: HistoryKey>(
    orig: Seq<Shard<K>>,
    cur: Seq<Shard<K>>,
    i: int,
    p: int,
    to_block: u64,
)
    requires
        walk_split(orig, cur, i, p, to_block),
        i == cur.len(),
    ensures
        cur == pruned_shards(orig, to_block),
{
    assert(cur.skip(i).len() == 0);
    assert(orig.skip(p).len() == orig.len() - p);
    assert(orig.take(p) =~= orig);
    assert(cur.take(i) =~= cur);
}

/// The row at `i` is the shard at `p`.
proof fn lemma_walk_current<K: HistoryKey>(
    orig: Seq<Shard<K>>,
    cur: Seq<Shard<K>>,
    i: int,
    p: int,
    to_block: u64,
)
    requires
        walk_split(orig, cur, i, p, to_block),
        i < cur.len(),
    ensures
        p < orig.len(),
        cur[i] == orig[p],
        cur.len() - i == orig.len() - p,
{
    assert(cur.skip(i).len() == cur.len() - i);
    assert(orig.skip(p).len() == orig.len() - p);
    assert(cur.skip(i)[0] == cur[i]);
    assert(orig.skip(p)[0] == orig[p]);
}

/// One step of the walk: the shard at `p` goes, or stays with the blocks that are left.
proof fn lemma_walk_step<K: HistoryKey>(
    orig: Seq<Shard<K>>,
    cur: Seq<Shard<K>>,
    i: int,
    p: int,
    to_block: u64,
)
    requires
        walk_split(orig, cur, i, p, to_block),
        i < cur.len(),
    ensures
        p < orig.len(),
        survives(orig[p], to_block) ==> walk_split(
            orig,
            cur.update(i, pruned_shard(orig[p], to_block)),
            i + 1,
            p + 1,
            to_block,
        ),
        !survives(orig[p], to_block) ==> walk_split(orig, cur.remove(i), i, p + 1, to_block),
{
    lemma_walk_current(orig, cur, i, p, to_block);
    lemma_pruned_take_next(orig, to_block, p);
    if survives(orig[p], to_block) {
        let next = cur.update(i, pruned_shard(orig[p], to_block));
        assert(next.take(i + 1) =~= cur.take(i).push(pruned_shard(orig[p], to_block)));
        assert(next.skip(i + 1) =~= cur.skip(i).skip(1));
        assert(orig.skip(p + 1) =~= orig.skip(p).skip(1));
    } else {
        let next = cur.remove(i);
        assert(next.take(i) =~= cur.take(i));
        assert(next.skip(i) =~= cur.skip(i).skip(1));
        assert(orig.skip(p + 1) =~= orig.skip(p).skip(1));
    }
}

/// After a shard below the target has gone, the walk stands at the next shard.
proof fn lemma_walk_on<K: HistoryKey>(
    orig: Seq<Shard<K>>,
    cur: Seq<Shard<K>>,
    next: Seq<Shard<K>>,
    i: int,
    p: int,
)
    requires
        history_wf(orig),
        0 <= p < orig.len(),
        0 <= i < cur.len(),
        walk_ahead(orig, cur, i, p),
        next == cur.remove(i),
    ensures
        walk_ahead(orig, next, i, p + 1),
{
    reveal(history_wf);
    assert forall|k: int| 0 <= k < i && p + 1 < orig.len() implies (
    #[trigger] next[k]).0.logical_rank() < orig[p + 1].0.logical_rank() by {
        assert(next[k] == cur[k]);
        assert(shards_ordered(orig[p], orig[p + 1]));
        lemma_logical_order(orig[p].0, orig[p + 1].0);
    }
}

/// The shards behind `p` belong to its logical key or to later ones, and those of its
/// logical key hold only blocks above the target.
spec fn key_tail_untouched<K: HistoryKey>(orig: Seq<Shard<K>>, p: int, to_block: u64) -> bool {
    forall|k: int|
        p < k < orig.len() ==> {
            &&& (#[trigger] orig[k]).0.logical_rank() >= orig[p].0.logical_rank()
            &&& same_logical(orig[k].0, orig[p].0) ==> survives(orig[k], to_block) && pruned_shard(
                orig[k],
                to_block,
            ) == orig[k]
        }
}

proof fn lemma_key_tail_untouched<K: HistoryKey>(orig: Seq<Shard<K>>, p: int, to_block: u64)
    requires
        history_wf(orig),
        0 <= p < orig.len(),
        orig[p].0.highest() >= to_block,
    ensures
        key_tail_untouched(orig, p, to_block),
{
    reveal(history_wf);
    assert forall|k: int| p < k < orig.len() implies {
        &&& (#[trigger] orig[k]).0.logical_rank() >= orig[p].0.logical_rank()
        &&& same_logical(orig[k].0, orig[p].0) ==> survives(orig[k], to_block) && pruned_shard(
            orig[k],
            to_block,
        ) == orig[k]
    } by {
        assert(shards_ordered(orig[p], orig[k]));
        lemma_logical_order(orig[p].0, orig[k].0);
        if same_logical(orig[k].0, orig[p].0) {
            lemma_later_shards_untouched(orig, to_block, p, k);
        }
    }
}

/// After the shard at `p` has been dealt with, the walk goes on behind the last
/// shard of its logical key: the shards passed over hold only blocks above the target.
#[verifier::rlimit(40)]
proof fn lemma_walk_seek<K: HistoryKey>(
    orig: Seq<Shard<K>>,
    cur: Seq<Shard<K>>,
    start: int,
    p: int,
    next: int,
    to_block: u64,
)
    requires
        0 <= p < orig.len(),
        key_tail_untouched(orig, p, to_block),
        walk_split(orig, cur, start, p + 1, to_block),
        forall|k: int| 0 <= k < start ==> (#[trigger] cur[k]).0.logical_rank() <= orig[p].0.logical_rank(),
        0 <= next <= cur.len(),
        forall|k: int| 0 <= k < next ==> (#[trigger] cur[k]).0.logical_rank() <= orig[p].0.logical_rank(),
        forall|k: int| next <= k < cur.len() ==> (#[trigger] cur[k]).0.logical_rank() > orig[p].0.logical_rank(),
    ensures
        next >= start,
        walk_split(orig, cur, next, p + 1 + (next - start), to_block),
        walk_ahead(orig, cur, next, p + 1 + (next - start)),
{
    if next < start {
        assert(cur[next].0.logical_rank() > orig[p].0.logical_rank());
    }
    let q = p + 1 + (next - start);
    assert(cur.skip(start).len() == cur.len() - start);
    assert(orig.skip(p + 1).len() == orig.len() - (p + 1));
    assert forall|k: int| p + 1 <= k < q implies survives(#[trigger] orig[k], to_block)
        && pruned_shard(orig[k], to_block) == orig[k] by {
        let r = start + (k - (p + 1));
        assert(cur[r] == cur.skip(start)[k - (p + 1)]);
        assert(orig[k] == orig.skip(p + 1)[k - (p + 1)]);
    }
    lemma_pruned_take_untouched(orig, to_block, p + 1, q);
    assert(cur.take(next) =~= cur.take(start) + orig.subrange(p + 1, q)) by {
        assert forall|k: int| start <= k < next implies cur[k] == orig.subrange(p + 1, q)[k
            - start] by {
            assert(cur[k] == cur.skip(start)[k - start]);
            assert(orig[p + 1 + (k - start)] == orig.skip(p + 1)[k - start]);
        }
    }
    assert(cur.skip(next) =~= orig.skip(q)) by {
        assert forall|k: int| 0 <= k < cur.len() - next implies cur.skip(next)[k] == orig.skip(q)[k] by {
            assert(cur[next + k] == cur.skip(start)[next - start + k]);
            assert(orig[q + k] == orig.skip(p + 1)[next - start + k]);
        }
    }
    assert forall|k: int| 0 <= k < next && q < orig.len() implies (#[trigger] cur[k]).0.logical_rank()
        < orig[q].0.logical_rank() by {
        assert(cur[next] == cur.skip(start)[next - start]);
        assert(orig[q] == orig.skip(p + 1)[next - start]);
    }
}

/// Rows stay in key order when one of them goes.
proof fn lemma_remove_sorted<K: HistoryKey>(rows: Seq<(K, BlockList)>, i: int)
    requires
        sorted_by_key(rows),
        0 <= i < rows.len(),
    ensures
        sorted_by_key(rows.remove(i)),
{
    let left = rows.remove(i);
    assert forall|a: int, b: int| 0 <= a <= b < left.len() implies left[a].0.rank()
        <= left[b].0.rank() by {
        let a0 = if a < i { a } else { a + 1 };
        let b0 = if b < i { b } else { b + 1 };
        assert(left[a] == rows[a0]);
        assert(left[b] == rows[b0]);
    }
}

/// Rows stay in key order when one of them gets a new value.
proof fn lemma_update_sorted<K: HistoryKey>(rows: Seq<(K, BlockList)>, i: int, row: (K, BlockList))
    requires
        sorted_by_key(rows),
        0 <= i < rows.len(),
        row.0 == rows[i].0,
    ensures
        sorted_by_key(rows.update(i, row)),
{
    let next = rows.update(i, row);
    assert forall|a: int, b: int| 0 <= a <= b < next.len() implies next[a].0.rank()
        <= next[b].0.rank() by {
        assert(next[a].0 == rows[a].0);
        assert(next[b].0 == rows[b].0);
    }
}

/// The walk stands at row `i`, which is the shard at `p` of a well-formed table.
#[verifier::opaque]
spec fn walk_ok<K: HistoryKey>(
    orig: Seq<Shard<K>>,
    cur: Seq<Shard<K>>,
    i: int,
    p: int,
    to_block: u64,
) -> bool {
    &&& history_wf(orig)
    &&& walk_split(orig, cur, i, p, to_block)
    &&& walk_ahead(orig, cur, i, p)
}

/// Where a seek for the logical key of `key` ends in `rows`: behind the rows of that
/// logical key and of those before it.
spec fn seek_end<K: HistoryKey>(rows: Seq<Shard<K>>, key: K, pos: int) -> bool {
    &&& 0 <= pos <= rows.len()
    &&& forall|k: int| 0 <= k < pos ==> (#[trigger] rows[k]).0.logical_rank() <= key.logical_rank()
    &&& forall|k: int|
        pos <= k < rows.len() ==> (#[trigger] rows[k]).0.logical_rank() > key.logical_rank()
}

proof fn lemma_walk_begin<K: HistoryKey>(orig: Seq<Shard<K>>, to_block: u64)
    requires
        history_wf(orig),
    ensures
        walk_ok(orig, orig, 0, 0, to_block),
{
    reveal(walk_ok);
    lemma_walk_start(orig, to_block);
}

/// What the walk finds at its row.
proof fn lemma_walk_here<K: HistoryKey>(
    orig: Seq<Shard<K>>,
    cur: Seq<Shard<K>>,
    i: int,
    p: int,
    to_block: u64,
)
    requires
        walk_ok(orig, cur, i, p, to_block),
        0 <= i < cur.len(),
    ensures
        0 <= p < orig.len(),
        cur[i] == orig[p],
        shard_wf(orig[p]),
        pre_sorted(blocks_above(orig[p].1, to_block)),
        blocks_above(orig[p].1, to_block).len() == orig[p].1.len() ==> blocks_above(
            orig[p].1,
            to_block,
        ) == orig[p].1,
        i > 0 ==> !same_logical(cur[i - 1].0, cur[i].0),
{
    reveal(history_wf);
    reveal(walk_ok);
    lemma_walk_current(orig, cur, i, p, to_block);
    assert(shard_wf(orig[p]));
    lemma_blocks_above_unchanged(orig[p].1, to_block);
    lemma_blocks_above_sorted(orig[p].1, to_block);
    if i > 0 {
        assert(cur[i - 1].0.logical_rank() < orig[p].0.logical_rank());
    }
}

/// The walk after a shard that is gone, where it does not seek.
proof fn lemma_walk_dropped<K: HistoryKey>(
    orig: Seq<Shard<K>>,
    cur: Seq<Shard<K>>,
    next: Seq<Shard<K>>,
    i: int,
    p: int,
    to_block: u64,
)
    requires
        walk_ok(orig, cur, i, p, to_block),
        0 <= i < cur.len(),
        0 <= p < orig.len(),
        !survives(orig[p], to_block),
        next == cur.remove(i),
    ensures
        walk_ok(orig, next, i, p + 1, to_block),
{
    reveal(walk_ok);
    lemma_walk_step(orig, cur, i, p, to_block);
    lemma_walk_on(orig, cur, next, i, p);
}

/// The walk after a shard has been dealt with and it has sought behind the shard's
/// logical key.
#[verifier::rlimit(40)]
proof fn lemma_walk_sought<K: HistoryKey>(
    orig: Seq<Shard<K>>,
    cur: Seq<Shard<K>>,
    next: Seq<Shard<K>>,
    i: int,
    p: int,
    pos: int,
    to_block: u64,
)
    requires
        walk_ok(orig, cur, i, p, to_block),
        0 <= i < cur.len(),
        0 <= p < orig.len(),
        orig[p].0.highest() >= to_block,
        next == if survives(orig[p], to_block) {
            cur.update(i, pruned_shard(orig[p], to_block))
        } else {
            cur.remove(i)
        },
        seek_end(next, orig[p].0, pos),
    ensures
        pos >= if survives(orig[p], to_block) {
            i + 1
        } else {
            i
        },
        walk_ok(
            orig,
            next,
            pos,
            p + 1 + pos - if survives(orig[p], to_block) {
                i + 1
            } else {
                i
            },
            to_block,
        ),
{
    reveal(walk_ok);
    lemma_walk_current(orig, cur, i, p, to_block);
    lemma_walk_step(orig, cur, i, p, to_block);
    let start = if survives(orig[p], to_block) {
        i + 1
    } else {
        i
    };
    assert forall|k: int| 0 <= k < start implies (#[trigger] next[k]).0.logical_rank()
        <= orig[p].0.logical_rank() by {
        if k < i {
            assert(next[k] == cur[k]);
        }
    }
    lemma_key_tail_untouched(orig, p, to_block);
    lemma_walk_seek(orig, next, start, p, pos, to_block);
}

proof fn lemma_walk_done<K: HistoryKey>(
    orig: Seq<Shard<K>>,
    cur: Seq<Shard<K>>,
    i: int,
    p: int,
    to_block: u64,
)
    requires
        walk_ok(orig, cur, i, p, to_block),
        i == cur.len(),
    ensures
        cur == pruned_shards(orig, to_block),
        history_wf(cur),
{
    reveal(walk_ok);
    lemma_walk_end(orig, cur, i, p, to_block);
    lemma_pruned_shards_wf(orig, to_block);
}

/// Removes every block up to `to_block` from a history table.
///
/// Walks the shards in key order. A shard bounded at or below `to_block` is deleted.
/// The first shard of a logical key that reaches above `to_block` loses its blocks up
/// to `to_block`, and is deleted if none is left; the shards behind it hold only
/// later blocks and are passed over.
#[verifier::rlimit(40)]
pub fn prune_history_indices<K: HistoryKey>(table: &mut Table<K, BlockList>, to_block: u64)
    requires
        history_wf(shard_views(old(table)@)),
    ensures
        shard_views(final(table)@) == pruned_shards(shard_views(old(table)@), to_block),
        history_wf(shard_views(final(table)@)),
        final(table).wf(),
{
    let ghost orig = shard_views(table@);
    let ghost mut p: int = 0;
    let mut i: usize = 0;
    proof {
        lemma_walk_begin(orig, to_block);
        lemma_wf_sorted(table@);
    }
    while i < table.rows.len()
        invariant
            i <= table@.len(),
            walk_ok(orig, shard_views(table@), i as int, p, to_block),
            sorted_by_key(table@),
        decreases table@.len() - i,
    {
        let ghost before = table@;
        let ghost cur = shard_views(table@);
        let key = table.rows[i].0;
        let highest = key.highest_block_number();
        let verdict = judge_shard(highest, &table.rows[i].1, to_block);
        proof {
            lemma_walk_here(orig, cur, i as int, p, to_block);
            if i > 0 {
                assert(cur[i - 1].0 == before[i - 1].0);
            }
        }
        // Whether the walk goes on behind the last shard of this logical key, and
        // whether the row at `i` is still there.
        let seek: bool;
        let kept: bool;
        match verdict {
            ShardVerdict::Delete { seek: at_target } => {
                table.rows.remove(i);
                seek = at_target;
                kept = false;
            },
            ShardVerdict::Unchanged => {
                seek = true;
                kept = true;
            },
            ShardVerdict::Rewrite { blocks } => {
                table.rows[i] = (key, BlockList::new_pre_sorted(blocks));
                seek = true;
                kept = true;
            },
            ShardVerdict::Emptied { sentinel } => {
                if sentinel {
                    let moved = settle_emptied_sentinel(table, i);
                    assert(!moved);
                } else {
                    table.rows.remove(i);
                }
                seek = true;
                kept = false;
            },
        }
        let ghost now = shard_views(table@);
        proof {
            assert(kept == survives(orig[p], to_block));
            if kept {
                assert(now =~= cur.update(i as int, pruned_shard(orig[p], to_block)));
                assert(table@ =~= before.update(i as int, table@[i as int]));
                lemma_update_sorted(before, i as int, table@[i as int]);
            } else {
                assert(table@ =~= before.remove(i as int));
                assert(now =~= cur.remove(i as int));
                lemma_remove_sorted(before, i as int);
            }
        }
        if seek {
            let next = seek_behind(table, &key);
            proof {
                assert(seek_end(now, orig[p].0, next as int));
                lemma_walk_sought(orig, cur, now, i as int, p, next as int, to_block);
                p = p + 1 + next - if kept {
                    i + 1
                } else {
                    i as int
                };
            }
            i = next;
        } else {
            proof {
                lemma_walk_dropped(orig, cur, now, i as int, p, to_block);
                p = p + 1;
            }
        }
    }
    proof {
        lemma_walk_done(orig, shard_views(table@), i as int, p, to_block);
    }
}

/// A well-formed history table has its rows in key order.
pub proof fn lemma_wf_sorted<K: HistoryKey>(rows: Seq<(K, BlockList)>)
    requires
        history_wf(shard_views(rows)),
    ensures
        sorted_by_key(rows),
{
    reveal(history_wf);
    let shards = shard_views(rows);
    assert forall|i: int, j: int| 0 <= i <= j < rows.len() implies rows[i].0.rank()
        <= rows[j].0.rank() by {
        assert(shards[i].0 == rows[i].0);
        assert(shards[j].0 == rows[j].0);
        if i < j {
            assert(shards_ordered(shards[i], shards[j]));
        }
    }
}

/// Pruning keeps a history table well-formed: no shard is left empty, the shards stay
/// in order, and every logical key that is left keeps its last shard.
pub proof fn lemma_pruned_shards_wf<K: HistoryKey>(shards: Seq<Shard<K>>, to_block: u64)
    requires
        history_wf(shards),
    ensures
        history_wf(pruned_shards(shards, to_block)),
{
    reveal(history_wf);
    let left = pruned_shards(shards, to_block);
    lemma_pruned_in_order(shards, to_block);
    assert forall|k: int| 0 <= k < left.len() implies has_sentinel(left, (#[trigger] left[k]).0) by {
        lemma_pruned_member(shards, to_block, k);
        let i = choose|i: int|
            0 <= i < shards.len() && survives(#[trigger] shards[i], to_block) && left[k]
                == pruned_shard(shards[i], to_block);
        assert(has_sentinel(shards, shards[i].0));
        let j = choose|j: int|
            0 <= j < shards.len() && same_logical((#[trigger] shards[j]).0, shards[i].0)
                && shards[j].0.highest() == u64::MAX;
        if j != i {
            lemma_logical_order(shards[j].0, shards[i].0);
            if j < i {
                assert(shards_ordered(shards[j], shards[i]));
            }
            lemma_later_shards_untouched(shards, to_block, i, j);
        }
        lemma_pruned_contains(shards, to_block, j);
        let m = choose|m: int|
            0 <= m < left.len() && #[trigger] left[m] == pruned_shard(shards[j], to_block);
        assert(same_logical(left[m].0, left[k].0) && left[m].0.highest() == u64::MAX);
    }
}

/// The shards that pruning leaves are non-empty, ascending and in order.
pub proof fn lemma_pruned_in_order<K: HistoryKey>(shards: Seq<Shard<K>>, to_block: u64)
    requires
        forall|i: int| 0 <= i < shards.len() ==> shard_wf(#[trigger] shards[i]),
        forall|i: int, j: int|
            0 <= i < j < shards.len() ==> shards_ordered(#[trigger] shards[i], #[trigger] shards[j]),
    ensures
        forall|i: int|
            0 <= i < pruned_shards(shards, to_block).len() ==> shard_wf(
                #[trigger] pruned_shards(shards, to_block)[i],
            ),
        forall|i: int, j: int|
            0 <= i < j < pruned_shards(shards, to_block).len() ==> shards_ordered(
                #[trigger] pruned_shards(shards, to_block)[i],
                #[trigger] pruned_shards(shards, to_block)[j],
            ),
    decreases shards.len(),
{
    if shards.len() > 0 {
        let front = shards.drop_last();
        let last = shards.last();
        assert(shards =~= front.push(last));
        lemma_pruned_push(front, last, to_block);
        assert forall|i: int| 0 <= i < front.len() implies shard_wf(#[trigger] front[i]) by {
            assert(front[i] == shards[i]);
        }
        assert forall|i: int, j: int| 0 <= i < j < front.len() implies shards_ordered(
            #[trigger] front[i],
            #[trigger] front[j],
        ) by {
            assert(front[i] == shards[i] && front[j] == shards[j]);
        }
        lemma_pruned_in_order(front, to_block);
        let left = pruned_shards(front, to_block);
        if survives(last, to_block) {
            let cut = pruned_shard(last, to_block);
            assert(shard_wf(shards[shards.len() - 1]));
            lemma_blocks_above_sorted(last.1, to_block);
            lemma_blocks_above_members(last.1, to_block);
            assert(shard_wf(cut)) by {
                assert forall|b: int| 0 <= b < cut.1.len() implies cut.1[b] <= cut.0.highest() by {
                    let c = choose|c: int| 0 <= c < last.1.len() && last.1[c] == cut.1[b];
                }
            }
            assert forall|k: int| 0 <= k < left.len() implies shards_ordered(
                #[trigger] left[k],
                cut,
            ) by {
                lemma_pruned_member(front, to_block, k);
                let i = choose|i: int|
                    0 <= i < front.len() && survives(#[trigger] front[i], to_block) && left[k]
                        == pruned_shard(front[i], to_block);
                assert(front[i] == shards[i]);
                assert(shards_ordered(shards[i], shards[shards.len() - 1]));
                if same_logical(left[k].0, cut.0) {
                    assert forall|b: int| 0 <= b < cut.1.len() implies cut.1[b]
                        > left[k].0.highest() by {
                        let c = choose|c: int| 0 <= c < last.1.len() && last.1[c] == cut.1[b];
                    }
                }
            }
        }
    }
}

/// Where the target is the bound of a shard, the shard goes as a whole, and the shards
/// of its logical key behind it stay as they are.
pub proof fn lemma_target_on_shard_bound<K: HistoryKey>(shards: Seq<Shard<K>>, to_block: u64, i: int)
    requires
        history_wf(shards),
        0 <= i < shards.len(),
        shards[i].0.highest() == to_block,
    ensures
        forall|k: int|
            0 <= k < pruned_shards(shards, to_block).len() ==> (#[trigger] pruned_shards(
                shards,
                to_block,
            )[k]).0 != shards[i].0,
        forall|k: int|
            i < k < shards.len() && same_logical(shards[k].0, shards[i].0) ==> survives(
                #[trigger] shards[k],
                to_block,
            ) && pruned_shard(shards[k], to_block) == shards[k],
        forall|k: int|
            i < k < shards.len() && same_logical(shards[k].0, shards[i].0)
                ==> pruned_shards(shards, to_block).contains(#[trigger] shards[k]),
{
    reveal(history_wf);
    let left = pruned_shards(shards, to_block);
    assert forall|k: int| 0 <= k < left.len() implies (#[trigger] left[k]).0 != shards[i].0 by {
        lemma_pruned_member(shards, to_block, k);
        let j = choose|j: int|
            0 <= j < shards.len() && survives(#[trigger] shards[j], to_block) && left[k]
                == pruned_shard(shards[j], to_block);
        if j < i {
            assert(shards_ordered(shards[j], shards[i]));
        }
        if i < j {
            assert(shards_ordered(shards[i], shards[j]));
        }
    }
    lemma_key_tail_untouched(shards, i, to_block);
    assert forall|k: int|
        i < k < shards.len() && same_logical(shards[k].0, shards[i].0) implies left.contains(
        #[trigger] shards[k],
    ) by {
        lemma_pruned_contains(shards, to_block, k);
    }
}

/// Where pruning empties the last shard of a logical key, no shard of that logical key
/// is left.
pub proof fn lemma_emptied_sentinel_key_vanishes<K: HistoryKey>(
    shards: Seq<Shard<K>>,
    to_block: u64,
    i: int,
)
    requires
        history_wf(shards),
        0 <= i < shards.len(),
        shards[i].0.highest() == u64::MAX,
        blocks_above(shards[i].1, to_block).len() == 0,
    ensures
        forall|k: int|
            0 <= k < pruned_shards(shards, to_block).len() ==> !same_logical(
                (#[trigger] pruned_shards(shards, to_block)[k]).0,
                shards[i].0,
            ),
{
    reveal(history_wf);
    let left = pruned_shards(shards, to_block);
    assert(shard_wf(shards[i]));
    lemma_blocks_above_members(shards[i].1, to_block);
    assert(shards[i].1[0] <= to_block) by {
        if shards[i].1[0] > to_block {
            assert(blocks_above(shards[i].1, to_block).contains(shards[i].1[0]));
        }
    }
    assert forall|k: int| 0 <= k < left.len() implies !same_logical(
        (#[trigger] left[k]).0,
        shards[i].0,
    ) by {
        lemma_pruned_member(shards, to_block, k);
        let j = choose|j: int|
            0 <= j < shards.len() && survives(#[trigger] shards[j], to_block) && left[k]
                == pruned_shard(shards[j], to_block);
        if same_logical(shards[j].0, shards[i].0) {
            lemma_logical_order(shards[i].0, shards[j].0);
            lemma_logical_order(shards[j].0, shards[i].0);
            if j < i {
                assert(shards_ordered(shards[j], shards[i]));
            }
            if i < j {
                assert(shards_ordered(shards[i], shards[j]));
            }
        }
    }
}

/// Pruning up to `first` and then up to `second` leaves what pruning up to `second`
/// leaves.
pub proof fn lemma_pruned_twice<K: HistoryKey>(shards: Seq<Shard<K>>, first: u64, second: u64)
    requires
        first <= second,
    ensures
        pruned_shards(pruned_shards(shards, first), second) == pruned_shards(shards, second),
    decreases shards.len(),
{
    if shards.len() == 0 {
        let keep1 = |s: Shard<K>| survives(s, first);
        let keep2 = |s: Shard<K>| survives(s, second);
        shards.lemma_filter_len(keep1);
        shards.lemma_filter_len(keep2);
        pruned_shards(shards, first).filter(keep2).lemma_filter_len(keep2);
        pruned_shards(shards, first).lemma_filter_len(keep2);
        assert(pruned_shards(pruned_shards(shards, first), second) =~= pruned_shards(
            shards,
            second,
        ));
    } else {
        let front = shards.drop_last();
        let last = shards.last();
        assert(shards =~= front.push(last));
        lemma_pruned_twice(front, first, second);
        lemma_pruned_push(front, last, first);
        lemma_pruned_push(front, last, second);
        lemma_blocks_above_twice(last.1, first, second);
        lemma_blocks_above_members(last.1, first);
        lemma_blocks_above_members(last.1, second);
        lemma_blocks_above_members(blocks_above(last.1, first), second);
        if survives(last, first) {
            lemma_pruned_push(pruned_shards(front, first), pruned_shard(last, first), second);
        } else if survives(last, second) {
            let b = blocks_above(last.1, second)[0];
            assert(last.1.contains(b));
            let c = choose|c: int| 0 <= c < last.1.len() && last.1[c] == b;
            assert(blocks_above(last.1, first).contains(last.1[c]));
        }
    }
}

} // verus!
