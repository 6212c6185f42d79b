//! Block lists: the non-empty, ascending lists of block numbers that history shards hold.

use crate::table::lemma_filter_keeps_all;
use vstd::prelude::*;

verus! {

/// Block numbers in ascending order.
pub open spec fn pre_sorted(blocks: Seq<u64>) -> bool {
    forall|i: int, j: int| 0 <= i <= j < blocks.len() ==> blocks[i] <= blocks[j]
}

/// The blocks above `to_block`, in their order.
pub open spec fn blocks_above(blocks: Seq<u64>, to_block: u64) -> Seq<u64> {
    blocks.filter(|b: u64| b > to_block)
}

/// Every block that remains is above `to_block` and was in the list.
pub proof fn lemma_blocks_above_members(blocks: Seq<u64>, to_block: u64)
    ensures
        forall|i: int|
            0 <= i < blocks_above(blocks, to_block).len() ==> {
                &&& (#[trigger] blocks_above(blocks, to_block)[i]) > to_block
                &&& blocks.contains(blocks_above(blocks, to_block)[i])
            },
        forall|i: int|
            0 <= i < blocks.len() && blocks[i] > to_block ==> blocks_above(
                blocks,
                to_block,
            ).contains(#[trigger] blocks[i]),
        blocks_above(blocks, to_block).len() <= blocks.len(),
{
    let above = |b: u64| b > to_block;
    let kept = blocks.filter(above);
    blocks.lemma_filter_len(above);
    assert forall|i: int| 0 <= i < kept.len() implies (#[trigger] kept[i]) > to_block
        && blocks.contains(kept[i]) by {
        blocks.lemma_filter_pred(above, i);
        assert(kept.contains(kept[i]));
        blocks.lemma_filter_contains_rev(above, kept[i]);
    }
    assert forall|i: int| 0 <= i < blocks.len() && blocks[i] > to_block implies kept.contains(
        #[trigger] blocks[i],
    ) by {
        blocks.lemma_filter_contains(above, i);
    }
}

/// Dropping the blocks at or below a target keeps the list ascending.
pub proof fn lemma_blocks_above_sorted(blocks: Seq<u64>, to_block: u64)
    requires
        pre_sorted(blocks),
    ensures
        pre_sorted(blocks_above(blocks, to_block)),
    decreases blocks.len(),
{
    let above = |b: u64| b > to_block;
    reveal(Seq::filter);
    if blocks.len() > 0 {
        let front = blocks.drop_last();
        lemma_blocks_above_sorted(front, to_block);
        lemma_blocks_above_members(front, to_block);
        let kept = front.filter(above);
        assert forall|i: int| 0 <= i < kept.len() implies (#[trigger] kept[i]) <= blocks.last() by {
            let j = choose|j: int| 0 <= j < front.len() && front[j] == kept[i];
            assert(blocks[j] == front[j]);
        }
    }
}

/// A list loses nothing exactly when every block is above the target.
pub proof fn lemma_blocks_above_unchanged(blocks: Seq<u64>, to_block: u64)
    ensures
        blocks_above(blocks, to_block).len() == blocks.len() <==> (forall|i: int|
            0 <= i < blocks.len() ==> blocks[i] > to_block),
        blocks_above(blocks, to_block).len() == blocks.len() ==> blocks_above(
            blocks,
            to_block,
        ) == blocks,
    decreases blocks.len(),
{
    let above = |b: u64| b > to_block;
    reveal(Seq::filter);
    if blocks.len() > 0 {
        let front = blocks.drop_last();
        lemma_blocks_above_unchanged(front, to_block);
        front.lemma_filter_len(above);
        if blocks_above(blocks, to_block).len() == blocks.len() {
            assert forall|i: int| 0 <= i < blocks.len() implies blocks[i] > to_block by {
                if i < front.len() {
                    assert(front[i] == blocks[i]);
                }
            }
            lemma_filter_keeps_all(blocks, above);
        }
        if forall|i: int| 0 <= i < blocks.len() ==> blocks[i] > to_block {
            lemma_filter_keeps_all(blocks, above);
        }
    } else {
        lemma_filter_keeps_all(blocks, above);
    }
}

/// Raising the target in two steps drops the same blocks as raising it once.
pub proof fn lemma_blocks_above_twice(blocks: Seq<u64>, first: u64, second: u64)
    requires
        first <= second,
    ensures
        blocks_above(blocks_above(blocks, first), second) == blocks_above(blocks, second),
    decreases blocks.len(),
{
    reveal(Seq::filter);
    if blocks.len() > 0 {
        let front = blocks.drop_last();
        lemma_blocks_above_twice(front, first, second);
        let above_first = |b: u64| b > first;
        let above_second = |b: u64| b > second;
        if blocks.last() > first {
            front.filter(above_first).lemma_filter_push(blocks.last(), above_second);
        }
    }
}

/// A non-empty ascending list of block numbers.
#[derive(Clone, Debug, PartialEq, Eq)]
pub struct BlockList {
    pub blocks: Vec<u64>,
}

impl View for BlockList {
    type V = Seq<u64>;

    open spec fn view(&self) -> Seq<u64> {
        self.blocks@
    }
}

/// Whether `blocks` is in ascending order.
pub fn is_pre_sorted(blocks: &Vec<u64>) -> (r: bool)
    ensures
        r == pre_sorted(blocks@),
{
    let n = blocks.len();
    let mut i: usize = 1;
    while i < n
        invariant
            n == blocks.len(),
            1 <= i,
            forall|a: int, b: int| 0 <= a <= b < i && b < n ==> blocks@[a] <= blocks@[b],
        decreases n - i,
    {
        if blocks[i] < blocks[i - 1] {
            return false;
        }
        i = i + 1;
    }
    true
}

impl BlockList {
    /// The list is non-empty and ascending.
    pub open spec fn wf(&self) -> bool {
        self@.len() > 0 && pre_sorted(self@)
    }

    /// A list of the given blocks, or `None` when they are empty or not ascending.
    pub fn new(blocks: Vec<u64>) -> (list: Option<Self>)
        ensures
            list is Some <==> blocks@.len() > 0 && pre_sorted(blocks@),
            list matches Some(l) ==> l@ == blocks@ && l.wf(),
    {
        if blocks.len() == 0 || !is_pre_sorted(&blocks) {
            None
        } else {
            Some(BlockList { blocks })
        }
    }

    /// A list of blocks that the caller has sorted.
    pub fn new_pre_sorted(blocks: Vec<u64>) -> (list: Self)
        requires
            blocks@.len() > 0,
            pre_sorted(blocks@),
        ensures
            list@ == blocks@,
            list.wf(),
    {
        BlockList { blocks }
    }

    /// Number of blocks in the list.
    pub fn len(&self) -> (n: usize)
        ensures
            n == self@.len(),
    {
        self.blocks.len()
    }

    /// The block at position `i`.
    pub fn get(&self, i: usize) -> (b: u64)
        requires
            i < self@.len(),
        ensures
            b == self@[i as int],
    {
        self.blocks[i]
    }

    /// The blocks from position `start` on, in order.
    pub fn iter(&self, start: usize) -> (blocks: Vec<u64>)
        ensures
            start <= self@.len() ==> blocks@ == self@.skip(start as int),
            start > self@.len() ==> blocks@ == Seq::<u64>::empty(),
    {
        let mut out: Vec<u64> = Vec::new();
        let n = self.blocks.len();
        if start > n {
            return out;
        }
        let mut i: usize = start;
        while i < n
            invariant
                start <= i <= n,
                n == self@.len(),
                out@ == self@.subrange(start as int, i as int),
            decreases n - i,
        {
            out.push(self.blocks[i]);
            assert(self@.subrange(start as int, i + 1) =~= self@.subrange(
                start as int,
                i as int,
            ).push(self@[i as int]));
            i = i + 1;
        }
        assert(self@.subrange(start as int, n as int) =~= self@.skip(start as int));
        out
    }

    /// The blocks above `to_block`, in order.
    pub fn above(&self, to_block: u64) -> (blocks: Vec<u64>)
        ensures
            blocks@ == blocks_above(self@, to_block),
    {
        let ghost keep = |b: u64| b > to_block;
        let mut out: Vec<u64> = Vec::new();
        let n = self.blocks.len();
        let mut i: usize = 0;
        proof {
            assert(self@.take(0) =~= Seq::<u64>::empty());
            lemma_filter_keeps_all(self@.take(0), keep);
        }
        while i < n
            invariant
                i <= n,
                n == self@.len(),
                keep == |b: u64| b > to_block,
                out@ == self@.take(i as int).filter(keep),
            decreases n - i,
        {
            let b = self.blocks[i];
            proof {
                assert(self@.take(i + 1) =~= self@.take(i as int).push(b));
                self@.take(i as int).lemma_filter_push(b, keep);
            }
            if b > to_block {
                out.push(b);
            }
            i = i + 1;
        }
        assert(self@.take(n as int) =~= self@);
        out
    }
}

} // verus!
