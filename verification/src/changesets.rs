//! Keys of the storage change sets: a block number followed by an address.

use crate::keys::{
    be_value, lemma_pair_rank_bound, lemma_pair_rank_order, radix, Address, BlockNumber, TableKey,
};
use crate::table::key_in_range;
use crate::types::InclusiveRange;
use vstd::prelude::*;

verus! {

/// Key of the changes that a block made to the storage of an account.
#[derive(Clone, Copy, Debug, PartialEq, Eq)]
pub struct BlockNumberAddress {
    pub block_number: BlockNumber,
    pub address: Address,
}

impl TableKey for BlockNumberAddress {
    open spec fn rank(&self) -> int {
        self.block_number * Address::rank_bound() + self.address.rank()
    }

    open spec fn rank_bound() -> int {
        u64::rank_bound() * Address::rank_bound()
    }

    proof fn lemma_rank_in_bound(&self) {
        self.address.lemma_rank_in_bound();
        lemma_pair_rank_bound(
            self.block_number as int,
            self.address.rank(),
            u64::rank_bound(),
            Address::rank_bound(),
        );
    }

    proof fn lemma_rank_identifies(&self, other: &Self) {
        self.address.lemma_rank_in_bound();
        other.address.lemma_rank_in_bound();
        lemma_pair_rank_order(
            self.block_number as int,
            self.address.rank(),
            other.block_number as int,
            other.address.rank(),
            Address::rank_bound(),
        );
        self.address.lemma_rank_identifies(&other.address);
    }

    fn less(&self, other: &Self) -> (r: bool) {
        proof {
            self.address.lemma_rank_in_bound();
            other.address.lemma_rank_in_bound();
            lemma_pair_rank_order(
                self.block_number as int,
                self.address.rank(),
                other.block_number as int,
                other.address.rank(),
                Address::rank_bound(),
            );
        }
        if self.block_number < other.block_number {
            true
        } else if other.block_number < self.block_number {
            false
        } else {
            self.address.less(&other.address)
        }
    }
}

/// A string of zero bytes has the value zero.
pub proof fn lemma_be_value_zeros(bytes: Seq<u8>)
    requires
        forall|i: int| 0 <= i < bytes.len() ==> bytes[i] == 0,
    ensures
        be_value(bytes) == 0,
    decreases bytes.len(),
{
    if bytes.len() > 0 {
        lemma_be_value_zeros(bytes.drop_last());
    }
}

/// A string of bytes `0xff` has the greatest value of its length.
pub proof fn lemma_be_value_ones(bytes: Seq<u8>)
    requires
        forall|i: int| 0 <= i < bytes.len() ==> bytes[i] == 0xff,
    ensures
        be_value(bytes) == radix(bytes.len()) - 1,
    decreases bytes.len(),
{
    if bytes.len() > 0 {
        lemma_be_value_ones(bytes.drop_last());
    }
}

/// The keys of the blocks of `blocks`: from the least address of the first block to
/// the greatest address of the last.
pub open spec fn address_span(blocks: InclusiveRange) -> (BlockNumberAddress, BlockNumberAddress) {
    (
        BlockNumberAddress { block_number: blocks.start, address: least_address() },
        BlockNumberAddress { block_number: blocks.end, address: greatest_address() },
    )
}

/// The address of twenty zero bytes.
pub open spec fn least_address() -> Address {
    vstd::array::spec_array_fill_for_copy_type::<u8, 20>(0u8)
}

/// The address of twenty bytes `0xff`.
pub open spec fn greatest_address() -> Address {
    vstd::array::spec_array_fill_for_copy_type::<u8, 20>(0xffu8)
}

/// A key lies in the span of a range of blocks exactly when its block lies in the range.
pub proof fn lemma_address_span(blocks: InclusiveRange, key: BlockNumberAddress)
    ensures
        key_in_range(key, address_span(blocks).0, address_span(blocks).1) <==> blocks.contains(
            key.block_number as int,
        ),
{
    let (lo, hi) = address_span(blocks);
    lemma_be_value_zeros(lo.address@);
    lemma_be_value_ones(hi.address@);
    key.address.lemma_rank_in_bound();
    lo.address.lemma_rank_in_bound();
    hi.address.lemma_rank_in_bound();
    lemma_pair_rank_order(
        lo.block_number as int,
        lo.address.rank(),
        key.block_number as int,
        key.address.rank(),
        Address::rank_bound(),
    );
    lemma_pair_rank_order(
        key.block_number as int,
        key.address.rank(),
        hi.block_number as int,
        hi.address.rank(),
        Address::rank_bound(),
    );
}

impl BlockNumberAddress {
    /// Key of the changes of `block_number` to the storage of `address`.
    pub fn new(block_number: BlockNumber, address: Address) -> (k: Self)
        ensures
            k.block_number == block_number,
            k.address == address,
    {
        BlockNumberAddress { block_number, address }
    }

    /// The first and the last key that a block of `blocks` can have.
    pub fn range(blocks: InclusiveRange) -> (span: (Self, Self))
        ensures
            span == address_span(blocks),
    {
        (
            BlockNumberAddress { block_number: blocks.start, address: [0u8;20] },
            BlockNumberAddress { block_number: blocks.end, address: [0xffu8;20] },
        )
    }
}

} // verus!
