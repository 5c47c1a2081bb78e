//! Flashblocks, as far as this library reads them.
//!
//! A flashblock has many more fields than are read here. Each part of it carries those in `rest`,
//! in the type of the wire format; a field that a part spells out itself replaces the one of the
//! same name in `rest`.

use op_alloy_rpc_types_engine::{
    OpFlashblockPayloadBase, OpFlashblockPayloadDelta, OpFlashblockPayloadMetadata,
};
use vstd::prelude::*;

use crate::primitives::{B256, PayloadId};

verus! {

/// The wire format of a block's fixed properties, opaque here.
#[verifier::external_type_specification]
#[verifier::external_body]
pub struct ExOpFlashblockPayloadBase(OpFlashblockPayloadBase);

/// The wire format of a block's changing properties, opaque here.
#[verifier::external_type_specification]
#[verifier::external_body]
pub struct ExOpFlashblockPayloadDelta(OpFlashblockPayloadDelta);

/// The wire format of a flashblock's metadata, opaque here.
#[verifier::external_type_specification]
#[verifier::external_body]
pub struct ExOpFlashblockPayloadMetadata(OpFlashblockPayloadMetadata);

/// `OpFlashblockPayloadBase::clone` returns an equal value.
pub assume_specification[ <OpFlashblockPayloadBase as Clone>::clone ](
    base: &OpFlashblockPayloadBase,
) -> (copy: OpFlashblockPayloadBase)
    ensures
        copy == *base,
;

/// Properties of a block that stay the same while it is built.
#[derive(Debug)]
pub struct FlashBlockBase {
    /// Hash of the block that this one is built on.
    pub parent_hash: B256,
    /// Number of the block.
    pub block_number: u64,
    /// Timestamp of the block, in seconds.
    pub timestamp: u64,
    /// What else the wire format holds.
    pub rest: OpFlashblockPayloadBase,
}

impl Clone for FlashBlockBase {
    fn clone(&self) -> (copy: Self)
        ensures
            copy == *self,
    {
        FlashBlockBase {
            parent_hash: self.parent_hash,
            block_number: self.block_number,
            timestamp: self.timestamp,
            rest: self.rest.clone(),
        }
    }
}

/// What one flashblock adds to the block, and the block's properties after it.
#[derive(Debug)]
pub struct FlashBlockDelta {
    /// State root after this flashblock; zero where the builder did not compute it.
    pub state_root: B256,
    /// Hash of the block after this flashblock.
    pub block_hash: B256,
    /// Encoded transactions that this flashblock adds.
    pub transactions: Vec<Vec<u8>>,
    /// What else the wire format holds.
    pub rest: OpFlashblockPayloadDelta,
}

/// Data about the block for indexing and analysis.
#[derive(Debug)]
pub struct FlashBlockMetadata {
    /// Number of the block.
    pub block_number: u64,
    /// What else the wire format holds.
    pub rest: OpFlashblockPayloadMetadata,
}

/// One flashblock.
#[derive(Debug)]
pub struct FlashBlock {
    /// Payload that the flashblock belongs to.
    pub payload_id: PayloadId,
    /// Position of the flashblock in its block.
    pub index: u64,
    /// Fixed properties of the block; expected at index zero.
    pub base: Option<FlashBlockBase>,
    /// What the flashblock adds.
    pub diff: FlashBlockDelta,
    /// Data about the block.
    pub metadata: FlashBlockMetadata,
}

impl FlashBlock {
    /// Number of the block that the flashblock belongs to.
    pub fn block_number(&self) -> (number: u64)
        ensures
            number == self.metadata.block_number,
    {
        self.metadata.block_number
    }
}

/// The transactions that a run of flashblocks adds, in order.
pub open spec fn transactions_of(flashblocks: Seq<FlashBlock>) -> Seq<Seq<u8>>
    decreases flashblocks.len(),
{
    if flashblocks.len() == 0 {
        Seq::empty()
    } else {
        transactions_of(flashblocks.drop_last()) + encoded(flashblocks.last().diff.transactions@)
    }
}

/// Encoded transactions as byte sequences.
pub open spec fn encoded(transactions: Seq<Vec<u8>>) -> Seq<Seq<u8>> {
    transactions.map_values(|transaction: Vec<u8>| transaction@)
}

} // verus!
