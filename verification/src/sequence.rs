//! Sequences of flashblocks: one that is still being received, and one that is complete.

use std::collections::BTreeMap;
use std::sync::Arc;

use tokio::sync::broadcast;
use vstd::prelude::*;
use vstd::std_specs::convert::TryFromSpecImpl;

use crate::broadcast::{
    channel_capacity, reported, subscribed_to, SequenceBroadcaster, CHANNEL_SIZE,
};
use crate::flashblock::{encoded, transactions_of, FlashBlock, FlashBlockBase};
use crate::order::{in_order, indices, lemma_in_order, refs_in_order, take_in_order};
use crate::primitives::{same_bytes, B256, PayloadId};
use crate::reads::CachedReads;

verus! {

broadcast use {vstd::laws_cmp::group_laws_cmp, vstd::std_specs::btree::group_btree_axioms};

/// Result of executing a flashblock sequence.
#[derive(Clone, Copy, Debug)]
pub struct SequenceExecutionOutcome {
    /// Hash of the executed block.
    pub block_hash: B256,
    /// State root that the execution computed.
    pub state_root: B256,
}

/// Why flashblocks do not make a complete sequence.
#[derive(Clone, Copy, Debug, PartialEq, Eq, Structural)]
pub enum SequenceError {
    /// There was nothing to finalize.
    NothingPending,
    /// The sequence holds no flashblock.
    NoFlashblocks,
    /// The first flashblock lacks the properties of the block.
    MissingBase,
    /// Indices are not successive from zero, or the flashblocks belong to different blocks or
    /// payloads.
    Inconsistent,
}

impl SequenceError {
    /// The error in words.
    pub fn message(&self) -> (text: &'static str)
        ensures
            text@ == match *self {
                SequenceError::NothingPending => "Cannot finalize empty flashblock sequence"@,
                SequenceError::NoFlashblocks => "No flashblocks in sequence"@,
                SequenceError::MissingBase => "Flashblock at index 0 has no base"@,
                SequenceError::Inconsistent => "Flashblock inconsistencies detected in sequence"@,
            },
    {
        match *self {
            SequenceError::NothingPending => "Cannot finalize empty flashblock sequence",
            SequenceError::NoFlashblocks => "No flashblocks in sequence",
            SequenceError::MissingBase => "Flashblock at index 0 has no base",
            SequenceError::Inconsistent => "Flashblock inconsistencies detected in sequence",
        }
    }
}

/// Whether two flashblocks belong to one block and one payload.
pub open spec fn same_origin(a: FlashBlock, b: FlashBlock) -> bool {
    &&& a.payload_id == b.payload_id
    &&& a.metadata.block_number == b.metadata.block_number
}

/// Whether flashblocks have successive indices from zero and belong together.
pub open spec fn consistent(blocks: Seq<FlashBlock>) -> bool {
    forall|i: int|
        0 <= i < blocks.len() ==> (#[trigger] blocks[i]).index == i && same_origin(
            blocks[i],
            blocks[0],
        )
}

/// What keeps flashblocks from making a complete sequence, if anything does.
pub open spec fn defect(blocks: Seq<FlashBlock>) -> Option<SequenceError> {
    if blocks.len() == 0 {
        Some(SequenceError::NoFlashblocks)
    } else if blocks[0].base is None {
        Some(SequenceError::MissingBase)
    } else if !consistent(blocks) {
        Some(SequenceError::Inconsistent)
    } else {
        None
    }
}

/// All flashblocks of a block, from the first to the last.
///
/// There is at least one, the first holds the properties of the block, the indices count up from
/// zero, and all belong to one block and one payload. If the sequence was executed on top of the
/// local chain tip, it also holds what came of that.
#[derive(Debug)]
pub struct FlashBlockCompleteSequence {
    inner: Arc<Vec<FlashBlock>>,
    execution_outcome: Option<SequenceExecutionOutcome>,
}

impl FlashBlockCompleteSequence {
    #[verifier::type_invariant]
    spec fn well_formed(&self) -> bool {
        self.is_complete()
    }

    /// The flashblocks in order.
    pub closed spec fn blocks(&self) -> Seq<FlashBlock> {
        self.inner@
    }

    /// What came of executing the sequence.
    pub closed spec fn outcome(&self) -> Option<SequenceExecutionOutcome> {
        self.execution_outcome
    }

    /// The sequence with another outcome.
    pub closed spec fn with_outcome(self, outcome: Option<SequenceExecutionOutcome>) -> Self {
        FlashBlockCompleteSequence { execution_outcome: outcome, ..self }
    }

    /// Another outcome leaves the flashblocks as they are.
    pub broadcast proof fn lemma_with_outcome(
        self,
        outcome: Option<SequenceExecutionOutcome>,
    )
        ensures
            (#[trigger] self.with_outcome(outcome)).blocks() == self.blocks(),
            self.with_outcome(outcome).outcome() == outcome,
    {
    }

    /// Whether the flashblocks make a complete sequence; true of every sequence that was made.
    pub open spec fn is_complete(&self) -> bool {
        defect(self.blocks()) is None
    }

    /// The properties of the block.
    pub open spec fn base(&self) -> FlashBlockBase {
        self.blocks()[0].base->0
    }

    /// Makes a complete sequence of flashblocks, or tells what keeps them from being one.
    pub fn new(
        blocks: Vec<FlashBlock>,
        execution_outcome: Option<SequenceExecutionOutcome>,
    ) -> (result: Result<Self, SequenceError>)
        ensures
            match defect(blocks@) {
                Some(error) => result == Err::<Self, SequenceError>(error),
                None => result matches Ok(sequence) && sequence.is_complete() && sequence.blocks()
                    == blocks@ && sequence.outcome() == execution_outcome,
            },
    {
        if blocks.len() == 0 {
            return Err(SequenceError::NoFlashblocks);
        }
        if blocks[0].base.is_none() {
            return Err(SequenceError::MissingBase);
        }
        let mut i: usize = 0;
        while i < blocks.len()
            invariant
                0 < blocks.len(),
                blocks@[0].base is Some,
                i <= blocks.len(),
                forall|j: int|
                    0 <= j < i ==> (#[trigger] blocks@[j]).index == j && same_origin(
                        blocks@[j],
                        blocks@[0],
                    ),
            decreases blocks.len() - i,
        {
            let block = &blocks[i];
            if block.index != i as u64 || !same_bytes(&block.payload_id, &blocks[0].payload_id)
                || block.block_number() != blocks[0].block_number() {
                assert(!(blocks@[i as int].index == i && same_origin(blocks@[i as int], blocks@[0])));
                return Err(SequenceError::Inconsistent);
            }
            i += 1;
        }
        Ok(FlashBlockCompleteSequence { inner: Arc::new(blocks), execution_outcome })
    }

    /// Number of the block.
    pub fn block_number(&self) -> (number: u64)
        ensures
            self.is_complete(),
            number == self.blocks()[0].metadata.block_number,
    {
        proof {
            use_type_invariant(self);
        }
        self.inner[0].block_number()
    }

    /// The properties of the block, from the first flashblock.
    pub fn payload_base(&self) -> (base: &FlashBlockBase)
        ensures
            self.is_complete(),
            *base == self.base(),
    {
        proof {
            use_type_invariant(self);
        }
        self.inner[0].base.as_ref().unwrap()
    }

    /// How many flashblocks there are.
    pub fn count(&self) -> (count: usize)
        ensures
            self.is_complete(),
            count == self.blocks().len(),
    {
        proof {
            use_type_invariant(self);
        }
        self.inner.len()
    }

    /// The last flashblock.
    pub fn last(&self) -> (last: &FlashBlock)
        ensures
            self.is_complete(),
            *last == self.blocks().last(),
    {
        proof {
            use_type_invariant(self);
        }
        &self.inner[self.inner.len() - 1]
    }

    /// What came of executing the sequence.
    pub fn execution_outcome(&self) -> (outcome: Option<SequenceExecutionOutcome>)
        ensures
            outcome == self.outcome(),
    {
        self.execution_outcome
    }

    /// Records what came of executing the sequence.
    pub fn set_execution_outcome(&mut self, execution_outcome: Option<SequenceExecutionOutcome>)
        ensures
            *final(self) == old(self).with_outcome(execution_outcome),
            final(self).blocks() == old(self).blocks(),
            final(self).outcome() == execution_outcome,
    {
        proof {
            use_type_invariant(&*self);
        }
        self.execution_outcome = execution_outcome;
    }

    /// The transactions of all flashblocks, in order.
    pub fn all_transactions(&self) -> (transactions: Vec<Vec<u8>>)
        ensures
            encoded(transactions@) == transactions_of(self.blocks()),
    {
        let blocks = &*self.inner;
        let mut transactions: Vec<Vec<u8>> = Vec::new();
        let mut i: usize = 0;
        assert(encoded(transactions@) == transactions_of(blocks@.take(0)));
        while i < blocks.len()
            invariant
                i <= blocks.len(),
                encoded(transactions@) == transactions_of(blocks@.take(i as int)),
            decreases blocks.len() - i,
        {
            let added = &blocks[i].diff.transactions;
            let ghost before = encoded(transactions@);
            let mut j: usize = 0;
            while j < added.len()
                invariant
                    j <= added.len(),
                    encoded(transactions@) == before + encoded(added@.take(j as int)),
                decreases added.len() - j,
            {
                let ghost held = transactions@;
                let transaction = added[j].clone();
                assert(transaction@ == added@[j as int]@);
                transactions.push(transaction);
                assert(encoded(transactions@) == encoded(held).push(transaction@));
                assert(encoded(added@.take(j + 1)) == encoded(added@.take(j as int)).push(
                    transaction@,
                ));
                j += 1;
            }
            assert(added@.take(j as int) == added@);
            assert(blocks@.take(i + 1).drop_last() == blocks@.take(i as int));
            i += 1;
        }
        assert(blocks@.take(i as int) == blocks@);
        transactions
    }
}

impl std::ops::Deref for FlashBlockCompleteSequence {
    type Target = Vec<FlashBlock>;

    fn deref(&self) -> (flashblocks: &Vec<FlashBlock>)
        ensures
            self.is_complete(),
            flashblocks@ == self.blocks(),
    {
        proof {
            use_type_invariant(self);
        }
        &*self.inner
    }
}

impl Clone for FlashBlockCompleteSequence {
    fn clone(&self) -> (copy: Self)
        ensures
            copy == *self,
    {
        proof {
            use_type_invariant(self);
        }
        FlashBlockCompleteSequence {
            inner: self.inner.clone(),
            execution_outcome: self.execution_outcome,
        }
    }
}

/// Flashblocks of the block that is being received.
///
/// A flashblock with index zero starts a new block; every other one is kept only if it belongs to
/// the block and the payload that are being received.
pub struct FlashBlockPendingSequence {
    inner: BTreeMap<u64, FlashBlock>,
    block_broadcaster: SequenceBroadcaster,
    execution_outcome: Option<SequenceExecutionOutcome>,
    cached_reads: Option<CachedReads>,
}

/// What a [`FlashBlockPendingSequence`] holds.
#[verifier::ext_equal]
pub struct PendingView {
    /// The flashblocks by index.
    pub blocks: Map<u64, FlashBlock>,
    /// What came of executing them.
    pub outcome: Option<SequenceExecutionOutcome>,
    /// State that was read while they were executed.
    pub reads: Option<CachedReads>,
    /// The complete sequences that were published, oldest first.
    pub sent: Seq<FlashBlockCompleteSequence>,
    /// How many subscribers there were each time they were counted, oldest first.
    pub counted: Seq<usize>,
    /// The channel on which they were published.
    pub channel: broadcast::Sender<FlashBlockCompleteSequence>,
}

/// Whether flashblocks can have been received for one block: the one with index zero is there,
/// each is kept under its own index, and all belong to one block and one payload.
pub open spec fn one_payload(blocks: Map<u64, FlashBlock>) -> bool {
    &&& blocks.dom().finite()
    &&& blocks.contains_key(0) || blocks == Map::<u64, FlashBlock>::empty()
    &&& forall|index: u64| #[trigger]
        blocks.contains_key(index) ==> blocks[index].index == index && same_origin(
            blocks[index],
            blocks[0],
        )
}

impl PendingView {
    /// The flashblock that started the block, if there is one.
    pub open spec fn first(self) -> Option<FlashBlock> {
        if self.blocks.contains_key(0) {
            Some(self.blocks[0])
        } else {
            None
        }
    }

    /// The flashblock with the highest index, if there is one.
    pub open spec fn last(self) -> Option<FlashBlock> {
        if self.blocks.contains_key(0) {
            Some(in_order(self.blocks).last())
        } else {
            None
        }
    }

    /// The properties of the block, if the first flashblock holds them.
    pub open spec fn base(self) -> Option<FlashBlockBase> {
        match self.first() {
            Some(block) => block.base,
            None => None,
        }
    }

    /// Whether a flashblock belongs to the block that is being received.
    pub open spec fn tracks(self, flashblock: FlashBlock) -> bool {
        self.first() matches Some(first) && same_origin(flashblock, first)
    }

    /// The state without flashblocks. What came of executing them goes with them, and so does the
    /// state that was read: both are of one block.
    pub open spec fn cleared(self) -> Self {
        if self.blocks == Map::<u64, FlashBlock>::empty() {
            self
        } else {
            PendingView { blocks: Map::empty(), outcome: None, reads: None, ..self }
        }
    }

    /// The state after a flashblock has arrived, but for what was published.
    pub open spec fn inserted(self, flashblock: FlashBlock) -> Self {
        if flashblock.index == 0 {
            PendingView { blocks: map![0u64 => flashblock], ..self.cleared() }
        } else if self.tracks(flashblock) {
            PendingView { blocks: self.blocks.insert(flashblock.index, flashblock), ..self }
        } else {
            self
        }
    }

    /// The state after the flashblocks have been taken out and, for the given number of subscribers,
    /// published: not without subscribers, nor if they do not make a complete sequence.
    pub open spec fn publishes(self, receivers: usize, after: Self) -> bool {
        &&& after == PendingView { sent: after.sent, ..self.cleared() }
        &&& if receivers > 0 && self.defect() is None {
            published(self.sent, after.sent, self)
        } else {
            after.sent == self.sent
        }
    }

    /// The state after the flashblocks have been taken out and published to whoever subscribes.
    /// If there are any flashblocks, the channel is asked for its subscribers, and the answer
    /// decides.
    pub open spec fn broadcasts(self, after: Self) -> bool {
        if self.blocks == Map::<u64, FlashBlock>::empty() {
            after == self
        } else {
            let receivers = after.counted.last();
            let counted = PendingView { counted: self.counted.push(receivers), ..self };
            &&& reported(self.channel, receivers)
            &&& counted.publishes(receivers, after)
        }
    }

    /// The state after a flashblock has arrived, with what was published.
    pub open spec fn receives(self, flashblock: FlashBlock, after: Self) -> bool {
        &&& after == PendingView {
            sent: after.sent,
            counted: after.counted,
            ..self.inserted(flashblock)
        }
        &&& if flashblock.index == 0 {
            self.broadcasts(PendingView { blocks: Map::empty(), ..after })
        } else {
            after.sent == self.sent && after.counted == self.counted
        }
    }

    /// What keeps the flashblocks from making a complete sequence, if anything does.
    pub open spec fn defect(self) -> Option<SequenceError> {
        if self.blocks == Map::<u64, FlashBlock>::empty() {
            Some(SequenceError::NothingPending)
        } else {
            defect(in_order(self.blocks))
        }
    }

    /// Whether a sequence is the complete one that the flashblocks make.
    pub open spec fn completes_to(self, sequence: FlashBlockCompleteSequence) -> bool {
        &&& self.defect() is None
        &&& sequence.is_complete()
        &&& sequence.blocks() == in_order(self.blocks)
        &&& sequence.outcome() == self.outcome
    }
}

impl View for FlashBlockPendingSequence {
    type V = PendingView;

    closed spec fn view(&self) -> PendingView {
        PendingView {
            blocks: self.inner@,
            outcome: self.execution_outcome,
            reads: self.cached_reads,
            sent: self.block_broadcaster.sent(),
            counted: self.block_broadcaster.counted(),
            channel: self.block_broadcaster.channel(),
        }
    }
}

impl FlashBlockPendingSequence {
    /// Whether the flashblocks can have been received for one block.
    pub open spec fn wf(&self) -> bool {
        one_payload(self@.blocks)
    }

    /// A sequence without flashblocks.
    pub fn new() -> (pending: Self)
        ensures
            pending.wf(),
            pending@.blocks == Map::<u64, FlashBlock>::empty(),
            pending@.outcome is None,
            pending@.reads is None,
            pending@.sent == Seq::<FlashBlockCompleteSequence>::empty(),
            pending@.counted == Seq::<usize>::empty(),
            channel_capacity(pending@.channel) == CHANNEL_SIZE,
    {
        FlashBlockPendingSequence {
            inner: BTreeMap::new(),
            block_broadcaster: SequenceBroadcaster::new(),
            execution_outcome: None,
            cached_reads: None,
        }
    }

    /// The sending half of the channel for complete sequences.
    pub fn block_sequence_broadcaster(&self) -> (sender: &broadcast::Sender<
        FlashBlockCompleteSequence,
    >)
        ensures
            *sender == self@.channel,
    {
        self.block_broadcaster.sender()
    }

    /// A new subscriber to complete sequences.
    pub fn subscribe_block_sequence(&self) -> (receiver: broadcast::Receiver<
        FlashBlockCompleteSequence,
    >)
        ensures
            subscribed_to(receiver) == self@.channel,
    {
        self.block_broadcaster.subscribe()
    }

    /// Takes the flashblocks out and publishes the complete sequence that they make to the given
    /// number of subscribers: nothing if there are none, nor if the flashblocks do not make one.
    pub fn publish_blocks(&mut self, receivers: usize)
        requires
            old(self).wf(),
        ensures
            final(self).wf(),
            old(self)@.publishes(receivers, final(self)@),
    {
        if self.inner.is_empty() {
            assert(self.inner@ == Map::<u64, FlashBlock>::empty());
            return;
        }
        let mut flashblocks: BTreeMap<u64, FlashBlock> = BTreeMap::new();
        std::mem::swap(&mut self.inner, &mut flashblocks);
        let execution_outcome = self.execution_outcome.take();
        self.cached_reads = None;
        if receivers > 0 {
            if let Ok(sequence) = FlashBlockCompleteSequence::new(
                take_in_order(flashblocks),
                execution_outcome,
            ) {
                let _ = self.block_broadcaster.send(sequence);
                assert(self@.sent.drop_last() == old(self)@.sent);
            }
        }
    }

    /// Takes the flashblocks out and publishes the complete sequence that they make, if anybody
    /// subscribes and they make one.
    fn clear_and_broadcast_blocks(&mut self)
        requires
            old(self).wf(),
        ensures
            final(self).wf(),
            old(self)@.broadcasts(final(self)@),
    {
        if self.inner.is_empty() {
            assert(self.inner@ == Map::<u64, FlashBlock>::empty());
            return;
        }
        let receivers = self.block_broadcaster.receiver_count();
        self.publish_blocks(receivers);
    }

    /// Receives a flashblock.
    ///
    /// With index zero it starts a new block: the flashblocks received before are published, if
    /// they make a complete sequence and anybody subscribes, and dropped. With another index it
    /// is kept if it belongs to the block and the payload that are being received, in place of an
    /// earlier one with its index, and ignored otherwise.
    pub fn insert(&mut self, flashblock: FlashBlock)
        requires
            old(self).wf(),
        ensures
            final(self).wf(),
            old(self)@.receives(flashblock, final(self)@),
    {
        if flashblock.index == 0 {
            self.clear_and_broadcast_blocks();
            self.inner.insert(0, flashblock);
            assert(self@.blocks == map![0u64 => flashblock]);
            return;
        }
        let belongs = match self.inner.get(&0) {
            Some(first) => first.block_number() == flashblock.block_number() && same_bytes(
                &first.payload_id,
                &flashblock.payload_id,
            ),
            None => false,
        };
        if belongs {
            self.inner.insert(flashblock.index, flashblock);
        }
    }

    /// Records what came of executing the sequence.
    pub fn set_execution_outcome(&mut self, execution_outcome: Option<SequenceExecutionOutcome>)
        ensures
            final(self)@ == (PendingView { outcome: execution_outcome, ..old(self)@ }),
    {
        self.execution_outcome = execution_outcome;
    }

    /// Records the state that was read while the sequence was executed.
    pub fn set_cached_reads(&mut self, cached_reads: CachedReads)
        ensures
            final(self)@ == (PendingView { reads: Some(cached_reads), ..old(self)@ }),
    {
        self.cached_reads = Some(cached_reads);
    }

    /// The state that was read while the sequence was executed.
    pub fn cached_reads(&self) -> (reads: &Option<CachedReads>)
        ensures
            *reads == self@.reads,
    {
        &self.cached_reads
    }

    /// Number of the block.
    pub fn block_number(&self) -> (number: Option<u64>)
        requires
            self.wf(),
        ensures
            number == match self@.first() {
                Some(block) => Some(block.metadata.block_number),
                None => None,
            },
    {
        match self.inner.get(&0) {
            Some(first) => Some(first.block_number()),
            None => None,
        }
    }

    /// The properties of the block, from the first flashblock.
    pub fn payload_base(&self) -> (base: Option<FlashBlockBase>)
        requires
            self.wf(),
        ensures
            base == self@.base(),
    {
        match self.inner.get(&0) {
            Some(first) => match &first.base {
                Some(base) => Some(base.clone()),
                None => None,
            },
            None => None,
        }
    }

    /// How many flashblocks there are.
    pub fn count(&self) -> (count: usize)
        ensures
            count == self@.blocks.len(),
            count == 0 <==> self@.blocks == Map::<u64, FlashBlock>::empty(),
    {
        let count = self.inner.len();
        assert(self@.blocks.dom().finite());
        if count == 0 {
            assert(self@.blocks.dom() == Set::<u64>::empty());
            assert(self@.blocks == Map::<u64, FlashBlock>::empty());
        }
        count
    }

    /// The flashblock with the highest index.
    pub fn last_flashblock(&self) -> (last: Option<&FlashBlock>)
        requires
            self.wf(),
        ensures
            match last {
                Some(block) => self@.last() == Some(*block),
                None => self@.last() is None,
            },
    {
        let listing = indices(&self.inner);
        proof {
            lemma_in_order(self@.blocks, listing@);
            if self@.blocks.contains_key(0) {
                assert(listing@.contains(0));
            }
            if listing@.len() > 0 {
                assert(listing@.contains(listing@.last()));
                assert(self@.blocks.contains_key(listing@.last()));
            }
        }
        if listing.len() == 0 {
            None
        } else {
            self.inner.get(&listing[listing.len() - 1])
        }
    }

    /// The highest index.
    pub fn index(&self) -> (index: Option<u64>)
        requires
            self.wf(),
        ensures
            index == match self@.last() {
                Some(block) => Some(block.index),
                None => None,
            },
    {
        match self.last_flashblock() {
            Some(last) => Some(last.index),
            None => None,
        }
    }

    /// The payload that the flashblocks belong to.
    pub fn payload_id(&self) -> (payload_id: Option<PayloadId>)
        requires
            self.wf(),
        ensures
            payload_id == match self@.first() {
                Some(block) => Some(block.payload_id),
                None => None,
            },
    {
        match self.inner.get(&0) {
            Some(first) => Some(first.payload_id),
            None => None,
        }
    }

    /// Takes the flashblocks out and makes a complete sequence of them.
    ///
    /// They are gone afterwards even if they do not make one.
    pub fn finalize(&mut self) -> (result: Result<FlashBlockCompleteSequence, SequenceError>)
        requires
            old(self).wf(),
        ensures
            final(self).wf(),
            final(self)@ == old(self)@.cleared(),
            match old(self)@.defect() {
                Some(error) => result == Err::<FlashBlockCompleteSequence, SequenceError>(error),
                None => result matches Ok(sequence) && old(self)@.completes_to(sequence),
            },
    {
        if self.inner.is_empty() {
            assert(self.inner@ == Map::<u64, FlashBlock>::empty());
            return Err(SequenceError::NothingPending);
        }
        let mut flashblocks: BTreeMap<u64, FlashBlock> = BTreeMap::new();
        std::mem::swap(&mut self.inner, &mut flashblocks);
        let execution_outcome = self.execution_outcome.take();
        self.cached_reads = None;
        FlashBlockCompleteSequence::new(take_in_order(flashblocks), execution_outcome)
    }

    /// The flashblocks in order.
    pub fn flashblocks(&self) -> (flashblocks: Vec<&FlashBlock>)
        ensures
            flashblocks@.unref() == in_order(self@.blocks),
    {
        refs_in_order(&self.inner)
    }
}

/// Whether exactly the complete sequence of a pending one was published in between.
pub open spec fn published(
    before: Seq<FlashBlockCompleteSequence>,
    after: Seq<FlashBlockCompleteSequence>,
    pending: PendingView,
) -> bool {
    &&& after.len() == before.len() + 1
    &&& after.drop_last() == before
    &&& pending.completes_to(after.last())
}

impl Default for FlashBlockPendingSequence {
    fn default() -> (pending: Self)
        ensures
            pending.wf(),
            pending@.blocks == Map::<u64, FlashBlock>::empty(),
            pending@.outcome is None,
            pending@.reads is None,
            pending@.sent == Seq::<FlashBlockCompleteSequence>::empty(),
            pending@.counted == Seq::<usize>::empty(),
            channel_capacity(pending@.channel) == CHANNEL_SIZE,
    {
        Self::new()
    }
}

// The result is told by the clauses of `try_from`: a sequence is more than what it shows.
impl TryFromSpecImpl<FlashBlockPendingSequence> for FlashBlockCompleteSequence {
    open spec fn obeys_try_from_spec() -> bool {
        false
    }

    open spec fn try_from_spec(pending: FlashBlockPendingSequence) -> Result<Self, SequenceError> {
        arbitrary()
    }
}

impl TryFrom<FlashBlockPendingSequence> for FlashBlockCompleteSequence {
    type Error = SequenceError;

    fn try_from(pending: FlashBlockPendingSequence) -> (result: Result<Self, SequenceError>)
        ensures
            match defect(in_order(pending@.blocks)) {
                Some(error) => result == Err::<Self, SequenceError>(error),
                None => result matches Ok(sequence) && sequence.is_complete() && sequence.blocks()
                    == in_order(pending@.blocks) && sequence.outcome() == pending@.outcome,
            },
    {
        Self::new(take_in_order(pending.inner), pending.execution_outcome)
    }
}

} // verus!
