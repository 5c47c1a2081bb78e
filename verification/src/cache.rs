//! The last complete sequences, and the choice of the one to build.

use ringbuffer::AllocRingBuffer;
use tokio::sync::broadcast;
use vstd::prelude::*;

use crate::broadcast::{
    channel_capacity, reported, subscribed_to, SequenceBroadcaster, CHANNEL_SIZE,
};
use crate::flashblock::{transactions_of, FlashBlock, FlashBlockBase};
use crate::order::{in_order, lemma_not_empty};
use crate::primitives::{all_zero, is_zero, same_bytes, B256};
use crate::reads::CachedReads;
use crate::ring::{entries, entry_mut, lemma_pushed, new_ring, push, pushed, ring_capacity, ring_entries};
use crate::sequence::{
    one_payload, FlashBlockCompleteSequence, FlashBlockPendingSequence, PendingView, SequenceError,
    SequenceExecutionOutcome,
};
use crate::transactions::{recover_transactions, recoverable, recovers, EncodedTransaction};

verus! {

broadcast use crate::sequence::FlashBlockCompleteSequence::lemma_with_outcome;

/// How many complete sequences are kept.
pub const CACHE_SIZE: usize = 3;

/// Time between two flashblocks, in milliseconds.
pub const FLASHBLOCK_BLOCK_TIME: u64 = 200;

/// A complete sequence that is kept, with what was learned about it.
#[derive(Debug)]
pub struct CachedSequence {
    /// Number of the block.
    pub block_number: u64,
    /// Hash of the block that the sequence builds on.
    pub parent_hash: B256,
    /// The sequence.
    pub sequence: FlashBlockCompleteSequence,
    /// State that was read while the sequence was executed.
    pub cached_reads: Option<CachedReads>,
}

/// What a build reports of the block that it made.
#[derive(Clone, Copy, Debug)]
pub struct PendingFlashBlock {
    /// Hash of the block that it was built on.
    pub parent_hash: B256,
    /// Hash of the block.
    pub block_hash: B256,
    /// State root of the block, if the build computed it.
    pub computed_state_root: Option<B256>,
}

impl PendingFlashBlock {
    /// What came of executing the sequence; known only with the state root.
    pub open spec fn outcome(self) -> Option<SequenceExecutionOutcome> {
        match self.computed_state_root {
            Some(state_root) => Some(
                SequenceExecutionOutcome { block_hash: self.block_hash, state_root },
            ),
            None => None,
        }
    }
}

impl CachedSequence {
    /// Whether the number and the parent are those of the sequence.
    pub open spec fn wf(self) -> bool {
        &&& self.sequence.is_complete()
        &&& self.block_number == self.sequence.blocks()[0].metadata.block_number
        &&& self.parent_hash == self.sequence.base().parent_hash
    }
}

/// Position of the first kept sequence that builds on the given block.
pub open spec fn first_on(cache: Seq<CachedSequence>, parent_hash: B256) -> Option<int>
    decreases cache.len(),
{
    if cache.len() == 0 {
        None
    } else {
        match first_on(cache.drop_last(), parent_hash) {
            Some(position) => Some(position),
            None => if cache.last().parent_hash == parent_hash {
                Some(cache.len() - 1)
            } else {
                None
            },
        }
    }
}

/// The position is that of a sequence on the given block, and none before it is on that block.
pub proof fn lemma_first_on(cache: Seq<CachedSequence>, parent_hash: B256)
    ensures
        match first_on(cache, parent_hash) {
            Some(position) => 0 <= position < cache.len() && cache[position].parent_hash
                == parent_hash && forall|i: int|
                0 <= i < position ==> (#[trigger] cache[i]).parent_hash != parent_hash,
            None => forall|i: int|
                0 <= i < cache.len() ==> (#[trigger] cache[i]).parent_hash != parent_hash,
        },
    decreases cache.len(),
{
    if cache.len() > 0 {
        lemma_first_on(cache.drop_last(), parent_hash);
        assert forall|i: int|
            0 <= i < cache.len() - 1 implies (#[trigger] cache[i]) == cache.drop_last()[i] by {}
    }
}

fn position_on(cache: &Vec<&CachedSequence>, parent_hash: &B256) -> (position: Option<usize>)
    ensures
        match position {
            Some(position) => first_on(cache@.unref(), *parent_hash) == Some(position as int),
            None => first_on(cache@.unref(), *parent_hash) is None,
        },
{
    let ghost all = cache@.unref();
    let mut i: usize = 0;
    while i < cache.len()
        invariant
            i <= cache.len(),
            all == cache@.unref(),
            first_on(all.take(i as int), *parent_hash) is None,
        decreases cache.len() - i,
    {
        assert(all.take(i + 1).drop_last() == all.take(i as int));
        if same_bytes(&cache[i].parent_hash, parent_hash) {
            proof {
                lemma_first_on_prefix(all, i + 1, *parent_hash);
            }
            return Some(i);
        }
        i += 1;
    }
    assert(all.take(i as int) == all);
    None
}

proof fn lemma_first_on_prefix(cache: Seq<CachedSequence>, n: int, parent_hash: B256)
    requires
        0 <= n <= cache.len(),
        first_on(cache.take(n), parent_hash) is Some,
    ensures
        first_on(cache, parent_hash) == first_on(cache.take(n), parent_hash),
    decreases cache.len(),
{
    if n == cache.len() {
        assert(cache.take(n) == cache);
    } else {
        assert(cache.drop_last().take(n) == cache.take(n));
        lemma_first_on_prefix(cache.drop_last(), n, parent_hash);
    }
}

/// Keeps track of the block that is being received and of the last complete ones.
///
/// A flashblock that starts a new block completes the one before: its sequence is kept and
/// published. For the local chain tip, the manager picks the sequence to build on it.
pub struct SequenceManager {
    pending: FlashBlockPendingSequence,
    completed_cache: AllocRingBuffer<CachedSequence>,
    block_broadcaster: SequenceBroadcaster,
    compute_state_root: bool,
}

/// What a [`SequenceManager`] holds.
#[verifier::ext_equal]
pub struct ManagerView {
    /// The block that is being received.
    pub pending: PendingView,
    /// The complete sequences that are kept, oldest first.
    pub cache: Seq<CachedSequence>,
    /// How many complete sequences can be kept.
    pub capacity: nat,
    /// The complete sequences that were published, oldest first.
    pub sent: Seq<FlashBlockCompleteSequence>,
    /// How many subscribers there were each time they were counted, oldest first.
    pub counted: Seq<usize>,
    /// The channel on which they were published.
    pub channel: broadcast::Sender<FlashBlockCompleteSequence>,
    /// Whether builds may compute state roots.
    pub compute_state_root: bool,
}

impl View for SequenceManager {
    type V = ManagerView;

    closed spec fn view(&self) -> ManagerView {
        ManagerView {
            pending: self.pending@,
            cache: ring_entries(self.completed_cache),
            capacity: ring_capacity(self.completed_cache),
            sent: self.block_broadcaster.sent(),
            counted: self.block_broadcaster.counted(),
            channel: self.block_broadcaster.channel(),
            compute_state_root: self.compute_state_root,
        }
    }
}

impl SequenceManager {
    /// Whether the manager is in order.
    pub open spec fn wf(&self) -> bool {
        self@.wf()
    }

    /// A manager that has received nothing.
    pub fn new(compute_state_root: bool) -> (manager: Self)
        ensures
            manager.wf(),
            manager@.pending.blocks == Map::<u64, FlashBlock>::empty(),
            manager@.pending.outcome is None,
            manager@.pending.reads is None,
            manager@.pending.sent == Seq::<FlashBlockCompleteSequence>::empty(),
            manager@.pending.counted == Seq::<usize>::empty(),
            manager@.cache == Seq::<CachedSequence>::empty(),
            manager@.sent == Seq::<FlashBlockCompleteSequence>::empty(),
            manager@.counted == Seq::<usize>::empty(),
            channel_capacity(manager@.channel) == CHANNEL_SIZE,
            channel_capacity(manager@.pending.channel) == CHANNEL_SIZE,
            manager@.compute_state_root == compute_state_root,
    {
        SequenceManager {
            pending: FlashBlockPendingSequence::new(),
            completed_cache: new_ring(CACHE_SIZE),
            block_broadcaster: SequenceBroadcaster::new(),
            compute_state_root,
        }
    }

    /// The sending half of the channel for complete sequences.
    pub fn block_sequence_broadcaster(&self) -> (sender: &broadcast::Sender<
        FlashBlockCompleteSequence,
    >)
        ensures
            *sender == self@.channel,
    {
        self.block_broadcaster.sender()
    }

    /// A new subscriber to complete sequences.
    pub fn subscribe_block_sequence(&self) -> (receiver: broadcast::Receiver<
        FlashBlockCompleteSequence,
    >)
        ensures
            subscribed_to(receiver) == self@.channel,
    {
        self.block_broadcaster.subscribe()
    }

    /// Completes the block that is being received: its sequence is kept, and published to the given
    /// number of subscribers, if there are any.
    pub fn complete_pending(&mut self, receivers: usize) -> (result: Result<(), SequenceError>)
        requires
            old(self).wf(),
        ensures
            final(self).wf(),
            match old(self)@.pending.defect() {
                Some(error) => result == Err::<(), SequenceError>(error) && final(self)@ == (
                ManagerView { pending: old(self)@.pending.cleared(), ..old(self)@ }),
                None => {
                    let entry = final(self)@.cache.last();
                    &&& result is Ok
                    &&& old(self)@.completes_to(entry)
                    &&& final(self)@ == (ManagerView {
                        sent: if receivers > 0 {
                            old(self)@.sent.push(entry.sequence)
                        } else {
                            old(self)@.sent
                        },
                        ..old(self)@.completed(entry)
                    })
                },
            },
    {
        let completed = match self.pending.finalize() {
            Ok(completed) => completed,
            Err(error) => {
                return Err(error);
            },
        };
        let block_number = completed.block_number();
        let parent_hash = completed.payload_base().parent_hash;
        let publish = if receivers > 0 {
            Some(completed.clone())
        } else {
            None
        };
        let entry = CachedSequence {
            block_number,
            parent_hash,
            sequence: completed,
            cached_reads: None,
        };
        push(&mut self.completed_cache, entry);
        proof {
            lemma_pushed(old(self)@.cache, CACHE_SIZE as nat, entry);
        }
        if let Some(sequence) = publish {
            let _ = self.block_broadcaster.send(sequence);
        }
        Ok(())
    }

    /// Receives a flashblock.
    ///
    /// One that starts a new block first completes the block that was being received, if there was
    /// one: it is kept and, if anybody subscribes, published at once, whether or not its state root
    /// is known. If that block cannot be completed, it is dropped, and so is the flashblock.
    pub fn insert_flashblock(&mut self, flashblock: FlashBlock) -> (result: Result<
        (),
        SequenceError,
    >)
        requires
            old(self).wf(),
        ensures
            final(self).wf(),
            old(self)@.receives(flashblock, final(self)@, result),
    {
        if flashblock.index == 0 && self.pending.count() > 0 {
            let receivers = self.block_broadcaster.receiver_count();
            if let Err(error) = self.complete_pending(receivers) {
                return Err(error);
            }
        }
        self.pending.insert(flashblock);
        Ok(())
    }

    /// The block that is being received.
    pub fn pending(&self) -> (pending: &FlashBlockPendingSequence)
        ensures
            pending@ == self@.pending,
    {
        &self.pending
    }

    /// The sequence to build on a block: the one that is being received, if it builds on that
    /// block, or else the first kept one that does.
    fn select(&self, tip_hash: &B256) -> (selection: Option<Selection<'_>>)
        requires
            self.wf(),
        ensures
            match selection {
                Some(selection) => self@.buildable(*tip_hash) matches Some(buildable)
                    && buildable.blocks.len() > 0 && selection.base == buildable.base
                    && selection.flashblocks@.unref() == buildable.blocks && same_reads(
                    selection.cached_state,
                    buildable.cached_state,
                ),
                None => self@.buildable(*tip_hash) is None,
            },
    {
        if let Some(base) = self.pending.payload_base() {
            if same_bytes(&base.parent_hash, tip_hash) {
                let cached_state = match self.pending.cached_reads() {
                    Some(reads) => Some((base.parent_hash, reads.clone())),
                    None => None,
                };
                proof {
                    lemma_not_empty(self@.pending.blocks);
                }
                return Some(
                    Selection { base, flashblocks: self.pending.flashblocks(), cached_state },
                );
            }
        }
        let cache = entries(&self.completed_cache);
        let position = match position_on(&cache, tip_hash) {
            Some(position) => position,
            None => {
                return None;
            },
        };
        proof {
            lemma_first_on(self@.cache, *tip_hash);
            assert(cache@.unref()[position as int] == *cache@[position as int]);
        }
        let cached = cache[position];
        let cached_state = match &cached.cached_reads {
            Some(reads) => Some((cached.parent_hash, reads.clone())),
            None => None,
        };
        Some(
            Selection {
                base: cached.sequence.payload_base().clone(),
                flashblocks: references(&*cached.sequence),
                cached_state,
            },
        )
    }

    /// The arguments for a picked sequence, given its recovered transactions.
    fn arguments(
        &self,
        selection: Selection<'_>,
        tip_timestamp: u64,
        transactions: Vec<EncodedTransaction>,
    ) -> (args: BuildArgs)
        requires
            selection.flashblocks@.len() > 0,
            timely(selection.base, tip_timestamp),
        ensures
            args.transactions == transactions,
            args.are_for(
                Buildable {
                    base: selection.base,
                    blocks: selection.flashblocks@.unref(),
                    cached_state: selection.cached_state,
                },
                tip_timestamp,
                self@.compute_state_root,
            ),
    {
        let last = selection.flashblocks[selection.flashblocks.len() - 1];
        let block_time_ms: u64 = (selection.base.timestamp - tip_timestamp) * 1000;
        let expected_final: u64 = block_time_ms / FLASHBLOCK_BLOCK_TIME;
        let compute_state_root = self.compute_state_root && is_zero(&last.diff.state_root)
            && last.index >= expected_final.saturating_sub(1);
        BuildArgs {
            transactions,
            last_flashblock_index: last.index,
            last_flashblock_hash: last.diff.block_hash,
            compute_state_root,
            base: selection.base,
            cached_state: selection.cached_state,
        }
    }

    /// Whether [`SequenceManager::next_buildable_args`] can be asked for a tip: what it would build
    /// on the tip, if anything, is not older than the tip, nor younger by more than 64 bits of
    /// milliseconds.
    pub fn is_timely(&self, tip_hash: B256, tip_timestamp: u64) -> (fits: bool)
        requires
            self.wf(),
        ensures
            fits == self@.timely(tip_hash, tip_timestamp),
    {
        match self.select(&tip_hash) {
            Some(selection) => tip_timestamp <= selection.base.timestamp && (
            selection.base.timestamp - tip_timestamp) <= u64::MAX / 1000,
            None => true,
        }
    }

    /// The arguments for the next build on the local chain tip, given what the transactions of the
    /// sequence to build were recovered to.
    ///
    /// `None` if there is nothing to build on the tip, or if the transactions could not be
    /// recovered.
    pub fn buildable_args(
        &self,
        tip_hash: B256,
        tip_timestamp: u64,
        transactions: Option<Vec<EncodedTransaction>>,
    ) -> (result: Option<BuildArgs>)
        requires
            self.wf(),
            self@.timely(tip_hash, tip_timestamp),
        ensures
            match self@.buildable(tip_hash) {
                Some(buildable) => match transactions {
                    Some(transactions) => result matches Some(args) && args.transactions
                        == transactions && args.are_for(
                        buildable,
                        tip_timestamp,
                        self@.compute_state_root,
                    ),
                    None => result is None,
                },
                None => result is None,
            },
    {
        match (self.select(&tip_hash), transactions) {
            (Some(selection), Some(transactions)) => Some(
                self.arguments(selection, tip_timestamp, transactions),
            ),
            _ => None,
        }
    }

    /// The arguments for the next build on the local chain tip.
    ///
    /// The sequence that is being received is built if it is on top of the tip, or else the first
    /// kept one that is. `None` if there is none, or if a transaction of it cannot be decoded or
    /// its signer not be found. Transactions are recovered only now, when they are needed.
    pub fn next_buildable_args(&self, tip_hash: B256, tip_timestamp: u64) -> (result: Option<
        BuildArgs,
    >)
        requires
            self.wf(),
            self@.timely(tip_hash, tip_timestamp),
        ensures
            match self@.buildable(tip_hash) {
                Some(buildable) => {
                    let transactions = transactions_of(buildable.blocks);
                    &&& result is Some <==> recoverable(transactions)
                    &&& result matches Some(args) ==> recovers(args.transactions@, transactions)
                        && args.are_for(buildable, tip_timestamp, self@.compute_state_root)
                },
                None => result is None,
            },
    {
        let selection = match self.select(&tip_hash) {
            Some(selection) => selection,
            None => {
                return None;
            },
        };
        match recover_transactions(&selection.flashblocks) {
            Some(transactions) => Some(self.arguments(selection, tip_timestamp, transactions)),
            None => None,
        }
    }

    /// Records what came of a build on the given block: for the sequence that is being received,
    /// if it builds on that block, or else for the first kept one that does. A build without a
    /// result changes nothing.
    pub fn on_build_complete(
        &mut self,
        parent_hash: B256,
        result: Option<(PendingFlashBlock, CachedReads)>,
    )
        requires
            old(self).wf(),
        ensures
            final(self).wf(),
            final(self)@ == match result {
                Some((block, reads)) => old(self)@.built(parent_hash, block.outcome(), reads),
                None => old(self)@,
            },
    {
        let (block, cached_reads) = match result {
            Some(result) => result,
            None => {
                return;
            },
        };
        let execution_outcome = match block.computed_state_root {
            Some(state_root) => Some(
                SequenceExecutionOutcome { block_hash: block.block_hash, state_root },
            ),
            None => None,
        };
        let on_pending = match self.pending.payload_base() {
            Some(base) => same_bytes(&base.parent_hash, &parent_hash),
            None => false,
        };
        if on_pending {
            self.pending.set_execution_outcome(execution_outcome);
            self.pending.set_cached_reads(cached_reads);
            return;
        }
        let position = position_on(&entries(&self.completed_cache), &parent_hash);
        if let Some(position) = position {
            proof {
                lemma_first_on(self@.cache, parent_hash);
            }
            let cached = entry_mut(&mut self.completed_cache, position);
            cached.sequence.set_execution_outcome(execution_outcome);
            cached.cached_reads = Some(cached_reads);
        }
    }

    /// Keeps the state after a new canonical block for the first kept sequence that builds on it.
    pub fn on_new_canonical_tip(&mut self, tip_hash: B256, cached: CachedReads)
        requires
            old(self).wf(),
        ensures
            final(self).wf(),
            final(self)@ == old(self)@.prefilled(tip_hash, cached),
    {
        let position = position_on(&entries(&self.completed_cache), &tip_hash);
        if let Some(position) = position {
            proof {
                lemma_first_on(self@.cache, tip_hash);
            }
            let entry = entry_mut(&mut self.completed_cache, position);
            entry.cached_reads = Some(cached);
        }
    }
}

/// Whether the timing of a build can be computed: the tip is not younger than the block, and the
/// time between them fits 64 bits in milliseconds.
pub open spec fn timely(base: FlashBlockBase, tip_timestamp: u64) -> bool {
    &&& tip_timestamp <= base.timestamp
    &&& (base.timestamp - tip_timestamp) * 1000 <= u64::MAX
}

/// How many flashblocks are expected to follow the first one: as many as fit between the tip and
/// the block.
pub open spec fn expected_final_flashblock(base: FlashBlockBase, tip_timestamp: u64) -> int {
    (base.timestamp - tip_timestamp) * 1000 / FLASHBLOCK_BLOCK_TIME as int
}

/// Whether the state root is worth computing after a flashblock: the builder did not provide it,
/// and the flashblock is the last expected one, the one before it, or a later one.
pub open spec fn root_is_due(base: FlashBlockBase, tip_timestamp: u64, last: FlashBlock) -> bool {
    &&& all_zero(last.diff.state_root)
    &&& last.index >= expected_final_flashblock(base, tip_timestamp) - 1
}

/// What a build needs to know.
#[derive(Debug)]
pub struct BuildArgs {
    /// The properties of the block to build.
    pub base: FlashBlockBase,
    /// The transactions to execute.
    pub transactions: Vec<EncodedTransaction>,
    /// State read by an earlier build, and the block that it belongs to.
    pub cached_state: Option<(B256, CachedReads)>,
    /// Index of the last flashblock.
    pub last_flashblock_index: u64,
    /// Block hash of the last flashblock.
    pub last_flashblock_hash: B256,
    /// Whether to compute the state root.
    pub compute_state_root: bool,
}

impl BuildArgs {
    /// Whether the arguments, but for the transactions, are those for a sequence.
    pub open spec fn are_for(
        self,
        buildable: Buildable,
        tip_timestamp: u64,
        compute_state_root: bool,
    ) -> bool {
        let last = buildable.blocks.last();
        &&& self.base == buildable.base
        &&& same_reads(self.cached_state, buildable.cached_state)
        &&& self.last_flashblock_index == last.index
        &&& self.last_flashblock_hash == last.diff.block_hash
        &&& self.compute_state_root == (compute_state_root && root_is_due(
            buildable.base,
            tip_timestamp,
            last,
        ))
    }
}

/// The sequence that was picked for a build.
struct Selection<'a> {
    base: FlashBlockBase,
    flashblocks: Vec<&'a FlashBlock>,
    cached_state: Option<(B256, CachedReads)>,
}

fn references(flashblocks: &Vec<FlashBlock>) -> (refs: Vec<&FlashBlock>)
    ensures
        refs@.unref() == flashblocks@,
{
    let mut refs: Vec<&FlashBlock> = Vec::new();
    let mut i: usize = 0;
    while i < flashblocks.len()
        invariant
            i <= flashblocks.len(),
            refs@.unref() == flashblocks@.take(i as int),
        decreases flashblocks.len() - i,
    {
        let ghost before = refs@;
        refs.push(&flashblocks[i]);
        assert(refs@.unref() == before.unref().push(flashblocks@[i as int]));
        i += 1;
    }
    refs
}

/// A sequence that can be built on a block.
pub struct Buildable {
    /// The properties of the block to build.
    pub base: FlashBlockBase,
    /// The flashblocks in order.
    pub blocks: Seq<FlashBlock>,
    /// State read by an earlier build, and the block that it belongs to.
    pub cached_state: Option<(B256, CachedReads)>,
}

/// Whether two caches belong to the same block and hold the same.
pub open spec fn same_reads(
    a: Option<(B256, CachedReads)>,
    b: Option<(B256, CachedReads)>,
) -> bool {
    match (a, b) {
        (Some(a), Some(b)) => a.0 == b.0 && a.1@ == b.1@,
        (None, None) => true,
        _ => false,
    }
}

impl ManagerView {
    /// Whether the state is in order: the flashblocks that are being received can be of one block,
    /// [`CACHE_SIZE`] sequences can be kept, no more are, and each is kept under its own number and
    /// parent.
    pub open spec fn wf(self) -> bool {
        &&& one_payload(self.pending.blocks)
        &&& self.capacity == CACHE_SIZE
        &&& self.cache.len() <= self.capacity
        &&& forall|i: int| 0 <= i < self.cache.len() ==> (#[trigger] self.cache[i]).wf()
    }

    /// Whether an entry is what is kept of the block that is being received.
    pub open spec fn completes_to(self, entry: CachedSequence) -> bool {
        &&& self.pending.completes_to(entry.sequence)
        &&& entry.wf()
        &&& entry.cached_reads is None
    }

    /// The sequence to build on a block: the one that is being received, if it builds on that
    /// block, or else the first kept one that does.
    pub open spec fn buildable(self, tip_hash: B256) -> Option<Buildable> {
        if self.pending.base() matches Some(base) && base.parent_hash == tip_hash {
            Some(
                Buildable {
                    base: self.pending.base()->0,
                    blocks: in_order(self.pending.blocks),
                    cached_state: match self.pending.reads {
                        Some(reads) => Some((tip_hash, reads)),
                        None => None,
                    },
                },
            )
        } else {
            match first_on(self.cache, tip_hash) {
                Some(position) => Some(
                    Buildable {
                        base: self.cache[position].sequence.base(),
                        blocks: self.cache[position].sequence.blocks(),
                        cached_state: match self.cache[position].cached_reads {
                            Some(reads) => Some((tip_hash, reads)),
                            None => None,
                        },
                    },
                ),
                None => None,
            }
        }
    }

    /// How a flashblock is received: what the state is afterwards, and what is answered.
    ///
    /// Where a block is completed, the channel is asked for its subscribers, and the completed
    /// sequence is published exactly if it reports any.
    pub open spec fn receives(
        self,
        flashblock: FlashBlock,
        after: Self,
        result: Result<(), SequenceError>,
    ) -> bool {
        if flashblock.index != 0 || self.pending.blocks == Map::<u64, FlashBlock>::empty() {
            &&& result is Ok
            &&& after == ManagerView { pending: self.pending.inserted(flashblock), ..self }
        } else {
            let receivers = after.counted.last();
            &&& reported(self.channel, receivers)
            &&& match self.pending.defect() {
                Some(error) => {
                    &&& result == Err::<(), SequenceError>(error)
                    &&& after == ManagerView {
                        pending: self.pending.cleared(),
                        counted: self.counted.push(receivers),
                        ..self
                    }
                },
                None => {
                    let entry = after.cache.last();
                    &&& result is Ok
                    &&& self.completes_to(entry)
                    &&& after == ManagerView {
                        pending: self.pending.inserted(flashblock),
                        sent: if receivers > 0 {
                            self.sent.push(entry.sequence)
                        } else {
                            self.sent
                        },
                        counted: self.counted.push(receivers),
                        ..self.completed(entry)
                    }
                },
            }
        }
    }

    /// Whether the timing of the next build on the tip, if there is one, can be computed.
    pub open spec fn timely(self, tip_hash: B256, tip_timestamp: u64) -> bool {
        self.buildable(tip_hash) matches Some(buildable) ==> timely(buildable.base, tip_timestamp)
    }

    /// The state once a build on the given block has succeeded.
    pub open spec fn built(
        self,
        parent_hash: B256,
        outcome: Option<SequenceExecutionOutcome>,
        reads: CachedReads,
    ) -> Self {
        if self.pending.base() matches Some(base) && base.parent_hash == parent_hash {
            ManagerView {
                pending: PendingView { outcome, reads: Some(reads), ..self.pending },
                ..self
            }
        } else {
            match first_on(self.cache, parent_hash) {
                Some(position) => {
                    let entry = self.cache[position];
                    let updated = CachedSequence {
                        sequence: entry.sequence.with_outcome(outcome),
                        cached_reads: Some(reads),
                        ..entry
                    };
                    ManagerView { cache: self.cache.update(position, updated), ..self }
                },
                None => self,
            }
        }
    }

    /// The state once a new canonical block is known.
    pub open spec fn prefilled(self, tip_hash: B256, reads: CachedReads) -> Self {
        match first_on(self.cache, tip_hash) {
            Some(position) => {
                let updated = CachedSequence {
                    cached_reads: Some(reads),
                    ..self.cache[position]
                };
                ManagerView { cache: self.cache.update(position, updated), ..self }
            },
            None => self,
        }
    }

    /// The state once the block that is being received has been completed and kept.
    pub open spec fn completed(self, entry: CachedSequence) -> Self {
        ManagerView {
            pending: self.pending.cleared(),
            cache: pushed(self.cache, self.capacity, entry),
            ..self
        }
    }
}

} // verus!
