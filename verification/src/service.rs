//! When blocks are built.
//!
//! The service answers events: a flashblock has arrived, the canonical chain has a new tip, a
//! build has finished. After each it may be time to start a build.

use tokio::sync::broadcast;
use vstd::prelude::*;

use crate::broadcast::{channel_capacity, subscribed_to, CHANNEL_SIZE};
use crate::cache::{BuildArgs, CachedSequence, ManagerView, PendingFlashBlock, SequenceManager};
use crate::flashblock::{transactions_of, FlashBlock};
use crate::primitives::B256;
use crate::reads::{reads_after, BundleAccount, CachedReads};
use crate::sequence::{FlashBlockCompleteSequence, SequenceError};
use crate::transactions::{recoverable, recovers};

verus! {

/// The build that is going on.
#[derive(Clone, Copy, Debug)]
pub struct FlashBlockBuildInfo {
    /// Hash of the block that is built on.
    pub parent_hash: B256,
    /// Index of the last flashblock that is built.
    pub index: u64,
    /// Number of the block that is built.
    pub block_number: u64,
}

/// A build to start.
#[derive(Debug)]
pub struct BuildJob {
    /// What to tell others about it.
    pub info: FlashBlockBuildInfo,
    /// What to build.
    pub args: BuildArgs,
}

/// The tip of the local chain.
#[derive(Clone, Copy, Debug)]
pub struct LatestHeader {
    /// Hash of the block.
    pub hash: B256,
    /// Timestamp of the block, in seconds.
    pub timestamp: u64,
}

/// A new tip of the canonical chain.
#[derive(Debug)]
pub struct CanonicalTip {
    /// Hash of the block.
    pub hash: B256,
    /// The accounts that the new blocks touched.
    pub accounts: Vec<BundleAccount>,
}

/// The block to build is older than the tip that it would be built on, or younger by more than can
/// be computed.
#[derive(Clone, Copy, Debug, PartialEq, Eq, Structural)]
pub struct Untimely;

/// Decides when blocks are built, and of which flashblocks.
pub struct FlashBlockService {
    sequences: SequenceManager,
    rebuild: bool,
    building: bool,
}

/// What a [`FlashBlockService`] holds.
#[verifier::ext_equal]
pub struct ServiceView {
    /// The flashblocks.
    pub sequences: ManagerView,
    /// Whether something changed that may allow a build, and none has been tried since.
    pub rebuild: bool,
    /// Whether a build is going on.
    pub building: bool,
}

impl View for FlashBlockService {
    type V = ServiceView;

    closed spec fn view(&self) -> ServiceView {
        ServiceView {
            sequences: self.sequences@,
            rebuild: self.rebuild,
            building: self.building,
        }
    }
}

/// The announcement of a build.
pub open spec fn announced(args: BuildArgs) -> FlashBlockBuildInfo {
    FlashBlockBuildInfo {
        parent_hash: args.base.parent_hash,
        index: args.last_flashblock_index,
        block_number: args.base.block_number,
    }
}

impl ServiceView {
    /// Whether a build on the given tip can be tried.
    pub open spec fn can_try(self, latest: Option<LatestHeader>) -> bool {
        !self.building ==> (latest matches Some(tip) ==> self.sequences.timely(
            tip.hash,
            tip.timestamp,
        ))
    }

    /// How a flashblock is received: what the state is afterwards, and what is answered.
    pub open spec fn receives(
        self,
        flashblock: FlashBlock,
        after: Self,
        result: Result<(), SequenceError>,
    ) -> bool {
        &&& self.sequences.receives(flashblock, after.sequences, result)
        &&& after.rebuild == (self.rebuild || result is Ok)
        &&& after.building == self.building
    }

    /// The state after the canonical chain has changed, to a new tip if it has one.
    pub open spec fn follows(self, tip: Option<CanonicalTip>, after: Self) -> bool {
        &&& match tip {
            Some(tip) => exists|reads: CachedReads|
                reads@ == reads_after(tip.accounts@) && after.sequences
                    == #[trigger] self.sequences.prefilled(tip.hash, reads),
            None => after.sequences == self.sequences,
        }
        &&& after.rebuild == (self.rebuild || tip is Some)
        &&& after.building == self.building
    }

    /// The state after a build has finished, with or without a block.
    pub open spec fn finished(self, result: Option<(PendingFlashBlock, CachedReads)>) -> Self {
        ServiceView {
            sequences: match result {
                Some((block, reads)) => self.sequences.built(
                    block.parent_hash,
                    block.outcome(),
                    reads,
                ),
                None => self.sequences,
            },
            rebuild: false,
            building: false,
        }
    }

    /// How a build is tried: what the state is afterwards, and which build is started.
    pub open spec fn tries(
        self,
        latest: Option<LatestHeader>,
        after: Self,
        job: Option<BuildJob>,
    ) -> bool {
        &&& after == ServiceView {
            rebuild: false,
            building: self.building || job is Some,
            ..self
        }
        &&& match (self.building, latest) {
            (false, Some(tip)) => match self.sequences.buildable(tip.hash) {
                Some(buildable) => {
                    let transactions = transactions_of(buildable.blocks);
                    &&& job is Some <==> recoverable(transactions)
                    &&& job matches Some(job) ==> recovers(job.args.transactions@, transactions)
                        && job.args.are_for(
                        buildable,
                        tip.timestamp,
                        self.sequences.compute_state_root,
                    ) && job.info == announced(job.args)
                },
                None => job is None,
            },
            _ => job is None,
        }
    }
}

impl FlashBlockService {
    /// Whether the flashblocks are in order.
    pub open spec fn wf(&self) -> bool {
        self@.sequences.wf()
    }

    /// A service that has received nothing.
    pub fn new(compute_state_root: bool) -> (service: Self)
        ensures
            service.wf(),
            service@.sequences.pending.blocks == Map::<u64, FlashBlock>::empty(),
            service@.sequences.pending.outcome is None,
            service@.sequences.pending.reads is None,
            service@.sequences.pending.sent == Seq::<FlashBlockCompleteSequence>::empty(),
            service@.sequences.pending.counted == Seq::<usize>::empty(),
            service@.sequences.cache == Seq::<CachedSequence>::empty(),
            service@.sequences.sent == Seq::<FlashBlockCompleteSequence>::empty(),
            service@.sequences.counted == Seq::<usize>::empty(),
            channel_capacity(service@.sequences.channel) == CHANNEL_SIZE,
            channel_capacity(service@.sequences.pending.channel) == CHANNEL_SIZE,
            service@.sequences.compute_state_root == compute_state_root,
            !service@.rebuild,
            !service@.building,
    {
        FlashBlockService {
            sequences: SequenceManager::new(compute_state_root),
            rebuild: false,
            building: false,
        }
    }

    /// The sending half of the channel for complete sequences.
    pub fn block_sequence_broadcaster(&self) -> (sender: &broadcast::Sender<
        FlashBlockCompleteSequence,
    >)
        ensures
            *sender == self@.sequences.channel,
    {
        self.sequences.block_sequence_broadcaster()
    }

    /// A new subscriber to complete sequences.
    pub fn subscribe_block_sequence(&self) -> (receiver: broadcast::Receiver<
        FlashBlockCompleteSequence,
    >)
        ensures
            subscribed_to(receiver) == self@.sequences.channel,
    {
        self.sequences.subscribe_block_sequence()
    }

    /// A build has finished, with or without a block. Tells whether there is a block to publish.
    pub fn on_job_complete(&mut self, result: Option<(PendingFlashBlock, CachedReads)>) -> (publish:
        bool)
        requires
            old(self).wf(),
        ensures
            final(self).wf(),
            publish == (result is Some),
            final(self)@ == old(self)@.finished(result),
    {
        self.building = false;
        self.rebuild = false;
        match result {
            Some((block, reads)) => {
                self.sequences.on_build_complete(block.parent_hash, Some((block, reads)));
                true
            },
            None => false,
        }
    }

    /// How many flashblocks the block that is being received has in all, if the given flashblock
    /// starts the next one.
    pub fn last_flashblock_length(&self, flashblock: &FlashBlock) -> (length: Option<usize>)
        ensures
            match length {
                Some(length) => flashblock.index == 0 && length
                    == self@.sequences.pending.blocks.len(),
                None => flashblock.index != 0,
            },
    {
        if flashblock.index == 0 {
            Some(self.sequences.pending().count())
        } else {
            None
        }
    }

    /// A flashblock has arrived.
    pub fn on_flashblock(&mut self, flashblock: FlashBlock) -> (result: Result<(), SequenceError>)
        requires
            old(self).wf(),
        ensures
            final(self).wf(),
            old(self)@.receives(flashblock, final(self)@, result),
    {
        let result = self.sequences.insert_flashblock(flashblock);
        if result.is_ok() {
            self.rebuild = true;
        }
        result
    }

    /// The canonical chain has changed, to a new tip if it has one.
    pub fn on_canonical_state(&mut self, tip: Option<CanonicalTip>)
        requires
            old(self).wf(),
        ensures
            final(self).wf(),
            old(self)@.follows(tip, final(self)@),
    {
        if let Some(tip) = tip {
            let reads = CachedReads::from_bundle(tip.accounts);
            self.sequences.on_new_canonical_tip(tip.hash, reads);
            self.rebuild = true;
        }
    }

    /// Whether it is time to try a build.
    pub fn needs_build(&self) -> (needed: bool)
        ensures
            needed == self@.rebuild,
    {
        self.rebuild
    }

    /// Whether [`FlashBlockService::try_build`] can be asked for a tip.
    pub fn is_timely(&self, latest: Option<LatestHeader>) -> (fits: bool)
        requires
            self.wf(),
        ensures
            fits == self@.can_try(latest),
    {
        if self.building {
            return true;
        }
        match latest {
            Some(tip) => self.sequences.is_timely(tip.hash, tip.timestamp),
            None => true,
        }
    }

    /// Starts a build with the given arguments, if there are any. None may be going on.
    pub fn start_build(&mut self, args: Option<BuildArgs>) -> (job: Option<BuildJob>)
        requires
            !old(self)@.building,
        ensures
            final(self)@.sequences == old(self)@.sequences,
            final(self)@.rebuild == old(self)@.rebuild,
            match args {
                Some(args) => job == Some(BuildJob { info: announced(args), args })
                    && final(self)@.building,
                None => job is None && final(self)@.building == old(self)@.building,
            },
    {
        match args {
            Some(args) => {
                self.building = true;
                let info = FlashBlockBuildInfo {
                    parent_hash: args.base.parent_hash,
                    index: args.last_flashblock_index,
                    block_number: args.base.block_number,
                };
                Some(BuildJob { info, args })
            },
            None => None,
        }
    }

    /// Tries to build on the tip of the local chain. There is no build while another one is going
    /// on, nor without a tip, nor if nothing can be built on it.
    ///
    /// However it ends, it need not be tried again before something changes.
    pub fn try_build(&mut self, latest: Option<LatestHeader>) -> (job: Option<BuildJob>)
        requires
            old(self).wf(),
            old(self)@.can_try(latest),
        ensures
            final(self).wf(),
            old(self)@.tries(latest, final(self)@, job),
    {
        self.rebuild = false;
        if self.building {
            return None;
        }
        match latest {
            Some(tip) => {
                let args = self.sequences.next_buildable_args(tip.hash, tip.timestamp);
                self.start_build(args)
            },
            None => None,
        }
    }

    /// Tries to build on the tip of the local chain, as [`FlashBlockService::try_build`] does, or
    /// tells that the timing of the build cannot be computed. Either way, it need not be tried again
    /// before something changes.
    pub fn try_build_if_timely(&mut self, latest: Option<LatestHeader>) -> (result: Result<
        Option<BuildJob>,
        Untimely,
    >)
        requires
            old(self).wf(),
        ensures
            final(self).wf(),
            match result {
                Ok(job) => old(self)@.can_try(latest) && old(self)@.tries(
                    latest,
                    final(self)@,
                    job,
                ),
                Err(_) => !old(self)@.can_try(latest) && final(self)@ == (ServiceView {
                    rebuild: false,
                    ..old(self)@
                }),
            },
    {
        if self.is_timely(latest) {
            Ok(self.try_build(latest))
        } else {
            self.rebuild = false;
            Err(Untimely)
        }
    }
}

} // verus!
