//! What each operation does, in terms of what goes in and what comes out.

use std::sync::Arc;

use vstd::prelude::*;

use crate::broadcast::reported;
use crate::cache::{
    first_on, lemma_first_on, root_is_due, BuildArgs, ManagerView, PendingFlashBlock,
    SequenceManager,
};
use crate::consensus::{
    execution_data, known_outcome, unchecked_execution_data, ExecutionData,
};
use crate::flashblock::{encoded, transactions_of, FlashBlock, FlashBlockBase};
use crate::laws::{happens, is_run, law_successive, Event};
use crate::order::{ascending, in_order, lemma_listing_exists, lemma_not_empty};
use crate::primitives::{all_zero, Address, B256, U256};
use crate::reads::{
    last_entries, present_storage, reads_after, AccountInfo, BundleAccount, CachedAccount,
    CachedReads, CachedReadsView, StorageSlot,
};
use crate::sequence::{
    defect, FlashBlockCompleteSequence, FlashBlockPendingSequence, PendingView, SequenceError,
    SequenceExecutionOutcome,
};
use crate::service::{BuildJob, CanonicalTip, FlashBlockService, LatestHeader, ServiceView};
use crate::transactions::{
    decoded_transaction, recoverable, recovers, transaction_signer, EncodedTransaction,
};

verus! {

/// Whether two flashblocks have one payload and one block number.
pub open spec fn belong_together(a: FlashBlock, b: FlashBlock) -> bool {
    a.payload_id == b.payload_id && a.metadata.block_number == b.metadata.block_number
}

// ---------------------------------------------------------------------------------------------
// Flashblocks of one block
// ---------------------------------------------------------------------------------------------

/// In order, all flashblocks are listed, each once, with ascending indices.
pub proof fn law_all_in_order(blocks: Map<u64, FlashBlock>)
    requires
        blocks.dom().finite(),
        forall|index: u64| #[trigger] blocks.contains_key(index) ==> blocks[index].index == index,
    ensures
        in_order(blocks).len() == blocks.len(),
        forall|i: int, j: int|
            0 <= i < j < in_order(blocks).len() ==> (#[trigger] in_order(blocks)[i]).index < (
            #[trigger] in_order(blocks)[j]).index,
        forall|i: int|
            0 <= i < in_order(blocks).len() ==> {
                let block = #[trigger] in_order(blocks)[i];
                blocks.contains_key(block.index) && blocks[block.index] == block
            },
        forall|index: u64| #[trigger]
            blocks.contains_key(index) ==> in_order(blocks).contains(blocks[index]),
{
    lemma_listing_exists(blocks.dom());
    let listing = ascending(blocks.dom());
    let ordered = in_order(blocks);
    assert forall|i: int| 0 <= i < ordered.len() implies ordered[i] == blocks[#[trigger] listing[i]]
        && blocks.contains_key(listing[i]) by {
        assert(listing.contains(listing[i]));
        assert(blocks.dom().contains(listing[i]));
    }
    assert forall|i: int, j: int| 0 <= i < j < ordered.len() implies (#[trigger] ordered[i]).index
        < (#[trigger] ordered[j]).index by {
        assert(listing[i] < listing[j]);
    }
    assert forall|i: int| 0 <= i < ordered.len() implies {
        let block = #[trigger] ordered[i];
        blocks.contains_key(block.index) && blocks[block.index] == block
    } by {
        assert(blocks.contains_key(listing[i]));
    }
    assert forall|index: u64| #[trigger] blocks.contains_key(index) implies ordered.contains(
        blocks[index],
    ) by {
        assert(blocks.dom().contains(index));
        assert(listing.contains(index));
        let i = choose|i: int| 0 <= i < listing.len() && listing[i] == index;
        assert(ordered[i] == blocks[index]);
    }
    assert(listing.no_duplicates());
    listing.unique_seq_to_set();
    assert(listing.to_set() == blocks.dom());
}

/// Flashblocks make a complete sequence exactly if there are any, the first holds the properties of
/// the block, the indices count up from zero, and all have one payload and one block number; if
/// not, the error names the first of these that is missing.
pub proof fn law_complete(blocks: Seq<FlashBlock>)
    ensures
        defect(blocks) == Some(SequenceError::NoFlashblocks) <==> blocks.len() == 0,
        defect(blocks) == Some(SequenceError::MissingBase) <==> blocks.len() > 0
            && blocks[0].base is None,
        defect(blocks) == Some(SequenceError::Inconsistent) <==> blocks.len() > 0
            && blocks[0].base is Some && exists|i: int|
            0 <= i < blocks.len() && ((#[trigger] blocks[i]).index != i || blocks[i].payload_id
                != blocks[0].payload_id || blocks[i].metadata.block_number
                != blocks[0].metadata.block_number),
        defect(blocks) != Some(SequenceError::NothingPending),
        defect(blocks) is None <==> blocks.len() > 0 && blocks[0].base is Some && forall|i: int|
            0 <= i < blocks.len() ==> (#[trigger] blocks[i]).index == i && blocks[i].payload_id
                == blocks[0].payload_id && blocks[i].metadata.block_number
                == blocks[0].metadata.block_number,
{
}

/// The first flashblock is the one under index zero, the last one is the one under the highest
/// index, and the properties of the block are those that the first one holds.
pub proof fn law_ends(pending: PendingView)
    requires
        pending.blocks.dom().finite(),
        forall|index: u64| #[trigger]
            pending.blocks.contains_key(index) ==> pending.blocks[index].index == index,
        pending.blocks.contains_key(0) || pending.blocks == Map::<u64, FlashBlock>::empty(),
    ensures
        pending.blocks.contains_key(0) ==> {
            &&& pending.first() == Some(pending.blocks[0])
            &&& pending.base() == pending.blocks[0].base
            &&& pending.last() is Some
            &&& pending.blocks.contains_key(pending.last()->0.index)
            &&& pending.blocks[pending.last()->0.index] == pending.last()->0
            &&& forall|index: u64| #[trigger]
                pending.blocks.contains_key(index) ==> index <= pending.last()->0.index
        },
        pending.blocks == Map::<u64, FlashBlock>::empty() ==> pending.first() is None
            && pending.base() is None && pending.last() is None,
{
    if pending.blocks.contains_key(0) {
        let ordered = in_order(pending.blocks);
        law_all_in_order(pending.blocks);
        lemma_not_empty(pending.blocks);
        assert(ordered[ordered.len() - 1] == ordered.last());
        assert forall|index: u64| #[trigger] pending.blocks.contains_key(index) implies index
            <= ordered.last().index by {
            assert(ordered.contains(pending.blocks[index]));
            let i = choose|i: int| 0 <= i < ordered.len() && ordered[i] == pending.blocks[index];
            if i < ordered.len() - 1 {
                assert(ordered[i].index < ordered[ordered.len() - 1].index);
            }
        }
    }
}

/// A flashblock that follows the first one is kept under its index, in place of an earlier one, if
/// it belongs to the block and payload of the first one, and ignored otherwise. Nothing else
/// changes.
pub proof fn law_follower(pending: PendingView, flashblock: FlashBlock, after: PendingView)
    requires
        flashblock.index != 0,
        pending.receives(flashblock, after),
    ensures
        after.blocks == if pending.blocks.contains_key(0) && belong_together(
            flashblock,
            pending.blocks[0],
        ) {
            pending.blocks.insert(flashblock.index, flashblock)
        } else {
            pending.blocks
        },
        after.outcome == pending.outcome,
        after.reads == pending.reads,
        after.sent == pending.sent,
        after.counted == pending.counted,
        after.channel == pending.channel,
{
}

/// A flashblock with index zero is all that is left, but what was published and the channel. If
/// flashblocks had been received before, the channel is asked for its subscribers; if it reports
/// any and those flashblocks make a complete sequence, that is published, with what came of
/// executing it, and else nothing.
pub proof fn law_start(pending: PendingView, flashblock: FlashBlock, after: PendingView)
    requires
        flashblock.index == 0,
        pending.receives(flashblock, after),
    ensures
        forall|index: u64| #[trigger] after.blocks.contains_key(index) <==> index == 0,
        after.blocks[0] == flashblock,
        after.channel == pending.channel,
        pending.blocks == Map::<u64, FlashBlock>::empty() ==> after.sent == pending.sent
            && after.counted == pending.counted && after.outcome == pending.outcome && after.reads
            == pending.reads,
        pending.blocks != Map::<u64, FlashBlock>::empty() ==> {
            let receivers = after.counted.last();
            &&& after.outcome is None
            &&& after.reads is None
            &&& after.counted == pending.counted.push(receivers)
            &&& reported(pending.channel, receivers)
            &&& receivers > 0 && defect(in_order(pending.blocks)) is None ==> {
                &&& after.sent.len() == pending.sent.len() + 1
                &&& forall|i: int|
                    0 <= i < pending.sent.len() ==> #[trigger] after.sent[i] == pending.sent[i]
                &&& after.sent.last().blocks() == in_order(pending.blocks)
                &&& after.sent.last().outcome() == pending.outcome
            }
            &&& receivers == 0 || defect(in_order(pending.blocks)) is Some ==> after.sent
                == pending.sent
        },
{
    if after.sent.len() == pending.sent.len() + 1 && after.sent.drop_last() == pending.sent {
        assert forall|i: int| 0 <= i < pending.sent.len() implies #[trigger] after.sent[i]
            == pending.sent[i] by {
            assert(after.sent.drop_last()[i] == after.sent[i]);
        }
    }
}

/// Taking the flashblocks out leaves none, nor what was learned of them, and publishes the sequence
/// that they make if there are subscribers and they make one. Without flashblocks nothing changes.
pub proof fn law_taken_out(pending: PendingView, receivers: usize, after: PendingView)
    requires
        pending.publishes(receivers, after),
    ensures
        pending.blocks == Map::<u64, FlashBlock>::empty() ==> after == pending,
        pending.blocks != Map::<u64, FlashBlock>::empty() ==> {
            &&& after.blocks == Map::<u64, FlashBlock>::empty()
            &&& after.outcome is None
            &&& after.reads is None
            &&& after.counted == pending.counted
            &&& after.channel == pending.channel
            &&& receivers > 0 && defect(in_order(pending.blocks)) is None ==> {
                &&& after.sent.len() == pending.sent.len() + 1
                &&& after.sent.take(pending.sent.len() as int) == pending.sent
                &&& after.sent.last().blocks() == in_order(pending.blocks)
                &&& after.sent.last().outcome() == pending.outcome
            }
            &&& receivers == 0 || defect(in_order(pending.blocks)) is Some ==> after.sent
                == pending.sent
        },
{
    if after.sent.len() == pending.sent.len() + 1 {
        assert(after.sent.take(pending.sent.len() as int) == after.sent.drop_last());
    }
}

/// Finalizing leaves nothing of the flashblocks and gives the sequence that they make, with what
/// came of executing it; without flashblocks there is nothing to finalize and nothing changes.
pub proof fn law_finalized(pending: PendingView)
    ensures
        pending.blocks == Map::<u64, FlashBlock>::empty() ==> pending.cleared() == pending
            && pending.defect() == Some(SequenceError::NothingPending),
        pending.blocks != Map::<u64, FlashBlock>::empty() ==> {
            &&& pending.cleared().blocks == Map::<u64, FlashBlock>::empty()
            &&& pending.cleared().outcome is None
            &&& pending.cleared().reads is None
            &&& pending.cleared().sent == pending.sent
            &&& pending.cleared().counted == pending.counted
            &&& pending.cleared().channel == pending.channel
            &&& pending.defect() == defect(in_order(pending.blocks))
        },
        forall|sequence: FlashBlockCompleteSequence| #[trigger]
            pending.completes_to(sequence) ==> sequence.blocks() == in_order(pending.blocks)
                && sequence.outcome() == pending.outcome && defect(sequence.blocks()) is None,
{
}

// ---------------------------------------------------------------------------------------------
// The manager
// ---------------------------------------------------------------------------------------------

/// When a manager is in order.
pub proof fn law_manager_in_order(manager: ManagerView)
    ensures
        manager.wf() <==> {
            &&& manager.pending.blocks.dom().finite()
            &&& manager.pending.blocks.contains_key(0) || manager.pending.blocks == Map::<
                u64,
                FlashBlock,
            >::empty()
            &&& forall|index: u64| #[trigger]
                manager.pending.blocks.contains_key(index) ==> manager.pending.blocks[index].index
                    == index && belong_together(
                    manager.pending.blocks[index],
                    manager.pending.blocks[0],
                )
            &&& manager.capacity == 3
            &&& manager.cache.len() <= 3
            &&& forall|i: int|
                0 <= i < manager.cache.len() ==> {
                    let entry = #[trigger] manager.cache[i];
                    &&& defect(entry.sequence.blocks()) is None
                    &&& entry.block_number == entry.sequence.blocks()[0].metadata.block_number
                    &&& entry.parent_hash == entry.sequence.blocks()[0].base->0.parent_hash
                }
        },
{
}

/// Whatever happens to a manager, its channels and its settings stay, and the sequence that is being
/// received publishes nothing of its own.
pub proof fn law_settings_stay(before: ManagerView, event: Event, after: ManagerView)
    requires
        happens(before, event, after),
    ensures
        after.channel == before.channel,
        after.capacity == before.capacity,
        after.compute_state_root == before.compute_state_root,
        after.pending.channel == before.pending.channel,
        after.pending.sent == before.pending.sent,
        after.pending.counted == before.pending.counted,
{
}

/// A flashblock that follows the first one is never refused. It is kept with those that are being
/// received if it belongs to them, and nothing else changes.
pub proof fn law_manager_follower(
    manager: ManagerView,
    flashblock: FlashBlock,
    after: ManagerView,
    result: Result<(), SequenceError>,
)
    requires
        flashblock.index != 0,
        manager.receives(flashblock, after, result),
    ensures
        result is Ok,
        after.pending.blocks == if manager.pending.blocks.contains_key(0) && belong_together(
            flashblock,
            manager.pending.blocks[0],
        ) {
            manager.pending.blocks.insert(flashblock.index, flashblock)
        } else {
            manager.pending.blocks
        },
        after.pending.outcome == manager.pending.outcome,
        after.pending.reads == manager.pending.reads,
        after.cache == manager.cache,
        after.sent == manager.sent,
        after.counted == manager.counted,
{
}

/// The flashblock that an event brings for the block of the given first one, if any.
pub open spec fn brought(event: Event, first: FlashBlock) -> Option<FlashBlock> {
    match event {
        Event::Received(flashblock, _) => if belong_together(flashblock, first) {
            Some(flashblock)
        } else {
            None
        },
        _ => None,
    }
}

/// Whether, of the flashblocks that events bring for a block, the given one is the latest under its
/// index.
pub open spec fn latest_brought(
    events: Seq<Event>,
    first: FlashBlock,
    flashblock: FlashBlock,
) -> bool {
    exists|i: int|
        0 <= i < events.len() && brought(#[trigger] events[i], first) == Some(flashblock)
            && forall|m: int|
            i < m < events.len() ==> !(brought(#[trigger] events[m], first) matches Some(later)
                && later.index == flashblock.index)
}

/// Whether events bring a flashblock with the given index for a block.
pub open spec fn arrived(events: Seq<Event>, first: FlashBlock, index: u64) -> bool {
    exists|i: int|
        0 <= i < events.len() && (brought(#[trigger] events[i], first) matches Some(flashblock)
            && flashblock.index == index)
}

/// From the first flashblock of a block on, a manager collects exactly the flashblocks of that block
/// that arrive, each under its index and the latest of those with one index, whatever else arrives,
/// is built or becomes the tip in between; and it refuses none.
pub proof fn law_manager_collects(
    states: Seq<ManagerView>,
    events: Seq<Event>,
    first: FlashBlock,
)
    requires
        is_run(states, events),
        events.len() > 0,
        first.index == 0,
        events[0] == Event::Received(first, Ok(())),
        forall|i: int|
            0 < i < events.len() ==> (#[trigger] events[i] matches Event::Received(flashblock, _)
                ==> flashblock.index != 0),
    ensures
        ({
            let collected = states.last().pending.blocks;
            &&& collected.contains_key(0)
            &&& collected[0] == first
            &&& forall|i: int|
                0 <= i < events.len() ==> (brought(#[trigger] events[i], first) matches Some(
                    flashblock,
                ) ==> collected.contains_key(flashblock.index))
            &&& forall|index: u64| #[trigger]
                collected.contains_key(index) ==> collected[index].index == index
                    && latest_brought(events, first, collected[index])
        }),
        forall|i: int|
            0 <= i < events.len() ==> (#[trigger] events[i] matches Event::Received(_, result)
                ==> result is Ok),
    decreases events.len(),
{
    let collected = states.last().pending.blocks;
    let n = events.len() - 1;
    let last = events[n];
    assert(happens(states[n], last, states[n + 1]));
    if n == 0 {
        assert(collected == map![0u64 => first]);
        assert(brought(events[0], first) == Some(first));
    } else {
        let earlier = states.drop_last();
        let before = events.drop_last();
        assert forall|i: int| 0 <= i < before.len() implies happens(
            earlier[i],
            #[trigger] before[i],
            earlier[i + 1],
        ) by {
            assert(before[i] == events[i]);
        }
        assert forall|i: int| 0 < i < before.len() implies (#[trigger] before[i]
            matches Event::Received(flashblock, _) ==> flashblock.index != 0) by {
            assert(before[i] == events[i]);
        }
        law_manager_collects(earlier, before, first);
        let held = earlier.last().pending.blocks;
        assert(collected == match brought(last, first) {
            Some(flashblock) => held.insert(flashblock.index, flashblock),
            None => held,
        });
        assert forall|i: int| 0 <= i < events.len() implies (brought(#[trigger] events[i], first)
            matches Some(flashblock) ==> collected.contains_key(flashblock.index)) by {
            if i < n {
                assert(before[i] == events[i]);
            }
        }
        assert forall|index: u64| #[trigger] collected.contains_key(index) implies collected[index].index
            == index && latest_brought(events, first, collected[index]) by {
            if brought(last, first) matches Some(flashblock) && flashblock.index == index {
                assert(brought(events[n], first) == Some(collected[index]));
            } else {
                assert(held.contains_key(index));
                assert(latest_brought(before, first, held[index]));
                let i = choose|i: int|
                    0 <= i < before.len() && brought(#[trigger] before[i], first) == Some(
                        held[index],
                    ) && forall|m: int|
                        i < m < before.len() ==> !(brought(#[trigger] before[m], first)
                            matches Some(later) && later.index == held[index].index);
                assert(brought(events[i], first) == Some(held[index]));
                assert forall|m: int| i < m < events.len() implies !(brought(
                    #[trigger] events[m],
                    first,
                ) matches Some(later) && later.index == held[index].index) by {
                    if m < n {
                        assert(before[m] == events[m]);
                    }
                }
            }
        }
        assert forall|i: int| 0 <= i < events.len() implies (#[trigger] events[i]
            matches Event::Received(_, result) ==> result is Ok) by {
            if i < n {
                assert(before[i] == events[i]);
            }
        }
    }
}

/// The first flashblock of the next block completes the one that is being received, if that has its
/// properties, one payload and one block number, and the indices below some number: all of its
/// flashblocks are kept in the order of their indices, with the number, the parent and what came of
/// executing them, and published if the channel reports subscribers. The new flashblock is then the
/// only one.
pub proof fn law_manager_completes(
    manager: ManagerView,
    next: FlashBlock,
    after: ManagerView,
    result: Result<(), SequenceError>,
    count: u64,
)
    requires
        next.index == 0,
        manager.receives(next, after, result),
        0 < count,
        forall|index: u64| #[trigger]
            manager.pending.blocks.contains_key(index) <==> index < count,
        forall|index: u64|
            index < count ==> (#[trigger] manager.pending.blocks[index]).index == index
                && belong_together(manager.pending.blocks[index], manager.pending.blocks[0]),
        manager.pending.blocks[0].base is Some,
        manager.cache.len() <= manager.capacity,
        0 < manager.capacity,
    ensures
        result is Ok,
        ({
            let first = manager.pending.blocks[0];
            let entry = after.cache.last();
            &&& after.cache == if manager.cache.len() == manager.capacity {
                manager.cache.drop_first().push(entry)
            } else {
                manager.cache.push(entry)
            }
            &&& entry.sequence.blocks().len() == count
            &&& forall|index: u64|
                index < count ==> entry.sequence.blocks()[index as int]
                    == #[trigger] manager.pending.blocks[index]
            &&& entry.sequence.outcome() == manager.pending.outcome
            &&& entry.block_number == first.metadata.block_number
            &&& entry.parent_hash == first.base->0.parent_hash
            &&& entry.cached_reads is None
            &&& after.counted == manager.counted.push(after.counted.last())
            &&& reported(manager.channel, after.counted.last())
            &&& after.sent == if after.counted.last() > 0 {
                manager.sent.push(entry.sequence)
            } else {
                manager.sent
            }
            &&& after.pending.blocks == map![0u64 => next]
            &&& after.pending.outcome is None
            &&& after.pending.reads is None
        }),
{
    let blocks = manager.pending.blocks;
    let ordered = in_order(blocks);
    law_successive(blocks, count);
    assert(blocks.contains_key(0));
    assert(blocks != Map::<u64, FlashBlock>::empty());
    assert forall|i: int| 0 <= i < ordered.len() implies (#[trigger] ordered[i]) == blocks[i as u64]
        by {}
    assert(ordered[0] == blocks[0]);
    assert forall|i: int| 0 <= i < ordered.len() implies (#[trigger] ordered[i]).index == i
        && ordered[i].payload_id == ordered[0].payload_id && ordered[i].metadata.block_number
        == ordered[0].metadata.block_number by {
        assert(blocks[i as u64].index == i as u64);
    }
    law_complete(ordered);
    assert forall|index: u64| index < count implies after.cache.last().sequence.blocks()[index as int]
        == #[trigger] blocks[index] by {
        assert(ordered[index as int] == blocks[(index as int) as u64]);
    }
}

/// A block whose first flashblock was taken in, of which then all flashblocks arrived, under the
/// indices below some number, is kept in full when the next block starts, and published in full if
/// the channel reports subscribers, whatever else happened in between.
pub proof fn law_block_arrives_and_is_completed(
    states: Seq<ManagerView>,
    events: Seq<Event>,
    first: FlashBlock,
    count: u64,
    next: FlashBlock,
    after: ManagerView,
    result: Result<(), SequenceError>,
)
    requires
        is_run(states, events),
        events.len() > 0,
        first.index == 0,
        first.base is Some,
        events[0] == Event::Received(first, Ok(())),
        forall|i: int|
            0 < i < events.len() ==> (#[trigger] events[i] matches Event::Received(flashblock, _)
                ==> flashblock.index != 0),
        forall|i: int|
            0 <= i < events.len() ==> (brought(#[trigger] events[i], first) matches Some(flashblock)
                ==> flashblock.index < count),
        forall|index: u64| index < count ==> #[trigger] arrived(events, first, index),
        states.last().cache.len() <= states.last().capacity,
        0 < states.last().capacity,
        next.index == 0,
        states.last().receives(next, after, result),
    ensures
        result is Ok,
        ({
            let sequence = after.cache.last().sequence;
            &&& sequence.blocks().len() == count
            &&& forall|i: int|
                0 <= i < count ==> (#[trigger] sequence.blocks()[i]).index == i && latest_brought(
                    events,
                    first,
                    sequence.blocks()[i],
                )
            &&& reported(after.channel, after.counted.last())
            &&& after.counted.last() > 0 ==> after.sent == states.last().sent.push(sequence)
        }),
{
    let manager = states.last();
    let blocks = manager.pending.blocks;
    law_manager_collects(states, events, first);
    assert forall|index: u64| #[trigger] blocks.contains_key(index) <==> index < count by {
        if blocks.contains_key(index) {
            assert(latest_brought(events, first, blocks[index]));
        }
        if index < count {
            assert(arrived(events, first, index));
            let i = choose|i: int|
                0 <= i < events.len() && (brought(#[trigger] events[i], first) matches Some(
                    flashblock,
                ) && flashblock.index == index);
            assert(brought(events[i], first) is Some);
        }
    }
    assert forall|index: u64| index < count implies (#[trigger] blocks[index]).index == index
        && belong_together(blocks[index], blocks[0]) by {
        assert(blocks.contains_key(index));
        assert(latest_brought(events, first, blocks[index]));
    }
    assert(blocks.contains_key(0));
    law_manager_completes(manager, next, after, result, count);
    let sequence = after.cache.last().sequence;
    assert forall|i: int| 0 <= i < count implies (#[trigger] sequence.blocks()[i]).index == i
        && latest_brought(events, first, sequence.blocks()[i]) by {
        let index = i as u64;
        assert(blocks.contains_key(index));
        assert(sequence.blocks()[index as int] == blocks[index]);
    }
}

/// A flashblock that starts a block is refused exactly if flashblocks have been received before that
/// do not make a complete sequence. The answer tells what keeps them from it; they are dropped, with
/// what was learned of them, and nothing is kept or published.
pub proof fn law_manager_refuses(
    manager: ManagerView,
    flashblock: FlashBlock,
    after: ManagerView,
    result: Result<(), SequenceError>,
)
    requires
        flashblock.index == 0,
        manager.receives(flashblock, after, result),
    ensures
        result is Err <==> manager.pending.blocks != Map::<u64, FlashBlock>::empty() && defect(
            in_order(manager.pending.blocks),
        ) is Some,
        result matches Err(error) ==> {
            &&& defect(in_order(manager.pending.blocks)) == Some(error)
            &&& after.pending.blocks == Map::<u64, FlashBlock>::empty()
            &&& after.pending.outcome is None
            &&& after.pending.reads is None
            &&& after.cache == manager.cache
            &&& after.sent == manager.sent
        },
{
}

/// When a sequence that is being received, a manager and a service are in order.
pub proof fn law_in_order(
    pending: FlashBlockPendingSequence,
    manager: SequenceManager,
    service: FlashBlockService,
)
    ensures
        pending.wf() <==> {
            &&& pending@.blocks.dom().finite()
            &&& pending@.blocks.contains_key(0) || pending@.blocks == Map::<
                u64,
                FlashBlock,
            >::empty()
            &&& forall|index: u64| #[trigger]
                pending@.blocks.contains_key(index) ==> pending@.blocks[index].index == index
                    && belong_together(pending@.blocks[index], pending@.blocks[0])
        },
        manager.wf() <==> manager@.wf(),
        service.wf() <==> service@.sequences.wf(),
{
}

// ---------------------------------------------------------------------------------------------
// Builds
// ---------------------------------------------------------------------------------------------

/// Whether the block that is being received builds on the given one.
pub open spec fn pending_is_on(manager: ManagerView, tip_hash: B256) -> bool {
    &&& manager.pending.blocks.contains_key(0)
    &&& manager.pending.blocks[0].base matches Some(base) && base.parent_hash == tip_hash
}

/// Whether the kept sequence at a position is the first one that builds on the given block.
pub open spec fn is_first_on(manager: ManagerView, tip_hash: B256, position: int) -> bool {
    &&& 0 <= position < manager.cache.len()
    &&& manager.cache[position].parent_hash == tip_hash
    &&& forall|i: int|
        0 <= i < position ==> (#[trigger] manager.cache[i]).parent_hash != tip_hash
}

/// The sequence that is built on a tip: the one that is being received, if it is on the tip, with
/// all of its flashblocks and the state that was read for it; or else the first kept one on the tip,
/// with all of its flashblocks and the state that was read for that; or else none.
pub proof fn law_picked(manager: ManagerView, tip_hash: B256)
    ensures
        pending_is_on(manager, tip_hash) ==> {
            &&& manager.buildable(tip_hash) matches Some(picked)
            &&& manager.pending.blocks[0].base == Some(picked.base)
            &&& picked.blocks == in_order(manager.pending.blocks)
            &&& match manager.pending.reads {
                Some(reads) => picked.cached_state == Some((tip_hash, reads)),
                None => picked.cached_state is None,
            }
        },
        forall|position: int|
            !pending_is_on(manager, tip_hash) && #[trigger] is_first_on(manager, tip_hash, position)
                ==> {
                let entry = manager.cache[position];
                &&& manager.buildable(tip_hash) matches Some(picked)
                &&& picked.base == entry.sequence.blocks()[0].base->0
                &&& picked.blocks == entry.sequence.blocks()
                &&& match entry.cached_reads {
                    Some(reads) => picked.cached_state == Some((tip_hash, reads)),
                    None => picked.cached_state is None,
                }
            },
        manager.buildable(tip_hash) is Some ==> pending_is_on(manager, tip_hash) || exists|
            position: int,
        | #[trigger]
            is_first_on(manager, tip_hash, position),
{
    lemma_first_on(manager.cache, tip_hash);
    if first_on(manager.cache, tip_hash) is Some {
        assert(is_first_on(manager, tip_hash, first_on(manager.cache, tip_hash)->0));
    }
    assert forall|position: int|
        !pending_is_on(manager, tip_hash) && #[trigger] is_first_on(
            manager,
            tip_hash,
            position,
        ) implies first_on(manager.cache, tip_hash) == Some(position) by {
        assert(manager.cache[position].parent_hash == tip_hash);
        let found = first_on(manager.cache, tip_hash)->0;
        if found < position {
            assert(manager.cache[found].parent_hash != tip_hash);
        }
    }
}

/// Whether arguments name a flashblock as the last one, and ask for its state root exactly if that
/// may be computed, all 32 bytes of the one that it holds are zero, and its index is at most one
/// below five for each second between the tip and the block.
pub open spec fn names_last(
    args: BuildArgs,
    last: FlashBlock,
    seconds: int,
    compute_state_root: bool,
) -> bool {
    &&& args.last_flashblock_index == last.index
    &&& args.last_flashblock_hash == last.diff.block_hash
    &&& args.compute_state_root <==> {
        &&& compute_state_root
        &&& last.diff.state_root@ == Seq::new(32, |i: int| 0u8)
        &&& last.index + 1 >= 5 * seconds
    }
}

/// The arguments for the block that is being received name the flashblock with the highest index of
/// those that have arrived, with its hash, and decide on the state root by it. They hold the
/// properties of the block, and the state that the last build on the same parent read.
pub proof fn law_arguments_of_pending(
    manager: ManagerView,
    tip_hash: B256,
    tip_timestamp: u64,
    args: BuildArgs,
)
    requires
        manager.pending.blocks.dom().finite(),
        forall|index: u64| #[trigger]
            manager.pending.blocks.contains_key(index) ==> manager.pending.blocks[index].index
                == index,
        pending_is_on(manager, tip_hash),
        manager.pending.blocks[0].base->0.timestamp >= tip_timestamp,
        manager.buildable(tip_hash) matches Some(picked) && args.are_for(
            picked,
            tip_timestamp,
            manager.compute_state_root,
        ),
    ensures
        ({
            let blocks = manager.pending.blocks;
            let base = blocks[0].base->0;
            let highest = args.last_flashblock_index;
            &&& blocks.contains_key(highest)
            &&& forall|index: u64| #[trigger] blocks.contains_key(index) ==> index <= highest
            &&& names_last(
                args,
                blocks[highest],
                base.timestamp - tip_timestamp,
                manager.compute_state_root,
            )
            &&& args.base == base
            &&& match manager.pending.reads {
                Some(reads) => args.cached_state matches Some(state) && state.0 == tip_hash
                    && state.1@ == reads@,
                None => args.cached_state is None,
            }
        }),
{
    let blocks = manager.pending.blocks;
    let ordered = in_order(blocks);
    let base = blocks[0].base->0;
    law_picked(manager, tip_hash);
    law_ends(manager.pending);
    law_all_in_order(blocks);
    lemma_not_empty(blocks);
    assert(ordered[ordered.len() - 1] == ordered.last());
    assert(manager.pending.last() == Some(ordered.last()));
    law_state_root_is_due(base, tip_timestamp, ordered.last());
}

/// The arguments for a kept sequence name the flashblock with the highest index, with its hash, and
/// decide on the state root by it. They hold the properties of the block, and the state that is kept
/// with the sequence.
pub proof fn law_arguments_of_kept(
    manager: ManagerView,
    tip_hash: B256,
    tip_timestamp: u64,
    position: int,
    args: BuildArgs,
)
    requires
        !pending_is_on(manager, tip_hash),
        is_first_on(manager, tip_hash, position),
        defect(manager.cache[position].sequence.blocks()) is None,
        manager.cache[position].sequence.blocks()[0].base->0.timestamp >= tip_timestamp,
        manager.buildable(tip_hash) matches Some(picked) && args.are_for(
            picked,
            tip_timestamp,
            manager.compute_state_root,
        ),
    ensures
        ({
            let entry = manager.cache[position];
            let blocks = entry.sequence.blocks();
            let base = blocks[0].base->0;
            let highest = args.last_flashblock_index;
            &&& highest == blocks.len() - 1
            &&& forall|i: int|
                0 <= i < blocks.len() ==> (#[trigger] blocks[i]).index <= highest
            &&& names_last(
                args,
                blocks[highest as int],
                base.timestamp - tip_timestamp,
                manager.compute_state_root,
            )
            &&& args.base == base
            &&& match entry.cached_reads {
                Some(reads) => args.cached_state matches Some(state) && state.0 == tip_hash
                    && state.1@ == reads@,
                None => args.cached_state is None,
            }
        }),
{
    let blocks = manager.cache[position].sequence.blocks();
    let base = blocks[0].base->0;
    law_picked(manager, tip_hash);
    law_complete(blocks);
    let last = blocks[blocks.len() - 1];
    assert(last == blocks.last());
    law_state_root_is_due(base, tip_timestamp, last);
}

/// The state root is due if the builder left it out and the flashblock is at most one before the
/// last that is expected, at five for each second between the tip and the block.
pub proof fn law_state_root_is_due(base: FlashBlockBase, tip_timestamp: u64, last: FlashBlock)
    requires
        tip_timestamp <= base.timestamp,
    ensures
        root_is_due(base, tip_timestamp, last) <==> last.diff.state_root@ == Seq::new(
            32,
            |i: int| 0u8,
        ) && last.index + 1 >= 5 * (base.timestamp - tip_timestamp),
{
    law_zero(last.diff.state_root);
}

/// The zero hash is the one of 32 zero bytes.
pub proof fn law_zero(hash: B256)
    ensures
        all_zero(hash) <==> hash@ == Seq::new(32, |i: int| 0u8),
{
    let zeros = Seq::new(32, |i: int| 0u8);
    if all_zero(hash) {
        assert forall|i: int| 0 <= i < 32 implies hash@[i] == zeros[i] by {
            assert(hash[i] == 0);
        }
        assert(hash@ =~= zeros);
    }
    if hash@ == zeros {
        assert forall|i: int| 0 <= i < 32 implies #[trigger] hash[i] == 0 by {
            assert(hash@[i] == zeros[i]);
        }
    }
}

/// When the timing of a build can be computed: there is nothing to build on the tip, or the block is
/// not older than the tip and the time between them fits 64 bits in milliseconds.
pub proof fn law_timing(manager: ManagerView, tip_hash: B256, tip_timestamp: u64)
    ensures
        manager.timely(tip_hash, tip_timestamp) <==> match manager.buildable(tip_hash) {
            Some(picked) => tip_timestamp <= picked.base.timestamp && (picked.base.timestamp
                - tip_timestamp) * 1000 <= 0xffff_ffff_ffff_ffff,
            None => true,
        },
{
}

/// What a build computed is known with the state root, and not without.
pub proof fn law_outcome_of_build(block: PendingFlashBlock)
    ensures
        block.outcome() is Some <==> block.computed_state_root is Some,
        block.outcome() matches Some(outcome) ==> outcome.block_hash == block.block_hash
            && block.computed_state_root == Some(outcome.state_root),
{
}

/// A build on a block is recorded for the sequence that is being received, if it is on that block,
/// or else for the first kept one that is: what it computed and what it read, in place of what was
/// recorded before. Nothing else changes, and nothing at all if there is no such sequence.
pub proof fn law_build_is_recorded(
    manager: ManagerView,
    parent_hash: B256,
    outcome: Option<SequenceExecutionOutcome>,
    reads: CachedReads,
)
    ensures
        ({
            let after = manager.built(parent_hash, outcome, reads);
            &&& after.pending.blocks == manager.pending.blocks
            &&& after.cache.len() == manager.cache.len()
            &&& after.sent == manager.sent
            &&& after.counted == manager.counted
            &&& pending_is_on(manager, parent_hash) ==> {
                &&& after.pending.outcome == outcome
                &&& after.pending.reads == Some(reads)
                &&& after.cache == manager.cache
            }
            &&& !pending_is_on(manager, parent_hash) ==> after.pending == manager.pending
            &&& forall|i: int|
                0 <= i < manager.cache.len() ==> {
                    let entry = #[trigger] manager.cache[i];
                    if !pending_is_on(manager, parent_hash) && is_first_on(
                        manager,
                        parent_hash,
                        i,
                    ) {
                        &&& after.cache[i].sequence.outcome() == outcome
                        &&& after.cache[i].sequence.blocks() == entry.sequence.blocks()
                        &&& after.cache[i].cached_reads == Some(reads)
                        &&& after.cache[i].block_number == entry.block_number
                        &&& after.cache[i].parent_hash == entry.parent_hash
                    } else {
                        after.cache[i] == entry
                    }
                }
        }),
{
    lemma_first_on(manager.cache, parent_hash);
    if first_on(manager.cache, parent_hash) is Some {
        let position = first_on(manager.cache, parent_hash)->0;
        manager.cache[position].sequence.lemma_with_outcome(outcome);
        assert(is_first_on(manager, parent_hash, position));
        assert forall|i: int| is_first_on(manager, parent_hash, i) implies i == position by {
            if i < position {
                assert(manager.cache[i].parent_hash != parent_hash);
            } else if i > position {
                assert(manager.cache[position].parent_hash != parent_hash);
            }
        }
    }
}

/// The state after a new tip is kept with the first kept sequence on that tip, in place of what was
/// kept before, and nothing else changes.
pub proof fn law_tip_is_recorded(manager: ManagerView, tip_hash: B256, reads: CachedReads)
    ensures
        ({
            let after = manager.prefilled(tip_hash, reads);
            &&& after.pending == manager.pending
            &&& after.cache.len() == manager.cache.len()
            &&& after.sent == manager.sent
            &&& after.counted == manager.counted
            &&& forall|i: int|
                0 <= i < manager.cache.len() ==> {
                    let entry = #[trigger] manager.cache[i];
                    &&& after.cache[i].sequence == entry.sequence
                    &&& after.cache[i].block_number == entry.block_number
                    &&& after.cache[i].parent_hash == entry.parent_hash
                    &&& after.cache[i].cached_reads == if is_first_on(manager, tip_hash, i) {
                        Some(reads)
                    } else {
                        entry.cached_reads
                    }
                }
        }),
{
    lemma_first_on(manager.cache, tip_hash);
    if first_on(manager.cache, tip_hash) is Some {
        let position = first_on(manager.cache, tip_hash)->0;
        assert(is_first_on(manager, tip_hash, position));
        assert forall|i: int| is_first_on(manager, tip_hash, i) implies i == position by {
            if i < position {
                assert(manager.cache[i].parent_hash != tip_hash);
            } else if i > position {
                assert(manager.cache[position].parent_hash != tip_hash);
            }
        }
    }
}

// ---------------------------------------------------------------------------------------------
// Transactions
// ---------------------------------------------------------------------------------------------

/// The transactions of two runs of flashblocks one after the other are those of the first run and
/// then those of the second.
pub proof fn law_transactions_of_both(a: Seq<FlashBlock>, b: Seq<FlashBlock>)
    ensures
        transactions_of(a + b) == transactions_of(a) + transactions_of(b),
    decreases b.len(),
{
    if b.len() == 0 {
        assert(a + b == a);
        law_no_transactions(b);
        assert(transactions_of(a) + transactions_of(b) == transactions_of(a));
    } else {
        law_transactions_of_both(a, b.drop_last());
        assert((a + b).drop_last() == a + b.drop_last());
        assert((a + b).last() == b.last());
        assert(transactions_of(a + b) == transactions_of(a) + transactions_of(b));
    }
}

/// Without flashblocks there are no transactions.
pub proof fn law_no_transactions(flashblocks: Seq<FlashBlock>)
    requires
        flashblocks.len() == 0,
    ensures
        transactions_of(flashblocks).len() == 0,
{
}

/// The transactions of one flashblock are those that it adds, byte for byte and in order.
pub proof fn law_transactions_of_one(flashblock: FlashBlock)
    ensures
        ({
            let added = flashblock.diff.transactions@;
            let listed = transactions_of(seq![flashblock]);
            &&& listed.len() == added.len()
            &&& forall|j: int| 0 <= j < added.len() ==> #[trigger] listed[j] == added[j]@
        }),
{
    let one = seq![flashblock];
    law_no_transactions(one.drop_last());
    law_encoded(flashblock.diff.transactions@);
    assert(one.last() == flashblock);
    assert(transactions_of(one) == transactions_of(one.drop_last()) + encoded(
        flashblock.diff.transactions@,
    ));
}

/// Encoded transactions are listed byte for byte and in order.
pub proof fn law_encoded(transactions: Seq<Vec<u8>>)
    ensures
        encoded(transactions).len() == transactions.len(),
        forall|j: int|
            0 <= j < transactions.len() ==> #[trigger] encoded(transactions)[j] == transactions[j]@,
{
}

/// How many transactions flashblocks add together.
pub open spec fn transaction_count(flashblocks: Seq<FlashBlock>) -> nat
    decreases flashblocks.len(),
{
    if flashblocks.len() == 0 {
        0
    } else {
        transaction_count(flashblocks.drop_last())
            + flashblocks.last().diff.transactions@.len()
    }
}

/// There are as many transactions as the flashblocks add together.
pub proof fn law_transaction_count(flashblocks: Seq<FlashBlock>)
    ensures
        transactions_of(flashblocks).len() == transaction_count(flashblocks),
    decreases flashblocks.len(),
{
    if flashblocks.len() == 0 {
        law_no_transactions(flashblocks);
    } else {
        let before = flashblocks.drop_last();
        let last = seq![flashblocks.last()];
        law_transaction_count(before);
        law_transactions_of_both(before, last);
        law_transactions_of_one(flashblocks.last());
        assert(before + last == flashblocks);
    }
}

/// Every transaction of every flashblock is listed, behind those of the flashblocks before it and
/// those before it in its own flashblock.
pub proof fn law_every_transaction_is_listed(flashblocks: Seq<FlashBlock>, i: int, j: int)
    requires
        0 <= i < flashblocks.len(),
        0 <= j < flashblocks[i].diff.transactions@.len(),
    ensures
        ({
            let place = transaction_count(flashblocks.take(i)) + j;
            &&& place < transactions_of(flashblocks).len()
            &&& transactions_of(flashblocks)[place] == flashblocks[i].diff.transactions@[j]@
        }),
{
    let before = flashblocks.take(i);
    let one = seq![flashblocks[i]];
    let rest = flashblocks.skip(i + 1);
    law_transaction_count(before);
    law_transactions_of_one(flashblocks[i]);
    law_transactions_of_both(before, one);
    law_transactions_of_both(before + one, rest);
    assert(before + one + rest == flashblocks);
    assert(transactions_of(flashblocks) == transactions_of(before) + transactions_of(one)
        + transactions_of(rest));
    assert(transactions_of(one)[j] == flashblocks[i].diff.transactions@[j]@);
}

/// Recovered transactions are all of the encoded ones, in order, each with its encoding, what it
/// decodes to, and its signer. There are none exactly if one of the encoded ones cannot be decoded
/// or its signer not be found.
pub proof fn law_recovered(recovered: Seq<EncodedTransaction>, transactions: Seq<Seq<u8>>)
    ensures
        recovers(recovered, transactions) <==> {
            &&& recovered.len() == transactions.len()
            &&& forall|i: int|
                0 <= i < transactions.len() ==> {
                    let one = #[trigger] recovered[i];
                    &&& one.encoded@ == transactions[i]
                    &&& decoded_transaction(transactions[i]) == Some(one.recovered.transaction)
                    &&& transaction_signer(one.recovered.transaction) == Some(one.recovered.signer)
                }
        },
        !recoverable(transactions) <==> exists|i: int|
            0 <= i < transactions.len() && match decoded_transaction(#[trigger] transactions[i]) {
                Some(transaction) => transaction_signer(transaction) is None,
                None => true,
            },
{
}

// ---------------------------------------------------------------------------------------------
// The engine
// ---------------------------------------------------------------------------------------------

/// What is known of a block that was not executed is what its last flashblock says; what is known of
/// one that was executed is what the execution computed. The payload is made of all flashblocks,
/// with nothing replaced but the state root and the block hash, and those only by an execution.
pub proof fn law_payload(sequence: FlashBlockCompleteSequence)
    requires
        sequence.blocks().len() > 0,
    ensures
        ({
            let made = unchecked_execution_data(sequence.blocks());
            let data = execution_data(sequence);
            let known = known_outcome(sequence);
            let last = sequence.blocks()[sequence.blocks().len() - 1];
            &&& data.rest == made.rest
            &&& match sequence.outcome() {
                Some(outcome) => {
                    &&& known == outcome
                    &&& data.state_root == outcome.state_root
                    &&& data.block_hash == outcome.block_hash
                },
                None => {
                    &&& known.state_root == last.diff.state_root
                    &&& known.block_hash == last.diff.block_hash
                    &&& data == made
                },
            }
        }),
        sequence.base() == sequence.blocks()[0].base->0,
        sequence.is_complete() <==> defect(sequence.blocks()) is None,
{
}

/// What an execution computed replaces the state root and the block hash of a payload and nothing
/// else; without an execution nothing is replaced.
pub proof fn law_outcome_is_applied(data: ExecutionData, outcome: SequenceExecutionOutcome)
    ensures
        data.with_outcome(Some(outcome)).state_root == outcome.state_root,
        data.with_outcome(Some(outcome)).block_hash == outcome.block_hash,
        data.with_outcome(Some(outcome)).rest == data.rest,
        data.with_outcome(None) == data,
{
}

// ---------------------------------------------------------------------------------------------
// Cached state
// ---------------------------------------------------------------------------------------------

/// A list of entries stands for a map that has exactly their keys.
pub proof fn law_entry_keys<K, V>(entries: Seq<(K, V)>, key: K)
    ensures
        last_entries(entries).contains_key(key) <==> exists|i: int|
            0 <= i < entries.len() && (#[trigger] entries[i]).0 == key,
    decreases entries.len(),
{
    if entries.len() > 0 {
        let before = entries.drop_last();
        let n = entries.len() - 1;
        law_entry_keys(before, key);
        assert(entries[n] == entries.last());
        if last_entries(entries).contains_key(key) && entries[n].0 != key {
            let i = choose|i: int| 0 <= i < before.len() && (#[trigger] before[i]).0 == key;
            assert(entries[i].0 == key);
        }
        if exists|i: int| 0 <= i < entries.len() && (#[trigger] entries[i]).0 == key {
            let i = choose|i: int| 0 <= i < entries.len() && (#[trigger] entries[i]).0 == key;
            if i < n {
                assert(before[i].0 == key);
            }
        }
    }
}

/// In the map that a list of entries stands for, each key has the value of its last entry.
pub proof fn law_last_entry<K, V>(entries: Seq<(K, V)>, i: int)
    requires
        0 <= i < entries.len(),
        forall|j: int| i < j < entries.len() ==> (#[trigger] entries[j]).0 != entries[i].0,
    ensures
        last_entries(entries).contains_key(entries[i].0),
        last_entries(entries)[entries[i].0] == entries[i].1,
    decreases entries.len(),
{
    let n = entries.len() - 1;
    assert(entries[n] == entries.last());
    if i < n {
        let before = entries.drop_last();
        assert forall|j: int| i < j < before.len() implies (#[trigger] before[j]).0
            != before[i].0 by {
            assert(before[j] == entries[j]);
        }
        law_last_entry(before, i);
        assert(entries[n].0 != entries[i].0);
    }
}

/// The storage that a block leaves has exactly the keys of the slots that it touched.
pub proof fn law_present_keys(slots: Seq<StorageSlot>, key: U256)
    ensures
        present_storage(slots).contains_key(key) <==> exists|i: int|
            0 <= i < slots.len() && (#[trigger] slots[i]).key == key,
{
    let entries = slots.map_values(|slot: StorageSlot| (slot.key, slot.present_value));
    law_entry_keys(entries, key);
    if present_storage(slots).contains_key(key) {
        let i = choose|i: int| 0 <= i < entries.len() && (#[trigger] entries[i]).0 == key;
        assert(slots[i].key == key);
    }
    if exists|i: int| 0 <= i < slots.len() && (#[trigger] slots[i]).key == key {
        let i = choose|i: int| 0 <= i < slots.len() && (#[trigger] slots[i]).key == key;
        assert(entries[i].0 == key);
    }
}

/// In the storage that a block leaves, each key has the present value of its last slot.
pub proof fn law_present_value(slots: Seq<StorageSlot>, i: int)
    requires
        0 <= i < slots.len(),
        forall|j: int| i < j < slots.len() ==> (#[trigger] slots[j]).key != slots[i].key,
    ensures
        present_storage(slots).contains_key(slots[i].key),
        present_storage(slots)[slots[i].key] == slots[i].present_value,
{
    let entries = slots.map_values(|slot: StorageSlot| (slot.key, slot.present_value));
    assert forall|j: int| i < j < entries.len() implies (#[trigger] entries[j]).0
        != entries[i].0 by {
        assert(slots[j].key != slots[i].key);
    }
    law_last_entry(entries, i);
}

/// What a block leaves holds accounts only.
pub proof fn law_only_accounts(accounts: Seq<BundleAccount>)
    ensures
        reads_after(accounts).contracts == Map::<B256, Seq<u8>>::empty(),
        reads_after(accounts).block_hashes == Map::<u64, B256>::empty(),
    decreases accounts.len(),
{
    if accounts.len() > 0 {
        law_only_accounts(accounts.drop_last());
    }
}

/// An account that is put into a cache is there, with its state and its storage, and nothing else
/// changes.
pub proof fn law_account_is_put_in(
    reads: CachedReadsView,
    address: Address,
    info: AccountInfo,
    storage: Map<U256, U256>,
)
    ensures
        ({
            let after = reads.with_account(address, info, storage);
            &&& after.accounts.contains_key(address)
            &&& after.accounts[address].info == Some(info)
            &&& after.accounts[address].storage == storage
            &&& forall|other: Address|
                other != address ==> (#[trigger] after.accounts.contains_key(other)
                    <==> reads.accounts.contains_key(other)) && after.accounts[other]
                    == reads.accounts[other]
            &&& after.contracts == reads.contracts
            &&& after.block_hashes == reads.block_hashes
        }),
{
}

/// The account that is held last in a cache, of those with its address, is the one that the cache
/// knows.
pub proof fn law_cached_account_is_read(reads: CachedReads, i: int)
    requires
        0 <= i < reads.accounts@.len(),
        forall|j: int|
            i < j < reads.accounts@.len() ==> (#[trigger] reads.accounts@[j]).0
                != reads.accounts@[i].0,
    ensures
        ({
            let entry = reads.accounts@[i];
            &&& reads@.accounts.contains_key(entry.0)
            &&& reads@.accounts[entry.0].info == entry.1.info
            &&& reads@.accounts[entry.0].storage == last_entries(entry.1.storage@)
        }),
{
    let entries = reads.accounts@.map_values(
        |entry: (Address, Arc<CachedAccount>)| (entry.0, entry.1@),
    );
    assert forall|j: int| i < j < entries.len() implies (#[trigger] entries[j]).0
        != entries[i].0 by {
        assert(reads.accounts@[j].0 != reads.accounts@[i].0);
    }
    law_last_entry(entries, i);
}

/// The code that is held last in a cache, of those with its hash, is what the cache knows.
pub proof fn law_cached_code_is_read(reads: CachedReads, i: int)
    requires
        0 <= i < reads.contracts@.len(),
        forall|j: int|
            i < j < reads.contracts@.len() ==> (#[trigger] reads.contracts@[j]).0
                != reads.contracts@[i].0,
    ensures
        reads@.contracts.contains_key(reads.contracts@[i].0),
        reads@.contracts[reads.contracts@[i].0] == reads.contracts@[i].1@,
{
    let entries = reads.contracts@.map_values(|entry: (B256, Arc<Vec<u8>>)| (entry.0, entry.1@));
    assert forall|j: int| i < j < entries.len() implies (#[trigger] entries[j]).0
        != entries[i].0 by {
        assert(reads.contracts@[j].0 != reads.contracts@[i].0);
    }
    law_last_entry(entries, i);
}

/// The block hash that is held last in a cache, of those with its number, is what the cache knows.
pub proof fn law_cached_hash_is_read(reads: CachedReads, i: int)
    requires
        0 <= i < reads.block_hashes@.len(),
        forall|j: int|
            i < j < reads.block_hashes@.len() ==> (#[trigger] reads.block_hashes@[j]).0
                != reads.block_hashes@[i].0,
    ensures
        reads@.block_hashes.contains_key(reads.block_hashes@[i].0),
        reads@.block_hashes[reads.block_hashes@[i].0] == reads.block_hashes@[i].1,
{
    law_last_entry(reads.block_hashes@, i);
}

// ---------------------------------------------------------------------------------------------
// The service
// ---------------------------------------------------------------------------------------------

/// A flashblock that is taken in asks for a build; one that is refused does not. Whether a build is
/// going on stays.
pub proof fn law_service_received(
    before: ServiceView,
    flashblock: FlashBlock,
    after: ServiceView,
    result: Result<(), SequenceError>,
)
    requires
        before.receives(flashblock, after, result),
    ensures
        before.sequences.receives(flashblock, after.sequences, result),
        result is Ok ==> after.rebuild,
        result is Err ==> after.rebuild == before.rebuild,
        after.building == before.building,
{
}

/// A new tip asks for a build, and the accounts that it touched are kept for the sequences on it.
/// Without a new tip nothing changes.
pub proof fn law_service_followed(
    before: ServiceView,
    tip: Option<CanonicalTip>,
    after: ServiceView,
)
    requires
        before.follows(tip, after),
    ensures
        after.building == before.building,
        tip is None ==> after == before,
        tip matches Some(new) ==> {
            &&& after.rebuild
            &&& after.sequences.pending == before.sequences.pending
            &&& after.sequences.cache.len() == before.sequences.cache.len()
            &&& forall|i: int|
                0 <= i < before.sequences.cache.len() ==> {
                    let entry = #[trigger] before.sequences.cache[i];
                    let changed = after.sequences.cache[i];
                    &&& changed.sequence == entry.sequence
                    &&& changed.parent_hash == entry.parent_hash
                    &&& if is_first_on(before.sequences, new.hash, i) {
                        changed.cached_reads matches Some(reads) && reads@ == reads_after(
                            new.accounts@,
                        )
                    } else {
                        changed.cached_reads == entry.cached_reads
                    }
                }
        },
{
    if let Some(new) = tip {
        let reads = choose|reads: CachedReads|
            reads@ == reads_after(new.accounts@) && after.sequences
                == #[trigger] before.sequences.prefilled(new.hash, reads);
        law_tip_is_recorded(before.sequences, new.hash, reads);
    }
}

/// After a build none is going on and none is asked for, and a block that it made is recorded on the
/// parent that it names, with its state root and hash if it has computed them.
pub proof fn law_service_finished(
    before: ServiceView,
    result: Option<(PendingFlashBlock, CachedReads)>,
)
    ensures
        ({
            let after = before.finished(result);
            &&& !after.building
            &&& !after.rebuild
            &&& result is None ==> after.sequences == before.sequences
            &&& result matches Some((block, reads)) ==> {
                &&& pending_is_on(before.sequences, block.parent_hash) ==> {
                    &&& after.sequences.pending.reads == Some(reads)
                    &&& match block.computed_state_root {
                        Some(state_root) => after.sequences.pending.outcome matches Some(outcome)
                            && outcome.state_root == state_root && outcome.block_hash
                            == block.block_hash,
                        None => after.sequences.pending.outcome is None,
                    }
                }
                &&& forall|i: int|
                    !pending_is_on(before.sequences, block.parent_hash) && #[trigger] is_first_on(
                        before.sequences,
                        block.parent_hash,
                        i,
                    ) ==> {
                        let entry = after.sequences.cache[i];
                        &&& entry.cached_reads == Some(reads)
                        &&& match block.computed_state_root {
                            Some(state_root) => entry.sequence.outcome() matches Some(outcome)
                                && outcome.state_root == state_root && outcome.block_hash
                                == block.block_hash,
                            None => entry.sequence.outcome() is None,
                        }
                    }
            }
        }),
{
    if let Some((block, reads)) = result {
        law_outcome_of_build(block);
        law_build_is_recorded(before.sequences, block.parent_hash, block.outcome(), reads);
        let after = before.finished(result);
        assert forall|i: int|
            !pending_is_on(before.sequences, block.parent_hash) && #[trigger] is_first_on(
                before.sequences,
                block.parent_hash,
                i,
            ) implies after.sequences.cache[i].cached_reads == Some(reads)
            && after.sequences.cache[i].sequence.outcome() == block.outcome() by {
            assert(0 <= i < before.sequences.cache.len());
            let entry = before.sequences.cache[i];
        }
    }
}

/// A build is started exactly if none is going on, there is a tip, there is a sequence on it, and
/// all transactions of that sequence can be decoded and their signers found. It is announced with
/// its parent, its last flashblock and its number. However it ends, none is asked for afterwards,
/// and the flashblocks stay.
pub proof fn law_service_tried(
    before: ServiceView,
    latest: Option<LatestHeader>,
    after: ServiceView,
    job: Option<BuildJob>,
)
    requires
        before.tries(latest, after, job),
    ensures
        after.sequences == before.sequences,
        !after.rebuild,
        after.building <==> before.building || job is Some,
        job is Some <==> {
            &&& !before.building
            &&& latest matches Some(tip)
            &&& before.sequences.buildable(tip.hash) matches Some(picked)
            &&& forall|k: int|
                0 <= k < transactions_of(picked.blocks).len() ==> (decoded_transaction(
                    #[trigger] transactions_of(picked.blocks)[k],
                ) matches Some(transaction) && transaction_signer(transaction) is Some)
        },
        job matches Some(started) ==> {
            let picked = before.sequences.buildable(latest->0.hash)->0;
            let args = started.args;
            let transactions = transactions_of(picked.blocks);
            &&& started.info.parent_hash == args.base.parent_hash
            &&& started.info.index == args.last_flashblock_index
            &&& started.info.block_number == args.base.block_number
            &&& args.are_for(picked, latest->0.timestamp, before.sequences.compute_state_root)
            &&& args.transactions@.len() == transactions.len()
            &&& forall|k: int|
                0 <= k < transactions.len() ==> {
                    let one = #[trigger] args.transactions@[k];
                    &&& one.encoded@ == transactions[k]
                    &&& decoded_transaction(transactions[k]) == Some(one.recovered.transaction)
                    &&& transaction_signer(one.recovered.transaction) == Some(one.recovered.signer)
                }
        },
{
    if let Some(tip) = latest {
        if let Some(picked) = before.sequences.buildable(tip.hash) {
            let transactions = transactions_of(picked.blocks);
            if let Some(started) = job {
                law_recovered(started.args.transactions@, transactions);
            }
            law_recovered(Seq::empty(), transactions);
        }
    }
}

/// When a build can be tried: another one is going on, or there is no tip, or the timing of what is
/// picked for it can be computed.
pub proof fn law_service_can_try(service: ServiceView, latest: Option<LatestHeader>)
    ensures
        service.can_try(latest) <==> service.building || match latest {
            Some(tip) => match service.sequences.buildable(tip.hash) {
                Some(picked) => tip.timestamp <= picked.base.timestamp && (picked.base.timestamp
                    - tip.timestamp) * 1000 <= 0xffff_ffff_ffff_ffff,
                None => true,
            },
            None => true,
        },
{
}

} // verus!
