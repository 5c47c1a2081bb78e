//! What holds of the library as a whole.

use vstd::prelude::*;

use crate::broadcast::reported;
use crate::cache::{
    expected_final_flashblock, first_on, lemma_first_on, root_is_due, timely, CachedSequence,
    ManagerView, PendingFlashBlock, CACHE_SIZE,
};
use crate::consensus::known_outcome;
use crate::flashblock::{FlashBlock, FlashBlockBase};
use crate::order::{
    ascending, in_order, lemma_in_order, lemma_listing_exists, lemma_not_empty, lists_ascending,
};
use crate::primitives::{all_zero, Address, B256};
use crate::reads::{present_storage, reads_after, BundleAccount, CachedAccountView, CachedReads};
use crate::ring::{lemma_pushed, pushed};
use crate::sequence::{
    consistent, defect, one_payload, same_origin, FlashBlockCompleteSequence, PendingView,
    SequenceError, SequenceExecutionOutcome,
};
use crate::service::{BuildJob, CanonicalTip, LatestHeader, ServiceView};

verus! {

/// Whether every index below a received one has been received too.
pub open spec fn no_gap(blocks: Map<u64, FlashBlock>) -> bool {
    forall|index: u64, lower: u64|
        #![trigger blocks.contains_key(index), blocks.contains_key(lower)]
        blocks.contains_key(index) && lower < index ==> blocks.contains_key(lower)
}

/// A listing without gaps counts up from zero.
proof fn lemma_counts_up(blocks: Map<u64, FlashBlock>, listing: Seq<u64>, n: int)
    requires
        lists_ascending(listing, blocks.dom()),
        no_gap(blocks),
        0 <= n <= listing.len(),
    ensures
        forall|i: int| 0 <= i < n ==> #[trigger] listing[i] == i,
    decreases n,
{
    if n > 0 {
        lemma_counts_up(blocks, listing, n - 1);
        let last = n - 1;
        let key = listing[last];
        assert(listing.contains(key));
        assert(blocks.contains_key(key));
        if last > 0 {
            assert(listing[last - 1] < key);
        }
        if key > last {
            let lower = last as u64;
            assert(blocks.contains_key(lower));
            assert(listing.contains(lower));
            let i = choose|i: int| 0 <= i < listing.len() && listing[i] == lower;
            if i < last {
                assert(listing[i] == i);
            } else if i > last {
                assert(listing[last] < listing[i]);
            }
            assert(false);
        }
    }
}

/// The flashblocks of one block in order start with the one that started the block and end with
/// the one of the highest index.
pub proof fn law_order(pending: PendingView)
    requires
        one_payload(pending.blocks),
        pending.blocks.contains_key(0),
    ensures
        in_order(pending.blocks).len() > 0,
        pending.first() == Some(in_order(pending.blocks)[0]),
        pending.last() == Some(in_order(pending.blocks).last()),
        forall|index: u64| #[trigger]
            pending.blocks.contains_key(index) ==> index <= in_order(pending.blocks).last().index,
{
    let blocks = pending.blocks;
    lemma_not_empty(blocks);
    lemma_listing_exists(blocks.dom());
    let listing = ascending(blocks.dom());
    let highest = listing.last();
    assert(listing.contains(highest));
    assert(blocks.contains_key(highest));
    assert forall|index: u64| #[trigger] blocks.contains_key(index) implies index <= highest by {
        assert(listing.contains(index));
        let i = choose|i: int| 0 <= i < listing.len() && listing[i] == index;
        if i < listing.len() - 1 {
            assert(listing[i] < listing[listing.len() - 1]);
        }
    }
}

/// What is received for one block makes a complete sequence unless the first flashblock lacks the
/// properties of the block or an index is missing in between.
pub proof fn law_completion(pending: PendingView)
    requires
        one_payload(pending.blocks),
        pending.blocks.contains_key(0),
    ensures
        pending.defect() == if pending.blocks[0].base is None {
            Some(SequenceError::MissingBase)
        } else if !no_gap(pending.blocks) {
            Some(SequenceError::Inconsistent)
        } else {
            None
        },
{
    let blocks = pending.blocks;
    let ordered = in_order(blocks);
    let listing = ascending(blocks.dom());
    lemma_not_empty(blocks);
    lemma_listing_exists(blocks.dom());
    assert forall|i: int| 0 <= i < ordered.len() implies (#[trigger] ordered[i]).index == listing[i]
        && same_origin(ordered[i], ordered[0]) by {
        assert(listing.contains(listing[i]));
        assert(blocks.contains_key(listing[i]));
    }
    if no_gap(blocks) {
        lemma_counts_up(blocks, listing, listing.len() as int);
        assert forall|i: int| 0 <= i < ordered.len() implies (#[trigger] ordered[i]).index == i by {
            assert(listing[i] == i);
        }
        assert(consistent(ordered));
    }
    if consistent(ordered) {
        assert forall|i: int| 0 <= i < listing.len() implies #[trigger] listing[i] == i by {
            assert(ordered[i].index == i);
        }
        assert forall|index: u64, lower: u64|
            #![trigger blocks.contains_key(index), blocks.contains_key(lower)]
            blocks.contains_key(index) && lower < index implies blocks.contains_key(lower) by {
            assert(listing.contains(index));
            let i = choose|i: int| 0 <= i < listing.len() && listing[i] == index;
            assert(listing[lower as int] == lower);
            assert(listing.contains(lower));
            assert(blocks.dom().contains(lower));
        }
    }
    assert(blocks != Map::<u64, FlashBlock>::empty());
}

/// Flashblocks received under all indices below a number are, in order, those under zero, one, and
/// so on.
pub proof fn law_successive(blocks: Map<u64, FlashBlock>, count: u64)
    requires
        forall|index: u64| #[trigger] blocks.contains_key(index) <==> index < count,
    ensures
        in_order(blocks) == Seq::new(count as nat, |i: int| blocks[i as u64]),
{
    let listing = Seq::new(count as nat, |i: int| i as u64);
    assert forall|index: u64| blocks.dom().contains(index) <==> listing.contains(index) by {
        if blocks.dom().contains(index) {
            assert(blocks.contains_key(index));
            assert(listing[index as int] == index);
        }
        if listing.contains(index) {
            let i = choose|i: int| 0 <= i < listing.len() && listing[i] == index;
            assert(blocks.contains_key(index));
        }
    }
    lemma_in_order(blocks, listing);
    assert(in_order(blocks) == Seq::new(count as nat, |i: int| blocks[i as u64]));
}

/// Whatever arrives, the flashblocks that are kept belong to one block and one payload, and the one
/// that started the block is among them.
pub proof fn law_one_payload(pending: PendingView, flashblock: FlashBlock)
    requires
        one_payload(pending.blocks),
    ensures
        one_payload(pending.inserted(flashblock).blocks),
        one_payload(pending.cleared().blocks),
{
}

/// A flashblock that starts a block leaves nothing of what was received before.
pub proof fn law_reset(a: PendingView, b: PendingView, flashblock: FlashBlock)
    requires
        flashblock.index == 0,
    ensures
        a.inserted(flashblock).blocks == b.inserted(flashblock).blocks,
        a.inserted(flashblock).blocks == map![0u64 => flashblock],
{
}

/// What a build learned of one block is not taken for another one: once the first flashblock of the
/// next block has arrived, nothing is left of it.
pub proof fn law_nothing_is_carried_over(pending: PendingView, flashblock: FlashBlock)
    requires
        pending.blocks.contains_key(0),
        flashblock.index == 0,
    ensures
        pending.inserted(flashblock).outcome is None,
        pending.inserted(flashblock).reads is None,
{
    assert(pending.blocks != Map::<u64, FlashBlock>::empty());
}

/// The flashblocks that follow the first one may arrive in any order.
pub proof fn law_any_order(pending: PendingView, a: FlashBlock, b: FlashBlock)
    requires
        a.index != 0,
        b.index != 0,
        a.index != b.index,
    ensures
        pending.inserted(a).inserted(b) == pending.inserted(b).inserted(a),
{
    assert(pending.inserted(a).inserted(b).blocks == pending.inserted(b).inserted(a).blocks);
}

/// A flashblock that follows the first one may arrive twice.
pub proof fn law_repeated(pending: PendingView, flashblock: FlashBlock)
    requires
        flashblock.index != 0,
    ensures
        pending.inserted(flashblock).inserted(flashblock) == pending.inserted(flashblock),
{
    assert(pending.inserted(flashblock).inserted(flashblock).blocks == pending.inserted(
        flashblock,
    ).blocks);
}

/// The state after flashblocks have arrived one after another, but for what was published.
pub open spec fn inserted_all(pending: PendingView, arrived: Seq<FlashBlock>) -> PendingView
    decreases arrived.len(),
{
    if arrived.len() == 0 {
        pending
    } else {
        inserted_all(pending, arrived.drop_last()).inserted(arrived.last())
    }
}

/// While the flashblocks of one block arrive, the first one first, what is kept is exactly what has
/// arrived.
proof fn lemma_received(
    pending: PendingView,
    arrived: Seq<FlashBlock>,
    blocks: Seq<FlashBlock>,
)
    requires
        blocks.len() > 0,
        consistent(blocks),
        arrived.len() > 0,
        arrived[0] == blocks[0],
        forall|j: int|
            0 < j < arrived.len() ==> (#[trigger] arrived[j]).index != 0 && blocks.contains(
                arrived[j],
            ),
    ensures
        ({
            let kept = inserted_all(pending, arrived).blocks;
            &&& kept.contains_key(0)
            &&& forall|index: u64| #[trigger]
                kept.contains_key(index) ==> index < blocks.len() && kept[index]
                    == blocks[index as int]
            &&& forall|j: int|
                0 <= j < arrived.len() ==> kept.contains_key((#[trigger] arrived[j]).index)
        }),
    decreases arrived.len(),
{
    let before = arrived.drop_last();
    let last = arrived.last();
    let kept = inserted_all(pending, arrived).blocks;
    if arrived.len() == 1 {
        assert(kept == map![0u64 => last]);
    } else {
        assert forall|j: int| 0 < j < before.len() implies (#[trigger] before[j]).index != 0
            && blocks.contains(before[j]) by {
            assert(before[j] == arrived[j]);
        }
        lemma_received(pending, before, blocks);
        assert(arrived[arrived.len() - 1] == last);
        let k = choose|k: int| 0 <= k < blocks.len() && blocks[k] == last;
        assert(blocks[k].index == k && same_origin(blocks[k], blocks[0]));
        assert(kept == inserted_all(pending, before).blocks.insert(last.index, last));
        assert forall|j: int| 0 <= j < arrived.len() implies kept.contains_key(
            (#[trigger] arrived[j]).index,
        ) by {
            if j < before.len() {
                assert(before[j] == arrived[j]);
            }
        }
    }
}

/// What was received is given back: once all flashblocks of a block have arrived, the first one
/// first, the others in any order and as often as they like, they are, in order, the flashblocks
/// of the block, and make a complete sequence if the first one holds the properties of the block.
pub proof fn law_received_is_given_back(
    pending: PendingView,
    arrived: Seq<FlashBlock>,
    blocks: Seq<FlashBlock>,
)
    requires
        0 < blocks.len() <= u64::MAX,
        consistent(blocks),
        arrived.len() > 0,
        arrived[0] == blocks[0],
        forall|j: int|
            0 < j < arrived.len() ==> (#[trigger] arrived[j]).index != 0 && blocks.contains(
                arrived[j],
            ),
        forall|i: int| 0 <= i < blocks.len() ==> arrived.contains(#[trigger] blocks[i]),
    ensures
        in_order(inserted_all(pending, arrived).blocks) == blocks,
        inserted_all(pending, arrived).defect() == if blocks[0].base is None {
            Some(SequenceError::MissingBase)
        } else {
            None
        },
{
    let kept = inserted_all(pending, arrived).blocks;
    lemma_received(pending, arrived, blocks);
    assert forall|index: u64| index < blocks.len() implies #[trigger] kept.contains_key(index) by {
        let block = blocks[index as int];
        let j = choose|j: int| 0 <= j < arrived.len() && arrived[j] == block;
        assert(kept.contains_key(arrived[j].index));
        assert(block.index == index);
    }
    law_successive(kept, blocks.len() as u64);
    assert forall|i: int| 0 <= i < blocks.len() implies kept[i as u64] == #[trigger] blocks[i] by {
        assert(kept.contains_key(i as u64));
    }
    assert(in_order(kept) == blocks);
    assert(kept != Map::<u64, FlashBlock>::empty());
}

/// Whatever is published is a complete sequence.
pub proof fn law_published_is_complete(
    manager: ManagerView,
    flashblock: FlashBlock,
    after: ManagerView,
    result: Result<(), SequenceError>,
)
    requires
        manager.receives(flashblock, after, result),
        forall|i: int| 0 <= i < manager.sent.len() ==> (#[trigger] manager.sent[i]).is_complete(),
    ensures
        forall|i: int| 0 <= i < after.sent.len() ==> (#[trigger] after.sent[i]).is_complete(),
        after.sent.len() > manager.sent.len() ==> after.sent.last() == after.cache.last().sequence
            && after.sent.last().blocks() == in_order(manager.pending.blocks),
{
    assert forall|i: int| 0 <= i < after.sent.len() implies (#[trigger] after.sent[i]).is_complete() by {
        if i < manager.sent.len() {
            assert(after.sent[i] == manager.sent[i]);
        }
    }
}

/// A block that is completed by the start of the next one is published once if the channel reports
/// subscribers; that it is not published means that the channel reported none.
pub proof fn law_subscribers_are_told(
    manager: ManagerView,
    flashblock: FlashBlock,
    after: ManagerView,
    result: Result<(), SequenceError>,
)
    requires
        flashblock.index == 0,
        manager.pending.defect() is None,
        manager.receives(flashblock, after, result),
    ensures
        after.counted == manager.counted.push(after.counted.last()),
        reported(manager.channel, after.counted.last()),
        after.sent == manager.sent ==> reported(manager.channel, 0),
        after.counted.last() > 0 ==> after.sent == manager.sent.push(after.cache.last().sequence),
        after.counted.last() == 0 ==> after.sent == manager.sent,
        manager.pending.completes_to(after.cache.last().sequence),
{
    let sequence = after.cache.last().sequence;
    assert(manager.sent.push(sequence).len() == manager.sent.len() + 1);
}

/// What a cache holds after entries were pushed one after another.
pub open spec fn pushed_all<T>(entries: Seq<T>, capacity: nat, added: Seq<T>) -> Seq<T>
    decreases added.len(),
{
    if added.len() == 0 {
        entries
    } else {
        pushed(pushed_all(entries, capacity, added.drop_last()), capacity, added.last())
    }
}

/// A cache holds the latest of what it held before and what was pushed since; once as many entries
/// have been pushed as there is room for, only of the latter.
proof fn lemma_latest<T>(entries: Seq<T>, capacity: nat, added: Seq<T>)
    requires
        capacity > 0,
        entries.len() <= capacity,
    ensures
        pushed_all(entries, capacity, added) == if entries.len() + added.len() <= capacity {
            entries + added
        } else {
            (entries + added).skip(entries.len() + added.len() - capacity)
        },
        added.len() >= capacity ==> pushed_all(entries, capacity, added) == added.skip(
            added.len() - capacity,
        ),
    decreases added.len(),
{
    let all = entries + added;
    if added.len() == 0 {
        assert(all == entries);
    } else {
        let before = added.drop_last();
        lemma_latest(entries, capacity, before);
        let earlier = entries + before;
        assert(all == earlier.push(added.last()));
        if all.len() > capacity {
            if earlier.len() > capacity {
                assert(earlier.skip(earlier.len() - capacity).drop_first().push(added.last())
                    == all.skip(all.len() - capacity));
            } else {
                assert(earlier.drop_first().push(added.last()) == all.skip(all.len() - capacity));
            }
        }
    }
    if added.len() >= capacity {
        assert(all.skip(all.len() - capacity) == added.skip(added.len() - capacity));
    }
}

/// First in, first out: a cache holds the latest of the entries that were ever pushed, as many as
/// it has room for, in the order in which they were pushed.
pub proof fn law_first_in_first_out<T>(capacity: nat, added: Seq<T>)
    requires
        capacity > 0,
    ensures
        pushed_all(Seq::empty(), capacity, added) == if added.len() <= capacity {
            added
        } else {
            added.skip(added.len() - capacity)
        },
{
    lemma_latest(Seq::empty(), capacity, added);
    assert(Seq::<T>::empty() + added == added);
}

/// The first flashblock of a block is taken in, also as the very first one of all. It is refused
/// only if the block before it cannot be completed; that block is dropped, so the start of the next
/// one is taken in again.
pub proof fn law_start_of_a_block(
    manager: ManagerView,
    flashblock: FlashBlock,
    after: ManagerView,
    result: Result<(), SequenceError>,
)
    requires
        flashblock.index == 0,
        manager.receives(flashblock, after, result),
    ensures
        manager.pending.blocks == Map::<u64, FlashBlock>::empty() ==> result is Ok && after.cache
            == manager.cache && after.sent == manager.sent,
        result is Err <==> manager.pending.blocks != Map::<u64, FlashBlock>::empty() && defect(
            in_order(manager.pending.blocks),
        ) is Some,
        result is Ok ==> after.pending.blocks == map![0u64 => flashblock],
        result is Err ==> after.pending.blocks == Map::<u64, FlashBlock>::empty() && after.cache
            == manager.cache && after.sent == manager.sent,
{
}

/// The block that is being received comes before any kept one.
pub proof fn law_pending_first(manager: ManagerView, tip_hash: B256)
    requires
        manager.pending.base() is Some,
        manager.pending.base()->0.parent_hash == tip_hash,
    ensures
        manager.buildable(tip_hash) is Some,
        manager.buildable(tip_hash)->0.base == manager.pending.base()->0,
        manager.buildable(tip_hash)->0.blocks == in_order(manager.pending.blocks),
{
}

/// There is something to build on a tip exactly if the block that is being received or a kept one
/// has the tip as its parent.
pub proof fn law_what_is_buildable(manager: ManagerView, tip_hash: B256)
    ensures
        manager.buildable(tip_hash) is Some <==> {
            ||| manager.pending.base() is Some && manager.pending.base()->0.parent_hash == tip_hash
            ||| exists|i: int|
                0 <= i < manager.cache.len() && (#[trigger] manager.cache[i]).parent_hash
                    == tip_hash
        },
{
    lemma_first_on(manager.cache, tip_hash);
}

/// What is built on a tip has the tip as its parent.
pub proof fn law_built_on_tip(manager: ManagerView, tip_hash: B256)
    requires
        manager.wf(),
        manager.buildable(tip_hash) is Some,
    ensures
        manager.buildable(tip_hash)->0.base.parent_hash == tip_hash,
        manager.buildable(tip_hash)->0.cached_state matches Some(state) ==> state.0 == tip_hash,
{
    lemma_first_on(manager.cache, tip_hash);
}

/// The next build on a block starts from the state that the last one read; it is of the same
/// flashblocks.
pub proof fn law_reads_are_reused(
    manager: ManagerView,
    parent_hash: B256,
    outcome: Option<SequenceExecutionOutcome>,
    reads: CachedReads,
)
    requires
        manager.buildable(parent_hash) is Some,
    ensures
        ({
            let before = manager.buildable(parent_hash)->0;
            let after = manager.built(parent_hash, outcome, reads).buildable(parent_hash);
            &&& after is Some
            &&& after->0.base == before.base
            &&& after->0.blocks == before.blocks
            &&& after->0.cached_state == Some((parent_hash, reads))
        }),
{
    lemma_first_on(manager.cache, parent_hash);
    let after = manager.built(parent_hash, outcome, reads);
    lemma_first_on(after.cache, parent_hash);
    if first_on(manager.cache, parent_hash) is Some {
        let position = first_on(manager.cache, parent_hash)->0;
        manager.cache[position].sequence.lemma_with_outcome(outcome);
        lemma_updated(manager.cache, position, after.cache);
    }
}

/// Entries that are replaced under the same parent are found at the same places.
proof fn lemma_updated(before: Seq<CachedSequence>, position: int, after: Seq<CachedSequence>)
    requires
        0 <= position < before.len(),
        after.len() == before.len(),
        forall|i: int|
            0 <= i < before.len() ==> (#[trigger] after[i]).parent_hash == before[i].parent_hash,
    ensures
        forall|parent_hash: B256| #[trigger]
            first_on(after, parent_hash) == first_on(before, parent_hash),
    decreases before.len(),
{
    assert forall|parent_hash: B256| #[trigger]
        first_on(after, parent_hash) == first_on(before, parent_hash) by {
        lemma_first_on(before, parent_hash);
        lemma_first_on(after, parent_hash);
        match (first_on(before, parent_hash), first_on(after, parent_hash)) {
            (Some(a), Some(b)) => {
                if a < b {
                    assert(after[a].parent_hash == parent_hash);
                } else if b < a {
                    assert(after[b].parent_hash == parent_hash);
                    assert(before[b].parent_hash == parent_hash);
                }
            },
            (Some(a), None) => {
                assert(after[a].parent_hash == parent_hash);
            },
            (None, Some(b)) => {
                assert(after[b].parent_hash == parent_hash);
                assert(before[b].parent_hash == parent_hash);
            },
            (None, None) => {},
        }
    }
}

/// A build on one block leaves what can be built on another one as it is.
pub proof fn law_other_builds_unchanged(
    manager: ManagerView,
    parent_hash: B256,
    outcome: Option<SequenceExecutionOutcome>,
    reads: CachedReads,
    tip_hash: B256,
)
    requires
        tip_hash != parent_hash,
    ensures
        manager.built(parent_hash, outcome, reads).buildable(tip_hash) == manager.buildable(
            tip_hash,
        ),
{
    lemma_first_on(manager.cache, parent_hash);
    lemma_first_on(manager.cache, tip_hash);
    let after = manager.built(parent_hash, outcome, reads);
    if after.cache != manager.cache {
        let position = first_on(manager.cache, parent_hash)->0;
        lemma_updated(manager.cache, position, after.cache);
    }
}

/// What a build of the block that is being received computed goes with the block once it is
/// complete.
pub proof fn law_outcome_is_kept(
    manager: ManagerView,
    parent_hash: B256,
    outcome: Option<SequenceExecutionOutcome>,
    reads: CachedReads,
    sequence: FlashBlockCompleteSequence,
)
    requires
        manager.pending.base() is Some,
        manager.pending.base()->0.parent_hash == parent_hash,
        manager.built(parent_hash, outcome, reads).pending.completes_to(sequence),
    ensures
        sequence.outcome() == outcome,
        sequence.blocks() == in_order(manager.pending.blocks),
{
}

/// What a build of a kept sequence computed is kept with it; its flashblocks stay.
pub proof fn law_outcome_of_kept(
    manager: ManagerView,
    parent_hash: B256,
    outcome: Option<SequenceExecutionOutcome>,
    reads: CachedReads,
)
    requires
        !(manager.pending.base() matches Some(base) && base.parent_hash == parent_hash),
        first_on(manager.cache, parent_hash) is Some,
    ensures
        ({
            let position = first_on(manager.cache, parent_hash)->0;
            let after = manager.built(parent_hash, outcome, reads).cache;
            &&& after.len() == manager.cache.len()
            &&& after[position].sequence.outcome() == outcome
            &&& after[position].sequence.blocks() == manager.cache[position].sequence.blocks()
            &&& forall|i: int|
                0 <= i < after.len() && i != position ==> #[trigger] after[i] == manager.cache[i]
        }),
{
    lemma_first_on(manager.cache, parent_hash);
    let position = first_on(manager.cache, parent_hash)->0;
    manager.cache[position].sequence.lemma_with_outcome(outcome);
}

/// The state after a new canonical block is where the next build on it starts from, if that is of
/// a kept sequence.
pub proof fn law_prefill_is_used(manager: ManagerView, tip_hash: B256, reads: CachedReads)
    requires
        !(manager.pending.base() matches Some(base) && base.parent_hash == tip_hash),
        manager.buildable(tip_hash) is Some,
    ensures
        ({
            let before = manager.buildable(tip_hash)->0;
            let after = manager.prefilled(tip_hash, reads).buildable(tip_hash);
            &&& after is Some
            &&& after->0.base == before.base
            &&& after->0.blocks == before.blocks
            &&& after->0.cached_state == Some((tip_hash, reads))
        }),
{
    lemma_first_on(manager.cache, tip_hash);
    let after = manager.prefilled(tip_hash, reads);
    let position = first_on(manager.cache, tip_hash)->0;
    lemma_updated(manager.cache, position, after.cache);
}

/// A block that was completed by the first flashblock of the next one can still be built on its
/// parent, unless the next one or an older kept one has the same parent.
pub proof fn law_completed_is_buildable(
    manager: ManagerView,
    flashblock: FlashBlock,
    after: ManagerView,
    result: Result<(), SequenceError>,
)
    requires
        flashblock.index == 0,
        manager.receives(flashblock, after, result),
        result is Ok,
        manager.wf(),
        manager.pending.blocks.contains_key(0),
        ({
            let parent_hash = manager.pending.base()->0.parent_hash;
            &&& !(flashblock.base matches Some(base) && base.parent_hash == parent_hash)
            &&& first_on(manager.cache, parent_hash) is None
        }),
    ensures
        ({
            let parent_hash = manager.pending.base()->0.parent_hash;
            let buildable = after.buildable(parent_hash);
            &&& buildable is Some
            &&& buildable->0.blocks == in_order(manager.pending.blocks)
            &&& buildable->0.cached_state is None
        }),
{
    let entry = after.cache.last();
    let parent_hash = manager.pending.base()->0.parent_hash;
    lemma_not_empty(manager.pending.blocks);
    assert(entry.parent_hash == parent_hash);
    assert(after.pending.blocks == map![0u64 => flashblock]);
    lemma_first_on(manager.cache, parent_hash);
    lemma_first_on(after.cache, parent_hash);
    lemma_pushed(manager.cache, manager.capacity, entry);
    assert(after.cache[after.cache.len() - 1].parent_hash == parent_hash);
}

/// Between the tip and a block that is some seconds younger, five flashblocks are expected for each
/// second; the state root is due from the last but one of them on, unless the builder provides it.
pub proof fn law_root_is_due(base: FlashBlockBase, tip_timestamp: u64, last: FlashBlock)
    requires
        timely(base, tip_timestamp),
    ensures
        expected_final_flashblock(base, tip_timestamp) == 5 * (base.timestamp - tip_timestamp),
        root_is_due(base, tip_timestamp, last) <==> all_zero(last.diff.state_root) && last.index + 1
            >= 5 * (base.timestamp - tip_timestamp),
{
}

/// Once a build of the block that is being received has computed the state root, the complete block
/// is known to have that state root and the hash that was built.
pub proof fn law_built_block_is_known(
    manager: ManagerView,
    block: PendingFlashBlock,
    reads: CachedReads,
    sequence: FlashBlockCompleteSequence,
)
    requires
        manager.pending.base() is Some,
        manager.pending.base()->0.parent_hash == block.parent_hash,
        block.computed_state_root is Some,
        manager.built(block.parent_hash, block.outcome(), reads).pending.completes_to(sequence),
    ensures
        known_outcome(sequence) == (SequenceExecutionOutcome {
            block_hash: block.block_hash,
            state_root: block.computed_state_root->0,
        }),
{
}

/// The cache that a block leaves knows exactly the touched accounts that still exist.
pub proof fn law_cached_accounts(accounts: Seq<BundleAccount>, address: Address)
    ensures
        reads_after(accounts).accounts.contains_key(address) <==> exists|i: int|
            0 <= i < accounts.len() && (#[trigger] accounts[i]).address == address
                && accounts[i].info is Some,
    decreases accounts.len(),
{
    if accounts.len() > 0 {
        let before = accounts.drop_last();
        law_cached_accounts(before, address);
        if exists|i: int|
            0 <= i < before.len() && (#[trigger] before[i]).address == address
                && before[i].info is Some {
            let i = choose|i: int|
                0 <= i < before.len() && (#[trigger] before[i]).address == address
                    && before[i].info is Some;
            assert(accounts[i] == before[i]);
        }
        if exists|i: int|
            0 <= i < accounts.len() && (#[trigger] accounts[i]).address == address
                && accounts[i].info is Some {
            let i = choose|i: int|
                0 <= i < accounts.len() && (#[trigger] accounts[i]).address == address
                    && accounts[i].info is Some;
            if i < before.len() {
                assert(before[i] == accounts[i]);
            } else {
                assert(accounts.last() == accounts[i]);
            }
        }
        assert(accounts[accounts.len() - 1] == accounts.last());
    }
}

/// An account that still exists is cached with its state after the block and the present values of
/// the slots that were touched.
pub proof fn law_cached_account(accounts: Seq<BundleAccount>, i: int)
    requires
        0 <= i < accounts.len(),
        accounts[i].info is Some,
        forall|j: int|
            i < j < accounts.len() ==> (#[trigger] accounts[j]).address != accounts[i].address,
    ensures
        reads_after(accounts).accounts.contains_key(accounts[i].address),
        reads_after(accounts).accounts[accounts[i].address] == (CachedAccountView {
            info: accounts[i].info,
            storage: present_storage(accounts[i].storage@),
        }),
    decreases accounts.len(),
{
    if i < accounts.len() - 1 {
        let before = accounts.drop_last();
        assert forall|j: int| i < j < before.len() implies (#[trigger] before[j]).address
            != before[i].address by {
            assert(before[j] == accounts[j]);
        }
        law_cached_account(before, i);
        assert(accounts[accounts.len() - 1].address != accounts[i].address);
    }
}

/// A block can be built on its parent as soon as its first flashblock has been taken in.
pub proof fn law_started_is_buildable(
    manager: ManagerView,
    flashblock: FlashBlock,
    after: ManagerView,
)
    requires
        flashblock.index == 0,
        flashblock.base is Some,
        manager.receives(flashblock, after, Ok(())),
    ensures
        ({
            let buildable = after.buildable(flashblock.base->0.parent_hash);
            &&& buildable is Some
            &&& buildable->0.base == flashblock.base->0
            &&& buildable->0.blocks == seq![flashblock]
        }),
{
    law_start_of_a_block(manager, flashblock, after, Ok(()));
    law_successive(after.pending.blocks, 1);
    assert(in_order(after.pending.blocks) == seq![flashblock]);
}

/// Something that changes what a manager holds.
pub ghost enum Event {
    /// A flashblock has arrived, with the given answer.
    Received(FlashBlock, Result<(), SequenceError>),
    /// A build on the given block has succeeded.
    Built(B256, Option<SequenceExecutionOutcome>, CachedReads),
    /// The given block has become the canonical tip.
    Prefilled(B256, CachedReads),
}

/// Whether an event takes a manager from one state to another.
pub open spec fn happens(before: ManagerView, event: Event, after: ManagerView) -> bool {
    match event {
        Event::Received(flashblock, result) => before.receives(flashblock, after, result),
        Event::Built(parent_hash, outcome, reads) => after == before.built(
            parent_hash,
            outcome,
            reads,
        ),
        Event::Prefilled(tip_hash, reads) => after == before.prefilled(tip_hash, reads),
    }
}

/// Whether events take a manager through the given states.
pub open spec fn is_run(states: Seq<ManagerView>, events: Seq<Event>) -> bool {
    &&& states.len() == events.len() + 1
    &&& forall|i: int|
        0 <= i < events.len() ==> happens(states[i], #[trigger] events[i], states[i + 1])
}

/// Whether an event completes the block that is being received.
pub open spec fn completes(before: ManagerView, event: Event) -> bool {
    &&& event matches Event::Received(flashblock, _) && flashblock.index == 0
    &&& before.pending.defect() is None
}

/// The flashblocks of the blocks that a run completes, oldest first.
pub open spec fn completed_by(states: Seq<ManagerView>, events: Seq<Event>) -> Seq<Seq<FlashBlock>>
    decreases events.len(),
{
    if events.len() == 0 {
        Seq::empty()
    } else {
        let earlier = completed_by(states.drop_last(), events.drop_last());
        let before = states[events.len() - 1];
        if completes(before, events.last()) {
            earlier.push(in_order(before.pending.blocks))
        } else {
            earlier
        }
    }
}

/// The flashblocks of the kept blocks, oldest first.
pub open spec fn kept(cache: Seq<CachedSequence>) -> Seq<Seq<FlashBlock>> {
    cache.map_values(|entry: CachedSequence| entry.sequence.blocks())
}

/// An event leaves the state in order, and what is kept changes only by what it completes.
proof fn lemma_event(before: ManagerView, event: Event, after: ManagerView)
    requires
        before.wf(),
        happens(before, event, after),
    ensures
        after.wf(),
        kept(after.cache) == if completes(before, event) {
            pushed(kept(before.cache), CACHE_SIZE as nat, in_order(before.pending.blocks))
        } else {
            kept(before.cache)
        },
{
    match event {
        Event::Received(flashblock, result) => {
            law_one_payload(before.pending, flashblock);
            if completes(before, event) {
                assert(before.pending.blocks != Map::<u64, FlashBlock>::empty());
                let entry = after.cache.last();
                assert(after.cache == pushed(before.cache, before.capacity, entry));
                lemma_pushed(before.cache, before.capacity, entry);
                assert(kept(after.cache) == pushed(
                    kept(before.cache),
                    CACHE_SIZE as nat,
                    in_order(before.pending.blocks),
                ));
            }
        },
        Event::Built(parent_hash, outcome, reads) => {
            lemma_first_on(before.cache, parent_hash);
            if first_on(before.cache, parent_hash) is Some {
                let position = first_on(before.cache, parent_hash)->0;
                before.cache[position].sequence.lemma_with_outcome(outcome);
            }
            assert(kept(after.cache) == kept(before.cache));
        },
        Event::Prefilled(tip_hash, reads) => {
            lemma_first_on(before.cache, tip_hash);
            assert(kept(after.cache) == kept(before.cache));
        },
    }
}

/// Whatever happens, a manager stays in order, and keeps the latest of the blocks that it kept
/// before or that were completed since.
pub proof fn law_latest_are_kept(states: Seq<ManagerView>, events: Seq<Event>)
    requires
        is_run(states, events),
        states[0].wf(),
    ensures
        states.last().wf(),
        kept(states.last().cache) == pushed_all(
            kept(states[0].cache),
            CACHE_SIZE as nat,
            completed_by(states, events),
        ),
    decreases events.len(),
{
    if events.len() > 0 {
        let earlier = states.drop_last();
        let before = events.drop_last();
        assert forall|i: int| 0 <= i < before.len() implies happens(
            earlier[i],
            #[trigger] before[i],
            earlier[i + 1],
        ) by {
            assert(before[i] == events[i]);
        }
        law_latest_are_kept(earlier, before);
        let last = events[events.len() - 1];
        assert(happens(states[events.len() - 1], last, states[events.len() as int]));
        lemma_event(earlier.last(), last, states.last());
        let completed = completed_by(states, events);
        if completes(earlier.last(), last) {
            assert(completed.drop_last() == completed_by(earlier, before));
        }
    }
}

/// The parent of the block that a complete run of flashblocks makes.
pub open spec fn parent_of(blocks: Seq<FlashBlock>) -> B256 {
    blocks[0].base->0.parent_hash
}

/// Once four blocks with different parents have been completed, the first of them cannot be built
/// any more and the other three can, whatever else has happened in between or before; unless the
/// block that is being received is on one of their parents and so comes first.
pub proof fn law_oldest_leaves(states: Seq<ManagerView>, events: Seq<Event>)
    requires
        is_run(states, events),
        states[0].wf(),
        completed_by(states, events).len() >= 4,
        ({
            let completed = completed_by(states, events);
            let latest = completed.skip(completed.len() - 4);
            &&& forall|i: int, j: int|
                0 <= i < j < 4 ==> parent_of(#[trigger] latest[i]) != parent_of(
                    #[trigger] latest[j],
                )
            &&& forall|i: int|
                0 <= i < 4 ==> !(states.last().pending.base() matches Some(base)
                    && base.parent_hash == parent_of(#[trigger] latest[i]))
        }),
    ensures
        ({
            let completed = completed_by(states, events);
            let latest = completed.skip(completed.len() - 4);
            let manager = states.last();
            &&& first_on(manager.cache, parent_of(latest[0])) is None
            &&& manager.buildable(parent_of(latest[0])) is None
            &&& forall|i: int|
                1 <= i < 4 ==> {
                    let parent_hash = parent_of(#[trigger] latest[i]);
                    &&& first_on(manager.cache, parent_hash) == Some(i - 1)
                    &&& manager.buildable(parent_hash) matches Some(buildable) && buildable.base
                        == latest[i][0].base->0 && buildable.blocks == latest[i]
                }
        }),
{
    let completed = completed_by(states, events);
    let latest = completed.skip(completed.len() - 4);
    let manager = states.last();
    let cache = manager.cache;
    law_latest_are_kept(states, events);
    lemma_latest(kept(states[0].cache), CACHE_SIZE as nat, completed);
    assert(kept(cache) == completed.skip(completed.len() - 3));
    assert(cache.len() == 3);
    assert forall|i: int| 0 <= i < 3 implies (#[trigger] cache[i]).sequence.blocks() == latest[i
        + 1] && cache[i].parent_hash == parent_of(latest[i + 1]) by {
        assert(kept(cache)[i] == latest[i + 1]);
        assert(cache[i].wf());
    }
    lemma_first_on(cache, parent_of(latest[0]));
    assert forall|i: int| 1 <= i < 4 implies first_on(cache, parent_of(#[trigger] latest[i]))
        == Some(i - 1) by {
        lemma_first_on(cache, parent_of(latest[i]));
        assert(cache[i - 1].parent_hash == parent_of(latest[i]));
    }
}

/// Something that happens to a service.
pub ghost enum ServiceEvent {
    /// A flashblock has arrived, with the given answer.
    Received(FlashBlock, Result<(), SequenceError>),
    /// The canonical chain has changed, to a new tip if it has one.
    Followed(Option<CanonicalTip>),
    /// A build has finished, with or without a block.
    Finished(Option<(PendingFlashBlock, CachedReads)>),
    /// A build on the given tip has been tried, which started the given one.
    Tried(Option<LatestHeader>, Option<BuildJob>),
    /// A build on the given tip has been tried, but its timing cannot be computed.
    Declined(Option<LatestHeader>),
}

/// Whether an event takes a service from one state to another. A build finishes only while one is
/// going on, and is tried only when it is time to.
pub open spec fn serves(before: ServiceView, event: ServiceEvent, after: ServiceView) -> bool {
    match event {
        ServiceEvent::Received(flashblock, result) => before.receives(flashblock, after, result),
        ServiceEvent::Followed(tip) => before.follows(tip, after),
        ServiceEvent::Finished(result) => before.building && after == before.finished(result),
        ServiceEvent::Tried(latest, job) => before.rebuild && before.can_try(latest)
            && before.tries(latest, after, job),
        ServiceEvent::Declined(latest) => before.rebuild && !before.can_try(latest) && after
            == ServiceView { rebuild: false, ..before },
    }
}

/// Whether events take a service through the given states.
pub open spec fn is_service_run(states: Seq<ServiceView>, events: Seq<ServiceEvent>) -> bool {
    &&& states.len() == events.len() + 1
    &&& forall|i: int|
        0 <= i < events.len() ==> serves(states[i], #[trigger] events[i], states[i + 1])
}

/// Whether an event starts a build.
pub open spec fn starts(event: ServiceEvent) -> bool {
    event matches ServiceEvent::Tried(_, Some(_))
}

/// Whether an event is the end of a build.
pub open spec fn finishes(event: ServiceEvent) -> bool {
    event is Finished
}

/// Whether a build is tried in an event, with or without success.
pub open spec fn attempts(event: ServiceEvent) -> bool {
    event is Tried || event is Declined
}

/// Whether an event changes what can be built: a flashblock is taken in, or there is a new tip.
pub open spec fn changes(event: ServiceEvent) -> bool {
    match event {
        ServiceEvent::Received(_, result) => result is Ok,
        ServiceEvent::Followed(tip) => tip is Some,
        _ => false,
    }
}

/// How many events are of the given sort.
pub open spec fn occurrences(
    events: Seq<ServiceEvent>,
    sort: spec_fn(ServiceEvent) -> bool,
) -> nat {
    events.filter(sort).len()
}

/// There is never more than one build at a time: as many builds have been started as have finished,
/// or one more, and then that one is going on.
pub proof fn law_one_build_at_a_time(states: Seq<ServiceView>, events: Seq<ServiceEvent>)
    requires
        is_service_run(states, events),
        !states[0].building,
    ensures
        occurrences(events, |event| starts(event)) == occurrences(events, |event| finishes(event))
            + if states.last().building {
            1nat
        } else {
            0nat
        },
    decreases events.len(),
{
    reveal(Seq::filter);
    if events.len() > 0 {
        let earlier = states.drop_last();
        let before = events.drop_last();
        assert forall|i: int| 0 <= i < before.len() implies serves(
            earlier[i],
            #[trigger] before[i],
            earlier[i + 1],
        ) by {
            assert(before[i] == events[i]);
        }
        law_one_build_at_a_time(earlier, before);
        let last = events[events.len() - 1];
        assert(serves(states[events.len() - 1], last, states[events.len() as int]));
    }
}

/// A build is tried only after a change: some flashblock was taken in or some new tip was known
/// since the last time that one was tried.
pub proof fn law_tried_after_a_change(
    states: Seq<ServiceView>,
    events: Seq<ServiceEvent>,
    now: int,
)
    requires
        is_service_run(states, events),
        !states[0].rebuild,
        0 <= now < events.len(),
        attempts(events[now]),
    ensures
        exists|k: int|
            0 <= k < now && changes(#[trigger] events[k]) && forall|m: int|
                k < m < now ==> !attempts(#[trigger] events[m]),
{
    assert(serves(states[now], events[now], states[now + 1]));
    lemma_changed(states, events, now);
}

/// It is time for a build only after a change since the last time that one was tried.
proof fn lemma_changed(states: Seq<ServiceView>, events: Seq<ServiceEvent>, now: int)
    requires
        is_service_run(states, events),
        !states[0].rebuild,
        0 <= now <= events.len(),
        states[now].rebuild,
    ensures
        exists|k: int|
            0 <= k < now && changes(#[trigger] events[k]) && forall|m: int|
                k < m < now ==> !attempts(#[trigger] events[m]),
    decreases now,
{
    let last = now - 1;
    assert(serves(states[last], events[last], states[last + 1]));
    if !changes(events[last]) {
        lemma_changed(states, events, last);
        let k = choose|k: int|
            0 <= k < last && changes(#[trigger] events[k]) && forall|m: int|
                k < m < last ==> !attempts(#[trigger] events[m]);
        assert forall|m: int| k < m < now implies !attempts(#[trigger] events[m]) by {}
        assert(changes(events[k]));
    }
}

} // verus!
