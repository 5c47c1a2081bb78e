//! The ring buffer that keeps the last complete sequences.

use ringbuffer::{AllocRingBuffer, RingBuffer};
use vstd::prelude::*;

use crate::cache::CachedSequence;

verus! {

/// A ring buffer, opaque here.
#[verifier::external_type_specification]
#[verifier::external_body]
#[verifier::reject_recursive_types(T)]
pub struct ExAllocRingBuffer<T>(AllocRingBuffer<T>);

/// What a ring buffer holds, from the entry pushed the longest ago to the latest.
pub uninterp spec fn ring_entries(ring: AllocRingBuffer<CachedSequence>) -> Seq<CachedSequence>;

/// How many entries a ring buffer can hold.
pub uninterp spec fn ring_capacity(ring: AllocRingBuffer<CachedSequence>) -> nat;

/// What a ring buffer holds after a push: a full one loses the entry pushed the longest ago.
pub open spec fn pushed<T>(entries: Seq<T>, capacity: nat, entry: T) -> Seq<T> {
    if entries.len() == capacity {
        entries.drop_first().push(entry)
    } else {
        entries.push(entry)
    }
}

/// After a push, a ring buffer holds the pushed entry last, and before it entries that it held.
pub proof fn lemma_pushed<T>(entries: Seq<T>, capacity: nat, entry: T)
    requires
        entries.len() <= capacity,
        0 < capacity,
    ensures
        0 < pushed(entries, capacity, entry).len() <= capacity,
        pushed(entries, capacity, entry).last() == entry,
        forall|i: int|
            0 <= i < pushed(entries, capacity, entry).len() - 1 ==> entries.contains(
                #[trigger] pushed(entries, capacity, entry)[i],
            ),
{
    let after = pushed(entries, capacity, entry);
    assert forall|i: int| 0 <= i < after.len() - 1 implies entries.contains(
        #[trigger] after[i],
    ) by {
        if entries.len() == capacity {
            assert(after[i] == entries[i + 1]);
        } else {
            assert(after[i] == entries[i]);
        }
    }
}

/// `AllocRingBuffer::new`: an empty ring buffer of the given capacity. The call panics if the
/// capacity is zero or too large to allocate, so only small ones are admitted.
#[verifier::external_body]
pub(crate) fn new_ring(capacity: usize) -> (ring: AllocRingBuffer<CachedSequence>)
    requires
        0 < capacity <= 1024,
    ensures
        ring_entries(ring) == Seq::<CachedSequence>::empty(),
        ring_capacity(ring) == capacity,
{
    AllocRingBuffer::new(capacity)
}

/// `RingBuffer::enqueue`: puts an entry behind the others; if the ring buffer is full, the entry
/// pushed the longest ago leaves it.
#[verifier::external_body]
pub(crate) fn push(ring: &mut AllocRingBuffer<CachedSequence>, entry: CachedSequence)
    ensures
        ring_entries(*final(ring)) == pushed(
            ring_entries(*old(ring)),
            ring_capacity(*old(ring)),
            entry,
        ),
        ring_capacity(*final(ring)) == ring_capacity(*old(ring)),
{
    let _ = ring.enqueue(entry);
}

/// `RingBuffer::iter`: the entries, starting from the one pushed the longest ago.
#[verifier::external_body]
pub(crate) fn entries(ring: &AllocRingBuffer<CachedSequence>) -> (refs: Vec<&CachedSequence>)
    ensures
        refs@.unref() == ring_entries(*ring),
{
    ring.iter().collect()
}

/// `RingBuffer::get_mut`: the entry at a position, counted from the one pushed the longest ago.
/// Writing to it changes that entry and nothing else.
#[verifier::external_body]
pub(crate) fn entry_mut(ring: &mut AllocRingBuffer<CachedSequence>, position: usize) -> (entry:
    &mut CachedSequence)
    requires
        position < ring_entries(*old(ring)).len(),
    ensures
        *entry == ring_entries(*old(ring))[position as int],
        ring_entries(*final(ring)) == ring_entries(*old(ring)).update(
            position as int,
            *final(entry),
        ),
        ring_capacity(*final(ring)) == ring_capacity(*old(ring)),
{
    ring.get_mut(position).unwrap()
}

} // verus!
