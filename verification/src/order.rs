//! The order of flashblocks in a sequence: ascending by index.

use std::collections::BTreeMap;

use vstd::prelude::*;
use vstd::std_specs::cmp::OrdSpec;
use vstd::std_specs::iter::IteratorSpec;

use crate::flashblock::FlashBlock;

verus! {

broadcast use {vstd::laws_cmp::group_laws_cmp, vstd::std_specs::btree::group_btree_axioms};

/// Whether a listing holds the given keys, each once, in ascending order.
pub open spec fn lists_ascending(listing: Seq<u64>, keys: Set<u64>) -> bool {
    &&& forall|i: int, j: int| 0 <= i < j < listing.len() ==> listing[i] < listing[j]
    &&& forall|key: u64| keys.contains(key) <==> listing.contains(key)
}

/// Keys in ascending order.
pub open spec fn ascending(keys: Set<u64>) -> Seq<u64> {
    choose|listing: Seq<u64>| lists_ascending(listing, keys)
}

/// Flashblocks in the order of their indices.
pub open spec fn in_order(blocks: Map<u64, FlashBlock>) -> Seq<FlashBlock> {
    ascending(blocks.dom()).map_values(|index: u64| blocks[index])
}

/// A set of keys has one ascending listing.
pub proof fn lemma_ascending_unique(a: Seq<u64>, b: Seq<u64>, keys: Set<u64>)
    requires
        lists_ascending(a, keys),
        lists_ascending(b, keys),
    ensures
        a == b,
    decreases a.len(),
{
    if a.len() == 0 {
        if b.len() > 0 {
            assert(b.contains(b[0]));
        }
    } else {
        assert(a.contains(a.last()));
        assert(b.contains(a.last()));
        assert(b.contains(b.last()));
        assert(a.contains(b.last()));
        assert(a.last() == b.last());
        let rest = keys.remove(a.last());
        lemma_drop_last(a, keys);
        lemma_drop_last(b, keys);
        lemma_ascending_unique(a.drop_last(), b.drop_last(), rest);
        assert(a == a.drop_last().push(a.last()));
        assert(b == b.drop_last().push(b.last()));
    }
}

proof fn lemma_drop_last(listing: Seq<u64>, keys: Set<u64>)
    requires
        lists_ascending(listing, keys),
        listing.len() > 0,
    ensures
        lists_ascending(listing.drop_last(), keys.remove(listing.last())),
{
    let rest = keys.remove(listing.last());
    assert forall|key: u64| rest.contains(key) <==> listing.drop_last().contains(key) by {
        if rest.contains(key) {
            let i = choose|i: int| 0 <= i < listing.len() && listing[i] == key;
            assert(listing.drop_last()[i] == key);
        }
        if listing.drop_last().contains(key) {
            let i = choose|i: int| 0 <= i < listing.len() - 1 && listing.drop_last()[i] == key;
            assert(listing[i] == key);
            assert(listing.contains(key));
        }
    }
}

/// The indices of a map in ascending order.
pub(crate) fn indices(blocks: &BTreeMap<u64, FlashBlock>) -> (listing: Vec<u64>)
    ensures
        lists_ascending(listing@, blocks@.dom()),
{
    let mut listing: Vec<u64> = Vec::new();
    let entries = blocks.iter();
    let ghost all = entries.remaining();
    let ghost keys = all.map_values(|entry: (&u64, &FlashBlock)| *entry.0);
    proof {
        assert(vstd::laws_cmp::obeys_cmp::<u64>());
        assert(vstd::std_specs::btree::key_obeys_cmp_spec::<u64>());
        assert(vstd::std_specs::btree::increasing_seq(keys));
        assert forall|i: int, j: int| 0 <= i < j < keys.len() implies keys[i] < keys[j] by {
            assert(keys[i].cmp_spec(&keys[j]) is Less);
        }
        assert forall|key: u64| blocks@.dom().contains(key) implies keys.contains(key) by {
            assert(blocks@.contains_key(key));
            assert(all.contains((&key, &blocks@[key])));
            let i = choose|i: int| 0 <= i < all.len() && all[i] == (&key, &blocks@[key]);
            assert(keys[i] == key);
        }
        assert forall|key: u64| keys.contains(key) implies blocks@.dom().contains(key) by {
            let i = choose|i: int| 0 <= i < keys.len() && keys[i] == key;
            assert(blocks@.contains_key(*all[i].0));
        }
        assert(lists_ascending(keys, blocks@.dom()));
    }
    for entry in it: blocks.iter()
        invariant
            it.seq() == all,
            keys == all.map_values(|entry: (&u64, &FlashBlock)| *entry.0),
            listing@ == keys.take(it.index()),
    {
        listing.push(*entry.0);
    }
    assert(listing@ == keys);
    listing
}

/// An ascending listing of the indices is the order of the flashblocks.
pub proof fn lemma_in_order(blocks: Map<u64, FlashBlock>, listing: Seq<u64>)
    requires
        lists_ascending(listing, blocks.dom()),
    ensures
        ascending(blocks.dom()) == listing,
        in_order(blocks) == listing.map_values(|index: u64| blocks[index]),
{
    lemma_ascending_unique(ascending(blocks.dom()), listing, blocks.dom());
}

/// The flashblocks of a map in order.
pub(crate) fn refs_in_order(blocks: &BTreeMap<u64, FlashBlock>) -> (refs: Vec<&FlashBlock>)
    ensures
        refs@.unref() == in_order(blocks@),
{
    let listing = indices(blocks);
    let mut refs: Vec<&FlashBlock> = Vec::new();
    proof {
        lemma_in_order(blocks@, listing@);
    }
    let mut i: usize = 0;
    while i < listing.len()
        invariant
            i <= listing.len(),
            lists_ascending(listing@, blocks@.dom()),
            refs@.unref() == listing@.map_values(|index: u64| blocks@[index]).take(i as int),
        decreases listing.len() - i,
    {
        assert(listing@.contains(listing@[i as int]));
        assert(blocks@.contains_key(listing@[i as int]));
        if let Some(block) = blocks.get(&listing[i]) {
            let ghost before = refs@;
            refs.push(block);
            assert(refs@.unref() == before.unref().push(*block));
        }
        i += 1;
    }
    refs
}

/// Takes the flashblocks out of a map, in order.
pub(crate) fn take_in_order(blocks: BTreeMap<u64, FlashBlock>) -> (taken: Vec<FlashBlock>)
    ensures
        taken@ == in_order(blocks@),
{
    let mut blocks = blocks;
    let ghost all = blocks@;
    let listing = indices(&blocks);
    let mut taken: Vec<FlashBlock> = Vec::new();
    proof {
        lemma_in_order(all, listing@);
    }
    let mut i: usize = 0;
    while i < listing.len()
        invariant
            i <= listing.len(),
            lists_ascending(listing@, all.dom()),
            forall|j: int|
                i <= j < listing.len() ==> blocks@.contains_key(listing@[j])
                    && blocks@[#[trigger] listing@[j]] == all[listing@[j]],
            taken@ == listing@.map_values(|index: u64| all[index]).take(i as int),
        decreases listing.len() - i,
    {
        if let Some(block) = blocks.remove(&listing[i]) {
            taken.push(block);
        }
        i += 1;
    }
    taken
}

/// Finitely many keys can be listed in ascending order.
pub proof fn lemma_listing_exists(keys: Set<u64>)
    requires
        keys.finite(),
    ensures
        lists_ascending(ascending(keys), keys),
    decreases keys.len(),
{
    if keys.len() == 0 {
        assert(lists_ascending(Seq::<u64>::empty(), keys));
    } else {
        let leq = |a: u64, b: u64| a <= b;
        assert(vstd::relations::total_ordering(leq));
        let highest = keys.find_unique_maximal(leq);
        keys.find_unique_maximal_ensures(leq);
        let rest = keys.remove(highest);
        lemma_listing_exists(rest);
        let before = ascending(rest);
        let listing = before.push(highest);
        assert forall|key: u64| keys.contains(key) implies listing.contains(key) by {
            if key == highest {
                assert(listing[before.len() as int] == key);
            } else {
                assert(rest.contains(key));
                let i = choose|i: int| 0 <= i < before.len() && before[i] == key;
                assert(listing[i] == key);
            }
        }
        assert forall|key: u64| listing.contains(key) implies keys.contains(key) by {
            let i = choose|i: int| 0 <= i < listing.len() && listing[i] == key;
            if i < before.len() {
                assert(before.contains(key));
            }
        }
        assert forall|i: int| 0 <= i < before.len() implies before[i] < highest by {
            assert(before.contains(before[i]));
            assert(rest.contains(before[i]));
            assert(keys.contains(before[i]) && before[i] != highest);
            assert(leq(before[i], highest) || !leq(highest, before[i]));
        }
        assert(lists_ascending(listing, keys));
    }
}

/// Some flashblocks stay some when they are put in order.
pub proof fn lemma_not_empty(blocks: Map<u64, FlashBlock>)
    requires
        blocks.dom().finite(),
        blocks.contains_key(0),
    ensures
        in_order(blocks).len() > 0,
        in_order(blocks)[0] == blocks[0],
{
    lemma_listing_exists(blocks.dom());
    let listing = ascending(blocks.dom());
    assert(listing.contains(0));
    let i = choose|i: int| 0 <= i < listing.len() && listing[i] == 0;
    if i > 0 {
        assert(listing[0] < listing[i]);
    }
}

} // verus!
