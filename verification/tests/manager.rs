use std::sync::Arc;

use alloy_eips::eip2718::Encodable2718;
use alloy_primitives::{hex, Address, Sealable};
use flashblocks::cache::{PendingFlashBlock, SequenceManager};
use flashblocks::flashblock::{FlashBlock, FlashBlockBase, FlashBlockDelta, FlashBlockMetadata};
use flashblocks::reads::CachedReads;
use flashblocks::sequence::{FlashBlockCompleteSequence, SequenceError};
use flashblocks::transactions::{push_recovered, recover_transactions};
use op_alloy_consensus::{OpTxEnvelope, TxDeposit};
use op_alloy_rpc_types_engine::{
    OpFlashblockPayloadBase, OpFlashblockPayloadDelta, OpFlashblockPayloadMetadata,
};

/// The transaction of EIP-155's example, signed by `SIGNER`.
const SIGNED: &str = "f86c098504a817c800825208943535353535353535353535353535353535353535880de0b6b3a76400008025a028ef61340bd939bc2195fe537567866003e1a15d3c71ff63e1590620aa636276a067cbe9d8997f761aecb703304b3800ccf555c9f3dc64214b297fb1966a3b6d83";
const SIGNER: &str = "9d8a62f656a8d1615c1294fd71e9cfb3e4855a4f";

fn signed() -> Vec<u8> {
    hex::decode(SIGNED).unwrap()
}

fn deposit(from: u8) -> Vec<u8> {
    let transaction = TxDeposit { from: Address::from([from; 20]), ..Default::default() };
    OpTxEnvelope::Deposit(transaction.seal_slow()).encoded_2718()
}

fn block(number: u64, index: u64, parent: u8, timestamp: u64) -> FlashBlock {
    FlashBlock {
        payload_id: [number as u8; 8],
        index,
        base: if index == 0 {
            Some(FlashBlockBase {
                parent_hash: [parent; 32],
                block_number: number,
                timestamp,
                rest: OpFlashblockPayloadBase::default(),
            })
        } else {
            None
        },
        diff: FlashBlockDelta {
            state_root: [0; 32],
            block_hash: [number as u8 + index as u8; 32],
            transactions: vec![deposit(10 + index as u8)],
            rest: OpFlashblockPayloadDelta::default(),
        },
        metadata: FlashBlockMetadata {
            block_number: number,
            rest: OpFlashblockPayloadMetadata::default(),
        },
    }
}

fn reads(number: u64) -> CachedReads {
    let mut reads = CachedReads::default();
    reads.block_hashes.push((number, [9; 32]));
    reads.contracts.push(([8; 32], Arc::new(vec![1, 2])));
    reads
}

fn built(parent: u8, hash: u8, root: Option<u8>) -> PendingFlashBlock {
    PendingFlashBlock {
        parent_hash: [parent; 32],
        block_hash: [hash; 32],
        computed_state_root: root.map(|root| [root; 32]),
    }
}

/// A manager that is receiving the block with the given number, on the parent of that number.
fn receiving(number: u64) -> SequenceManager {
    let mut manager = SequenceManager::new(true);
    manager.insert_flashblock(block(number, 0, number as u8, 1_000)).unwrap();
    manager
}

/// Completes the block that is being received.
fn complete(manager: &mut SequenceManager) -> FlashBlockCompleteSequence {
    let mut receiver = manager.subscribe_block_sequence();
    manager.complete_pending(1).unwrap();
    receiver.try_recv().unwrap()
}

#[test]
fn nothing_is_buildable_at_first() {
    let manager = SequenceManager::new(true);
    assert_eq!(manager.pending().count(), 0);
    assert!(manager.is_timely([1; 32], u64::MAX));
    assert!(manager.next_buildable_args([1; 32], 10).is_none());
}

#[test]
fn first_flashblock_of_all_is_inserted() {
    let mut manager = SequenceManager::new(true);
    let mut receiver = manager.subscribe_block_sequence();
    manager.insert_flashblock(block(7, 1, 7, 1_000)).unwrap();
    assert_eq!(manager.pending().count(), 0);
    manager.insert_flashblock(block(7, 0, 7, 1_000)).unwrap();
    assert_eq!(manager.pending().count(), 1);
    assert_eq!(manager.pending().block_number(), Some(7));
    assert_eq!(manager.pending().last_flashblock().unwrap().diff.block_hash, [7; 32]);
    assert!(receiver.try_recv().is_err());
    assert!(manager.next_buildable_args([7; 32], 998).is_some());
}

#[test]
fn start_of_a_block_completes_the_one_before() {
    let mut manager = receiving(5);
    let mut receiver = manager.subscribe_block_sequence();
    let mut other = manager.pending().subscribe_block_sequence();
    manager.insert_flashblock(block(5, 1, 5, 1_000)).unwrap();
    assert!(receiver.try_recv().is_err());
    manager.insert_flashblock(block(6, 0, 6, 1_002)).unwrap();
    let sequence = receiver.try_recv().unwrap();
    assert_eq!(sequence.block_number(), 5);
    assert_eq!(sequence.count(), 2);
    assert!(receiver.try_recv().is_err());
    assert!(other.try_recv().is_err());
    assert_eq!(manager.pending().block_number(), Some(6));
    assert_eq!(manager.pending().count(), 1);
    let args = manager.next_buildable_args([5; 32], 998).unwrap();
    assert_eq!(args.base.block_number, 5);
    assert_eq!(args.last_flashblock_index, 1);
}

#[test]
fn incomplete_block_is_dropped_with_the_next_start() {
    let mut manager = receiving(5);
    manager.insert_flashblock(block(5, 2, 5, 1_000)).unwrap();
    assert_eq!(
        manager.insert_flashblock(block(6, 0, 6, 1_002)).unwrap_err(),
        SequenceError::Inconsistent
    );
    assert_eq!(manager.pending().count(), 0);
    assert!(manager.next_buildable_args([5; 32], 998).is_none());
    let mut without_base = block(7, 0, 7, 1_004);
    without_base.base = None;
    manager.insert_flashblock(without_base).unwrap();
    assert_eq!(
        manager.insert_flashblock(block(8, 0, 8, 1_006)).unwrap_err(),
        SequenceError::MissingBase
    );
    manager.insert_flashblock(block(9, 0, 9, 1_008)).unwrap();
    assert_eq!(manager.pending().block_number(), Some(9));
}

#[test]
fn completed_block_is_published_to_subscribers_only() {
    let mut manager = receiving(5);
    let mut receiver = manager.subscribe_block_sequence();
    manager.complete_pending(0).unwrap();
    assert!(receiver.try_recv().is_err());
    assert_eq!(manager.complete_pending(1).unwrap_err(), SequenceError::NothingPending);
    manager.insert_flashblock(block(6, 0, 6, 1_000)).unwrap();
    manager.complete_pending(1).unwrap();
    assert_eq!(receiver.try_recv().unwrap().block_number(), 6);
    assert!(receiver.try_recv().is_err());
    assert!(manager.next_buildable_args([5; 32], 998).is_some());
    assert!(manager.next_buildable_args([6; 32], 998).is_some());
}

#[test]
fn oldest_sequence_leaves_the_cache() {
    let mut manager = receiving(1);
    for number in 2..=4u64 {
        manager.insert_flashblock(block(number, 0, number as u8, 1_000)).unwrap();
    }
    for number in 1..=4u8 {
        assert!(manager.next_buildable_args([number; 32], 998).is_some());
    }
    manager.insert_flashblock(block(5, 0, 5, 1_000)).unwrap();
    assert!(manager.next_buildable_args([1; 32], 998).is_none());
    for number in 2..=5u8 {
        let args = manager.next_buildable_args([number; 32], 998).unwrap();
        assert_eq!(args.base.block_number, number as u64);
        assert_eq!(args.last_flashblock_index, 0);
    }
}

#[test]
fn pending_comes_before_cached() {
    let mut manager = receiving(5);
    manager.insert_flashblock(block(6, 0, 5, 1_000)).unwrap();
    assert_eq!(manager.next_buildable_args([5; 32], 998).unwrap().base.block_number, 6);
    manager.insert_flashblock(block(7, 0, 7, 1_000)).unwrap();
    assert_eq!(manager.next_buildable_args([5; 32], 998).unwrap().base.block_number, 5);
}

#[test]
fn arguments_are_those_of_the_last_flashblock() {
    let mut manager = receiving(5);
    manager.insert_flashblock(block(5, 1, 5, 1_000)).unwrap();
    let args = manager.next_buildable_args([5; 32], 998).unwrap();
    assert_eq!(args.base.parent_hash, [5; 32]);
    assert_eq!(args.last_flashblock_index, 1);
    assert_eq!(args.last_flashblock_hash, [6; 32]);
    assert!(args.cached_state.is_none());
    assert_eq!(args.transactions.len(), 2);
    assert_eq!(args.transactions[0].encoded, deposit(10));
    assert_eq!(args.transactions[0].recovered.signer, [10; 20]);
    assert_eq!(args.transactions[1].encoded, deposit(11));
    assert_eq!(args.transactions[1].recovered.signer, [11; 20]);
    assert_eq!(args.transactions[1].recovered.transaction.encoded_2718(), deposit(11));
}

#[test]
fn arguments_can_be_made_of_given_transactions() {
    let manager = receiving(5);
    assert!(manager.buildable_args([5; 32], 998, None).is_none());
    assert!(manager.buildable_args([6; 32], 998, Some(vec![])).is_none());
    let args = manager.buildable_args([5; 32], 998, Some(vec![])).unwrap();
    assert!(args.transactions.is_empty());
    assert_eq!(args.last_flashblock_hash, [5; 32]);
}

#[test]
fn signed_transaction_is_recovered() {
    let mut flashblock = block(5, 0, 5, 1_000);
    flashblock.diff.transactions = vec![signed()];
    let recovered = recover_transactions(&vec![&flashblock]).unwrap();
    assert_eq!(recovered.len(), 1);
    assert_eq!(recovered[0].encoded, signed());
    assert_eq!(hex::encode(recovered[0].recovered.signer), SIGNER);
}

#[test]
fn one_bad_transaction_spoils_the_build() {
    let mut manager = receiving(5);
    let mut bad = block(5, 1, 5, 1_000);
    bad.diff.transactions = vec![deposit(1), vec![0xff, 0x00]];
    manager.insert_flashblock(bad).unwrap();
    assert!(manager.next_buildable_args([5; 32], 998).is_none());
    let mut trailing = block(5, 1, 5, 1_000);
    trailing.diff.transactions = vec![[signed(), vec![0]].concat()];
    manager.insert_flashblock(trailing).unwrap();
    assert!(manager.next_buildable_args([5; 32], 998).is_none());
    manager.insert_flashblock(block(5, 1, 5, 1_000)).unwrap();
    assert!(manager.next_buildable_args([5; 32], 998).is_some());
}

#[test]
fn transactions_are_added_only_if_recovered() {
    let mut flashblock = block(5, 0, 5, 1_000);
    flashblock.diff.transactions = vec![deposit(3)];
    let mut all = recover_transactions(&vec![&flashblock]).unwrap();
    let taken = all.pop().unwrap();
    let mut list = vec![];
    assert!(!push_recovered(&mut list, &vec![1], None));
    assert!(list.is_empty());
    assert!(push_recovered(&mut list, &taken.encoded, Some(taken.recovered)));
    assert_eq!(list[0].encoded, deposit(3));
    assert_eq!(list[0].recovered.signer, [3; 20]);
}

#[test]
fn state_root_is_due_near_the_end() {
    for (seconds, first_due) in [(2u64, 9u64), (1, 4), (0, 0)] {
        for index in 0..12u64 {
            let mut manager = SequenceManager::new(true);
            manager.insert_flashblock(block(5, 0, 5, 1_000)).unwrap();
            if index > 0 {
                manager.insert_flashblock(block(5, index, 5, 1_000)).unwrap();
            }
            let args = manager.next_buildable_args([5; 32], 1_000 - seconds).unwrap();
            assert_eq!(args.compute_state_root, index >= first_due);
        }
    }
}

#[test]
fn state_root_is_not_computed_in_vain() {
    let mut switched_off = SequenceManager::new(false);
    switched_off.insert_flashblock(block(5, 0, 5, 1_000)).unwrap();
    switched_off.insert_flashblock(block(5, 10, 5, 1_000)).unwrap();
    assert!(!switched_off.next_buildable_args([5; 32], 998).unwrap().compute_state_root);
    let mut provided = receiving(5);
    let mut last = block(5, 10, 5, 1_000);
    last.diff.state_root[31] = 1;
    provided.insert_flashblock(last).unwrap();
    assert!(!provided.next_buildable_args([5; 32], 998).unwrap().compute_state_root);
}

#[test]
fn timing_must_be_computable() {
    let mut manager = SequenceManager::new(true);
    manager.insert_flashblock(block(5, 0, 5, u64::MAX)).unwrap();
    assert!(manager.is_timely([5; 32], u64::MAX));
    assert!(manager.is_timely([5; 32], u64::MAX - u64::MAX / 1000));
    assert!(!manager.is_timely([5; 32], u64::MAX - u64::MAX / 1000 - 1));
    let manager = receiving(5);
    assert!(manager.is_timely([5; 32], 1_000));
    assert!(!manager.is_timely([5; 32], 1_001));
    assert!(manager.is_timely([6; 32], 1_001));
}

#[test]
fn build_of_pending_is_recorded() {
    let mut manager = receiving(5);
    manager.on_build_complete([5; 32], Some((built(5, 50, Some(51)), reads(4))));
    let args = manager.next_buildable_args([5; 32], 998).unwrap();
    let (parent, cached) = args.cached_state.unwrap();
    assert_eq!(parent, [5; 32]);
    assert_eq!(cached.block_hashes, vec![(4, [9; 32])]);
    assert_eq!(*cached.contracts[0].1, vec![1, 2]);
    let complete = complete(&mut manager);
    let outcome = complete.execution_outcome().unwrap();
    assert_eq!(outcome.block_hash, [50; 32]);
    assert_eq!(outcome.state_root, [51; 32]);
}

#[test]
fn reads_of_one_block_are_not_used_for_the_next() {
    let mut manager = receiving(5);
    manager.on_build_complete([5; 32], Some((built(5, 50, Some(51)), reads(4))));
    manager.insert_flashblock(block(6, 0, 6, 1_000)).unwrap();
    assert!(manager.next_buildable_args([6; 32], 998).unwrap().cached_state.is_none());
    assert!(manager.next_buildable_args([5; 32], 998).unwrap().cached_state.is_none());
    assert!(complete(&mut manager).execution_outcome().is_none());
}

#[test]
fn build_without_state_root_has_no_outcome() {
    let mut manager = receiving(5);
    manager.on_build_complete([5; 32], Some((built(5, 50, Some(51)), reads(4))));
    manager.on_build_complete([5; 32], Some((built(5, 52, None), reads(4))));
    assert!(complete(&mut manager).execution_outcome().is_none());
}

#[test]
fn build_of_cached_is_recorded() {
    let mut manager = receiving(5);
    let mut receiver = manager.subscribe_block_sequence();
    manager.insert_flashblock(block(6, 0, 6, 1_000)).unwrap();
    manager.on_build_complete([5; 32], Some((built(5, 50, Some(51)), reads(4))));
    let args = manager.next_buildable_args([5; 32], 998).unwrap();
    assert_eq!(args.cached_state.unwrap().0, [5; 32]);
    assert!(manager.next_buildable_args([6; 32], 998).unwrap().cached_state.is_none());
    assert!(receiver.try_recv().unwrap().execution_outcome().is_none());
}

#[test]
fn build_on_an_unknown_parent_changes_nothing() {
    let mut manager = receiving(5);
    manager.on_build_complete([7; 32], Some((built(7, 50, Some(51)), reads(4))));
    manager.on_build_complete([5; 32], None);
    assert!(manager.next_buildable_args([5; 32], 998).unwrap().cached_state.is_none());
    assert!(complete(&mut manager).execution_outcome().is_none());
}

#[test]
fn new_tip_prefills_a_cached_sequence() {
    let mut manager = receiving(5);
    manager.on_new_canonical_tip([5; 32], reads(4));
    assert!(manager.next_buildable_args([5; 32], 998).unwrap().cached_state.is_none());
    manager.insert_flashblock(block(6, 0, 6, 1_000)).unwrap();
    manager.on_new_canonical_tip([5; 32], reads(4));
    manager.on_new_canonical_tip([7; 32], reads(3));
    let args = manager.next_buildable_args([5; 32], 998).unwrap();
    assert_eq!(args.cached_state.unwrap().1.block_hashes, vec![(4, [9; 32])]);
}

#[test]
fn channel_is_shared_by_the_manager() {
    let manager = SequenceManager::new(false);
    let _receiver = manager.subscribe_block_sequence();
    assert_eq!(manager.block_sequence_broadcaster().receiver_count(), 1);
}
