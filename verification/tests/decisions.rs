use std::sync::Arc;

use flashblocks::cache::{PendingFlashBlock, SequenceManager};
use flashblocks::flashblock::{FlashBlock, FlashBlockBase, FlashBlockDelta, FlashBlockMetadata};
use flashblocks::reads::{AccountInfo, BundleAccount, CachedReads, StorageSlot};
use flashblocks::sequence::SequenceError;
use flashblocks::service::{CanonicalTip, FlashBlockService, LatestHeader, Untimely};
use op_alloy_rpc_types_engine::{
    OpFlashblockPayloadBase, OpFlashblockPayloadDelta, OpFlashblockPayloadMetadata,
};

fn block(number: u64, index: u64) -> FlashBlock {
    FlashBlock {
        payload_id: [number as u8; 8],
        index,
        base: if index == 0 {
            Some(FlashBlockBase {
                parent_hash: [number as u8; 32],
                block_number: number,
                timestamp: 1_000,
                rest: OpFlashblockPayloadBase::default(),
            })
        } else {
            None
        },
        diff: FlashBlockDelta {
            state_root: [0; 32],
            block_hash: [1; 32],
            transactions: vec![],
            rest: OpFlashblockPayloadDelta::default(),
        },
        metadata: FlashBlockMetadata {
            block_number: number,
            rest: OpFlashblockPayloadMetadata::default(),
        },
    }
}

fn tip(hash: u8) -> Option<LatestHeader> {
    Some(LatestHeader { hash: [hash; 32], timestamp: 998 })
}

fn receiving(number: u64) -> FlashBlockService {
    let mut service = FlashBlockService::new(true);
    service.on_flashblock(block(number, 0)).unwrap();
    assert!(service.try_build(None).is_none());
    service
}

fn account(address: u8, nonce: Option<u64>, slots: Vec<(u64, u64, u64)>) -> BundleAccount {
    BundleAccount {
        address: [address; 20],
        info: nonce.map(|nonce| AccountInfo {
            balance: [nonce, 0, 0, 0],
            nonce,
            code_hash: [3; 32],
            code: Some(Arc::new(vec![6])),
        }),
        storage: slots
            .into_iter()
            .map(|(key, before, after)| StorageSlot {
                key: [key, 0, 0, 0],
                previous_or_original_value: [before, 0, 0, 0],
                present_value: [after, 0, 0, 0],
            })
            .collect(),
    }
}

#[test]
fn flashblock_asks_for_a_build() {
    let mut service = receiving(5);
    assert!(!service.needs_build());
    service.on_flashblock(block(5, 1)).unwrap();
    assert!(service.needs_build());
    let job = service.try_build(tip(5)).unwrap();
    assert_eq!(job.info.parent_hash, [5; 32]);
    assert_eq!(job.info.index, 1);
    assert_eq!(job.info.block_number, 5);
    assert_eq!(job.args.last_flashblock_index, 1);
    assert!(!service.needs_build());
    assert!(service.try_build(tip(5)).is_none());
}

#[test]
fn first_flashblock_of_all_can_be_built() {
    let mut service = FlashBlockService::new(true);
    service.on_flashblock(block(5, 0)).unwrap();
    assert!(service.needs_build());
    let job = service.try_build(tip(5)).unwrap();
    assert_eq!(job.info.index, 0);
    assert_eq!(job.info.block_number, 5);
}

#[test]
fn refused_flashblock_asks_for_nothing() {
    let mut service = receiving(5);
    service.on_flashblock(block(5, 2)).unwrap();
    assert!(service.try_build(None).is_none());
    assert_eq!(service.on_flashblock(block(6, 0)).unwrap_err(), SequenceError::Inconsistent);
    assert!(!service.needs_build());
    service.on_flashblock(block(7, 0)).unwrap();
    assert!(service.needs_build());
}

#[test]
fn one_build_at_a_time() {
    let mut service = receiving(5);
    assert!(service.try_build(tip(5)).is_some());
    service.on_flashblock(block(5, 1)).unwrap();
    assert!(service.is_timely(Some(LatestHeader { hash: [5; 32], timestamp: 1_001 })));
    assert!(service.try_build(tip(5)).is_none());
    assert!(!service.needs_build());
    assert!(!service.on_job_complete(None));
    assert!(service.try_build(tip(5)).is_some());
}

#[test]
fn no_build_without_a_tip_or_a_sequence_on_it() {
    let mut service = receiving(5);
    assert!(service.is_timely(None));
    assert!(service.try_build(None).is_none());
    assert!(service.try_build(tip(6)).is_none());
    assert!(service.is_timely(tip(5)));
    assert!(!service.is_timely(Some(LatestHeader { hash: [5; 32], timestamp: 1_001 })));
}

#[test]
fn untimely_build_is_tried_once() {
    let mut service = FlashBlockService::new(true);
    service.on_flashblock(block(5, 0)).unwrap();
    let early = Some(LatestHeader { hash: [5; 32], timestamp: 1_001 });
    assert_eq!(service.try_build_if_timely(early).unwrap_err(), Untimely);
    assert!(!service.needs_build());
    assert!(service.try_build_if_timely(tip(6)).unwrap().is_none());
    assert!(service.try_build_if_timely(tip(5)).unwrap().is_some());
    assert!(service.try_build_if_timely(early).unwrap().is_none());
}

#[test]
fn finished_build_is_published_and_recorded() {
    let mut service = receiving(5);
    assert!(service.try_build(tip(5)).is_some());
    let pending = PendingFlashBlock {
        parent_hash: [5; 32],
        block_hash: [7; 32],
        computed_state_root: Some([8; 32]),
    };
    assert!(service.on_job_complete(Some((pending, CachedReads::default()))));
    assert!(!service.needs_build());
    let job = service.try_build(tip(5)).unwrap();
    assert_eq!(job.args.cached_state.unwrap().0, [5; 32]);
    let mut receiver = service.subscribe_block_sequence();
    service.on_flashblock(block(6, 0)).unwrap();
    let complete = receiver.try_recv().unwrap();
    assert_eq!(complete.execution_outcome().unwrap().state_root, [8; 32]);
}

#[test]
fn build_can_be_started_with_given_arguments() {
    let mut service = receiving(6);
    assert!(service.start_build(None).is_none());
    let mut manager = SequenceManager::new(true);
    manager.insert_flashblock(block(5, 0)).unwrap();
    let args = manager.next_buildable_args([5; 32], 998);
    assert_eq!(service.start_build(args).unwrap().info.block_number, 5);
    assert!(service.try_build(tip(6)).is_none());
}

#[test]
fn length_is_known_when_the_next_block_starts() {
    let mut service = receiving(5);
    service.on_flashblock(block(5, 1)).unwrap();
    assert_eq!(service.last_flashblock_length(&block(5, 2)), None);
    assert_eq!(service.last_flashblock_length(&block(6, 0)), Some(2));
}

#[test]
fn new_tip_asks_for_a_build_and_prefills() {
    let mut service = receiving(5);
    service.on_flashblock(block(6, 0)).unwrap();
    assert!(service.try_build(None).is_none());
    service.on_canonical_state(None);
    assert!(!service.needs_build());
    let accounts = vec![account(1, Some(4), vec![(1, 2, 3)]), account(2, None, vec![(1, 2, 3)])];
    service.on_canonical_state(Some(CanonicalTip { hash: [5; 32], accounts }));
    assert!(service.needs_build());
    let job = service.try_build(tip(5)).unwrap();
    let (parent, reads) = job.args.cached_state.unwrap();
    assert_eq!(parent, [5; 32]);
    assert_eq!(reads.accounts.len(), 1);
    assert_eq!(reads.accounts[0].0, [1; 20]);
}

#[test]
fn cached_accounts_are_those_that_exist() {
    let reads = CachedReads::from_bundle(vec![
        account(1, Some(4), vec![(1, 2, 3), (5, 6, 7)]),
        account(2, None, vec![(1, 2, 3)]),
    ]);
    assert_eq!(reads.accounts.len(), 1);
    let (address, account) = &reads.accounts[0];
    assert_eq!(*address, [1; 20]);
    let info = account.info.as_ref().unwrap();
    assert_eq!(info.nonce, 4);
    assert_eq!(info.balance, [4, 0, 0, 0]);
    assert_eq!(info.code_hash, [3; 32]);
    assert_eq!(**info.code.as_ref().unwrap(), vec![6]);
    assert_eq!(account.storage, vec![([1, 0, 0, 0], [3, 0, 0, 0]), ([5, 0, 0, 0], [7, 0, 0, 0])]);
    assert!(reads.contracts.is_empty());
    assert!(reads.block_hashes.is_empty());
    assert_eq!(reads.clone().accounts.len(), 1);
}

#[test]
fn service_shares_the_channel() {
    let mut service = receiving(5);
    let mut receiver = service.subscribe_block_sequence();
    assert_eq!(service.block_sequence_broadcaster().receiver_count(), 1);
    service.on_flashblock(block(6, 0)).unwrap();
    assert_eq!(receiver.try_recv().unwrap().block_number(), 5);
}
