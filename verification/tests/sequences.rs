use flashblocks::flashblock::{FlashBlock, FlashBlockBase, FlashBlockDelta, FlashBlockMetadata};
use flashblocks::reads::CachedReads;
use flashblocks::sequence::{
    FlashBlockCompleteSequence, FlashBlockPendingSequence, SequenceError, SequenceExecutionOutcome,
};
use op_alloy_rpc_types_engine::{
    OpFlashblockPayloadBase, OpFlashblockPayloadDelta, OpFlashblockPayloadMetadata,
};
use tokio::sync::broadcast::error::TryRecvError;

fn base(parent: u8, number: u64) -> FlashBlockBase {
    FlashBlockBase {
        parent_hash: [parent; 32],
        block_number: number,
        timestamp: 1_000,
        rest: OpFlashblockPayloadBase { gas_limit: 30_000_000, ..Default::default() },
    }
}

fn block(payload: u8, number: u64, index: u64) -> FlashBlock {
    FlashBlock {
        payload_id: [payload; 8],
        index,
        base: if index == 0 { Some(base(payload, number)) } else { None },
        diff: FlashBlockDelta {
            state_root: [0; 32],
            block_hash: [index as u8; 32],
            transactions: vec![vec![payload, index as u8], vec![payload]],
            rest: OpFlashblockPayloadDelta::default(),
        },
        metadata: FlashBlockMetadata {
            block_number: number,
            rest: OpFlashblockPayloadMetadata::default(),
        },
    }
}

fn outcome(byte: u8) -> SequenceExecutionOutcome {
    SequenceExecutionOutcome { block_hash: [byte; 32], state_root: [byte + 1; 32] }
}

fn indices(pending: &FlashBlockPendingSequence) -> Vec<u64> {
    pending.flashblocks().iter().map(|block| block.index).collect()
}

#[test]
fn new_sequence_is_empty() {
    let pending = FlashBlockPendingSequence::new();
    assert_eq!(pending.count(), 0);
    assert_eq!(pending.block_number(), None);
    assert_eq!(pending.payload_id(), None);
    assert_eq!(pending.index(), None);
    assert!(pending.payload_base().is_none());
    assert!(pending.last_flashblock().is_none());
    assert!(pending.cached_reads().is_none());
    assert!(pending.flashblocks().is_empty());
    assert_eq!(FlashBlockPendingSequence::default().count(), 0);
}

#[test]
fn first_flashblock_starts_the_block() {
    let mut pending = FlashBlockPendingSequence::new();
    pending.insert(block(1, 100, 0));
    assert_eq!(pending.count(), 1);
    assert_eq!(pending.block_number(), Some(100));
    assert_eq!(pending.payload_id(), Some([1; 8]));
    assert_eq!(pending.index(), Some(0));
    let base = pending.payload_base().unwrap();
    assert_eq!(base.parent_hash, [1; 32]);
    assert_eq!(base.block_number, 100);
    assert_eq!(base.timestamp, 1_000);
    assert_eq!(base.rest.gas_limit, 30_000_000);
}

#[test]
fn followers_are_kept_in_order() {
    let mut pending = FlashBlockPendingSequence::new();
    pending.insert(block(1, 100, 0));
    pending.insert(block(1, 100, 3));
    pending.insert(block(1, 100, 1));
    pending.insert(block(1, 100, 2));
    assert_eq!(indices(&pending), vec![0, 1, 2, 3]);
    assert_eq!(pending.index(), Some(3));
    assert_eq!(pending.last_flashblock().unwrap().diff.block_hash, [3; 32]);
    assert_eq!(pending.count(), 4);
}

#[test]
fn order_of_arrival_does_not_matter() {
    let mut a = FlashBlockPendingSequence::new();
    a.insert(block(1, 100, 0));
    a.insert(block(1, 100, 1));
    a.insert(block(1, 100, 2));
    let mut b = FlashBlockPendingSequence::new();
    b.insert(block(1, 100, 0));
    b.insert(block(1, 100, 2));
    b.insert(block(1, 100, 1));
    assert_eq!(indices(&a), indices(&b));
}

#[test]
fn foreign_followers_are_ignored() {
    let mut pending = FlashBlockPendingSequence::new();
    pending.insert(block(1, 100, 1));
    assert_eq!(pending.count(), 0);
    pending.insert(block(1, 100, 0));
    pending.insert(block(2, 100, 1));
    pending.insert(block(1, 101, 1));
    assert_eq!(indices(&pending), vec![0]);
}

#[test]
fn repeated_follower_replaces_the_earlier_one() {
    let mut pending = FlashBlockPendingSequence::new();
    pending.insert(block(1, 100, 0));
    pending.insert(block(1, 100, 1));
    let mut again = block(1, 100, 1);
    again.diff.block_hash = [77; 32];
    pending.insert(again);
    assert_eq!(pending.count(), 2);
    assert_eq!(pending.last_flashblock().unwrap().diff.block_hash, [77; 32]);
}

#[test]
fn index_zero_resets() {
    let mut pending = FlashBlockPendingSequence::new();
    pending.insert(block(1, 100, 0));
    pending.insert(block(1, 100, 1));
    pending.set_execution_outcome(Some(outcome(5)));
    pending.set_cached_reads(CachedReads::default());
    pending.insert(block(2, 101, 0));
    assert_eq!(indices(&pending), vec![0]);
    assert_eq!(pending.block_number(), Some(101));
    assert!(pending.cached_reads().is_none());
    let complete = pending.finalize().unwrap();
    assert!(complete.execution_outcome().is_none());
}

#[test]
fn outcome_set_before_the_first_flashblock_stays() {
    let mut pending = FlashBlockPendingSequence::new();
    pending.set_execution_outcome(Some(outcome(5)));
    pending.insert(block(1, 100, 0));
    assert_eq!(pending.finalize().unwrap().execution_outcome().unwrap().block_hash, [5; 32]);
}

#[test]
fn reset_publishes_the_complete_sequence() {
    let mut pending = FlashBlockPendingSequence::new();
    let mut receiver = pending.subscribe_block_sequence();
    pending.insert(block(1, 100, 0));
    pending.insert(block(1, 100, 1));
    pending.set_execution_outcome(Some(outcome(5)));
    assert!(receiver.try_recv().is_err());
    pending.insert(block(2, 101, 0));
    let sequence = receiver.try_recv().unwrap();
    assert_eq!(sequence.block_number(), 100);
    assert_eq!(sequence.count(), 2);
    assert_eq!(sequence.execution_outcome().unwrap().state_root, [6; 32]);
    assert!(receiver.try_recv().is_err());
}

#[test]
fn reset_publishes_nothing_incomplete() {
    let mut pending = FlashBlockPendingSequence::new();
    let mut receiver = pending.subscribe_block_sequence();
    pending.insert(block(1, 100, 0));
    pending.insert(block(1, 100, 2));
    pending.insert(block(2, 101, 0));
    assert!(receiver.try_recv().is_err());
    assert_eq!(pending.block_number(), Some(101));
}

#[test]
fn blocks_are_published_to_subscribers_only() {
    let mut pending = FlashBlockPendingSequence::new();
    let mut receiver = pending.subscribe_block_sequence();
    pending.publish_blocks(1);
    assert!(receiver.try_recv().is_err());
    pending.insert(block(1, 100, 0));
    pending.publish_blocks(0);
    assert_eq!(pending.count(), 0);
    assert!(receiver.try_recv().is_err());
    pending.insert(block(1, 100, 0));
    pending.insert(block(1, 100, 2));
    pending.publish_blocks(1);
    assert_eq!(pending.count(), 0);
    assert!(receiver.try_recv().is_err());
    pending.insert(block(1, 100, 0));
    pending.set_execution_outcome(Some(outcome(5)));
    pending.publish_blocks(1);
    assert_eq!(pending.count(), 0);
    let sequence = receiver.try_recv().unwrap();
    assert_eq!(sequence.count(), 1);
    assert_eq!(sequence.execution_outcome().unwrap().block_hash, [5; 32]);
    assert!(receiver.try_recv().is_err());
}

#[test]
fn slow_subscriber_misses_the_oldest() {
    let mut pending = FlashBlockPendingSequence::new();
    let mut receiver = pending.subscribe_block_sequence();
    for number in 0..=129u64 {
        pending.insert(block(1, number, 0));
    }
    assert_eq!(receiver.try_recv().unwrap_err(), TryRecvError::Lagged(1));
    for number in 1..=128u64 {
        assert_eq!(receiver.try_recv().unwrap().block_number(), number);
    }
    assert_eq!(receiver.try_recv().unwrap_err(), TryRecvError::Empty);
}

#[test]
fn channel_is_shared() {
    let pending = FlashBlockPendingSequence::new();
    assert_eq!(pending.block_sequence_broadcaster().receiver_count(), 0);
    let _receiver = pending.subscribe_block_sequence();
    assert_eq!(pending.block_sequence_broadcaster().receiver_count(), 1);
}

#[test]
fn finalize_gives_back_what_was_inserted() {
    let mut pending = FlashBlockPendingSequence::new();
    pending.insert(block(1, 100, 0));
    pending.insert(block(1, 100, 2));
    pending.insert(block(1, 100, 1));
    pending.set_execution_outcome(Some(outcome(8)));
    pending.set_cached_reads(CachedReads::default());
    let complete = pending.finalize().unwrap();
    assert!(pending.cached_reads().is_none());
    assert_eq!(complete.count(), 3);
    assert_eq!(complete.block_number(), 100);
    assert_eq!(complete.payload_base().parent_hash, [1; 32]);
    assert_eq!(complete.last().index, 2);
    assert_eq!(complete.execution_outcome().unwrap().block_hash, [8; 32]);
    assert_eq!(complete.iter().map(|block| block.index).collect::<Vec<_>>(), vec![0, 1, 2]);
    assert_eq!(pending.count(), 0);
    assert_eq!(pending.finalize().unwrap_err(), SequenceError::NothingPending);
}

#[test]
fn finalize_clears_even_on_error() {
    let mut pending = FlashBlockPendingSequence::new();
    pending.insert(block(1, 100, 0));
    pending.insert(block(1, 100, 2));
    assert_eq!(pending.finalize().unwrap_err(), SequenceError::Inconsistent);
    assert_eq!(pending.count(), 0);
    let mut without_base = block(1, 100, 0);
    without_base.base = None;
    pending.insert(without_base);
    assert!(pending.payload_base().is_none());
    assert_eq!(pending.finalize().unwrap_err(), SequenceError::MissingBase);
    assert_eq!(pending.count(), 0);
}

#[test]
fn complete_sequence_is_checked() {
    assert_eq!(
        FlashBlockCompleteSequence::new(vec![], None).unwrap_err(),
        SequenceError::NoFlashblocks
    );
    let mut without_base = block(1, 100, 0);
    without_base.base = None;
    assert_eq!(
        FlashBlockCompleteSequence::new(vec![without_base], None).unwrap_err(),
        SequenceError::MissingBase
    );
    let mut late = block(1, 100, 1);
    late.base = Some(base(1, 100));
    for blocks in [
        vec![late],
        vec![block(1, 100, 0), block(1, 100, 2)],
        vec![block(1, 100, 0), block(1, 101, 1)],
        vec![block(1, 100, 0), block(2, 100, 1)],
        vec![block(1, 100, 0), block(1, 100, 0)],
    ] {
        assert_eq!(
            FlashBlockCompleteSequence::new(blocks, None).unwrap_err(),
            SequenceError::Inconsistent
        );
    }
    let blocks = vec![block(1, 100, 0), block(1, 100, 1)];
    assert_eq!(FlashBlockCompleteSequence::new(blocks, None).unwrap().count(), 2);
}

#[test]
fn complete_sequence_lists_all_transactions() {
    let blocks = vec![block(7, 100, 0), block(7, 100, 1)];
    let complete = FlashBlockCompleteSequence::new(blocks, None).unwrap();
    assert_eq!(
        complete.all_transactions(),
        vec![vec![7, 0], vec![7], vec![7, 1], vec![7]]
    );
}

#[test]
fn outcome_can_be_replaced() {
    let mut complete = FlashBlockCompleteSequence::new(vec![block(1, 100, 0)], None).unwrap();
    assert!(complete.execution_outcome().is_none());
    complete.set_execution_outcome(Some(outcome(3)));
    let copy = complete.clone();
    assert_eq!(copy.execution_outcome().unwrap().block_hash, [3; 32]);
    assert_eq!(copy.count(), 1);
}

#[test]
fn pending_converts_like_finalize() {
    let mut pending = FlashBlockPendingSequence::new();
    pending.insert(block(1, 100, 0));
    pending.insert(block(1, 100, 1));
    pending.set_execution_outcome(Some(outcome(4)));
    let complete = FlashBlockCompleteSequence::try_from(pending).unwrap();
    assert_eq!(complete.count(), 2);
    assert_eq!(complete.execution_outcome().unwrap().block_hash, [4; 32]);
    let empty = FlashBlockPendingSequence::new();
    assert_eq!(
        FlashBlockCompleteSequence::try_from(empty).unwrap_err(),
        SequenceError::NoFlashblocks
    );
}

#[test]
fn errors_in_words() {
    assert_eq!(
        SequenceError::NothingPending.message(),
        "Cannot finalize empty flashblock sequence"
    );
    assert_eq!(SequenceError::NoFlashblocks.message(), "No flashblocks in sequence");
    assert_eq!(SequenceError::MissingBase.message(), "Flashblock at index 0 has no base");
    assert_eq!(
        SequenceError::Inconsistent.message(),
        "Flashblock inconsistencies detected in sequence"
    );
}
