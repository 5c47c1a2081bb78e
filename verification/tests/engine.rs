use alloy_primitives::B256;
use flashblocks::consensus::{
    submission, submit_forkchoice_update, submit_new_payload, ExecutionData, MissingStateRoot,
};
use flashblocks::flashblock::{FlashBlock, FlashBlockBase, FlashBlockDelta, FlashBlockMetadata};
use flashblocks::primitives::{is_zero, same_bytes};
use flashblocks::sequence::{FlashBlockCompleteSequence, SequenceExecutionOutcome};
use op_alloy_rpc_types_engine::{
    OpFlashblockPayloadBase, OpFlashblockPayloadDelta, OpFlashblockPayloadMetadata,
};

fn block(index: u64, state_root: u8) -> FlashBlock {
    FlashBlock {
        payload_id: [1; 8],
        index,
        base: if index == 0 {
            Some(FlashBlockBase {
                parent_hash: [40; 32],
                block_number: 100,
                timestamp: 1_000,
                rest: OpFlashblockPayloadBase {
                    gas_limit: 30_000_000,
                    block_number: 7,
                    ..Default::default()
                },
            })
        } else {
            None
        },
        diff: FlashBlockDelta {
            state_root: [state_root; 32],
            block_hash: [50 + index as u8; 32],
            transactions: vec![vec![index as u8, 1], vec![index as u8, 2]],
            rest: OpFlashblockPayloadDelta { gas_used: 21_000 * (index + 1), ..Default::default() },
        },
        metadata: FlashBlockMetadata {
            block_number: 100,
            rest: OpFlashblockPayloadMetadata::default(),
        },
    }
}

fn sequence(
    root: u8,
    outcome: Option<SequenceExecutionOutcome>,
) -> FlashBlockCompleteSequence {
    FlashBlockCompleteSequence::new(vec![block(0, 0), block(1, root)], outcome).unwrap()
}

fn outcome(root: u8) -> Option<SequenceExecutionOutcome> {
    Some(SequenceExecutionOutcome { block_hash: [60; 32], state_root: [root; 32] })
}

#[test]
fn payload_is_made_of_all_flashblocks() {
    let data = ExecutionData::try_from(&sequence(5, None)).unwrap();
    assert_eq!(data.state_root, [5; 32]);
    assert_eq!(data.block_hash, [51; 32]);
    let payload = data.rest.payload.as_v1();
    assert_eq!(payload.parent_hash, B256::from([40; 32]));
    assert_eq!(payload.block_number, 100);
    assert_eq!(payload.timestamp, 1_000);
    assert_eq!(payload.gas_limit, 30_000_000);
    assert_eq!(payload.gas_used, 42_000);
    assert_eq!(payload.state_root, B256::from([5; 32]));
    let transactions: Vec<Vec<u8>> = payload.transactions.iter().map(|t| t.to_vec()).collect();
    assert_eq!(transactions, vec![vec![0, 1], vec![0, 2], vec![1, 1], vec![1, 2]]);
}

#[test]
fn computed_outcome_replaces_what_the_builder_said() {
    let data = ExecutionData::try_from(&sequence(5, outcome(9))).unwrap();
    assert_eq!(data.state_root, [9; 32]);
    assert_eq!(data.block_hash, [60; 32]);
}

#[test]
fn payload_needs_a_state_root() {
    assert_eq!(ExecutionData::try_from(&sequence(0, None)).unwrap_err(), MissingStateRoot);
    assert_eq!(ExecutionData::try_from(&sequence(5, outcome(0))).unwrap_err(), MissingStateRoot);
    assert!(ExecutionData::try_from(&sequence(0, outcome(9))).is_ok());
    assert_eq!(MissingStateRoot.message(), "No state_root available for payload");
}

#[test]
fn outcome_is_applied_to_a_given_payload() {
    let data = ExecutionData::try_from(&sequence(5, None)).unwrap();
    let data = data.apply_outcome(outcome(9)).unwrap();
    assert_eq!(data.block_hash, [60; 32]);
    let data = data.apply_outcome(None).unwrap();
    assert_eq!(data.state_root, [9; 32]);
    assert!(data.apply_outcome(outcome(0)).is_err());
}

#[test]
fn head_is_the_new_block_or_its_parent() {
    let submitted = submit_new_payload(&sequence(5, outcome(9)));
    assert_eq!(submitted.payload.unwrap().state_root, [9; 32]);
    assert_eq!(submitted.head_block_hash, [60; 32]);
    let skipped = submit_new_payload(&sequence(0, None));
    assert!(skipped.payload.is_none());
    assert_eq!(skipped.head_block_hash, [40; 32]);
}

#[test]
fn parent_is_safe_and_final() {
    let state = submit_forkchoice_update([60; 32], &sequence(5, None));
    assert_eq!(state.head_block_hash, [60; 32]);
    assert_eq!(state.safe_block_hash, [40; 32]);
    assert_eq!(state.finalized_block_hash, [40; 32]);
}

#[test]
fn fork_choice_follows_what_is_submitted() {
    let told = submission(&sequence(5, outcome(9)));
    assert_eq!(told.payload.unwrap().block_hash, [60; 32]);
    assert_eq!(told.forkchoice.head_block_hash, [60; 32]);
    assert_eq!(told.forkchoice.safe_block_hash, [40; 32]);
    assert_eq!(told.forkchoice.finalized_block_hash, [40; 32]);
    let told = submission(&sequence(0, None));
    assert!(told.payload.is_none());
    assert_eq!(told.forkchoice.head_block_hash, [40; 32]);
    assert_eq!(told.forkchoice.safe_block_hash, [40; 32]);
}

#[test]
fn hashes_are_compared_byte_by_byte() {
    let mut hash = [0u8; 32];
    assert!(is_zero(&hash));
    hash[31] = 1;
    assert!(!is_zero(&hash));
    assert!(!same_bytes(&hash, &[0; 32]));
    assert!(same_bytes(&[1u8, 2], &[1, 2]));
}
