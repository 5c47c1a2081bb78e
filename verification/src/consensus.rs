//! What the engine is told about a complete sequence.
//!
//! The payload of the new block is submitted only if its state root is known, from the sequence's
//! own execution or from the builder. The fork choice is updated in any case, so that the chain
//! moves on: to the new block if its payload is submitted, or else to its parent.

use alloy_primitives::FixedBytes;
use alloy_rpc_types_engine::PayloadId;
use op_alloy_rpc_types_engine::{
    OpExecutionData, OpFlashblockPayload, OpFlashblockPayloadBase, OpFlashblockPayloadDelta,
};
use vstd::prelude::*;
use vstd::std_specs::convert::TryFromSpecImpl;

use crate::behaviour::law_zero;
use crate::flashblock::FlashBlock;
use crate::primitives::{all_zero, is_zero, B256};
use crate::sequence::{FlashBlockCompleteSequence, SequenceExecutionOutcome};

verus! {

/// A payload for the engine, opaque here.
#[verifier::external_type_specification]
#[verifier::external_body]
pub struct ExOpExecutionData(OpExecutionData);

/// A payload for the engine.
///
/// The state root and the block hash are those given here, whatever `rest` holds in their place.
#[derive(Debug)]
pub struct ExecutionData {
    /// State root of the block; zero if it is not known.
    pub state_root: B256,
    /// Hash of the block.
    pub block_hash: B256,
    /// What else belongs to the payload.
    pub rest: OpExecutionData,
}

/// The payload that [`from_flashblocks_unchecked`] makes of flashblocks.
pub uninterp spec fn unchecked_execution_data(flashblocks: Seq<FlashBlock>) -> ExecutionData;

/// `OpExecutionData::from_flashblocks_unchecked`: the payload of a block that is made of the given
/// flashblocks.
///
/// It takes the properties of the block from the first flashblock and panics without them; state
/// root and block hash are those of the last flashblock. What else is in the payload depends on
/// the flashblocks alone, and is not stated here. Their metadata is not looked at and so not handed
/// over.
#[verifier::external_body]
fn from_flashblocks_unchecked(flashblocks: &Vec<FlashBlock>) -> (data: ExecutionData)
    requires
        flashblocks@.len() > 0,
        flashblocks@[0].base is Some,
    ensures
        data == unchecked_execution_data(flashblocks@),
        data.state_root == flashblocks@.last().diff.state_root,
        data.block_hash == flashblocks@.last().diff.block_hash,
{
    let data = OpExecutionData::from_flashblocks_unchecked(
        &Vec::from_iter(flashblocks.iter().map(|FlashBlock { payload_id, index, base, diff, .. }| OpFlashblockPayload {
            payload_id: PayloadId::new(*payload_id), index: *index,
            base: base.as_ref().map(|b| OpFlashblockPayloadBase {
                parent_hash: FixedBytes(b.parent_hash), block_number: b.block_number, timestamp: b.timestamp, ..b.rest.clone()
            }),
            diff: OpFlashblockPayloadDelta {
                state_root: FixedBytes(diff.state_root), block_hash: FixedBytes(diff.block_hash),
                transactions: diff.transactions.iter().cloned().map(Into::into).collect(), ..diff.rest.clone()
            },
            ..Default::default()
        }))
    );
    let v1 = data.payload.as_v1();
    ExecutionData { state_root: v1.state_root.0, block_hash: v1.block_hash.0, rest: data }
}

/// There is no payload to submit: the state root of the block is not known.
#[derive(Clone, Copy, Debug, PartialEq, Eq, Structural)]
pub struct MissingStateRoot;

impl MissingStateRoot {
    /// The error in words.
    pub fn message(&self) -> (text: &'static str)
        ensures
            text@ == "No state_root available for payload"@,
    {
        "No state_root available for payload"
    }
}

/// What is known of the block that a complete sequence makes: what its execution computed, or else
/// what the last flashblock says.
pub open spec fn known_outcome(sequence: FlashBlockCompleteSequence) -> SequenceExecutionOutcome {
    match sequence.outcome() {
        Some(outcome) => outcome,
        None => SequenceExecutionOutcome {
            block_hash: sequence.blocks().last().diff.block_hash,
            state_root: sequence.blocks().last().diff.state_root,
        },
    }
}

/// The payload of the block that a complete sequence makes, with what its execution computed.
pub open spec fn execution_data(sequence: FlashBlockCompleteSequence) -> ExecutionData {
    unchecked_execution_data(sequence.blocks()).with_outcome(sequence.outcome())
}

impl ExecutionData {
    /// The payload with the state root and the block hash that an execution computed, if there was
    /// one.
    pub open spec fn with_outcome(self, outcome: Option<SequenceExecutionOutcome>) -> Self {
        match outcome {
            Some(outcome) => ExecutionData {
                state_root: outcome.state_root,
                block_hash: outcome.block_hash,
                ..self
            },
            None => self,
        }
    }

    /// Puts the state root and the block hash that an execution computed into a payload; an error
    /// if the state root is not known even then.
    pub fn apply_outcome(self, execution_outcome: Option<SequenceExecutionOutcome>) -> (result:
        Result<ExecutionData, MissingStateRoot>)
        ensures
            result == if all_zero(self.with_outcome(execution_outcome).state_root) {
                Err::<ExecutionData, MissingStateRoot>(MissingStateRoot)
            } else {
                Ok(self.with_outcome(execution_outcome))
            },
    {
        let mut data = self;
        if let Some(outcome) = execution_outcome {
            data.state_root = outcome.state_root;
            data.block_hash = outcome.block_hash;
        }
        if is_zero(&data.state_root) {
            return Err(MissingStateRoot);
        }
        Ok(data)
    }
}

impl<'a> TryFromSpecImpl<&'a FlashBlockCompleteSequence> for ExecutionData {
    open spec fn obeys_try_from_spec() -> bool {
        true
    }

    open spec fn try_from_spec(sequence: &'a FlashBlockCompleteSequence) -> Result<
        Self,
        MissingStateRoot,
    > {
        if all_zero(execution_data(*sequence).state_root) {
            Err(MissingStateRoot)
        } else {
            Ok(execution_data(*sequence))
        }
    }
}

impl<'a> TryFrom<&'a FlashBlockCompleteSequence> for ExecutionData {
    type Error = MissingStateRoot;

    /// The payload of the block that a complete sequence makes; an error if its state root is not
    /// known.
    fn try_from(sequence: &'a FlashBlockCompleteSequence) -> (result: Result<
        Self,
        MissingStateRoot,
    >)
        ensures
            result is Err <==> all_zero(known_outcome(*sequence).state_root),
            result matches Ok(data) ==> data.state_root == known_outcome(*sequence).state_root
                && data.block_hash == known_outcome(*sequence).block_hash,
    {
        let data = from_flashblocks_unchecked(&**sequence);
        data.apply_outcome(sequence.execution_outcome())
    }
}

/// What is submitted for a complete sequence, and the block that becomes the head of the chain.
#[derive(Debug)]
pub struct NewPayload {
    /// The payload to submit, if there is one.
    pub payload: Option<ExecutionData>,
    /// The new head of the chain.
    pub head_block_hash: B256,
}

/// Decides what to submit for a complete sequence.
///
/// If its payload can be made, that is submitted and its block becomes the head, whatever the
/// engine answers. If not, nothing is submitted and the head is the parent.
pub fn submit_new_payload(sequence: &FlashBlockCompleteSequence) -> (new_payload: NewPayload)
    ensures
        new_payload.payload is None <==> all_zero(known_outcome(*sequence).state_root),
        match new_payload.payload {
            Some(data) => data == execution_data(*sequence) && data.state_root == known_outcome(
                *sequence,
            ).state_root && data.block_hash == known_outcome(*sequence).block_hash
                && new_payload.head_block_hash == known_outcome(*sequence).block_hash,
            None => new_payload.head_block_hash == sequence.base().parent_hash,
        },
{
    match ExecutionData::try_from(sequence) {
        Ok(payload) => {
            let head_block_hash = payload.block_hash;
            NewPayload { payload: Some(payload), head_block_hash }
        },
        Err(_) => NewPayload {
            payload: None,
            head_block_hash: sequence.payload_base().parent_hash,
        },
    }
}

/// A fork choice for the engine.
#[derive(Clone, Copy, Debug)]
pub struct ForkchoiceState {
    /// The head of the chain.
    pub head_block_hash: B256,
    /// The latest block that is safe.
    pub safe_block_hash: B256,
    /// The latest block that is final.
    pub finalized_block_hash: B256,
}

/// The fork choice for a complete sequence: the given head, with the parent of the sequence safe
/// and final.
pub fn submit_forkchoice_update(
    head_block_hash: B256,
    sequence: &FlashBlockCompleteSequence,
) -> (state: ForkchoiceState)
    ensures
        state == (ForkchoiceState {
            head_block_hash,
            safe_block_hash: sequence.base().parent_hash,
            finalized_block_hash: sequence.base().parent_hash,
        }),
{
    let parent_hash = sequence.payload_base().parent_hash;
    ForkchoiceState {
        head_block_hash,
        safe_block_hash: parent_hash,
        finalized_block_hash: parent_hash,
    }
}

/// What the engine is told about a complete sequence, in this order.
#[derive(Debug)]
pub struct Submission {
    /// The payload to submit, if there is one.
    pub payload: Option<ExecutionData>,
    /// The fork choice.
    pub forkchoice: ForkchoiceState,
}

/// Decides what the engine is told about a complete sequence: its payload, if the state root is
/// known, and in any case a fork choice. The head is the block whose payload is submitted, or else
/// its parent.
pub fn submission(sequence: &FlashBlockCompleteSequence) -> (submission: Submission)
    ensures
        submission.payload is None <==> all_zero(known_outcome(*sequence).state_root),
        submission.payload matches Some(data) ==> data == execution_data(*sequence),
        submission.forkchoice == (ForkchoiceState {
            head_block_hash: match submission.payload {
                Some(data) => data.block_hash,
                None => sequence.base().parent_hash,
            },
            safe_block_hash: sequence.base().parent_hash,
            finalized_block_hash: sequence.base().parent_hash,
        }),
        submission.payload matches Some(data) ==> data.block_hash == known_outcome(
            *sequence,
        ).block_hash && data.state_root == known_outcome(*sequence).state_root,
        sequence.outcome() is None ==> {
            let last = sequence.blocks()[sequence.blocks().len() - 1];
            &&& submission.payload is None <==> last.diff.state_root@ == Seq::new(32, |i: int| 0u8)
            &&& submission.payload matches Some(data) ==> data.state_root == last.diff.state_root
                && data.block_hash == last.diff.block_hash && submission.forkchoice.head_block_hash
                == last.diff.block_hash
        },
        sequence.outcome() matches Some(outcome) ==> {
            &&& submission.payload is None <==> outcome.state_root@ == Seq::new(32, |i: int| 0u8)
            &&& submission.payload matches Some(data) ==> data.state_root == outcome.state_root
                && data.block_hash == outcome.block_hash && submission.forkchoice.head_block_hash
                == outcome.block_hash
        },
{
    proof {
        law_zero(known_outcome(*sequence).state_root);
    }
    let NewPayload { payload, head_block_hash } = submit_new_payload(sequence);
    let forkchoice = submit_forkchoice_update(head_block_hash, sequence);
    Submission { payload, forkchoice }
}

} // verus!
