//! Transactions of flashblocks, decoded and with their signers.

use alloy_eips::eip2718::Decodable2718;
use op_alloy_consensus::OpTxEnvelope;
use reth_primitives_traits::SignedTransaction;
use vstd::prelude::*;

use crate::flashblock::{encoded, transactions_of, FlashBlock};
use crate::primitives::Address;

verus! {

/// A decoded transaction, opaque here.
#[verifier::external_type_specification]
#[verifier::external_body]
pub struct ExOpTxEnvelope(OpTxEnvelope);

/// A decoded transaction and its signer.
#[derive(Debug)]
pub struct Recovered {
    /// The transaction.
    pub transaction: OpTxEnvelope,
    /// Who signed it.
    pub signer: Address,
}

/// A decoded transaction with its signer and its encoding.
#[derive(Debug)]
pub struct EncodedTransaction {
    /// The encoding.
    pub encoded: Vec<u8>,
    /// The transaction and its signer.
    pub recovered: Recovered,
}

/// What [`decode`] makes of an encoded transaction.
pub uninterp spec fn decoded_transaction(encoded: Seq<u8>) -> Option<OpTxEnvelope>;

/// Whom [`find_signer`] finds to have signed a transaction.
pub uninterp spec fn transaction_signer(transaction: OpTxEnvelope) -> Option<Address>;

/// `OpTxEnvelope::decode_2718_exact`: the transaction that the bytes encode; `None` if they do not
/// encode one, or hold anything behind it.
///
/// What comes out depends on the bytes alone. How transactions are encoded is not stated here.
#[verifier::external_body]
fn decode(encoded: &[u8]) -> (transaction: Option<OpTxEnvelope>)
    ensures
        transaction == decoded_transaction(encoded@),
{
    OpTxEnvelope::decode_2718_exact(encoded).ok()
}

/// `SignedTransaction::try_recover`: who signed a transaction; `None` if the signature is invalid.
///
/// What comes out depends on the transaction alone. How signers are found is not stated here.
#[verifier::external_body]
fn find_signer(transaction: &OpTxEnvelope) -> (signer: Option<Address>)
    ensures
        signer == transaction_signer(*transaction),
{
    transaction.try_recover().ok().map(|signer| signer.into_array())
}

/// An encoded transaction, decoded and with its signer; `None` if it cannot be decoded or its
/// signer not be found.
pub open spec fn recovered_transaction(encoded: Seq<u8>) -> Option<Recovered> {
    match decoded_transaction(encoded) {
        Some(transaction) => match transaction_signer(transaction) {
            Some(signer) => Some(Recovered { transaction, signer }),
            None => None,
        },
        None => None,
    }
}

/// Decodes a transaction and finds its signer.
fn recover(encoded: &[u8]) -> (recovered: Option<Recovered>)
    ensures
        recovered == recovered_transaction(encoded@),
{
    match decode(encoded) {
        Some(transaction) => match find_signer(&transaction) {
            Some(signer) => Some(Recovered { transaction, signer }),
            None => None,
        },
        None => None,
    }
}

/// Whether all of the encoded transactions can be decoded and their signers found.
pub open spec fn recoverable(transactions: Seq<Seq<u8>>) -> bool {
    forall|i: int|
        0 <= i < transactions.len() ==> recovered_transaction(#[trigger] transactions[i]) is Some
}

/// Whether a list holds exactly the given encoded transactions, in order, each with what it was
/// recovered to.
pub open spec fn recovers(
    recovered: Seq<EncodedTransaction>,
    transactions: Seq<Seq<u8>>,
) -> bool {
    &&& recovered.len() == transactions.len()
    &&& forall|i: int|
        0 <= i < recovered.len() ==> (#[trigger] recovered[i]).encoded@ == transactions[i] && Some(
            recovered[i].recovered,
        ) == recovered_transaction(transactions[i])
}

/// Adds an encoded transaction to a list, given what it was recovered to; if it could not be
/// recovered, the list stays as it is.
pub fn push_recovered(
    transactions: &mut Vec<EncodedTransaction>,
    encoded: &Vec<u8>,
    recovered: Option<Recovered>,
) -> (added: bool)
    ensures
        added == (recovered is Some),
        match recovered {
            Some(recovered) => final(transactions)@.len() == old(transactions)@.len() + 1
                && final(transactions)@.drop_last() == old(transactions)@
                && final(transactions)@.last().encoded@ == encoded@
                && final(transactions)@.last().recovered == recovered,
            None => *final(transactions) == *old(transactions),
        },
{
    match recovered {
        Some(recovered) => {
            let copy = encoded.clone();
            assert(copy@ == encoded@);
            transactions.push(EncodedTransaction { encoded: copy, recovered });
            assert(transactions@.drop_last() == old(transactions)@);
            true
        },
        None => false,
    }
}

/// Decodes the transactions of a run of flashblocks and finds their signers; `None` if that fails
/// for any of them.
pub fn recover_transactions(flashblocks: &Vec<&FlashBlock>) -> (result: Option<
    Vec<EncodedTransaction>,
>)
    ensures
        result is Some <==> recoverable(transactions_of(flashblocks@.unref())),
        result matches Some(recovered) ==> recovers(
            recovered@,
            transactions_of(flashblocks@.unref()),
        ),
{
    let mut recovered: Vec<EncodedTransaction> = Vec::new();
    let ghost blocks = flashblocks@.unref();
    let mut i: usize = 0;
    while i < flashblocks.len()
        invariant
            i <= flashblocks.len(),
            blocks == flashblocks@.unref(),
            recovers(recovered@, transactions_of(blocks.take(i as int))),
        decreases flashblocks.len() - i,
    {
        let added = &flashblocks[i].diff.transactions;
        let ghost before = transactions_of(blocks.take(i as int));
        proof {
            assert(blocks.take(i + 1).drop_last() == blocks.take(i as int));
            assert(transactions_of(blocks.take(i + 1)) == before + encoded(added@));
            assert(before + encoded(added@.take(0)) == before);
        }
        let mut j: usize = 0;
        while j < added.len()
            invariant
                i < flashblocks.len(),
                blocks == flashblocks@.unref(),
                transactions_of(blocks.take(i + 1)) == before + encoded(added@),
                j <= added.len(),
                recovers(recovered@, before + encoded(added@.take(j as int))),
            decreases added.len() - j,
        {
            let ghost held = recovered@;
            let ghost so_far = before + encoded(added@.take(j as int));
            let ghost next = before + encoded(added@.take(j + 1));
            let ghost bytes = added@[j as int]@;
            assert(next == so_far.push(bytes));
            let outcome = recover(added[j].as_slice());
            if !push_recovered(&mut recovered, &added[j], outcome) {
                proof {
                    let all = before + encoded(added@);
                    assert(all[before.len() + j] == bytes);
                    lemma_transactions_prefix(blocks, i + 1);
                    assert(transactions_of(blocks)[before.len() + j] == bytes);
                }
                return None;
            }
            assert forall|k: int| 0 <= k < recovered@.len() implies (#[trigger]
            recovered@[k]).encoded@ == next[k] && Some(recovered@[k].recovered)
                == recovered_transaction(next[k]) by {
                if k < held.len() {
                    assert(recovered@[k] == recovered@.drop_last()[k]);
                    assert(held[k].encoded@ == so_far[k]);
                }
            }
            j += 1;
        }
        assert(added@.take(j as int) == added@);
        i += 1;
    }
    proof {
        assert(blocks.take(i as int) == blocks);
        let all = transactions_of(blocks);
        assert forall|k: int| 0 <= k < all.len() implies recovered_transaction(
            #[trigger] all[k],
        ) is Some by {
            assert(recovered@[k].encoded@ == all[k]);
        }
    }
    Some(recovered)
}

/// The transactions of the first flashblocks come first.
proof fn lemma_transactions_prefix(blocks: Seq<FlashBlock>, n: int)
    requires
        0 <= n <= blocks.len(),
    ensures
        transactions_of(blocks.take(n)).len() <= transactions_of(blocks).len(),
        forall|i: int|
            0 <= i < transactions_of(blocks.take(n)).len() ==> #[trigger] transactions_of(
                blocks,
            )[i] == transactions_of(blocks.take(n))[i],
    decreases blocks.len(),
{
    if n == blocks.len() {
        assert(blocks.take(n) == blocks);
    } else {
        lemma_transactions_prefix(blocks.drop_last(), n);
        assert(blocks.drop_last().take(n) == blocks.take(n));
    }
}

} // verus!
