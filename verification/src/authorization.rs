//! Proof of ownership: the signature that licenses a spend.

use vstd::prelude::*;
use crate::encoding::transaction_encoding;
use crate::transaction::{Transaction, TransactionInput, TransactionOutput, TransactionView, H256, H512};

verus! {

/// Whether `signature` is a valid sr25519 signature of `message` under the
/// public key `public`, as `sp_core` judges it.
pub uninterp spec fn sr25519_verifies(signature: Seq<u8>, message: Seq<u8>, public: Seq<u8>) -> bool;

/// Whether a message is short enough to be signed: the signature scheme
/// writes the length of the message in 32 bits.
pub open spec fn signable(message: Seq<u8>) -> bool {
    message.len() <= u32::MAX
}

/// Calls `Pair::verify` of `sp_core::sr25519`. The call does not return on a
/// message whose length does not fit in 32 bits, so such a message is left
/// out. The contract claims only that the verdict depends on the signature,
/// the message and the key alone.
#[verifier::external_body]
fn sr25519_verify(signature: &H512, message: &[u8], public: &H256) -> (valid: bool)
    requires
        signable(message@),
    ensures
        valid == sr25519_verifies(signature@, message@, public@),
{
    let signature = sp_core::sr25519::Signature::from_raw(*signature);
    let public = sp_core::sr25519::Public::from_raw(*public);
    <sp_core::sr25519::Pair as sp_core::Pair>::verify(&signature, message, &public)
}

/// The signature that holds only zeros.
pub open spec fn empty_proof() -> H512 {
    vstd::array::spec_array_fill_for_copy_type::<u8, 64>(0u8)
}

/// The input without its proof: the signature is replaced by zeros.
pub open spec fn unsigned_input(input: TransactionInput) -> TransactionInput {
    TransactionInput { outpoint: input.outpoint, sigscript: empty_proof() }
}

/// The transaction without its proofs.
pub open spec fn unsigned(transaction: TransactionView) -> TransactionView {
    TransactionView {
        inputs: Seq::new(transaction.inputs.len(), |i: int| unsigned_input(transaction.inputs[i])),
        outputs: transaction.outputs,
    }
}

/// The message that the owner of every spent output signs: the encoding of
/// the transaction without its proofs.
pub open spec fn signing_payload(transaction: TransactionView) -> Seq<u8> {
    transaction_encoding(unsigned(transaction))
}

/// For each input, whether its proof is a valid signature of the signing
/// payload under the key that owns the output in the same place of `spent`.
/// An input beyond the end of `spent` has no owner to sign for it, and a
/// payload that is too long to be signed has no valid signature.
pub open spec fn proof_verdicts(transaction: TransactionView, spent: Seq<TransactionOutput>) -> Seq<bool> {
    Seq::new(
        transaction.inputs.len(),
        |i: int|
            i < spent.len() && signable(signing_payload(transaction)) && sr25519_verifies(
                transaction.inputs[i].sigscript@,
                signing_payload(transaction),
                spent[i].pubkey@,
            ),
    )
}

impl Transaction {
    /// A copy of the transaction in which every proof is replaced by zeros.
    pub fn unsigned(&self) -> (stripped: Transaction)
        ensures
            stripped@ == unsigned(self@),
    {
        let mut inputs: Vec<TransactionInput> = Vec::new();
        let mut i: usize = 0;
        while i < self.inputs.len()
            invariant
                i <= self.inputs.len(),
                inputs@.len() == i,
                forall|k: int| 0 <= k < i ==> inputs@[k] == unsigned_input(self.inputs@[k]),
            decreases self.inputs.len() - i,
        {
            inputs.push(TransactionInput { outpoint: self.inputs[i].outpoint, sigscript: [0u8; 64] });
            i += 1;
        }
        let mut outputs: Vec<TransactionOutput> = Vec::new();
        let mut j: usize = 0;
        while j < self.outputs.len()
            invariant
                j <= self.outputs.len(),
                outputs@ == self.outputs@.take(j as int),
            decreases self.outputs.len() - j,
        {
            outputs.push(self.outputs[j]);
            assert(self.outputs@.take(j + 1) =~= self.outputs@.take(j as int).push(self.outputs@[j as int]));
            j += 1;
        }
        assert(self.outputs@.take(j as int) =~= self.outputs@);
        assert(inputs@ =~= unsigned(self@).inputs);
        Transaction { inputs, outputs }
    }

    /// The message that the owners of the spent outputs sign.
    pub fn signing_payload(&self) -> (message: Vec<u8>)
        ensures
            message@ == signing_payload(self@),
    {
        self.unsigned().encode()
    }

    /// Checks every proof against the owner of the output in the same place of
    /// `spent`. Where the signing payload is too long to be signed no proof is
    /// valid.
    pub fn verify_proofs(&self, spent: &Vec<TransactionOutput>) -> (verdicts: Vec<bool>)
        ensures
            verdicts@ == proof_verdicts(self@, spent@),
    {
        let message = self.signing_payload();
        let fits = message.len() <= 0xffff_ffff;
        let mut verdicts: Vec<bool> = Vec::new();
        let mut i: usize = 0;
        while i < self.inputs.len()
            invariant
                i <= self.inputs.len(),
                message@ == signing_payload(self@),
                fits == signable(message@),
                verdicts@.len() == i,
                forall|k: int| 0 <= k < i ==> verdicts@[k] == proof_verdicts(self@, spent@)[k],
            decreases self.inputs.len() - i,
        {
            let valid = i < spent.len() && fits && sr25519_verify(
                &self.inputs[i].sigscript,
                message.as_slice(),
                &spent[i].pubkey,
            );
            verdicts.push(valid);
            i += 1;
        }
        assert(verdicts@ =~= proof_verdicts(self@, spent@));
        verdicts
    }
}

} // verus!
