//! Content addressing: the digests that name transactions and outputs.

use vstd::prelude::*;
use crate::encoding::{le_bytes, output_encoding, transaction_encoding, encode_counter};
use crate::transaction::{Transaction, TransactionOutput, TransactionView, H256};

verus! {

/// The BLAKE2b digest of 256 bits of `data`, as `sp_runtime`'s `BlakeTwo256`
/// computes it.
pub uninterp spec fn blake2_256(data: Seq<u8>) -> Seq<u8>;

/// Calls `Hash::hash` of `sp_runtime::traits::BlakeTwo256`. The contract
/// claims only that the digest depends on the bytes alone.
#[verifier::external_body]
fn blake_two_256(data: &[u8]) -> (digest: H256)
    ensures
        digest@ == blake2_256(data@),
{
    <sp_runtime::traits::BlakeTwo256 as sp_runtime::traits::Hash>::hash(data).0
}

/// Ledger key of an output that is seeded at genesis: the digest of the
/// output.
pub open spec fn genesis_key(output: TransactionOutput) -> Seq<u8> {
    blake2_256(output_encoding(output))
}

/// Identity of a transaction: the digest of its encoding.
pub open spec fn transaction_id(transaction: TransactionView) -> Seq<u8> {
    blake2_256(transaction_encoding(transaction))
}

/// Ledger key of the output at place `index` of the transaction named `id`:
/// the digest of the identity followed by the place.
pub open spec fn output_key(id: Seq<u8>, index: nat) -> Seq<u8> {
    blake2_256(id + le_bytes(index, 8))
}

/// The ledger keys of the first `count` outputs of the transaction named
/// `id`.
pub open spec fn output_keys(id: Seq<u8>, count: nat) -> Seq<Seq<u8>> {
    Seq::new(count, |j: int| output_key(id, j as nat))
}

/// Ledger key of a reward paid in the period `period`: the digest of the
/// output followed by the period.
pub open spec fn reward_key(output: TransactionOutput, period: u64) -> Seq<u8> {
    blake2_256(output_encoding(output) + le_bytes(period as nat, 8))
}

/// The views of the digests in `keys`.
pub open spec fn key_views(keys: Seq<H256>) -> Seq<Seq<u8>> {
    Seq::new(keys.len(), |j: int| keys[j]@)
}

impl TransactionOutput {
    /// The key under which the output is seeded at genesis.
    pub fn genesis_key(&self) -> (key: H256)
        ensures
            key@ == genesis_key(*self),
    {
        let bytes = self.encode();
        blake_two_256(bytes.as_slice())
    }

    /// The key under which the output is paid as a reward in `period`.
    pub fn reward_key(&self, period: u64) -> (key: H256)
        ensures
            key@ == reward_key(*self, period),
    {
        let mut bytes = self.encode();
        let counter = encode_counter(period);
        bytes.extend_from_slice(counter.as_slice());
        assert(bytes@ =~= output_encoding(*self) + le_bytes(period as nat, 8));
        blake_two_256(bytes.as_slice())
    }
}

impl Transaction {
    /// The identity of the transaction.
    pub fn hash(&self) -> (id: H256)
        ensures
            id@ == transaction_id(self@),
    {
        let bytes = self.encode();
        blake_two_256(bytes.as_slice())
    }

    /// The ledger keys of the outputs, in the order of the outputs.
    pub fn output_keys(&self) -> (keys: Vec<H256>)
        ensures
            keys@.len() == self@.outputs.len(),
            key_views(keys@) == output_keys(transaction_id(self@), self@.outputs.len()),
    {
        let id = self.hash();
        let mut keys: Vec<H256> = Vec::new();
        let mut j: usize = 0;
        while j < self.outputs.len()
            invariant
                j <= self.outputs.len(),
                id@ == transaction_id(self@),
                keys@.len() == j,
                forall|k: int| 0 <= k < j ==> (#[trigger] keys@[k])@ == output_key(id@, k as nat),
            decreases self.outputs.len() - j,
        {
            let mut bytes: Vec<u8> = Vec::new();
            bytes.extend_from_slice(id.as_slice());
            let counter = encode_counter(j as u64);
            bytes.extend_from_slice(counter.as_slice());
            assert(bytes@ =~= id@ + le_bytes(j as nat, 8));
            let key = blake_two_256(bytes.as_slice());
            keys.push(key);
            j += 1;
        }
        assert(key_views(keys@) =~= output_keys(transaction_id(self@), self@.outputs.len()));
        keys
    }
}

} // verus!
