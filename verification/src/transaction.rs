//! The records that make up a transaction, and their mathematical views.

use vstd::prelude::*;

verus! {

/// An amount of value.
pub type Value = u128;

/// A 256-bit digest or public key.
pub type H256 = [u8; 32];

/// A 512-bit signature.
pub type H512 = [u8; 64];

/// A reference to an unspent output together with the proof that the spender
/// may consume it. Inputs are ordered as their encodings are, byte by byte.
#[derive(Clone, Copy, Debug, PartialEq, Eq, Ord, Hash)]
pub struct TransactionInput {
    /// Ledger key of the output that is spent.
    pub outpoint: H256,
    /// Signature of the output's owner over the spending transaction.
    pub sigscript: H512,
}

/// An indivisible balance owned by a public key.
#[derive(Clone, Copy, Debug, PartialEq, Eq, PartialOrd, Ord, Hash)]
pub struct TransactionOutput {
    /// The amount held.
    pub value: Value,
    /// Public key of the owner.
    pub pubkey: H256,
}

/// A transfer: the outputs it consumes and the outputs it creates.
#[derive(Debug, PartialEq, Eq, PartialOrd, Ord, Hash)]
pub struct Transaction {
    pub inputs: Vec<TransactionInput>,
    pub outputs: Vec<TransactionOutput>,
}

/// A transaction as a pair of sequences.
pub struct TransactionView {
    pub inputs: Seq<TransactionInput>,
    pub outputs: Seq<TransactionOutput>,
}

impl View for Transaction {
    type V = TransactionView;

    open spec fn view(&self) -> TransactionView {
        TransactionView { inputs: self.inputs@, outputs: self.outputs@ }
    }
}

impl Clone for Transaction {
    fn clone(&self) -> (copy: Transaction)
        ensures
            copy@ == self@,
    {
        let mut inputs: Vec<TransactionInput> = Vec::new();
        let mut i: usize = 0;
        while i < self.inputs.len()
            invariant
                i <= self.inputs@.len(),
                inputs@ == self.inputs@.take(i as int),
            decreases self.inputs@.len() - i,
        {
            inputs.push(self.inputs[i]);
            assert(self.inputs@.take(i + 1) =~= self.inputs@.take(i as int).push(
                self.inputs@[i as int],
            ));
            i += 1;
        }
        assert(self.inputs@.take(i as int) =~= self.inputs@);
        let mut outputs: Vec<TransactionOutput> = Vec::new();
        let mut j: usize = 0;
        while j < self.outputs.len()
            invariant
                j <= self.outputs@.len(),
                outputs@ == self.outputs@.take(j as int),
            decreases self.outputs@.len() - j,
        {
            outputs.push(self.outputs[j]);
            assert(self.outputs@.take(j + 1) =~= self.outputs@.take(j as int).push(
                self.outputs@[j as int],
            ));
            j += 1;
        }
        assert(self.outputs@.take(j as int) =~= self.outputs@);
        Transaction { inputs, outputs }
    }
}

impl Default for TransactionInput {
    fn default() -> (input: TransactionInput)
        ensures
            input.outpoint@ == Seq::new(32, |i: int| 0u8),
            input.sigscript@ == Seq::new(64, |i: int| 0u8),
    {
        TransactionInput { outpoint: [0u8; 32], sigscript: [0u8; 64] }
    }
}

impl Default for TransactionOutput {
    fn default() -> (output: TransactionOutput)
        ensures
            output.value == 0,
            output.pubkey@ == Seq::new(32, |i: int| 0u8),
    {
        TransactionOutput { value: 0, pubkey: [0u8; 32] }
    }
}

impl Default for Transaction {
    fn default() -> (transaction: Transaction)
        ensures
            transaction@.inputs.len() == 0,
            transaction@.outputs.len() == 0,
    {
        Transaction { inputs: Vec::new(), outputs: Vec::new() }
    }
}

/// The total of the values of `outputs`, as an unbounded integer.
pub open spec fn total_value(outputs: Seq<TransactionOutput>) -> nat
    decreases outputs.len(),
{
    if outputs.len() == 0 {
        0
    } else {
        total_value(outputs.drop_last()) + outputs.last().value as nat
    }
}

/// Whether the two arrays hold the same bytes.
pub fn same_bytes<const N: usize>(left: &[u8; N], right: &[u8; N]) -> (same: bool)
    ensures
        same == (left@ == right@),
{
    let mut i: usize = 0;
    while i < N
        invariant
            i <= N,
            forall|j: int| 0 <= j < i ==> left[j] == right[j],
        decreases N - i,
    {
        if left[i] != right[i] {
            assert(left@[i as int] != right@[i as int]);
            return false;
        }
        i += 1;
    }
    assert(left@ =~= right@);
    true
}

} // verus!
