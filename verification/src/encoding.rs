//! The canonical byte encoding of the records.
//!
//! Integers are written little-endian at their full width, digests and
//! signatures as their bytes, and a sequence as its length in compact form
//! followed by its items.

use vstd::prelude::*;
use crate::transaction::{Transaction, TransactionInput, TransactionOutput, TransactionView};

verus! {

/// The `width` low-order bytes of `value`, least significant first.
pub open spec fn le_bytes(value: nat, width: nat) -> Seq<u8>
    decreases width,
{
    if width == 0 {
        Seq::empty()
    } else {
        seq![(value % 256) as u8] + le_bytes(value / 256, (width - 1) as nat)
    }
}

/// How many bytes a number of at least 2^30 takes in compact form, not
/// counting the leading byte.
pub open spec fn compact_width(value: nat) -> nat {
    if value < 0x1_0000_0000 {
        4
    } else if value < 0x100_0000_0000 {
        5
    } else if value < 0x1_0000_0000_0000 {
        6
    } else if value < 0x100_0000_0000_0000 {
        7
    } else {
        8
    }
}

/// The compact form of a number: one, two or four bytes that carry the number
/// shifted left by two bits with the mode in the low bits, or, from 2^30 on, a
/// leading byte that tells the width and then the number itself.
pub open spec fn compact_encoding(value: nat) -> Seq<u8> {
    if value < 0x40 {
        le_bytes(value * 4, 1)
    } else if value < 0x4000 {
        le_bytes(value * 4 + 1, 2)
    } else if value < 0x4000_0000 {
        le_bytes(value * 4 + 2, 4)
    } else {
        seq![(3 + (compact_width(value) - 4) * 4) as u8] + le_bytes(value, compact_width(value))
    }
}

/// Encoding of an output: the value, then the owner's key.
pub open spec fn output_encoding(output: TransactionOutput) -> Seq<u8> {
    le_bytes(output.value as nat, 16) + output.pubkey@
}

/// Encoding of an input: the outpoint, then the signature.
pub open spec fn input_encoding(input: TransactionInput) -> Seq<u8> {
    input.outpoint@ + input.sigscript@
}

/// The encodings of `inputs`, one after the other.
pub open spec fn inputs_encoding(inputs: Seq<TransactionInput>) -> Seq<u8>
    decreases inputs.len(),
{
    if inputs.len() == 0 {
        Seq::empty()
    } else {
        inputs_encoding(inputs.drop_last()) + input_encoding(inputs.last())
    }
}

/// The encodings of `outputs`, one after the other.
pub open spec fn outputs_encoding(outputs: Seq<TransactionOutput>) -> Seq<u8>
    decreases outputs.len(),
{
    if outputs.len() == 0 {
        Seq::empty()
    } else {
        outputs_encoding(outputs.drop_last()) + output_encoding(outputs.last())
    }
}

/// Encoding of a transaction: the inputs, then the outputs, each sequence
/// behind its length.
pub open spec fn transaction_encoding(transaction: TransactionView) -> Seq<u8> {
    compact_encoding(transaction.inputs.len()) + inputs_encoding(transaction.inputs)
        + compact_encoding(transaction.outputs.len()) + outputs_encoding(transaction.outputs)
}

/// Calls `Encode::encode` of `parity_scale_codec` on a `u128`. The codec
/// writes a fixed-width integer as its little-endian bytes; the contract
/// claims exactly that.
#[verifier::external_body]
fn scale_u128(value: u128) -> (bytes: Vec<u8>)
    ensures
        bytes@ == le_bytes(value as nat, 16),
{
    parity_scale_codec::Encode::encode(&value)
}

/// Calls `Encode::encode` of `parity_scale_codec` on a `u64`. The codec
/// writes a fixed-width integer as its little-endian bytes; the contract
/// claims exactly that.
#[verifier::external_body]
fn scale_u64(value: u64) -> (bytes: Vec<u8>)
    ensures
        bytes@ == le_bytes(value as nat, 8),
{
    parity_scale_codec::Encode::encode(&value)
}

/// Calls `Encode::encode` of `parity_scale_codec` on a `Compact<u64>`. The
/// contract claims the four modes of the compact form as the codec writes
/// them.
#[verifier::external_body]
fn scale_compact(value: u64) -> (bytes: Vec<u8>)
    ensures
        bytes@ == compact_encoding(value as nat),
{
    parity_scale_codec::Encode::encode(&parity_scale_codec::Compact(value))
}

/// The little-endian bytes of a 64-bit counter.
pub fn encode_counter(value: u64) -> (bytes: Vec<u8>)
    ensures
        bytes@ == le_bytes(value as nat, 8),
{
    scale_u64(value)
}

/// The compact form of the length of a sequence.
pub fn encode_length(length: usize) -> (bytes: Vec<u8>)
    ensures
        bytes@ == compact_encoding(length as nat),
{
    scale_compact(length as u64)
}

impl TransactionOutput {
    /// The canonical encoding of the output.
    pub fn encode(&self) -> (bytes: Vec<u8>)
        ensures
            bytes@ == output_encoding(*self),
    {
        let mut bytes = scale_u128(self.value);
        bytes.extend_from_slice(self.pubkey.as_slice());
        assert(bytes@ =~= output_encoding(*self));
        bytes
    }
}

impl TransactionInput {
    /// The canonical encoding of the input.
    pub fn encode(&self) -> (bytes: Vec<u8>)
        ensures
            bytes@ == input_encoding(*self),
    {
        let mut bytes: Vec<u8> = Vec::new();
        bytes.extend_from_slice(self.outpoint.as_slice());
        bytes.extend_from_slice(self.sigscript.as_slice());
        assert(bytes@ =~= input_encoding(*self));
        bytes
    }
}

impl Transaction {
    /// The canonical encoding of the transaction.
    pub fn encode(&self) -> (bytes: Vec<u8>)
        ensures
            bytes@ == transaction_encoding(self@),
    {
        let mut bytes = encode_length(self.inputs.len());
        let mut i: usize = 0;
        while i < self.inputs.len()
            invariant
                i <= self.inputs.len(),
                bytes@ == compact_encoding(self.inputs@.len()) + inputs_encoding(
                    self.inputs@.take(i as int),
                ),
            decreases self.inputs.len() - i,
        {
            let item = self.inputs[i].encode();
            bytes.extend_from_slice(item.as_slice());
            proof {
                let next = self.inputs@.take(i + 1);
                assert(next.drop_last() =~= self.inputs@.take(i as int));
                assert(next.last() == self.inputs@[i as int]);
            }
            i += 1;
        }
        assert(self.inputs@.take(i as int) =~= self.inputs@);
        let prefix = encode_length(self.outputs.len());
        bytes.extend_from_slice(prefix.as_slice());
        let ghost head = bytes@;
        let mut j: usize = 0;
        while j < self.outputs.len()
            invariant
                j <= self.outputs.len(),
                head == compact_encoding(self.inputs@.len()) + inputs_encoding(self.inputs@)
                    + compact_encoding(self.outputs@.len()),
                bytes@ == head + outputs_encoding(self.outputs@.take(j as int)),
            decreases self.outputs.len() - j,
        {
            let item = self.outputs[j].encode();
            bytes.extend_from_slice(item.as_slice());
            proof {
                let next = self.outputs@.take(j + 1);
                assert(next.drop_last() =~= self.outputs@.take(j as int));
                assert(next.last() == self.outputs@[j as int]);
            }
            j += 1;
        }
        assert(self.outputs@.take(j as int) =~= self.outputs@);
        bytes
    }
}

} // verus!
