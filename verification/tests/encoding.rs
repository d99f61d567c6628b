use parity_scale_codec::{Compact, Encode};
use std::cmp::Ordering;
use utxo::encoding::{encode_counter, encode_length};
use utxo::order::{compare_bytes, compare_inputs};
use utxo::{Transaction, TransactionInput, TransactionOutput};

fn sample_transaction(inputs: usize, outputs: usize) -> Transaction {
    let mut transaction = Transaction::default();
    for i in 0..inputs {
        let mut outpoint = [0u8; 32];
        outpoint[0] = (i % 251) as u8;
        outpoint[31] = (i / 251) as u8;
        let mut sigscript = [0u8; 64];
        sigscript[63] = 0xaa;
        sigscript[0] = (i % 7) as u8;
        transaction.inputs.push(TransactionInput { outpoint, sigscript });
    }
    for j in 0..outputs {
        let mut pubkey = [0x11u8; 32];
        pubkey[5] = (j % 256) as u8;
        transaction.outputs.push(TransactionOutput { value: 1000 + j as u128, pubkey });
    }
    transaction
}

fn reference_encoding(transaction: &Transaction) -> Vec<u8> {
    let inputs: Vec<([u8; 32], [u8; 64])> =
        transaction.inputs.iter().map(|input| (input.outpoint, input.sigscript)).collect();
    let outputs: Vec<(u128, [u8; 32])> =
        transaction.outputs.iter().map(|output| (output.value, output.pubkey)).collect();
    (inputs, outputs).encode()
}

#[test]
fn output_encoding_is_value_then_key() {
    let output = TransactionOutput { value: 0x0102_0304_0506_0708_090a_0b0c_0d0e_0f10, pubkey: [0xab; 32] };
    let mut expected: Vec<u8> = vec![
        0x10, 0x0f, 0x0e, 0x0d, 0x0c, 0x0b, 0x0a, 0x09, 0x08, 0x07, 0x06, 0x05, 0x04, 0x03, 0x02, 0x01,
    ];
    expected.extend_from_slice(&[0xab; 32]);
    assert_eq!(output.encode(), expected);
    assert_eq!(output.encode(), (output.value, output.pubkey).encode());
}

#[test]
fn output_encoding_of_small_value() {
    let output = TransactionOutput { value: 100, pubkey: [0; 32] };
    let bytes = output.encode();
    assert_eq!(bytes.len(), 48);
    assert_eq!(bytes[0], 100);
    assert!(bytes[1..].iter().all(|byte| *byte == 0));
}

#[test]
fn input_encoding_is_outpoint_then_proof() {
    let input = TransactionInput { outpoint: [3; 32], sigscript: [9; 64] };
    let mut expected = vec![3u8; 32];
    expected.extend_from_slice(&[9u8; 64]);
    assert_eq!(input.encode(), expected);
}

#[test]
fn counter_is_little_endian() {
    assert_eq!(encode_counter(0), vec![0u8; 8]);
    assert_eq!(encode_counter(1), vec![1, 0, 0, 0, 0, 0, 0, 0]);
    assert_eq!(encode_counter(0x0102_0304_0506_0708), vec![8, 7, 6, 5, 4, 3, 2, 1]);
    assert_eq!(encode_counter(u64::MAX), vec![0xff; 8]);
}

#[test]
fn length_in_single_byte_mode() {
    assert_eq!(encode_length(0), vec![0x00]);
    assert_eq!(encode_length(1), vec![0x04]);
    assert_eq!(encode_length(63), vec![0xfc]);
}

#[test]
fn length_in_two_byte_mode() {
    assert_eq!(encode_length(64), vec![0x01, 0x01]);
    assert_eq!(encode_length(16383), vec![0xfd, 0xff]);
}

#[test]
fn length_in_four_byte_mode() {
    assert_eq!(encode_length(16384), vec![0x02, 0x00, 0x01, 0x00]);
    assert_eq!(encode_length((1 << 30) - 1), vec![0xfe, 0xff, 0xff, 0xff]);
}

#[test]
fn length_in_wide_mode() {
    assert_eq!(encode_length(1 << 30), vec![0x03, 0, 0, 0, 0x40]);
    assert_eq!(encode_length(u32::MAX as usize), vec![0x03, 0xff, 0xff, 0xff, 0xff]);
    assert_eq!(encode_length(1 << 32), vec![0x07, 0, 0, 0, 0, 1]);
    assert_eq!(encode_length((1 << 40) - 1), vec![0x07, 0xff, 0xff, 0xff, 0xff, 0xff]);
    assert_eq!(encode_length(1 << 40), vec![0x0b, 0, 0, 0, 0, 0, 1]);
    assert_eq!(encode_length(1 << 48), vec![0x0f, 0, 0, 0, 0, 0, 0, 1]);
    assert_eq!(encode_length(1 << 56), vec![0x13, 0, 0, 0, 0, 0, 0, 0, 1]);
    assert_eq!(encode_length(usize::MAX), vec![0x13, 0xff, 0xff, 0xff, 0xff, 0xff, 0xff, 0xff, 0xff]);
}

#[test]
fn length_agrees_with_the_codec() {
    let samples: [usize; 14] = [
        0,
        5,
        63,
        64,
        300,
        16383,
        16384,
        70000,
        (1 << 30) - 1,
        1 << 30,
        u32::MAX as usize,
        (u32::MAX as usize) + 1,
        (1 << 48) + 12345,
        usize::MAX,
    ];
    for sample in samples {
        assert_eq!(encode_length(sample), Compact(sample as u64).encode());
    }
}

#[test]
fn empty_transaction_encodes_as_two_empty_sequences() {
    assert_eq!(Transaction::default().encode(), vec![0x00, 0x00]);
}

#[test]
fn transaction_encoding_layout() {
    let transaction = sample_transaction(1, 2);
    let mut expected = vec![0x04];
    expected.extend_from_slice(&transaction.inputs[0].encode());
    expected.push(0x08);
    expected.extend_from_slice(&transaction.outputs[0].encode());
    expected.extend_from_slice(&transaction.outputs[1].encode());
    assert_eq!(transaction.encode(), expected);
    assert_eq!(transaction.encode().len(), 1 + 96 + 1 + 2 * 48);
}

#[test]
fn transaction_encoding_agrees_with_the_codec() {
    for (inputs, outputs) in [(0, 0), (1, 1), (3, 2), (63, 64), (64, 63), (70, 5)] {
        let transaction = sample_transaction(inputs, outputs);
        assert_eq!(transaction.encode(), reference_encoding(&transaction));
    }
}

#[test]
fn long_transaction_uses_four_byte_length() {
    let transaction = sample_transaction(16384, 1);
    let bytes = transaction.encode();
    assert_eq!(&bytes[..4], &[0x02, 0x00, 0x01, 0x00]);
    assert_eq!(bytes.len(), 4 + 16384 * 96 + 1 + 48);
    assert_eq!(bytes, reference_encoding(&transaction));
}

#[test]
fn unsigned_copy_clears_every_proof() {
    let transaction = sample_transaction(3, 2);
    let stripped = transaction.unsigned();
    assert_eq!(stripped.inputs.len(), 3);
    for i in 0..3 {
        assert_eq!(stripped.inputs[i].outpoint, transaction.inputs[i].outpoint);
        assert_eq!(stripped.inputs[i].sigscript, [0u8; 64]);
    }
    assert_eq!(stripped.outputs, transaction.outputs);
}

#[test]
fn signing_payload_ignores_the_proofs() {
    let transaction = sample_transaction(2, 2);
    let mut resigned = transaction.clone();
    resigned.inputs[0].sigscript = [0x77; 64];
    resigned.inputs[1].sigscript = [0x01; 64];
    assert_eq!(transaction.signing_payload(), resigned.signing_payload());
    assert_eq!(transaction.signing_payload(), transaction.unsigned().encode());
    assert_ne!(transaction.encode(), resigned.encode());
}

#[test]
fn signing_payload_depends_on_outpoints_and_outputs() {
    let transaction = sample_transaction(2, 2);
    let mut other = transaction.clone();
    other.inputs[1].outpoint[7] ^= 1;
    assert_ne!(transaction.signing_payload(), other.signing_payload());
    let mut third = transaction.clone();
    third.outputs[0].value += 1;
    assert_ne!(transaction.signing_payload(), third.signing_payload());
}

#[test]
fn clone_keeps_the_transaction() {
    let transaction = sample_transaction(4, 3);
    let copy = transaction.clone();
    assert_eq!(copy, transaction);
    assert_eq!(copy.encode(), transaction.encode());
}

#[test]
fn defaults_are_empty() {
    assert_eq!(TransactionInput::default(), TransactionInput { outpoint: [0; 32], sigscript: [0; 64] });
    assert_eq!(TransactionOutput::default(), TransactionOutput { value: 0, pubkey: [0; 32] });
    assert!(Transaction::default().inputs.is_empty());
    assert!(Transaction::default().outputs.is_empty());
}

#[test]
fn inputs_are_ordered_by_their_bytes() {
    let mut low = TransactionInput { outpoint: [1; 32], sigscript: [9; 64] };
    let high = TransactionInput { outpoint: [2; 32], sigscript: [0; 64] };
    assert!(low < high);
    assert!(low.encode() < high.encode());
    low.outpoint = [2; 32];
    assert!(high < low);
    assert!(high.encode() < low.encode());
}

#[test]
fn inputs_compare_as_their_encodings() {
    let samples = [
        TransactionInput { outpoint: [0; 32], sigscript: [0; 64] },
        TransactionInput { outpoint: [0; 32], sigscript: [1; 64] },
        TransactionInput { outpoint: [1; 32], sigscript: [0; 64] },
        TransactionInput { outpoint: [1; 32], sigscript: [0xff; 64] },
        TransactionInput { outpoint: [0xff; 32], sigscript: [0; 64] },
    ];
    for (i, left) in samples.iter().enumerate() {
        for (j, right) in samples.iter().enumerate() {
            assert_eq!(left.partial_cmp(right), Some(i.cmp(&j)));
            assert_eq!(left.partial_cmp(right), Some(left.encode().cmp(&right.encode())));
            assert_eq!(left.cmp(right), i.cmp(&j));
            assert_eq!(left < right, i < j);
            assert_eq!(left >= right, i >= j);
        }
    }
}

#[test]
fn a_late_byte_decides_between_inputs() {
    let left = TransactionInput { outpoint: [7; 32], sigscript: [7; 64] };
    let mut right = left;
    assert_eq!(compare_inputs(&left, &right), 0);
    assert_eq!(left.partial_cmp(&right), Some(Ordering::Equal));
    right.sigscript[63] = 8;
    assert_eq!(compare_inputs(&left, &right), -1);
    assert_eq!(compare_inputs(&right, &left), 1);
    right.outpoint[31] = 6;
    assert_eq!(compare_inputs(&left, &right), 1);
    assert_eq!(left.partial_cmp(&right), Some(Ordering::Greater));
}

#[test]
fn byte_strings_compare_from_the_first_byte() {
    assert_eq!(compare_bytes(&[], &[]), 0);
    assert_eq!(compare_bytes(&[], &[0]), -1);
    assert_eq!(compare_bytes(&[0], &[]), 1);
    assert_eq!(compare_bytes(&[1, 2, 3], &[1, 2, 3]), 0);
    assert_eq!(compare_bytes(&[1, 2], &[1, 2, 0]), -1);
    assert_eq!(compare_bytes(&[1, 3], &[1, 2, 9]), 1);
    assert_eq!(compare_bytes(&[0, 0xff], &[1, 0]), -1);
    assert_eq!(compare_bytes(&[0x80], &[0x7f]), 1);
}
