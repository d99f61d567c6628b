use sp_core::Pair;
use utxo::{Ledger, RejectReason, SpendError, Transaction, TransactionInput, TransactionOutput};

fn holder(tag: u8) -> sp_core::sr25519::Pair {
    sp_core::sr25519::Pair::from_seed(&[tag; 32])
}

fn signed_transfer(
    owner: &sp_core::sr25519::Pair,
    outpoint: [u8; 32],
    outputs: Vec<TransactionOutput>,
) -> Transaction {
    let mut transaction = Transaction {
        inputs: vec![TransactionInput { outpoint, sigscript: [0; 64] }],
        outputs,
    };
    let message = transaction.signing_payload();
    transaction.inputs[0].sigscript = owner.sign(&message).0;
    transaction
}

fn pool_of(amount: u128) -> Ledger {
    Ledger::seed(&[], amount)
}

#[test]
fn spending_a_genesis_output_moves_value_and_pays_the_fee() {
    let k1 = holder(1);
    let k2 = holder(2);
    let seeded = TransactionOutput { value: 100, pubkey: k1.public().0 };
    let mut ledger = Ledger::genesis(&[seeded]);
    let seed_key = seeded.genesis_key();
    assert_eq!(ledger.get(&seed_key), Some(seeded));

    let created = TransactionOutput { value: 90, pubkey: k2.public().0 };
    let transaction = signed_transfer(&k1, seed_key, vec![created]);
    assert_eq!(ledger.spend(&transaction), Ok(transaction.hash()));

    assert_eq!(ledger.get(&seed_key), None);
    let keys = transaction.output_keys();
    assert_eq!(keys.len(), 1);
    assert_ne!(keys[0], seed_key);
    assert_eq!(ledger.get(&keys[0]), Some(created));
    assert_eq!(ledger.reward_total(), 10);
}

#[test]
fn spending_a_spent_outpoint_is_refused() {
    let k1 = holder(1);
    let k2 = holder(2);
    let seeded = TransactionOutput { value: 100, pubkey: k1.public().0 };
    let mut ledger = Ledger::genesis(&[seeded]);
    let seed_key = seeded.genesis_key();
    let first = signed_transfer(&k1, seed_key, vec![TransactionOutput { value: 90, pubkey: k2.public().0 }]);
    assert!(ledger.spend(&first).is_ok());
    let new_key = first.output_keys()[0];

    assert_eq!(ledger.spend(&first), Err(SpendError::Rejected(RejectReason::MissingInput)));
    let second = signed_transfer(&k1, seed_key, vec![TransactionOutput { value: 80, pubkey: k1.public().0 }]);
    assert_eq!(ledger.validate_transaction(&second), Err(RejectReason::MissingInput));
    assert_eq!(ledger.spend(&second), Err(SpendError::Rejected(RejectReason::MissingInput)));

    assert_eq!(ledger.get(&seed_key), None);
    assert_eq!(ledger.get(&new_key), Some(first.outputs[0]));
    assert_eq!(ledger.get(&second.output_keys()[0]), None);
    assert_eq!(ledger.reward_total(), 10);
}

#[test]
fn seven_among_three_pays_two_each_and_keeps_one() {
    let mut ledger = pool_of(7);
    let authorities = [[1u8; 32], [2u8; 32], [3u8; 32]];
    let paid = ledger.disperse_reward(&authorities, 12);
    assert_eq!(paid, Some(vec![true, true, true]));
    for authority in authorities {
        let output = TransactionOutput { value: 2, pubkey: authority };
        assert_eq!(ledger.get(&output.reward_key(12)), Some(output));
    }
    assert_eq!(ledger.reward_total(), 1);
}

#[test]
fn two_among_five_pays_nobody_and_keeps_two() {
    let mut ledger = pool_of(2);
    let authorities = [[1u8; 32], [2u8; 32], [3u8; 32], [4u8; 32], [5u8; 32]];
    let paid = ledger.disperse_reward(&authorities, 12);
    assert_eq!(paid, None);
    for authority in authorities {
        let output = TransactionOutput { value: 0, pubkey: authority };
        assert_eq!(ledger.get(&output.reward_key(12)), None);
    }
    assert_eq!(ledger.reward_total(), 2);
}

#[test]
fn refused_transaction_leaves_the_ledger_alone() {
    let k1 = holder(1);
    let k3 = holder(3);
    let seeded = TransactionOutput { value: 100, pubkey: k1.public().0 };
    let mut ledger = Ledger::genesis(&[seeded]);
    let seed_key = seeded.genesis_key();
    let forged = signed_transfer(&k3, seed_key, vec![TransactionOutput { value: 90, pubkey: k3.public().0 }]);
    assert_eq!(ledger.spend(&forged), Err(SpendError::Rejected(RejectReason::BadSignature)));
    assert_eq!(ledger.get(&seed_key), Some(seeded));
    assert_eq!(ledger.get(&forged.output_keys()[0]), None);
    assert_eq!(ledger.reward_total(), 0);
}

#[test]
fn fees_of_several_transactions_are_dispersed() {
    let k1 = holder(1);
    let k2 = holder(2);
    let first_seed = TransactionOutput { value: 100, pubkey: k1.public().0 };
    let second_seed = TransactionOutput { value: 40, pubkey: k2.public().0 };
    let mut ledger = Ledger::genesis(&[first_seed, second_seed]);
    let first = signed_transfer(
        &k1,
        first_seed.genesis_key(),
        vec![TransactionOutput { value: 95, pubkey: k2.public().0 }],
    );
    let second = signed_transfer(
        &k2,
        second_seed.genesis_key(),
        vec![TransactionOutput { value: 38, pubkey: k1.public().0 }],
    );
    assert!(ledger.spend(&first).is_ok());
    assert!(ledger.spend(&second).is_ok());
    assert_eq!(ledger.reward_total(), 7);
    let chained = signed_transfer(
        &k2,
        first.output_keys()[0],
        vec![TransactionOutput { value: 95, pubkey: k1.public().0 }],
    );
    assert_eq!(ledger.spend(&chained), Ok(chained.hash()));
    assert_eq!(ledger.reward_total(), 7);
    assert_eq!(ledger.disperse_reward(&[k1.public().0, k2.public().0], 3), Some(vec![true, true]));
    assert_eq!(ledger.reward_total(), 1);
    let reward = TransactionOutput { value: 3, pubkey: k1.public().0 };
    assert_eq!(ledger.get(&reward.reward_key(3)), Some(reward));
}
