//! What holds of the ledger whatever the transactions and the authorities.

use vstd::prelude::*;
use crate::authorization::{proof_verdicts, signable, signing_payload, sr25519_verifies};
use crate::hashing::{output_keys, transaction_id};
use crate::ledger::{entry_keys, lemma_recorded_keys, lemma_recorded_values, LedgerView};
use crate::mutation::{created_by, spent, updated, SpendError};
use crate::reward::{reward_remainder, reward_share};
use crate::transaction::{total_value, TransactionOutput, TransactionView, Value};
use crate::validation::{all_present, has_duplicate, has_zero_value, outpoint_views, resolved, spent_outputs, validated, RejectReason};

verus! {

/// Conservation: the outputs that an accepted transaction spends are worth
/// exactly what the outputs that it creates are worth and the fee.
pub proof fn lemma_conservation(utxos: Map<Seq<u8>, TransactionOutput>, transaction: TransactionView)
    requires
        validated(utxos, transaction) is Ok,
    ensures
        total_value(spent_outputs(utxos, transaction.inputs)) == total_value(transaction.outputs)
            + validated(utxos, transaction)->Ok_0,
        validated(utxos, transaction)->Ok_0 >= 0,
{
}

/// What acceptance means: an accepted transaction names at least one input
/// and no outpoint twice, spends only outputs that the ledger holds, is short
/// enough to be signed and carries a valid signature of the owner of each
/// output that it spends, and creates no output without value.
pub proof fn lemma_accepted_transaction(
    utxos: Map<Seq<u8>, TransactionOutput>,
    transaction: TransactionView,
)
    requires
        validated(utxos, transaction) is Ok,
    ensures
        transaction.inputs.len() > 0,
        !has_duplicate(outpoint_views(transaction.inputs)),
        all_present(utxos, transaction.inputs),
        signable(signing_payload(transaction)),
        forall|i: int|
            0 <= i < transaction.inputs.len() ==> sr25519_verifies(
                (#[trigger] transaction.inputs[i]).sigscript@,
                signing_payload(transaction),
                utxos[transaction.inputs[i].outpoint@].pubkey@,
            ),
        !has_zero_value(transaction.outputs),
{
    let spent = spent_outputs(utxos, transaction.inputs);
    let verdicts = proof_verdicts(transaction, spent);
    assert forall|i: int| 0 <= i < transaction.inputs.len() implies signable(
        signing_payload(transaction),
    ) && sr25519_verifies(
        (#[trigger] transaction.inputs[i]).sigscript@,
        signing_payload(transaction),
        utxos[transaction.inputs[i].outpoint@].pubkey@,
    ) by {
        assert(verdicts[i] != false);
    }
}

/// Conservation where the transaction is applied: the outputs that it spends
/// are worth what the outputs that it creates are worth and what the reward
/// pool gains.
pub proof fn lemma_update_conserves(ledger: LedgerView, transaction: TransactionView, reward: Value)
    requires
        validated(ledger.utxos, transaction) == Ok::<Value, RejectReason>(reward),
        updated(ledger, transaction, reward) is Ok,
    ensures
        total_value(spent_outputs(ledger.utxos, transaction.inputs)) == total_value(
            transaction.outputs,
        ) + updated(ledger, transaction, reward)->Ok_0.reward_total - ledger.reward_total,
{
}

/// What a submitted transaction does where it takes effect: the pool grows by
/// the fee; the ledger holds each new output under its key; it holds no
/// outpoint of the transaction unless a new output got that key; and every
/// other key holds what it held.
pub proof fn lemma_spend_effects(ledger: LedgerView, transaction: TransactionView)
    requires
        spent(ledger, transaction) is Ok,
    ensures
        spent(ledger, transaction)->Ok_0.reward_total == ledger.reward_total + validated(
            ledger.utxos,
            transaction,
        )->Ok_0,
        forall|j: int|
            0 <= j < transaction.outputs.len() ==> spent(
                ledger,
                transaction,
            )->Ok_0.utxos.contains_pair(
                #[trigger] created_by(transaction)[j].0,
                transaction.outputs[j],
            ),
        forall|i: int|
            0 <= i < transaction.inputs.len() && !entry_keys(created_by(transaction)).contains(
                transaction.inputs[i].outpoint@,
            ) ==> !spent(ledger, transaction)->Ok_0.utxos.contains_key(
                #[trigger] transaction.inputs[i].outpoint@,
            ),
        forall|key: Seq<u8>|
            !outpoint_views(transaction.inputs).contains(key) && !entry_keys(
                created_by(transaction),
            ).contains(key) ==> spent(ledger, transaction)->Ok_0.utxos.index_opt(key)
                == ledger.utxos.index_opt(key),
{
    let consumed = outpoint_views(transaction.inputs);
    let created = created_by(transaction);
    let remaining = ledger.utxos.remove_keys(consumed.to_set());
    let next = spent(ledger, transaction)->Ok_0;
    lemma_recorded_keys(remaining, created);
    lemma_recorded_values(remaining, created);
    assert forall|j: int| 0 <= j < transaction.outputs.len() implies next.utxos.contains_pair(
        #[trigger] created[j].0,
        transaction.outputs[j],
    ) by {
        assert(entry_keys(created)[j] == created[j].0);
        assert forall|k: int| j < k < created.len() implies created[k].0 != created[j].0 by {
            assert(entry_keys(created)[k] == created[k].0);
        }
    }
    assert forall|i: int|
        0 <= i < transaction.inputs.len() && !entry_keys(created).contains(
            transaction.inputs[i].outpoint@,
        ) implies !next.utxos.contains_key(#[trigger] transaction.inputs[i].outpoint@) by {
        assert(consumed[i] == transaction.inputs[i].outpoint@);
    }
    assert forall|key: Seq<u8>|
        !consumed.contains(key) && !entry_keys(created).contains(key) implies next.utxos.index_opt(
        key,
    ) == ledger.utxos.index_opt(key) by {
        assert(!consumed.to_set().contains(key));
        assert(remaining.contains_key(key) == ledger.utxos.contains_key(key));
        if ledger.utxos.contains_key(key) {
            assert(remaining[key] == ledger.utxos[key]);
        }
    }
}

/// A transaction that names an outpoint which the ledger does not hold, and
/// names no outpoint twice, is refused because the input is missing.
pub proof fn lemma_absent_outpoint_rejected(
    utxos: Map<Seq<u8>, TransactionOutput>,
    transaction: TransactionView,
    j: int,
)
    requires
        0 <= j < transaction.inputs.len(),
        !utxos.contains_key(transaction.inputs[j].outpoint@),
        !has_duplicate(outpoint_views(transaction.inputs)),
    ensures
        validated(utxos, transaction) == Err::<Value, RejectReason>(RejectReason::MissingInput),
{
}

/// No double spend: once a transaction took effect, a transaction that names
/// one of its outpoints again is refused because the input is missing. The
/// later transaction names no outpoint twice, which would be found first, and
/// the outpoint is not the key of an output that the earlier one created.
pub proof fn lemma_no_double_spend(
    ledger: LedgerView,
    earlier: TransactionView,
    later: TransactionView,
    i: int,
    j: int,
)
    requires
        spent(ledger, earlier) is Ok,
        0 <= i < earlier.inputs.len(),
        0 <= j < later.inputs.len(),
        later.inputs[j].outpoint@ == earlier.inputs[i].outpoint@,
        !has_duplicate(outpoint_views(later.inputs)),
        !entry_keys(created_by(earlier)).contains(earlier.inputs[i].outpoint@),
    ensures
        validated(spent(ledger, earlier)->Ok_0.utxos, later) == Err::<Value, RejectReason>(
            RejectReason::MissingInput,
        ),
        spent(spent(ledger, earlier)->Ok_0, later) == Err::<LedgerView, SpendError>(
            SpendError::Rejected(RejectReason::MissingInput),
        ),
{
    let consumed = outpoint_views(earlier.inputs);
    let remaining = ledger.utxos.remove_keys(consumed.to_set());
    let outpoint = earlier.inputs[i].outpoint@;
    let next = spent(ledger, earlier)->Ok_0;
    assert(consumed[i] == outpoint);
    assert(!remaining.contains_key(outpoint));
    lemma_recorded_keys(remaining, created_by(earlier));
    lemma_absent_outpoint_rejected(next.utxos, later, j);
}

/// Authorization, one way: a transaction with an input that names an unspent
/// output, whose proof is no valid signature of the owner of that output, is
/// refused; where its inputs are in order, for the bad signature.
pub proof fn lemma_wrong_signature_rejected(
    utxos: Map<Seq<u8>, TransactionOutput>,
    transaction: TransactionView,
    i: int,
)
    requires
        0 <= i < transaction.inputs.len(),
        utxos.contains_key(transaction.inputs[i].outpoint@),
        !sr25519_verifies(
            transaction.inputs[i].sigscript@,
            signing_payload(transaction),
            utxos[transaction.inputs[i].outpoint@].pubkey@,
        ),
    ensures
        validated(utxos, transaction) is Err,
        resolved(utxos, transaction) is Ok ==> validated(utxos, transaction) == Err::<
            Value,
            RejectReason,
        >(RejectReason::BadSignature),
{
    if resolved(utxos, transaction) is Ok {
        let spent = spent_outputs(utxos, transaction.inputs);
        assert(proof_verdicts(transaction, spent)[i] == false);
    }
}

/// Authorization, the other way: a transaction whose inputs name unspent
/// outputs, each once and each with a valid signature of its owner, and whose
/// outputs are worth no more than its inputs, is accepted with the difference
/// as its fee. The transaction is short enough to be signed, creates no
/// output without value, its inputs add up within the range of a value, and
/// its outputs get keys that differ.
pub proof fn lemma_authorized_accepted(
    utxos: Map<Seq<u8>, TransactionOutput>,
    transaction: TransactionView,
)
    requires
        transaction.inputs.len() > 0,
        !has_duplicate(outpoint_views(transaction.inputs)),
        all_present(utxos, transaction.inputs),
        signable(signing_payload(transaction)),
        forall|i: int|
            0 <= i < transaction.inputs.len() ==> sr25519_verifies(
                (#[trigger] transaction.inputs[i]).sigscript@,
                signing_payload(transaction),
                utxos[transaction.inputs[i].outpoint@].pubkey@,
            ),
        total_value(transaction.outputs) <= total_value(
            spent_outputs(utxos, transaction.inputs),
        ) <= Value::MAX,
        !has_zero_value(transaction.outputs),
        !has_duplicate(output_keys(transaction_id(transaction), transaction.outputs.len())),
    ensures
        validated(utxos, transaction) == Ok::<Value, RejectReason>(
            (total_value(spent_outputs(utxos, transaction.inputs)) - total_value(
                transaction.outputs,
            )) as Value,
        ),
{
    let spent = spent_outputs(utxos, transaction.inputs);
    let verdicts = proof_verdicts(transaction, spent);
    assert forall|i: int| 0 <= i < verdicts.len() implies verdicts[i] by {
        assert(sr25519_verifies(
            transaction.inputs[i].sigscript@,
            signing_payload(transaction),
            utxos[transaction.inputs[i].outpoint@].pubkey@,
        ));
    }
    assert(!verdicts.contains(false));
}

/// Reward partition: the shares of the receivers and the remainder add up to
/// the pool; the remainder is less than the number of receivers where the
/// share is something, and the whole pool where it is nothing.
pub proof fn lemma_reward_partition(total: Value, count: nat)
    ensures
        count * reward_share(total, count) + reward_remainder(total, count) == total,
        reward_share(total, count) > 0 ==> reward_remainder(total, count) < count,
        reward_share(total, count) == 0 ==> reward_remainder(total, count) == total,
        reward_share(total, count) <= total,
        reward_remainder(total, count) <= total,
{
    if count > 0 {
        vstd::arithmetic::div_mod::lemma_fundamental_div_mod(total as int, count as int);
        vstd::arithmetic::div_mod::lemma_mod_bound(total as int, count as int);
        let share = reward_share(total, count);
        assert(share * 1 <= share * count) by (nonlinear_arith)
            requires
                count >= 1,
                share >= 0,
        ;
        assert(count * share == share * count) by (nonlinear_arith);
    }
}

/// Idempotent queries: two reads of one key from one ledger answer the same,
/// and so do two reads of the reward pool.
pub proof fn lemma_queries_repeat(
    ledger: LedgerView,
    key: Seq<u8>,
    first: (Option<TransactionOutput>, Value),
    second: (Option<TransactionOutput>, Value),
)
    requires
        first.0 == ledger.utxos.index_opt(key),
        first.1 == ledger.reward_total,
        second.0 == ledger.utxos.index_opt(key),
        second.1 == ledger.reward_total,
    ensures
        first == second,
{
}

} // verus!
