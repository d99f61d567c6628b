//! The effects of an accepted transaction on the ledger.
//!
//! The outputs that the transaction spends leave the ledger, the outputs that
//! it creates enter it, each under a key of its own, and the fee joins the
//! reward pool. Either all of this happens or nothing.

use vstd::prelude::*;
use crate::hashing::{key_views, output_key, output_keys, transaction_id};
use crate::ledger::{entry_keys, entry_views, lemma_recorded_keys, recorded, Entry, Ledger, LedgerView};
use crate::transaction::{same_bytes, Transaction, TransactionOutput, TransactionView, Value, H256};
use crate::validation::{contains_duplicate, has_duplicate, outpoint_views, resolved, settled, spent_outputs, validated, RejectReason};

verus! {

/// A fault that validation should have made impossible.
#[derive(Clone, Copy, Debug, PartialEq, Eq)]
pub enum InternalError {
    /// The key of a new output is taken, by an output that stays or by
    /// another new output.
    OutputCollision,
    /// The reward pool cannot hold the fee.
    RewardOverflow,
}

/// Why a submitted transaction did not change the ledger.
#[derive(Clone, Copy, Debug, PartialEq, Eq)]
pub enum SpendError {
    /// Validation refused the transaction.
    Rejected(RejectReason),
    /// The accepted transaction could not be applied.
    Internal(InternalError),
}

/// Whether `utxos` holds none of `keys`.
pub open spec fn keys_free(utxos: Map<Seq<u8>, TransactionOutput>, keys: Seq<Seq<u8>>) -> bool {
    forall|j: int| 0 <= j < keys.len() ==> !utxos.contains_key(#[trigger] keys[j])
}

/// The outputs that `transaction` creates, each with its ledger key, in the
/// order of the outputs.
pub open spec fn created_by(transaction: TransactionView) -> Seq<(Seq<u8>, TransactionOutput)> {
    Seq::new(
        transaction.outputs.len(),
        |j: int| (output_key(transaction_id(transaction), j as nat), transaction.outputs[j]),
    )
}

/// Each of `outputs` with the key in the same place of `keys`.
pub open spec fn keyed(keys: Seq<Seq<u8>>, outputs: Seq<TransactionOutput>) -> Seq<
    (Seq<u8>, TransactionOutput),
> {
    Seq::new(outputs.len(), |j: int| (keys[j], outputs[j]))
}

/// Whether `transaction` passes, against `utxos` and with its outputs under
/// `keys`, every check that does not read a proof, and leaves `reward` as its
/// fee: its inputs are in order, its outputs have value, value is conserved
/// and every output has a key of its own.
pub open spec fn accepted_but_for_proofs(
    utxos: Map<Seq<u8>, TransactionOutput>,
    transaction: TransactionView,
    keys: Seq<Seq<u8>>,
    reward: Value,
) -> bool {
    &&& keys.len() == transaction.outputs.len()
    &&& resolved(utxos, transaction) is Ok
    &&& settled(
        transaction,
        spent_outputs(utxos, transaction.inputs),
        Seq::new(transaction.inputs.len(), |i: int| true),
        keys,
    ) == Ok::<Value, RejectReason>(reward)
}

/// The ledger after the outputs under the keys `consumed` left it, the
/// outputs of `created` entered it and `reward` joined the pool, or the fault
/// that keeps this from happening: a key of `created` that is taken, by an
/// output that stays or by another of `created`, comes before a pool that
/// overflows.
pub open spec fn applied(
    ledger: LedgerView,
    consumed: Seq<Seq<u8>>,
    created: Seq<(Seq<u8>, TransactionOutput)>,
    reward: Value,
) -> Result<LedgerView, InternalError> {
    let remaining = ledger.utxos.remove_keys(consumed.to_set());
    if !keys_free(remaining, entry_keys(created)) || has_duplicate(entry_keys(created)) {
        Err(InternalError::OutputCollision)
    } else if ledger.reward_total + reward > Value::MAX {
        Err(InternalError::RewardOverflow)
    } else {
        Ok(
            LedgerView {
                utxos: recorded(remaining, created),
                reward_total: (ledger.reward_total + reward) as Value,
            },
        )
    }
}

/// The ledger after `transaction` took effect with `reward` as its fee, or
/// the fault that keeps it from taking effect.
pub open spec fn updated(ledger: LedgerView, transaction: TransactionView, reward: Value) -> Result<
    LedgerView,
    InternalError,
> {
    applied(ledger, outpoint_views(transaction.inputs), created_by(transaction), reward)
}

/// The ledger after `transaction` was submitted and took effect, or the
/// reason why it did not.
pub open spec fn spent(ledger: LedgerView, transaction: TransactionView) -> Result<
    LedgerView,
    SpendError,
> {
    match validated(ledger.utxos, transaction) {
        Err(reason) => Err(SpendError::Rejected(reason)),
        Ok(fee) => match updated(ledger, transaction, fee) {
            Err(error) => Err(SpendError::Internal(error)),
            Ok(next) => Ok(next),
        },
    }
}

/// A transaction that validation accepts passes every check that does not
/// read a proof, with the same fee.
pub proof fn lemma_accepted_without_proofs(
    utxos: Map<Seq<u8>, TransactionOutput>,
    transaction: TransactionView,
)
    requires
        validated(utxos, transaction) is Ok,
    ensures
        accepted_but_for_proofs(
            utxos,
            transaction,
            output_keys(transaction_id(transaction), transaction.outputs.len()),
            validated(utxos, transaction)->Ok_0,
        ),
{
    let valid = Seq::new(transaction.inputs.len(), |i: int| true);
    assert(!valid.contains(false));
}

/// One more key of a sequence adds that key to the set of the keys before
/// it.
proof fn lemma_take_to_set(keys: Seq<Seq<u8>>, count: int)
    requires
        0 <= count < keys.len(),
    ensures
        keys.take(count + 1).to_set() == keys.take(count).to_set().insert(keys[count]),
{
    let longer = keys.take(count + 1);
    let shorter = keys.take(count);
    assert forall|key: Seq<u8>|
        longer.to_set().contains(key) <==> shorter.to_set().insert(keys[count]).contains(key) by {
        if longer.contains(key) {
            let i = choose|i: int| 0 <= i < longer.len() && longer[i] == key;
            if i < count {
                assert(shorter[i] == key);
            }
        }
        if shorter.contains(key) {
            let i = choose|i: int| 0 <= i < shorter.len() && shorter[i] == key;
            assert(longer[i] == key);
        }
        if key == keys[count] {
            assert(longer[count] == key);
        }
    }
    assert(longer.to_set() =~= shorter.to_set().insert(keys[count]));
}

/// Whether `key` is one of `keys`.
fn holds(keys: &Vec<H256>, key: &H256) -> (found: bool)
    ensures
        found == key_views(keys@).contains(key@),
{
    let mut i: usize = 0;
    while i < keys.len()
        invariant
            i <= keys@.len(),
            forall|k: int| 0 <= k < i ==> (#[trigger] keys@[k])@ != key@,
        decreases keys@.len() - i,
    {
        if same_bytes(&keys[i], key) {
            assert(key_views(keys@)[i as int] == key@);
            return true;
        }
        i += 1;
    }
    assert forall|k: int| 0 <= k < key_views(keys@).len() implies key_views(keys@)[k] != key@ by {
        assert(keys@[k]@ != key@);
    }
    false
}

impl Transaction {
    /// The outputs that the transaction creates, each with its ledger key.
    pub fn created(&self) -> (entries: Vec<Entry>)
        ensures
            entry_views(entries@) == created_by(self@),
    {
        let keys = self.output_keys();
        let ghost id = transaction_id(self@);
        let mut entries: Vec<Entry> = Vec::new();
        let mut j: usize = 0;
        while j < self.outputs.len()
            invariant
                j <= self.outputs@.len(),
                keys@.len() == self.outputs@.len(),
                key_views(keys@) == output_keys(id, self@.outputs.len()),
                entries@.len() == j,
                forall|k: int|
                    0 <= k < j ==> (#[trigger] entries@[k])@ == (
                        output_key(id, k as nat),
                        self.outputs@[k],
                    ),
            decreases self.outputs@.len() - j,
        {
            assert(key_views(keys@)[j as int] == keys@[j as int]@);
            entries.push(Entry { key: keys[j], output: self.outputs[j] });
            j += 1;
        }
        assert(entry_views(entries@) =~= created_by(self@));
        entries
    }
}

impl Ledger {
    /// Removes the outputs under the keys `consumed`, records the outputs of
    /// `created`, each under its key, and adds `reward` to the reward pool.
    /// Where a key of `created` is taken or the pool would overflow the
    /// ledger stays as it is.
    fn apply_entries(&mut self, consumed: &Vec<H256>, created: &Vec<Entry>, reward: Value) -> (outcome:
        Result<(), InternalError>)
        ensures
            match applied(old(self)@, key_views(consumed@), entry_views(created@), reward) {
                Ok(next) => outcome is Ok && final(self)@ == next,
                Err(error) => outcome == Err::<(), InternalError>(error) && final(self)@ == old(
                    self,
                )@,
            },
    {
        let ghost before = self@;
        let ghost leaving = key_views(consumed@);
        let ghost entering = entry_views(created@);
        let ghost named = entry_keys(entering);
        let ghost remaining = before.utxos.remove_keys(leaving.to_set());
        let mut keys: Vec<H256> = Vec::new();
        let mut j: usize = 0;
        while j < created.len()
            invariant
                j <= created@.len(),
                self@ == before,
                before == old(self)@,
                leaving == key_views(consumed@),
                entering == entry_views(created@),
                named == entry_keys(entering),
                remaining == before.utxos.remove_keys(leaving.to_set()),
                keys@.len() == j,
                forall|k: int| 0 <= k < j ==> (#[trigger] keys@[k])@ == named[k],
                forall|k: int| 0 <= k < j ==> !remaining.contains_key(#[trigger] named[k]),
            decreases created@.len() - j,
        {
            assert(named[j as int] == created@[j as int].key@);
            if self.contains_key(&created[j].key) && !holds(consumed, &created[j].key) {
                assert(remaining.contains_key(named[j as int]));
                return Err(InternalError::OutputCollision);
            }
            keys.push(created[j].key);
            j += 1;
        }
        assert(keys_free(remaining, named));
        assert(key_views(keys@) =~= named);
        if contains_duplicate(&keys) {
            return Err(InternalError::OutputCollision);
        }
        let total = match self.reward_total().checked_add(reward) {
            Some(total) => total,
            None => {
                return Err(InternalError::RewardOverflow);
            },
        };
        let mut i: usize = 0;
        while i < consumed.len()
            invariant
                i <= consumed@.len(),
                leaving == key_views(consumed@),
                self@.utxos == before.utxos.remove_keys(leaving.take(i as int).to_set()),
                self@.reward_total == before.reward_total,
            decreases consumed@.len() - i,
        {
            proof {
                lemma_take_to_set(leaving, i as int);
                assert(leaving[i as int] == consumed@[i as int]@);
            }
            self.remove(&consumed[i]);
            assert(self@.utxos =~= before.utxos.remove_keys(leaving.take(i + 1).to_set()));
            i += 1;
        }
        assert(leaving.take(i as int) =~= leaving);
        let mut j: usize = 0;
        assert(entering.take(0) =~= Seq::empty());
        while j < created.len()
            invariant
                j <= created@.len(),
                entering == entry_views(created@),
                named == entry_keys(entering),
                keys_free(remaining, named),
                !has_duplicate(named),
                self@.utxos == recorded(remaining, entering.take(j as int)),
                self@.reward_total == before.reward_total,
            decreases created@.len() - j,
        {
            proof {
                let done = entering.take(j as int);
                let next = entering.take(j + 1);
                lemma_recorded_keys(remaining, done);
                assert(next.drop_last() =~= done);
                assert(next.last() == created@[j as int]@);
                assert(named[j as int] == created@[j as int].key@);
                assert(!remaining.contains_key(named[j as int]));
                if entry_keys(done).contains(named[j as int]) {
                    let k = choose|k: int|
                        0 <= k < entry_keys(done).len() && entry_keys(done)[k] == named[j as int];
                    assert(named[k] == named[j as int]);
                }
            }
            self.insert_new(created[j].key, created[j].output);
            j += 1;
        }
        assert(entering.take(j as int) =~= entering);
        self.set_reward_total(total);
        Ok(())
    }

    /// Applies a transaction that was accepted, with its outputs under `keys`
    /// and `reward` as its fee: removes the outputs that it spends, records
    /// the outputs that it creates and adds the fee to the reward pool. Where
    /// a key is taken by an output that stays, or the pool would overflow,
    /// the ledger stays as it is.
    ///
    /// The transaction has passed validation against this ledger: of that,
    /// all that does not rest on a proof is asked for here.
    pub fn apply(&mut self, transaction: &Transaction, keys: &Vec<H256>, reward: Value) -> (outcome:
        Result<(), InternalError>)
        requires
            accepted_but_for_proofs(old(self)@.utxos, transaction@, key_views(keys@), reward),
        ensures
            match applied(
                old(self)@,
                outpoint_views(transaction@.inputs),
                keyed(key_views(keys@), transaction@.outputs),
                reward,
            ) {
                Ok(next) => outcome is Ok && final(self)@ == next,
                Err(error) => outcome == Err::<(), InternalError>(error) && final(self)@ == old(
                    self,
                )@,
            },
    {
        let consumed = transaction.outpoints();
        let mut created: Vec<Entry> = Vec::new();
        let mut j: usize = 0;
        while j < transaction.outputs.len()
            invariant
                j <= transaction.outputs@.len(),
                keys@.len() == transaction.outputs@.len(),
                created@.len() == j,
                forall|k: int|
                    0 <= k < j ==> (#[trigger] created@[k])@ == (
                        keys@[k]@,
                        transaction.outputs@[k],
                    ),
            decreases transaction.outputs@.len() - j,
        {
            created.push(Entry { key: keys[j], output: transaction.outputs[j] });
            j += 1;
        }
        assert(entry_views(created@) =~= keyed(key_views(keys@), transaction@.outputs));
        self.apply_entries(&consumed, &created, reward)
    }

    /// Applies a transaction that validation accepted with the fee `reward`:
    /// removes the outputs that it spends, records the outputs that it
    /// creates under the keys that its identity gives them, and adds the fee
    /// to the reward pool. All of this happens or nothing.
    pub fn update_stotage(&mut self, transaction: &Transaction, reward: Value) -> (outcome: Result<
        (),
        InternalError,
    >)
        requires
            validated(old(self)@.utxos, transaction@) == Ok::<Value, RejectReason>(reward),
        ensures
            match updated(old(self)@, transaction@, reward) {
                Ok(next) => outcome is Ok && final(self)@ == next,
                Err(error) => outcome == Err::<(), InternalError>(error) && final(self)@ == old(
                    self,
                )@,
            },
    {
        let keys = transaction.output_keys();
        proof {
            lemma_accepted_without_proofs(self@.utxos, transaction@);
            assert(keyed(key_views(keys@), transaction@.outputs) =~= created_by(transaction@));
        }
        self.apply(transaction, &keys, reward)
    }

    /// Validates `transaction` and, where it is accepted, applies it with the
    /// fee that it leaves. Answers the identity of the applied transaction;
    /// where the transaction is refused or cannot be applied the ledger stays
    /// as it is.
    pub fn spend(&mut self, transaction: &Transaction) -> (outcome: Result<H256, SpendError>)
        ensures
            match spent(old(self)@, transaction@) {
                Ok(next) => outcome is Ok && outcome->Ok_0@ == transaction_id(transaction@)
                    && final(self)@ == next,
                Err(error) => outcome == Err::<H256, SpendError>(error) && final(self)@ == old(
                    self,
                )@,
            },
    {
        let fee = match self.validate_transaction(transaction) {
            Ok(fee) => fee,
            Err(reason) => {
                return Err(SpendError::Rejected(reason));
            },
        };
        match self.update_stotage(transaction, fee) {
            Ok(()) => Ok(transaction.hash()),
            Err(error) => Err(SpendError::Internal(error)),
        }
    }
}

} // verus!
