//! Validation of a transaction against the ledger.
//!
//! A transaction is accepted when it names at least one input, names no
//! outpoint twice, spends only outputs that the ledger holds, carries a valid
//! signature of each owner, creates no output without value, creates no more
//! value than it spends, and gives each new output a key of its own. The
//! checks are made in this order and the first that fails decides the
//! reason. Validation changes nothing.

use vstd::prelude::*;
use crate::authorization::proof_verdicts;
use crate::hashing::{key_views, output_keys, transaction_id};
use crate::ledger::Ledger;
use crate::transaction::{same_bytes, total_value, Transaction, TransactionInput, TransactionOutput, TransactionView, Value, H256};

verus! {

/// Why a transaction is refused.
#[derive(Clone, Copy, Debug, PartialEq, Eq)]
pub enum RejectReason {
    /// The transaction names no input.
    NoInputs,
    /// Two inputs name the same outpoint.
    DuplicateInput,
    /// An input names an outpoint that the ledger does not hold.
    MissingInput,
    /// A proof is no valid signature of the owner of the spent output; no
    /// proof is where the transaction is too long to be signed.
    BadSignature,
    /// An output has no value.
    ZeroValueOutput,
    /// The values of the inputs or of the outputs do not add up within the
    /// range of a value.
    ArithmeticOverflow,
    /// The outputs are worth more than the inputs.
    ValueNotConserved,
    /// Two outputs would get the same ledger key.
    DuplicateOutput,
}

/// Whether some key occurs twice in `keys`.
pub open spec fn has_duplicate(keys: Seq<Seq<u8>>) -> bool {
    exists|i: int, j: int| 0 <= i < j < keys.len() && keys[i] == keys[j]
}

/// The outpoints that `inputs` name, in their order.
pub open spec fn outpoint_views(inputs: Seq<TransactionInput>) -> Seq<Seq<u8>> {
    Seq::new(inputs.len(), |i: int| inputs[i].outpoint@)
}

/// Whether `utxos` holds every outpoint that `inputs` name.
pub open spec fn all_present(utxos: Map<Seq<u8>, TransactionOutput>, inputs: Seq<TransactionInput>) -> bool {
    forall|i: int| 0 <= i < inputs.len() ==> utxos.contains_key(#[trigger] inputs[i].outpoint@)
}

/// The outputs that `inputs` spend, in the order of the inputs.
pub open spec fn spent_outputs(
    utxos: Map<Seq<u8>, TransactionOutput>,
    inputs: Seq<TransactionInput>,
) -> Seq<TransactionOutput> {
    Seq::new(inputs.len(), |i: int| utxos[inputs[i].outpoint@])
}

/// The first three checks: the outputs that the transaction spends, or the
/// reason why its inputs are refused.
pub open spec fn resolved(
    utxos: Map<Seq<u8>, TransactionOutput>,
    transaction: TransactionView,
) -> Result<Seq<TransactionOutput>, RejectReason> {
    if transaction.inputs.len() == 0 {
        Err(RejectReason::NoInputs)
    } else if has_duplicate(outpoint_views(transaction.inputs)) {
        Err(RejectReason::DuplicateInput)
    } else if !all_present(utxos, transaction.inputs) {
        Err(RejectReason::MissingInput)
    } else {
        Ok(spent_outputs(utxos, transaction.inputs))
    }
}

/// Whether some output in `outputs` has no value.
pub open spec fn has_zero_value(outputs: Seq<TransactionOutput>) -> bool {
    exists|j: int| 0 <= j < outputs.len() && (#[trigger] outputs[j]).value == 0
}

/// The remaining checks, given the outputs that are spent, the verdict on
/// each proof and the ledger key of each new output: the fee that the
/// transaction leaves, or the reason why it is refused.
pub open spec fn settled(
    transaction: TransactionView,
    spent: Seq<TransactionOutput>,
    verdicts: Seq<bool>,
    keys: Seq<Seq<u8>>,
) -> Result<Value, RejectReason> {
    if verdicts.contains(false) {
        Err(RejectReason::BadSignature)
    } else if has_zero_value(transaction.outputs) {
        Err(RejectReason::ZeroValueOutput)
    } else if total_value(spent) > Value::MAX || total_value(transaction.outputs) > Value::MAX {
        Err(RejectReason::ArithmeticOverflow)
    } else if total_value(spent) < total_value(transaction.outputs) {
        Err(RejectReason::ValueNotConserved)
    } else if has_duplicate(keys) {
        Err(RejectReason::DuplicateOutput)
    } else {
        Ok((total_value(spent) - total_value(transaction.outputs)) as Value)
    }
}

/// The verdict on a transaction against the unspent outputs `utxos`: the fee
/// that it leaves, or the reason why it is refused.
pub open spec fn validated(
    utxos: Map<Seq<u8>, TransactionOutput>,
    transaction: TransactionView,
) -> Result<Value, RejectReason> {
    match resolved(utxos, transaction) {
        Err(reason) => Err(reason),
        Ok(spent) => settled(
            transaction,
            spent,
            proof_verdicts(transaction, spent),
            output_keys(transaction_id(transaction), transaction.outputs.len()),
        ),
    }
}

/// The total of a part of a sequence of outputs is at most the total of all
/// of it.
pub proof fn lemma_total_value_grows(outputs: Seq<TransactionOutput>, count: int)
    requires
        0 <= count <= outputs.len(),
    ensures
        total_value(outputs.take(count)) <= total_value(outputs),
    decreases outputs.len() - count,
{
    if count == outputs.len() {
        assert(outputs.take(count) =~= outputs);
    } else {
        lemma_total_value_grows(outputs.drop_last(), count);
        assert(outputs.drop_last().take(count) =~= outputs.take(count));
    }
}

/// Whether some digest occurs twice in `keys`.
pub fn contains_duplicate(keys: &Vec<H256>) -> (found: bool)
    ensures
        found == has_duplicate(key_views(keys@)),
{
    let mut j: usize = 0;
    while j < keys.len()
        invariant
            j <= keys@.len(),
            forall|a: int, b: int| 0 <= a < b < j ==> (#[trigger] keys@[a])@ != (#[trigger] keys@[b])@,
        decreases keys@.len() - j,
    {
        let mut i: usize = 0;
        while i < j
            invariant
                i <= j < keys@.len(),
                forall|a: int| 0 <= a < i ==> (#[trigger] keys@[a])@ != keys@[j as int]@,
            decreases j - i,
        {
            if same_bytes(&keys[i], &keys[j]) {
                assert(key_views(keys@)[i as int] == key_views(keys@)[j as int]);
                return true;
            }
            i += 1;
        }
        j += 1;
    }
    assert forall|a: int, b: int| 0 <= a < b < key_views(keys@).len() implies key_views(keys@)[a]
        != key_views(keys@)[b] by {
        assert(keys@[a]@ != keys@[b]@);
    }
    false
}

/// The total of the values of `outputs`, unless it is beyond the range of a
/// value.
pub fn sum_values(outputs: &Vec<TransactionOutput>) -> (total: Option<Value>)
    ensures
        match total {
            Some(sum) => sum == total_value(outputs@),
            None => total_value(outputs@) > Value::MAX,
        },
{
    let mut sum: Value = 0;
    let mut i: usize = 0;
    while i < outputs.len()
        invariant
            i <= outputs@.len(),
            sum == total_value(outputs@.take(i as int)),
        decreases outputs@.len() - i,
    {
        proof {
            assert(outputs@.take(i + 1).drop_last() =~= outputs@.take(i as int));
            lemma_total_value_grows(outputs@, i + 1);
        }
        match sum.checked_add(outputs[i].value) {
            Some(next) => {
                sum = next;
            },
            None => {
                return None;
            },
        }
        i += 1;
    }
    assert(outputs@.take(i as int) =~= outputs@);
    Some(sum)
}

impl Transaction {
    /// The outpoints that the inputs name, in the order of the inputs.
    pub fn outpoints(&self) -> (keys: Vec<H256>)
        ensures
            key_views(keys@) == outpoint_views(self@.inputs),
    {
        let mut keys: Vec<H256> = Vec::new();
        let mut i: usize = 0;
        while i < self.inputs.len()
            invariant
                i <= self.inputs@.len(),
                keys@.len() == i,
                forall|k: int| 0 <= k < i ==> (#[trigger] keys@[k])@ == self.inputs@[k].outpoint@,
            decreases self.inputs@.len() - i,
        {
            keys.push(self.inputs[i].outpoint);
            i += 1;
        }
        assert(key_views(keys@) =~= outpoint_views(self@.inputs));
        keys
    }

    /// Makes the checks that need the outputs that are spent, the verdict on
    /// each proof and the ledger key of each new output, and nothing else:
    /// that every proof is valid, that no output is without value, that the
    /// values add up and that the outputs are worth no more than the inputs,
    /// and that no two outputs get the same key. Answers the fee.
    pub fn settle(
        &self,
        spent: &Vec<TransactionOutput>,
        verdicts: &Vec<bool>,
        keys: &Vec<H256>,
    ) -> (verdict: Result<Value, RejectReason>)
        ensures
            verdict == settled(self@, spent@, verdicts@, key_views(keys@)),
            verdict matches Ok(fee) ==> total_value(spent@) == total_value(self@.outputs) + fee,
    {
        let mut i: usize = 0;
        while i < verdicts.len()
            invariant
                i <= verdicts@.len(),
                forall|k: int| 0 <= k < i ==> verdicts@[k],
            decreases verdicts@.len() - i,
        {
            if !verdicts[i] {
                assert(verdicts@[i as int] == false);
                return Err(RejectReason::BadSignature);
            }
            i += 1;
        }
        assert(!verdicts@.contains(false));
        let mut j: usize = 0;
        while j < self.outputs.len()
            invariant
                j <= self.outputs@.len(),
                !verdicts@.contains(false),
                forall|k: int| 0 <= k < j ==> (#[trigger] self.outputs@[k]).value != 0,
            decreases self.outputs@.len() - j,
        {
            if self.outputs[j].value == 0 {
                assert(self@.outputs[j as int].value == 0);
                return Err(RejectReason::ZeroValueOutput);
            }
            j += 1;
        }
        let spent_total = match sum_values(spent) {
            Some(total) => total,
            None => {
                return Err(RejectReason::ArithmeticOverflow);
            },
        };
        let created_total = match sum_values(&self.outputs) {
            Some(total) => total,
            None => {
                return Err(RejectReason::ArithmeticOverflow);
            },
        };
        if spent_total < created_total {
            return Err(RejectReason::ValueNotConserved);
        }
        if contains_duplicate(keys) {
            return Err(RejectReason::DuplicateOutput);
        }
        Ok(spent_total - created_total)
    }
}

impl Ledger {
    /// Makes the checks on the inputs that need the ledger and nothing else:
    /// that there is an input, that no outpoint is named twice and that the
    /// ledger holds every outpoint. Answers the outputs that are spent, in
    /// the order of the inputs.
    pub fn resolve_inputs(&self, transaction: &Transaction) -> (outcome: Result<
        Vec<TransactionOutput>,
        RejectReason,
    >)
        ensures
            match resolved(self@.utxos, transaction@) {
                Ok(spent) => outcome is Ok && outcome->Ok_0@ == spent,
                Err(reason) => outcome == Err::<Vec<TransactionOutput>, RejectReason>(reason),
            },
    {
        if transaction.inputs.len() == 0 {
            return Err(RejectReason::NoInputs);
        }
        let outpoints = transaction.outpoints();
        if contains_duplicate(&outpoints) {
            return Err(RejectReason::DuplicateInput);
        }
        let mut spent: Vec<TransactionOutput> = Vec::new();
        let mut i: usize = 0;
        while i < transaction.inputs.len()
            invariant
                i <= transaction.inputs@.len(),
                transaction.inputs@.len() != 0,
                !has_duplicate(outpoint_views(transaction@.inputs)),
                spent@.len() == i,
                forall|k: int|
                    0 <= k < i ==> self@.utxos.contains_key(
                        #[trigger] transaction.inputs@[k].outpoint@,
                    ),
                forall|k: int|
                    0 <= k < i ==> spent@[k] == self@.utxos[transaction.inputs@[k].outpoint@],
            decreases transaction.inputs@.len() - i,
        {
            match self.get(&transaction.inputs[i].outpoint) {
                Some(output) => {
                    spent.push(output);
                },
                None => {
                    assert(!self@.utxos.contains_key(transaction@.inputs[i as int].outpoint@));
                    return Err(RejectReason::MissingInput);
                },
            }
            i += 1;
        }
        assert(spent@ =~= spent_outputs(self@.utxos, transaction@.inputs));
        Ok(spent)
    }

    /// Validates `transaction` against the ledger and answers the fee that it
    /// leaves, or the reason why it is refused. An accepted transaction
    /// spends exactly what it creates and leaves as fee.
    pub fn validate_transaction(&self, transaction: &Transaction) -> (verdict: Result<
        Value,
        RejectReason,
    >)
        ensures
            verdict == validated(self@.utxos, transaction@),
            verdict matches Ok(fee) ==> total_value(
                spent_outputs(self@.utxos, transaction@.inputs),
            ) == total_value(transaction@.outputs) + fee,
    {
        let spent = match self.resolve_inputs(transaction) {
            Ok(spent) => spent,
            Err(reason) => {
                return Err(reason);
            },
        };
        let verdicts = transaction.verify_proofs(&spent);
        let keys = transaction.output_keys();
        transaction.settle(&spent, &verdicts, &keys)
    }

    /// Whether `transaction` is accepted against the ledger.
    pub fn is_valid_transaction(&self, transaction: &Transaction) -> (valid: bool)
        ensures
            valid == validated(self@.utxos, transaction@) is Ok,
    {
        self.validate_transaction(transaction).is_ok()
    }
}

} // verus!
