//! Distribution of the reward pool among the authorities.

use vstd::prelude::*;
use crate::hashing::reward_key;
use crate::ledger::{entry_outputs, entry_views, Entry, Ledger, LedgerView};
use crate::transaction::{total_value, TransactionOutput, Value, H256};
use crate::validation::sum_values;

verus! {

/// What each of `count` receivers gets of a pool of `total`: the whole part of
/// the quotient, and nothing where there is nobody to receive.
pub open spec fn reward_share(total: Value, count: nat) -> nat {
    if count == 0 {
        0
    } else {
        (total as nat) / count
    }
}

/// What stays in the pool after each of `count` receivers has got its share:
/// all of it where the share is nothing.
pub open spec fn reward_remainder(total: Value, count: nat) -> nat {
    if reward_share(total, count) == 0 {
        total as nat
    } else {
        (total as nat) % count
    }
}

/// Splits a pool of `total` among `count` receivers into the share of each and
/// the remainder that stays in the pool. Shares and remainder add up to the
/// pool, and the remainder is less than the number of receivers unless the
/// share is nothing.
pub fn split_reward(total: Value, count: usize) -> (split: (Value, Value))
    ensures
        split.0 == reward_share(total, count as nat),
        split.1 == reward_remainder(total, count as nat),
        count * split.0 + split.1 == total,
        split.0 > 0 ==> split.1 < count,
        split.0 == 0 ==> split.1 == total,
{
    if count == 0 {
        return (0, total);
    }
    let receivers: u128 = count as u128;
    let share: u128 = total / receivers;
    if share == 0 {
        assert(receivers * 0 == 0);
        return (0, total);
    }
    assert(receivers * share + total % receivers == total && total % receivers < receivers) by {
        vstd::arithmetic::div_mod::lemma_fundamental_div_mod(total as int, receivers as int);
        vstd::arithmetic::div_mod::lemma_mod_bound(total as int, receivers as int);
    }
    (share, total % receivers)
}

/// The payments of `share` to each of `authorities` in `period`, in their
/// order: an output owned by the authority, under the digest of that output
/// and the period.
pub open spec fn reward_payments(authorities: Seq<H256>, share: Value, period: u64) -> Seq<
    (Seq<u8>, TransactionOutput),
> {
    Seq::new(
        authorities.len(),
        |i: int|
            {
                let output = TransactionOutput { value: share, pubkey: authorities[i] };
                (reward_key(output, period), output)
            },
    )
}

/// The unspent outputs after `payments` were offered in order: an output is
/// recorded under its key unless the key is taken by then.
pub open spec fn paid_out(
    utxos: Map<Seq<u8>, TransactionOutput>,
    payments: Seq<(Seq<u8>, TransactionOutput)>,
) -> Map<Seq<u8>, TransactionOutput>
    decreases payments.len(),
{
    if payments.len() == 0 {
        utxos
    } else {
        let before = paid_out(utxos, payments.drop_last());
        if before.contains_key(payments.last().0) {
            before
        } else {
            before.insert(payments.last().0, payments.last().1)
        }
    }
}

/// For each of `payments`, whether it is made when they are offered in order:
/// whether its key is free when its turn comes.
pub open spec fn payments_made(
    utxos: Map<Seq<u8>, TransactionOutput>,
    payments: Seq<(Seq<u8>, TransactionOutput)>,
) -> Seq<bool> {
    Seq::new(
        payments.len(),
        |i: int| !paid_out(utxos, payments.take(i)).contains_key(payments[i].0),
    )
}

/// Whether the reward pool of `ledger` holds what `payments` are worth.
pub open spec fn affordable(ledger: LedgerView, payments: Seq<(Seq<u8>, TransactionOutput)>) -> bool {
    total_value(entry_outputs(payments)) <= ledger.reward_total
}

/// The ledger after `payments` were offered from its reward pool. Where the
/// pool does not hold what they are worth the ledger stays as it is. Else the
/// pool shrinks by what they are worth, and each is recorded unless its key
/// is taken: what is owed to a payment that is skipped leaves the pool all
/// the same.
pub open spec fn paid_from_pool(
    ledger: LedgerView,
    payments: Seq<(Seq<u8>, TransactionOutput)>,
) -> LedgerView {
    if affordable(ledger, payments) {
        LedgerView {
            utxos: paid_out(ledger.utxos, payments),
            reward_total: (ledger.reward_total - total_value(entry_outputs(payments))) as Value,
        }
    } else {
        ledger
    }
}

/// The ledger after the reward pool was distributed among `authorities` in
/// `period`. Where the share is nothing the ledger stays as it is; else the
/// remainder stays in the pool and each authority is paid its share unless the
/// key of its payment is taken.
pub open spec fn dispersed(ledger: LedgerView, authorities: Seq<H256>, period: u64) -> LedgerView {
    let share = reward_share(ledger.reward_total, authorities.len());
    if share == 0 {
        ledger
    } else {
        LedgerView {
            utxos: paid_out(ledger.utxos, reward_payments(authorities, share as Value, period)),
            reward_total: reward_remainder(ledger.reward_total, authorities.len()) as Value,
        }
    }
}

/// For each of `authorities`, whether the distribution of the reward pool in
/// `period` pays it; nothing where the share is nothing and so nobody is owed
/// a payment.
pub open spec fn rewarded(ledger: LedgerView, authorities: Seq<H256>, period: u64) -> Option<
    Seq<bool>,
> {
    let share = reward_share(ledger.reward_total, authorities.len());
    if share == 0 {
        None
    } else {
        Some(payments_made(ledger.utxos, reward_payments(authorities, share as Value, period)))
    }
}

/// The payments of one share to each authority are worth as many shares as
/// there are authorities.
pub proof fn lemma_reward_cost(authorities: Seq<H256>, share: Value, period: u64)
    ensures
        total_value(entry_outputs(reward_payments(authorities, share, period)))
            == authorities.len() * share,
    decreases authorities.len(),
{
    let outputs = entry_outputs(reward_payments(authorities, share, period));
    let count = authorities.len() as int;
    if count == 0 {
        assert(outputs.len() == 0);
        assert(0 * share == 0);
    } else {
        let fewer = authorities.drop_last();
        lemma_reward_cost(fewer, share, period);
        assert(outputs.drop_last() =~= entry_outputs(reward_payments(fewer, share, period)));
        assert(outputs.last().value == share);
        assert(fewer.len() == count - 1);
        assert(total_value(outputs) == total_value(outputs.drop_last()) + share);
        assert((count - 1) * share + share == count * share) by (nonlinear_arith);
    }
}

/// The payments of `share` to each of `authorities` in `period`.
pub fn make_reward_payments(authorities: &[H256], share: Value, period: u64) -> (payments: Vec<
    Entry,
>)
    ensures
        entry_views(payments@) == reward_payments(authorities@, share, period),
{
    let mut payments: Vec<Entry> = Vec::new();
    let mut i: usize = 0;
    while i < authorities.len()
        invariant
            i <= authorities@.len(),
            payments@.len() == i,
            forall|k: int|
                0 <= k < i ==> (#[trigger] payments@[k])@ == reward_payments(
                    authorities@,
                    share,
                    period,
                )[k],
        decreases authorities@.len() - i,
    {
        let output = TransactionOutput { value: share, pubkey: authorities[i] };
        payments.push(Entry { key: output.reward_key(period), output });
        i += 1;
    }
    assert(entry_views(payments@) =~= reward_payments(authorities@, share, period));
    payments
}

impl Ledger {
    /// Offers `payments` from the reward pool, in order. Where the pool does
    /// not hold what they are worth nothing happens and the answer is
    /// nothing. Else the pool shrinks by what they are worth; a payment whose
    /// key is taken is skipped, and the answer tells for each payment whether
    /// it was made.
    pub fn pay_out(&mut self, payments: &Vec<Entry>) -> (paid: Option<Vec<bool>>)
        ensures
            final(self)@ == paid_from_pool(old(self)@, entry_views(payments@)),
            match paid {
                Some(flags) => affordable(old(self)@, entry_views(payments@)) && flags@
                    == payments_made(old(self)@.utxos, entry_views(payments@)),
                None => !affordable(old(self)@, entry_views(payments@)),
            },
    {
        let ghost before = self@.utxos;
        let ghost offered = entry_views(payments@);
        let mut outputs: Vec<TransactionOutput> = Vec::new();
        let mut k: usize = 0;
        while k < payments.len()
            invariant
                k <= payments@.len(),
                offered == entry_views(payments@),
                outputs@.len() == k,
                forall|j: int| 0 <= j < k ==> outputs@[j] == entry_outputs(offered)[j],
            decreases payments@.len() - k,
        {
            outputs.push(payments[k].output);
            k += 1;
        }
        assert(outputs@ =~= entry_outputs(offered));
        let pool = self.reward_total();
        let cost = match sum_values(&outputs) {
            Some(cost) => cost,
            None => {
                return None;
            },
        };
        if cost > pool {
            return None;
        }
        self.set_reward_total(pool - cost);
        let mut paid: Vec<bool> = Vec::new();
        let mut i: usize = 0;
        assert(offered.take(0) =~= Seq::empty());
        while i < payments.len()
            invariant
                i <= payments@.len(),
                offered == entry_views(payments@),
                self@.utxos == paid_out(before, offered.take(i as int)),
                self@.reward_total == pool - cost,
                paid@.len() == i,
                forall|k: int| 0 <= k < i ==> paid@[k] == payments_made(before, offered)[k],
            decreases payments@.len() - i,
        {
            proof {
                let next = offered.take(i + 1);
                assert(next.drop_last() =~= offered.take(i as int));
                assert(next.last() == payments@[i as int]@);
            }
            if self.contains_key(&payments[i].key) {
                paid.push(false);
            } else {
                self.insert_new(payments[i].key, payments[i].output);
                paid.push(true);
            }
            i += 1;
        }
        assert(offered.take(i as int) =~= offered);
        assert(paid@ =~= payments_made(before, offered));
        Some(paid)
    }

    /// Distributes the reward pool among `authorities` at the end of `period`.
    ///
    /// Each authority is owed the whole part of the pool divided by their
    /// number. Where that is nothing, or there is no authority, the ledger
    /// stays as it is and the answer is nothing. Else the remainder stays in
    /// the pool, and each authority in turn is paid an output of one share
    /// under the digest of that output and the period, unless that key is
    /// taken. The answer then tells for each authority whether it was paid.
    pub fn disperse_reward(&mut self, authorities: &[H256], period: u64) -> (paid: Option<
        Vec<bool>,
    >)
        ensures
            final(self)@ == dispersed(old(self)@, authorities@, period),
            match rewarded(old(self)@, authorities@, period) {
                Some(flags) => paid is Some && paid->Some_0@ == flags,
                None => paid is None,
            },
            authorities@.len() * reward_share(old(self)@.reward_total, authorities@.len())
                + final(self)@.reward_total == old(self)@.reward_total,
    {
        let total = self.reward_total();
        let split = split_reward(total, authorities.len());
        let share: Value = split.0;
        if share == 0 {
            return None;
        }
        let payments = make_reward_payments(authorities, share, period);
        proof {
            lemma_reward_cost(authorities@, share, period);
        }
        self.pay_out(&payments)
    }
}

} // verus!
