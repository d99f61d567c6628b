//! The ledger at genesis: outputs seeded from a configured list.

use vstd::prelude::*;
use crate::hashing::genesis_key;
use crate::ledger::{entry_views, recorded, Entry, Ledger, LedgerView};
use crate::transaction::{TransactionOutput, Value};

verus! {

/// Each of `outputs` with the key under which it is seeded, in their order.
pub open spec fn genesis_entries(outputs: Seq<TransactionOutput>) -> Seq<(Seq<u8>, TransactionOutput)> {
    Seq::new(outputs.len(), |i: int| (genesis_key(outputs[i]), outputs[i]))
}

/// The ledger that holds the outputs of `entries`, each under its key, and
/// `reward_total` in the reward pool. Of two outputs with one key the later
/// stays.
pub open spec fn seeded(entries: Seq<(Seq<u8>, TransactionOutput)>, reward_total: Value) -> LedgerView {
    LedgerView { utxos: recorded(Map::empty(), entries), reward_total }
}

impl Ledger {
    /// A ledger that holds the outputs of `entries`, each under its key, and
    /// `reward_total` in the reward pool.
    pub fn seed(entries: &[Entry], reward_total: Value) -> (ledger: Ledger)
        ensures
            ledger@ == seeded(entry_views(entries@), reward_total),
    {
        let ghost views = entry_views(entries@);
        let mut ledger = Ledger::new();
        ledger.set_reward_total(reward_total);
        let mut i: usize = 0;
        assert(views.take(0) =~= Seq::empty());
        while i < entries.len()
            invariant
                i <= entries@.len(),
                views == entry_views(entries@),
                ledger@.utxos == recorded(Map::empty(), views.take(i as int)),
                ledger@.reward_total == reward_total,
            decreases entries@.len() - i,
        {
            proof {
                let next = views.take(i + 1);
                assert(next.drop_last() =~= views.take(i as int));
                assert(next.last() == entries@[i as int]@);
            }
            ledger.put(entries[i].key, entries[i].output);
            i += 1;
        }
        assert(views.take(i as int) =~= views);
        ledger
    }

    /// The ledger at genesis: it holds each of `outputs` under the digest of
    /// the output, and an empty reward pool.
    pub fn genesis(outputs: &[TransactionOutput]) -> (ledger: Ledger)
        ensures
            ledger@ == seeded(genesis_entries(outputs@), 0),
    {
        let mut entries: Vec<Entry> = Vec::new();
        let mut i: usize = 0;
        while i < outputs.len()
            invariant
                i <= outputs@.len(),
                entries@.len() == i,
                forall|k: int|
                    0 <= k < i ==> (#[trigger] entries@[k])@ == (
                        genesis_key(outputs@[k]),
                        outputs@[k],
                    ),
            decreases outputs@.len() - i,
        {
            entries.push(Entry { key: outputs[i].genesis_key(), output: outputs[i] });
            i += 1;
        }
        assert(entry_views(entries@) =~= genesis_entries(outputs@));
        Ledger::seed(entries.as_slice(), 0)
    }
}

} // verus!
