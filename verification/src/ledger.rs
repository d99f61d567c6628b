//! The ledger: the unspent outputs by key, and the pool of collected fees.

use vstd::prelude::*;
use crate::transaction::{same_bytes, TransactionOutput, Value, H256};

verus! {

/// One output and the key that names it.
#[derive(Clone, Copy, Debug, PartialEq, Eq)]
pub struct Entry {
    pub key: H256,
    pub output: TransactionOutput,
}

impl View for Entry {
    type V = (Seq<u8>, TransactionOutput);

    open spec fn view(&self) -> (Seq<u8>, TransactionOutput) {
        (self.key@, self.output)
    }
}

/// The views of `entries`, in their order.
pub open spec fn entry_views(entries: Seq<Entry>) -> Seq<(Seq<u8>, TransactionOutput)> {
    Seq::new(entries.len(), |i: int| entries[i]@)
}

/// The keys of `entries`, in their order.
pub open spec fn entry_keys(entries: Seq<(Seq<u8>, TransactionOutput)>) -> Seq<Seq<u8>> {
    Seq::new(entries.len(), |i: int| entries[i].0)
}

/// The outputs of `entries`, in their order.
pub open spec fn entry_outputs(entries: Seq<(Seq<u8>, TransactionOutput)>) -> Seq<
    TransactionOutput,
> {
    Seq::new(entries.len(), |i: int| entries[i].1)
}

/// The unspent outputs and the reward pool.
///
/// No key is held twice; every function keeps it so.
#[derive(Debug)]
pub struct Ledger {
    entries: Vec<Entry>,
    reward_total: Value,
}

/// What a ledger holds: the unspent outputs by the bytes of their key, and the
/// reward pool.
pub struct LedgerView {
    pub utxos: Map<Seq<u8>, TransactionOutput>,
    pub reward_total: Value,
}

/// The unspent outputs after `entries` were recorded in order, each output
/// under its key, whatever the key held before.
pub open spec fn recorded(
    utxos: Map<Seq<u8>, TransactionOutput>,
    entries: Seq<(Seq<u8>, TransactionOutput)>,
) -> Map<Seq<u8>, TransactionOutput>
    decreases entries.len(),
{
    if entries.len() == 0 {
        utxos
    } else {
        recorded(utxos, entries.drop_last()).insert(entries.last().0, entries.last().1)
    }
}

/// After entries were recorded, the ledger holds the keys that it held before
/// and the keys of the entries.
pub proof fn lemma_recorded_keys(
    utxos: Map<Seq<u8>, TransactionOutput>,
    entries: Seq<(Seq<u8>, TransactionOutput)>,
)
    ensures
        forall|key: Seq<u8>|
            recorded(utxos, entries).contains_key(key) <==> (utxos.contains_key(key) || entry_keys(
                entries,
            ).contains(key)),
    decreases entries.len(),
{
    if entries.len() > 0 {
        let fewer = entries.drop_last();
        lemma_recorded_keys(utxos, fewer);
        assert forall|key: Seq<u8>|
            recorded(utxos, entries).contains_key(key) <==> (utxos.contains_key(key) || entry_keys(
                entries,
            ).contains(key)) by {
            let shorter = entry_keys(fewer);
            let longer = entry_keys(entries);
            assert(recorded(utxos, fewer).contains_key(key) <==> (utxos.contains_key(key)
                || shorter.contains(key)));
            if shorter.contains(key) {
                let i = choose|i: int| 0 <= i < shorter.len() && shorter[i] == key;
                assert(longer[i] == key);
            }
            if key == entries.last().0 {
                assert(longer[entries.len() - 1] == key);
            }
            if longer.contains(key) {
                let i = choose|i: int| 0 <= i < longer.len() && longer[i] == key;
                if i < fewer.len() {
                    assert(shorter[i] == key);
                } else {
                    assert(key == entries.last().0);
                }
            }
        }
    }
}

/// Recording leaves alone what is held under other keys, and holds under the
/// key of an entry its output, unless a later entry has the same key.
pub proof fn lemma_recorded_values(
    utxos: Map<Seq<u8>, TransactionOutput>,
    entries: Seq<(Seq<u8>, TransactionOutput)>,
)
    ensures
        forall|key: Seq<u8>|
            utxos.contains_key(key) && !entry_keys(entries).contains(key) ==> recorded(
                utxos,
                entries,
            )[key] == utxos[key],
        forall|j: int|
            0 <= j < entries.len() && (forall|k: int|
                j < k < entries.len() ==> entries[k].0 != entries[j].0) ==> recorded(
                utxos,
                entries,
            )[#[trigger] entries[j].0] == entries[j].1,
    decreases entries.len(),
{
    if entries.len() > 0 {
        let fewer = entries.drop_last();
        let last = entries.len() - 1;
        lemma_recorded_values(utxos, fewer);
        assert forall|key: Seq<u8>|
            utxos.contains_key(key) && !entry_keys(entries).contains(key) implies recorded(
            utxos,
            entries,
        )[key] == utxos[key] by {
            assert(entry_keys(entries)[last] == entries.last().0);
            if entry_keys(fewer).contains(key) {
                let i = choose|i: int| 0 <= i < fewer.len() && entry_keys(fewer)[i] == key;
                assert(entry_keys(entries)[i] == key);
            }
        }
        assert forall|j: int|
            0 <= j < entries.len() && (forall|k: int|
                j < k < entries.len() ==> entries[k].0 != entries[j].0) implies recorded(
            utxos,
            entries,
        )[#[trigger] entries[j].0] == entries[j].1 by {
            if j < last {
                assert(entries[last].0 != entries[j].0);
                assert(fewer[j] == entries[j]);
                assert forall|k: int| j < k < fewer.len() implies fewer[k].0 != fewer[j].0 by {
                    assert(fewer[k] == entries[k]);
                }
            }
        }
    }
}

/// Whether no two of `entries` have one key.
spec fn distinct_keys(entries: Seq<Entry>) -> bool {
    forall|i: int, j: int|
        0 <= i < j < entries.len() ==> (#[trigger] entries[i]).key@ != (#[trigger] entries[j]).key@
}

/// Whether one of `entries` has the key `key`.
spec fn holds_key(entries: Seq<Entry>, key: Seq<u8>) -> bool {
    exists|i: int| 0 <= i < entries.len() && (#[trigger] entries[i]).key@ == key
}

/// The place of an entry with the key `key` among `entries`.
spec fn place_of(entries: Seq<Entry>, key: Seq<u8>) -> int {
    choose|i: int| 0 <= i < entries.len() && (#[trigger] entries[i]).key@ == key
}

/// The outputs of `entries` by the bytes of their keys.
spec fn entries_map(entries: Seq<Entry>) -> Map<Seq<u8>, TransactionOutput> {
    Map::new(
        |key: Seq<u8>| holds_key(entries, key),
        |key: Seq<u8>| entries[place_of(entries, key)].output,
    )
}

/// Among entries with distinct keys, a key is found at the place of its
/// entry and leads to the output of that entry.
proof fn lemma_entry_at(entries: Seq<Entry>, i: int)
    requires
        distinct_keys(entries),
        0 <= i < entries.len(),
    ensures
        holds_key(entries, entries[i].key@),
        place_of(entries, entries[i].key@) == i,
        entries_map(entries)[entries[i].key@] == entries[i].output,
{
    let j = place_of(entries, entries[i].key@);
    assert(0 <= j < entries.len() && entries[j].key@ == entries[i].key@);
    if j < i {
        assert(entries[j].key@ != entries[i].key@);
    } else if i < j {
        assert(entries[i].key@ != entries[j].key@);
    }
}

/// An entry with a fresh key, put at the end, adds its key and output to the
/// map and keeps the keys distinct.
proof fn lemma_push_entry(entries: Seq<Entry>, entry: Entry)
    requires
        distinct_keys(entries),
        !holds_key(entries, entry.key@),
    ensures
        distinct_keys(entries.push(entry)),
        entries_map(entries.push(entry)) == entries_map(entries).insert(entry.key@, entry.output),
{
    let grown = entries.push(entry);
    assert forall|i: int, j: int| 0 <= i < j < grown.len() implies (#[trigger] grown[i]).key@ != (
    #[trigger] grown[j]).key@ by {
        if j < entries.len() {
            assert(entries[i].key@ != entries[j].key@);
        } else {
            assert(entries[i].key@ != entry.key@);
        }
    }
    assert forall|key: Seq<u8>| holds_key(grown, key) <==> (holds_key(entries, key) || key
        == entry.key@) by {
        if holds_key(grown, key) {
            let i = place_of(grown, key);
            if i < entries.len() {
                assert(entries[i].key@ == key);
            }
        }
        if holds_key(entries, key) {
            let i = place_of(entries, key);
            assert(grown[i].key@ == key);
        }
        if key == entry.key@ {
            assert(grown[entries.len() as int].key@ == key);
        }
    }
    assert forall|key: Seq<u8>| holds_key(grown, key) implies entries_map(grown)[key]
        == entries_map(entries).insert(entry.key@, entry.output)[key] by {
        if key == entry.key@ {
            lemma_entry_at(grown, entries.len() as int);
        } else {
            let i = place_of(entries, key);
            lemma_entry_at(entries, i);
            assert(grown[i] == entries[i]);
            lemma_entry_at(grown, i);
        }
    }
    assert(entries_map(grown) =~= entries_map(entries).insert(entry.key@, entry.output));
}

/// Putting the last entry in the place of another removes the key of that
/// other from the map and keeps the keys distinct.
proof fn lemma_swap_remove_entry(entries: Seq<Entry>, at: int)
    requires
        distinct_keys(entries),
        0 <= at < entries.len(),
    ensures
        distinct_keys(entries.update(at, entries.last()).drop_last()),
        entries_map(entries.update(at, entries.last()).drop_last()) == entries_map(entries).remove(
            entries[at].key@,
        ),
{
    let shrunk = entries.update(at, entries.last()).drop_last();
    let last = entries.len() - 1;
    // Where the entry at place `i` of `shrunk` stood in `entries`.
    let origin = |i: int| if i == at { last } else { i };
    assert forall|i: int| 0 <= i < shrunk.len() implies #[trigger] shrunk[i] == entries[origin(i)] by {}
    assert forall|i: int, j: int| 0 <= i < j < shrunk.len() implies (#[trigger] shrunk[i]).key@ != (
    #[trigger] shrunk[j]).key@ by {
        let a = origin(i);
        let b = origin(j);
        assert(shrunk[i] == entries[a] && shrunk[j] == entries[b]);
        if a < b {
            assert(entries[a].key@ != entries[b].key@);
        } else {
            assert(entries[b].key@ != entries[a].key@);
        }
    }
    let removed = entries[at].key@;
    assert forall|key: Seq<u8>| holds_key(shrunk, key) <==> (holds_key(entries, key) && key
        != removed) by {
        if holds_key(shrunk, key) {
            let i = place_of(shrunk, key);
            let a = origin(i);
            assert(shrunk[i] == entries[a]);
            assert(entries[a].key@ == key);
            if a < at {
                assert(entries[a].key@ != entries[at].key@);
            } else {
                assert(entries[at].key@ != entries[a].key@);
            }
        }
        if holds_key(entries, key) && key != removed {
            let a = place_of(entries, key);
            let i = if a == last { at } else { a };
            assert(shrunk[i] == entries[origin(i)]);
            assert(shrunk[i].key@ == key);
        }
    }
    assert forall|key: Seq<u8>| holds_key(shrunk, key) implies entries_map(shrunk)[key]
        == entries_map(entries).remove(removed)[key] by {
        let i = place_of(shrunk, key);
        lemma_entry_at(shrunk, i);
        assert(shrunk[i] == entries[origin(i)]);
        lemma_entry_at(entries, origin(i));
    }
    assert(entries_map(shrunk) =~= entries_map(entries).remove(removed));
}

impl View for Ledger {
    type V = LedgerView;

    /// The unspent outputs by the bytes of their keys, and the reward pool.
    closed spec fn view(&self) -> LedgerView {
        LedgerView { utxos: entries_map(self.entries@), reward_total: self.reward_total }
    }
}

impl Ledger {
    /// No key is held twice.
    #[verifier::type_invariant]
    spec fn well_formed(self) -> bool {
        distinct_keys(self.entries@)
    }

    /// A ledger without outputs and with an empty reward pool.
    pub fn new() -> (ledger: Ledger)
        ensures
            ledger@.utxos == Map::<Seq<u8>, TransactionOutput>::empty(),
            ledger@.reward_total == 0,
    {
        let ledger = Ledger { entries: Vec::new(), reward_total: 0 };
        assert(ledger@.utxos =~= Map::<Seq<u8>, TransactionOutput>::empty());
        ledger
    }

    /// The place of the entry with the key `key`, if the ledger holds one.
    fn find(&self, key: &H256) -> (place: Option<usize>)
        ensures
            match place {
                Some(i) => i < self.entries@.len() && self.entries@[i as int].key@ == key@,
                None => !holds_key(self.entries@, key@),
            },
    {
        let mut i: usize = 0;
        while i < self.entries.len()
            invariant
                i <= self.entries@.len(),
                forall|k: int| 0 <= k < i ==> (#[trigger] self.entries@[k]).key@ != key@,
            decreases self.entries@.len() - i,
        {
            if same_bytes(&self.entries[i].key, key) {
                return Some(i);
            }
            i += 1;
        }
        None
    }

    /// The unspent output named by `key`, if there is one.
    pub fn get(&self, key: &H256) -> (output: Option<TransactionOutput>)
        ensures
            output == self@.utxos.index_opt(key@),
    {
        proof {
            use_type_invariant(self);
        }
        match self.find(key) {
            Some(i) => {
                proof {
                    lemma_entry_at(self.entries@, i as int);
                }
                Some(self.entries[i].output)
            },
            None => None,
        }
    }

    /// Whether `key` names an unspent output.
    pub fn contains_key(&self, key: &H256) -> (present: bool)
        ensures
            present == self@.utxos.contains_key(key@),
    {
        self.find(key).is_some()
    }

    /// The value that waits in the reward pool.
    pub fn reward_total(&self) -> (total: Value)
        ensures
            total == self@.reward_total,
    {
        self.reward_total
    }

    /// Sets the reward pool to `total`.
    pub(crate) fn set_reward_total(&mut self, total: Value)
        ensures
            final(self)@.utxos == old(self)@.utxos,
            final(self)@.reward_total == total,
    {
        proof {
            use_type_invariant(&*self);
        }
        self.reward_total = total;
    }

    /// Records `output` under `key`, which must be free.
    pub(crate) fn insert_new(&mut self, key: H256, output: TransactionOutput)
        requires
            !old(self)@.utxos.contains_key(key@),
        ensures
            final(self)@.utxos == old(self)@.utxos.insert(key@, output),
            final(self)@.reward_total == old(self)@.reward_total,
    {
        proof {
            use_type_invariant(&*self);
            lemma_push_entry(self.entries@, Entry { key, output });
        }
        let mut entries: Vec<Entry> = Vec::new();
        core::mem::swap(&mut self.entries, &mut entries);
        entries.push(Entry { key, output });
        self.entries = entries;
    }

    /// Records `output` under `key`, in place of what the key held.
    pub(crate) fn put(&mut self, key: H256, output: TransactionOutput)
        ensures
            final(self)@.utxos == old(self)@.utxos.insert(key@, output),
            final(self)@.reward_total == old(self)@.reward_total,
    {
        self.remove(&key);
        self.insert_new(key, output);
        assert(self@.utxos =~= old(self)@.utxos.insert(key@, output));
    }

    /// Removes the output named by `key`, if there is one.
    pub(crate) fn remove(&mut self, key: &H256)
        ensures
            final(self)@.utxos == old(self)@.utxos.remove(key@),
            final(self)@.reward_total == old(self)@.reward_total,
    {
        proof {
            use_type_invariant(&*self);
        }
        match self.find(key) {
            Some(i) => {
                proof {
                    lemma_swap_remove_entry(self.entries@, i as int);
                }
                let mut entries: Vec<Entry> = Vec::new();
                core::mem::swap(&mut self.entries, &mut entries);
                entries.swap_remove(i);
                self.entries = entries;
            },
            None => {
                assert(self@.utxos.remove(key@) =~= self@.utxos);
            },
        }
    }
}

} // verus!
