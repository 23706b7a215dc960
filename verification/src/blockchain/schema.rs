//! The cells of replicated state that the service owns, and typed access to them.

use crate::crypto;
use crate::crypto::{zero_bytes, PublicKey};
use crate::rng::texts;
use vstd::prelude::*;
use vstd::seq_lib::{seq_to_set_is_finite, to_multiset_build, to_multiset_contains, to_multiset_remove};

verus! {

/// For simplicity, big integers are stored as strings.
pub type BigInt = String;

/// Name under which the commitments of the current round are stored.
pub const COMMITMENTS_INDEX: &'static str = "exonum_rng.validators_commitments";

/// Name under which the VDF results of the current round are stored.
pub const VDF_RESULTS_INDEX: &'static str = "exonum_rng.vdf_results";

/// Name under which the seed of the current round is stored.
pub const SEED_ENTRY: &'static str = "exonum_rng.seed";

/// Name under which the last agreed random value is stored.
pub const RANDOMNESS_ENTRY: &'static str = "exonum_rng.randomness";

/// The values of a finite map, each as often as there are keys that hold it. Their order
/// is fixed, but nothing is said of it.
pub open spec fn held_values(map: Map<Seq<u8>, Seq<char>>) -> Seq<Seq<char>>
    decreases map.dom().len(),
    when map.dom().finite()
{
    if map.dom().len() == 0 {
        Seq::empty()
    } else {
        let key = map.dom().choose();
        held_values(map.remove(key)).push(map[key])
    }
}

/// What a cell contributes to the state hash: the hash that it holds, or 32 zero bytes
/// where it holds none.
pub open spec fn entry_hash(cell: Option<Seq<u8>>) -> Seq<u8> {
    match cell {
        Some(bytes) => bytes,
        None => zero_bytes(),
    }
}

/// The map that parallel sequences of keys and values stand for.
spec fn entries_map(keys: Seq<Seq<u8>>, values: Seq<Seq<char>>) -> Map<Seq<u8>, Seq<char>> {
    Map::new(|key: Seq<u8>| keys.contains(key), |key: Seq<u8>| values[keys.index_of(key)])
}

/// The map of keys without repetition has the keys for its domain, and holds for each key
/// the value at the key's place.
proof fn lemma_entries_lookup(keys: Seq<Seq<u8>>, values: Seq<Seq<char>>)
    requires
        keys.no_duplicates(),
        keys.len() == values.len(),
    ensures
        entries_map(keys, values).dom() == keys.to_set(),
        entries_map(keys, values).dom().finite(),
        entries_map(keys, values).dom().len() == keys.len(),
        forall|i: int|
            0 <= i < keys.len() ==> entries_map(keys, values)[#[trigger] keys[i]] == values[i],
{
    assert(entries_map(keys, values).dom() =~= keys.to_set());
    seq_to_set_is_finite(keys);
    keys.unique_seq_to_set();
    assert forall|i: int| 0 <= i < keys.len() implies entries_map(keys, values)[#[trigger] keys[i]]
        == values[i] by {
        assert(keys.contains(keys[i]));
        assert(keys.index_of(keys[i]) == i);
    }
}

/// A new key with its value at the end is an insertion into the map.
proof fn lemma_entries_push(keys: Seq<Seq<u8>>, values: Seq<Seq<char>>, key: Seq<u8>, value: Seq<char>)
    requires
        keys.no_duplicates(),
        keys.len() == values.len(),
        !keys.contains(key),
    ensures
        keys.push(key).no_duplicates(),
        entries_map(keys.push(key), values.push(value)) == entries_map(keys, values).insert(
            key,
            value,
        ),
{
    let grown = keys.push(key);
    assert forall|i: int, j: int| 0 <= i < grown.len() && 0 <= j < grown.len() && i != j implies grown[i]
        != grown[j] by {
        if i < keys.len() {
            assert(keys.contains(keys[i]));
        }
        if j < keys.len() {
            assert(keys.contains(keys[j]));
        }
    }
    lemma_entries_lookup(keys, values);
    lemma_entries_lookup(grown, values.push(value));
    let before = entries_map(keys, values).insert(key, value);
    let after = entries_map(grown, values.push(value));
    assert(grown[keys.len() as int] == key);
    assert forall|k: Seq<u8>| before.dom().contains(k) <==> after.dom().contains(k) by {
        if keys.contains(k) {
            let i = keys.index_of(k);
            assert(grown[i] == k);
        }
        if grown.contains(k) {
            let i = grown.index_of(k);
            if i < keys.len() {
                assert(keys[i] == k);
            }
        }
    }
    assert forall|k: Seq<u8>| before.dom().contains(k) implies before[k] == after[k] by {
        let i = grown.index_of(k);
        assert(grown.contains(k));
        assert(after[grown[i]] == values.push(value)[i]);
        if i < keys.len() {
            assert(keys[i] == k);
            assert(before[keys[i]] == values[i]);
        }
    }
    assert(before =~= after);
}

/// Another value at the place of a key is an insertion into the map under that key.
proof fn lemma_entries_update(keys: Seq<Seq<u8>>, values: Seq<Seq<char>>, at: int, value: Seq<char>)
    requires
        keys.no_duplicates(),
        keys.len() == values.len(),
        0 <= at < keys.len(),
    ensures
        entries_map(keys, values.update(at, value)) == entries_map(keys, values).insert(
            keys[at],
            value,
        ),
{
    lemma_entries_lookup(keys, values);
    lemma_entries_lookup(keys, values.update(at, value));
    let before = entries_map(keys, values).insert(keys[at], value);
    let after = entries_map(keys, values.update(at, value));
    assert(keys.contains(keys[at]));
    assert forall|k: Seq<u8>| before.dom().contains(k) implies before[k] == after[k] by {
        let i = keys.index_of(k);
        assert(keys.contains(k));
        assert(after[keys[i]] == values.update(at, value)[i]);
        assert(entries_map(keys, values)[keys[i]] == values[i]);
    }
    assert(before =~= after);
}

/// Taking out a key with its value is a removal from the map.
proof fn lemma_entries_remove(keys: Seq<Seq<u8>>, values: Seq<Seq<char>>, at: int)
    requires
        keys.no_duplicates(),
        keys.len() == values.len(),
        0 <= at < keys.len(),
    ensures
        keys.remove(at).no_duplicates(),
        entries_map(keys.remove(at), values.remove(at)) == entries_map(keys, values).remove(
            keys[at],
        ),
{
    let fewer = keys.remove(at);
    assert forall|i: int, j: int| 0 <= i < fewer.len() && 0 <= j < fewer.len() && i != j implies fewer[i]
        != fewer[j] by {
        let a = if i < at { i } else { i + 1 };
        let b = if j < at { j } else { j + 1 };
        assert(fewer[i] == keys[a] && fewer[j] == keys[b]);
    }
    lemma_entries_lookup(keys, values);
    lemma_entries_lookup(fewer, values.remove(at));
    let before = entries_map(keys, values).remove(keys[at]);
    let after = entries_map(fewer, values.remove(at));
    assert forall|k: Seq<u8>| before.dom().contains(k) <==> after.dom().contains(k) by {
        if keys.contains(k) && k != keys[at] {
            let i = keys.index_of(k);
            let a = if i < at { i } else { i - 1 };
            assert(fewer[a] == k);
        }
        if fewer.contains(k) {
            let i = fewer.index_of(k);
            let a = if i < at { i } else { i + 1 };
            assert(keys[a] == k);
        }
    }
    assert forall|k: Seq<u8>| before.dom().contains(k) implies before[k] == after[k] by {
        let i = fewer.index_of(k);
        assert(fewer.contains(k));
        let a = if i < at { i } else { i + 1 };
        assert(keys[a] == k);
        assert(after[fewer[i]] == values.remove(at)[i]);
        assert(entries_map(keys, values)[keys[a]] == values[a]);
    }
    assert(before =~= after);
}

/// The values at the places of the keys are the values that the map holds, each as often.
proof fn lemma_entries_values(keys: Seq<Seq<u8>>, values: Seq<Seq<char>>)
    requires
        keys.no_duplicates(),
        keys.len() == values.len(),
    ensures
        values.to_multiset() == held_values(entries_map(keys, values)).to_multiset(),
    decreases keys.len(),
{
    broadcast use vstd::multiset::group_multiset_axioms;

    let map = entries_map(keys, values);
    lemma_entries_lookup(keys, values);
    if keys.len() == 0 {
        assert(values =~= Seq::<Seq<char>>::empty());
    } else {
        assert(keys.to_set().contains(keys[0]));
        let key = map.dom().choose();
        assert(keys.contains(key));
        let at = keys.index_of(key);
        lemma_entries_remove(keys, values, at);
        lemma_entries_values(keys.remove(at), values.remove(at));
        let rest = held_values(map.remove(key));
        assert(held_values(map) == rest.push(map[key]));
        assert(map[keys[at]] == values[at]);
        to_multiset_build(rest, map[key]);
        to_multiset_remove(values, at);
        to_multiset_contains(values, values[at]);
        assert(values.contains(values[at]));
        assert(values.to_multiset() =~= values.remove(at).to_multiset().insert(values[at]));
    }
}

/// One validator's value.
#[derive(Debug, Clone)]
struct Slot {
    key: PublicKey,
    value: BigInt,
}

/// The keys of the slots, in their order.
spec fn slot_keys(slots: Seq<Slot>) -> Seq<Seq<u8>> {
    slots.map_values(|slot: Slot| slot.key@)
}

/// The values of the slots, in their order.
spec fn slot_values(slots: Seq<Slot>) -> Seq<Seq<char>> {
    slots.map_values(|slot: Slot| slot.value@)
}

/// A map from validator keys to strings: at most one value per key, and a later value for a
/// key takes the place of the earlier one.
#[derive(Debug)]
pub struct ValidatorIndex {
    slots: Vec<Slot>,
}

impl View for ValidatorIndex {
    type V = Map<Seq<u8>, Seq<char>>;

    closed spec fn view(&self) -> Map<Seq<u8>, Seq<char>> {
        entries_map(slot_keys(self.slots@), slot_values(self.slots@))
    }
}

impl ValidatorIndex {
    /// No key stands in two slots.
    #[verifier::type_invariant]
    spec fn one_value_per_key(self) -> bool {
        slot_keys(self.slots@).no_duplicates()
    }

    /// An index without entries.
    pub fn new() -> (index: ValidatorIndex)
        ensures
            index@ == Map::<Seq<u8>, Seq<char>>::empty(),
    {
        let index = ValidatorIndex { slots: Vec::new() };
        assert(index@ =~= Map::<Seq<u8>, Seq<char>>::empty());
        index
    }

    /// Where `key` stands among the slots, if it does.
    fn position(&self, key: &PublicKey) -> (at: Option<usize>)
        ensures
            match at {
                Some(i) => i < self.slots@.len() && slot_keys(self.slots@)[i as int] == key@,
                None => !slot_keys(self.slots@).contains(key@),
            },
    {
        let mut i: usize = 0;
        while i < self.slots.len()
            invariant
                i <= self.slots@.len(),
                forall|j: int| 0 <= j < i ==> slot_keys(self.slots@)[j] != key@,
            decreases self.slots@.len() - i,
        {
            if self.slots[i].key == *key {
                return Some(i);
            }
            i += 1;
        }
        None
    }

    /// Number of keys that hold a value.
    pub fn len(&self) -> (count: usize)
        ensures
            self@.dom().finite(),
            count == self@.dom().len(),
    {
        proof {
            use_type_invariant(self);
            lemma_entries_lookup(slot_keys(self.slots@), slot_values(self.slots@));
        }
        self.slots.len()
    }

    /// Whether no key holds a value.
    pub fn is_empty(&self) -> (empty: bool)
        ensures
            empty == (self@ == Map::<Seq<u8>, Seq<char>>::empty()),
    {
        proof {
            use_type_invariant(self);
            lemma_entries_lookup(slot_keys(self.slots@), slot_values(self.slots@));
            if self.slots@.len() == 0 {
                assert(self@ =~= Map::<Seq<u8>, Seq<char>>::empty());
            } else {
                assert(self@.dom().contains(slot_keys(self.slots@)[0]));
            }
        }
        self.slots.len() == 0
    }

    /// Whether `key` holds a value.
    pub fn contains(&self, key: &PublicKey) -> (held: bool)
        ensures
            held == self@.dom().contains(key@),
    {
        self.position(key).is_some()
    }

    /// The value that `key` holds, if any.
    pub fn get(&self, key: &PublicKey) -> (value: Option<BigInt>)
        ensures
            value is Some <==> self@.dom().contains(key@),
            value matches Some(text) ==> text@ == self@[key@],
    {
        proof {
            use_type_invariant(self);
            lemma_entries_lookup(slot_keys(self.slots@), slot_values(self.slots@));
        }
        match self.position(key) {
            Some(i) => {
                assert(slot_keys(self.slots@)[i as int] == key@);
                Some(self.slots[i].value.clone())
            },
            None => None,
        }
    }

    /// Gives `key` the value `value`, in place of the one it held, if any.
    pub fn put(&mut self, key: &PublicKey, value: BigInt)
        ensures
            final(self)@ == old(self)@.insert(key@, value@),
    {
        proof {
            use_type_invariant(&*self);
        }
        let at = self.position(key);
        let mut slots: Vec<Slot> = Vec::new();
        core::mem::swap(&mut self.slots, &mut slots);
        let ghost keys = slot_keys(slots@);
        let ghost values = slot_values(slots@);
        match at {
            Some(i) => {
                slots.set(i, Slot { key: *key, value });
                proof {
                    assert(slot_keys(slots@) =~= keys);
                    assert(slot_values(slots@) =~= values.update(i as int, value@));
                    lemma_entries_update(keys, values, i as int, value@);
                }
            },
            None => {
                slots.push(Slot { key: *key, value });
                proof {
                    assert(slot_keys(slots@) =~= keys.push(key@));
                    assert(slot_values(slots@) =~= values.push(value@));
                    lemma_entries_push(keys, values, key@, value@);
                }
            },
        }
        self.slots = slots;
    }

    /// Removes every entry.
    pub fn clear(&mut self)
        ensures
            final(self)@ == Map::<Seq<u8>, Seq<char>>::empty(),
    {
        let mut slots: Vec<Slot> = Vec::new();
        core::mem::swap(&mut self.slots, &mut slots);
        assert(self@ =~= Map::<Seq<u8>, Seq<char>>::empty());
    }

    /// The entries of the index: each key that holds a value, once, with its value.
    pub fn entries(&self) -> (entries: Vec<(PublicKey, BigInt)>)
        ensures
            entries@.len() == self@.dom().len(),
            forall|i: int|
                0 <= i < entries@.len() ==> self@.dom().contains(#[trigger] entries@[i].0@)
                    && self@[entries@[i].0@] == entries@[i].1@,
            forall|i: int, j: int|
                0 <= i < j < entries@.len() ==> entries@[i].0@ != entries@[j].0@,
    {
        proof {
            use_type_invariant(self);
            lemma_entries_lookup(slot_keys(self.slots@), slot_values(self.slots@));
        }
        let mut entries: Vec<(PublicKey, BigInt)> = Vec::new();
        let mut i: usize = 0;
        while i < self.slots.len()
            invariant
                i <= self.slots@.len(),
                entries@.len() == i,
                forall|j: int|
                    0 <= j < i ==> (#[trigger] entries@[j]).0@ == slot_keys(self.slots@)[j]
                        && entries@[j].1@ == slot_values(self.slots@)[j],
            decreases self.slots@.len() - i,
        {
            entries.push((self.slots[i].key, self.slots[i].value.clone()));
            i += 1;
        }
        proof {
            let keys = slot_keys(self.slots@);
            assert forall|j: int| 0 <= j < entries@.len() implies self@.dom().contains(
                #[trigger] entries@[j].0@,
            ) && self@[entries@[j].0@] == entries@[j].1@ by {
                assert(entries@[j].0@ == keys[j]);
                assert(keys.to_set().contains(keys[j]));
            }
            assert forall|j: int, k: int| 0 <= j < k < entries@.len() implies entries@[j].0@
                != entries@[k].0@ by {
                assert(entries@[j].0@ == keys[j]);
                assert(entries@[k].0@ == keys[k]);
            }
        }
        entries
    }

    /// The values that the keys hold, one for each key.
    pub fn values(&self) -> (values: Vec<BigInt>)
        ensures
            values@.len() == self@.dom().len(),
            texts(values@).to_multiset() == held_values(self@).to_multiset(),
    {
        let mut values: Vec<BigInt> = Vec::new();
        let mut i: usize = 0;
        while i < self.slots.len()
            invariant
                i <= self.slots@.len(),
                texts(values@) == slot_values(self.slots@).take(i as int),
            decreases self.slots@.len() - i,
        {
            let value = self.slots[i].value.clone();
            let ghost copied = values@;
            values.push(value);
            proof {
                let wanted = slot_values(self.slots@).take(i as int + 1);
                assert(texts(copied).len() == i);
                assert(texts(values@).len() == wanted.len());
                assert forall|j: int| 0 <= j < wanted.len() implies texts(values@)[j] == wanted[j] by {
                    if j < i {
                        assert(texts(values@)[j] == texts(copied)[j]);
                    }
                }
                assert(texts(values@) =~= wanted);
            }
            i += 1;
        }
        proof {
            use_type_invariant(self);
            assert(slot_values(self.slots@).take(self.slots@.len() as int) =~= slot_values(
                self.slots@,
            ));
            lemma_entries_lookup(slot_keys(self.slots@), slot_values(self.slots@));
            lemma_entries_values(slot_keys(self.slots@), slot_values(self.slots@));
        }
        values
    }
}

impl Clone for ValidatorIndex {
    /// A copy with the same entries.
    fn clone(&self) -> (copy: ValidatorIndex)
        ensures
            copy@ == self@,
    {
        let mut slots: Vec<Slot> = Vec::new();
        let mut i: usize = 0;
        while i < self.slots.len()
            invariant
                i <= self.slots@.len(),
                slot_keys(slots@) == slot_keys(self.slots@).take(i as int),
                slot_values(slots@) == slot_values(self.slots@).take(i as int),
            decreases self.slots@.len() - i,
        {
            let ghost copied = slots@;
            slots.push(Slot { key: self.slots[i].key, value: self.slots[i].value.clone() });
            proof {
                assert(slot_keys(copied).len() == i);
                assert(slot_values(copied).len() == i);
                assert forall|j: int| 0 <= j <= i implies slot_keys(slots@)[j] == slot_keys(
                    self.slots@,
                )[j] && slot_values(slots@)[j] == slot_values(self.slots@)[j] by {
                    if j < i {
                        assert(slot_keys(slots@)[j] == slot_keys(copied)[j]);
                        assert(slot_values(slots@)[j] == slot_values(copied)[j]);
                    }
                }
                assert(slot_keys(slots@) =~= slot_keys(self.slots@).take(i as int + 1));
                assert(slot_values(slots@) =~= slot_values(self.slots@).take(i as int + 1));
            }
            i += 1;
        }
        proof {
            use_type_invariant(self);
            assert(slot_keys(self.slots@).take(i as int) =~= slot_keys(self.slots@));
            assert(slot_values(self.slots@).take(i as int) =~= slot_values(self.slots@));
        }
        ValidatorIndex { slots }
    }
}

/// A cell that holds at most one hash.
#[derive(Debug, Clone, Copy)]
pub struct Entry {
    value: Option<crypto::Hash>,
}

impl View for Entry {
    type V = Option<Seq<u8>>;

    closed spec fn view(&self) -> Option<Seq<u8>> {
        match self.value {
            Some(hash) => Some(hash@),
            None => None,
        }
    }
}

impl Entry {
    /// A cell that holds nothing.
    pub fn new() -> (entry: Entry)
        ensures
            entry@ is None,
    {
        Entry { value: None }
    }

    /// The hash that the cell holds, if any.
    pub fn get(&self) -> (value: Option<crypto::Hash>)
        ensures
            value is Some <==> self@ is Some,
            value matches Some(hash) ==> self@ == Some(hash@),
    {
        self.value
    }

    /// Whether the cell holds a hash.
    pub fn is_present(&self) -> (held: bool)
        ensures
            held == (self@ is Some),
    {
        self.value.is_some()
    }

    /// Puts `value` into the cell.
    pub fn set(&mut self, value: crypto::Hash)
        ensures
            final(self)@ == Some(value@),
    {
        self.value = Some(value);
    }

    /// Empties the cell.
    pub fn remove(&mut self)
        ensures
            final(self)@ is None,
    {
        self.value = None;
    }

    /// What the cell contributes to the state hash: the hash that it holds, or the zero
    /// hash where it holds none.
    pub fn hash(&self) -> (h: crypto::Hash)
        ensures
            h@ == entry_hash(self@),
    {
        match self.value {
            Some(hash) => hash,
            None => crypto::Hash::zero(),
        }
    }
}

/// What the replicated state holds, as plain values.
pub struct ServiceState {
    /// Number of validators in the configuration in force.
    pub validators: nat,
    /// The commitments of the current round, by validator key.
    pub commitments: Map<Seq<u8>, Seq<char>>,
    /// The VDF results of the current round, by validator key.
    pub vdf_results: Map<Seq<u8>, Seq<char>>,
    /// The seed of the current round, once enough validators have committed.
    pub seed: Option<Seq<u8>>,
    /// The random value that was agreed on last.
    pub randomness: Option<Seq<u8>>,
}

/// The replicated state as one transaction, or one reader, has it before it: the four
/// cells of the service and the validator keys of the configuration in force.
#[derive(Debug, Clone)]
pub struct Storage {
    /// Keys of the validators, in the order of the configuration.
    pub validator_keys: Vec<PublicKey>,
    /// Maps validators to their commitments to a seed value.
    pub commitments: ValidatorIndex,
    /// Maps validators to their VDF results.
    pub vdf_results: ValidatorIndex,
    /// The seed that the validators have agreed on in this round.
    pub seed: Entry,
    /// The last random value that the validators have agreed on.
    pub randomness: Entry,
}

impl View for Storage {
    type V = ServiceState;

    open spec fn view(&self) -> ServiceState {
        ServiceState {
            validators: self.validator_keys@.len(),
            commitments: self.commitments@,
            vdf_results: self.vdf_results@,
            seed: self.seed@,
            randomness: self.randomness@,
        }
    }
}

impl Storage {
    /// The state before the first round: the cells are empty.
    pub fn new(validator_keys: Vec<PublicKey>) -> (storage: Storage)
        ensures
            storage.validator_keys == validator_keys,
            storage@ == (ServiceState {
                validators: validator_keys@.len(),
                commitments: Map::empty(),
                vdf_results: Map::empty(),
                seed: None,
                randomness: None,
            }),
    {
        Storage {
            validator_keys,
            commitments: ValidatorIndex::new(),
            vdf_results: ValidatorIndex::new(),
            seed: Entry::new(),
            randomness: Entry::new(),
        }
    }

    /// Number of validators in the configuration in force.
    pub fn validator_count(&self) -> (count: usize)
        ensures
            count == self@.validators,
    {
        self.validator_keys.len()
    }
}

/// A view of the replicated state that can be read.
pub trait Snapshot {
    /// The state that the view shows.
    spec fn storage(&self) -> Storage;

    /// The state that the view shows.
    fn read(&self) -> (storage: &Storage)
        ensures
            *storage == self.storage(),
    ;
}

impl<'a> Snapshot for &'a Storage {
    open spec fn storage(&self) -> Storage {
        **self
    }

    fn read(&self) -> (storage: &Storage) {
        &**self
    }
}

impl<'a> Snapshot for &'a mut Storage {
    open spec fn storage(&self) -> Storage {
        **self
    }

    fn read(&self) -> (storage: &Storage) {
        &**self
    }
}

/// Typed access to the cells of the service in a view of the replicated state.
#[derive(Debug)]
pub struct RngSchema<T> {
    /// The view that the schema reads and writes.
    pub view: T,
}

impl<T> RngSchema<T> {
    /// Gives access to the cells in `snapshot`.
    pub fn new(snapshot: T) -> (schema: RngSchema<T>)
        ensures
            schema.view == snapshot,
    {
        RngSchema { view: snapshot }
    }

    /// Hands the view back.
    pub fn into_view(self) -> (view: T)
        ensures
            view == self.view,
    {
        self.view
    }
}

impl<T: Snapshot> RngSchema<T> {
    /// What the cells hold.
    pub open spec fn state(self) -> ServiceState {
        self.view.storage()@
    }

    /// Maps validators to their commitments to a seed value.
    ///
    /// When a majority of seed commitments is collected, the validators have agreed on the
    /// next VDF seed value.
    pub fn validators_seed_commitments(&self) -> (index: &ValidatorIndex)
        ensures
            *index == self.view.storage().commitments,
    {
        &self.view.read().commitments
    }

    /// Returns the count of seed commitments posted by validators in the current round.
    pub fn num_seed_commitments(&self) -> (count: usize)
        ensures
            self.state().commitments.dom().finite(),
            count == self.state().commitments.dom().len(),
    {
        self.view.read().commitments.len()
    }

    /// Returns the count of valid VDF results posted by validators in the current round.
    pub fn num_vdf_results(&self) -> (count: usize)
        ensures
            self.state().vdf_results.dom().finite(),
            count == self.state().vdf_results.dom().len(),
    {
        self.view.read().vdf_results.len()
    }

    /// Maps validators to their VDF(seed) results.
    ///
    /// When a majority of VDF results is collected, the validators have agreed on the next
    /// random number.
    pub fn validators_vdf_results(&self) -> (index: &ValidatorIndex)
        ensures
            *index == self.view.storage().vdf_results,
    {
        &self.view.read().vdf_results
    }

    /// Returns the last seed value that the validators have agreed on.
    pub fn last_seed(&self) -> (entry: &Entry)
        ensures
            *entry == self.view.storage().seed,
    {
        &self.view.read().seed
    }

    /// Returns the last random value that the validators have agreed on.
    pub fn last_randomness(&self) -> (entry: &Entry)
        ensures
            *entry == self.view.storage().randomness,
    {
        &self.view.read().randomness
    }

    /// The service's part of the state hash, in order: the Merkle root of the commitments,
    /// which the storage engine computes and hands in, then what the seed and the randomness
    /// contribute. The VDF results have no part in it.
    pub fn state_hash(&self, commitments_root: crypto::Hash) -> (hashes: Vec<crypto::Hash>)
        ensures
            hashes@.len() == 3,
            hashes@[0] == commitments_root,
            hashes@[1]@ == entry_hash(self.state().seed),
            hashes@[2]@ == entry_hash(self.state().randomness),
    {
        let mut hashes: Vec<crypto::Hash> = Vec::new();
        hashes.push(commitments_root);
        hashes.push(self.view.read().seed.hash());
        hashes.push(self.view.read().randomness.hash());
        hashes
    }
}

impl<'a> RngSchema<&'a mut Storage> {
    /// Mutable reference to the `validators_seed_commitments` index. The other cells stay as
    /// they are, and what is written through the reference is written to the storage.
    pub fn validators_seed_commitments_mut(&mut self) -> (index: &mut ValidatorIndex)
        ensures
            *index == old(self).view.commitments,
            *final(self).view == (Storage {
                commitments: *final(index),
                ..*old(self).view
            }),
            *final(final(self).view) == *final(old(self).view),
    {
        &mut self.view.commitments
    }

    /// Mutable reference to the `validators_vdf_results` index. The other cells stay as they
    /// are, and what is written through the reference is written to the storage.
    pub fn validators_vdf_results_mut(&mut self) -> (index: &mut ValidatorIndex)
        ensures
            *index == old(self).view.vdf_results,
            *final(self).view == (Storage {
                vdf_results: *final(index),
                ..*old(self).view
            }),
            *final(final(self).view) == *final(old(self).view),
    {
        &mut self.view.vdf_results
    }

    /// Mutable reference to the `last_randomness` entry. The other cells stay as they are,
    /// and what is written through the reference is written to the storage.
    pub fn last_randomness_mut(&mut self) -> (entry: &mut Entry)
        ensures
            *entry == old(self).view.randomness,
            *final(self).view == (Storage {
                randomness: *final(entry),
                ..*old(self).view
            }),
            *final(final(self).view) == *final(old(self).view),
    {
        &mut self.view.randomness
    }

    /// Mutable reference to the `last_seed` entry. The other cells stay as they are, and what
    /// is written through the reference is written to the storage.
    pub fn last_seed_mut(&mut self) -> (entry: &mut Entry)
        ensures
            *entry == old(self).view.seed,
            *final(self).view == (Storage { seed: *final(entry), ..*old(self).view }),
            *final(final(self).view) == *final(old(self).view),
    {
        &mut self.view.seed
    }
}

} // verus!
