use exonum_rng::blockchain::errors::Error;
use exonum_rng::blockchain::schema::{
    Entry, RngSchema, Storage, ValidatorIndex, COMMITMENTS_INDEX, RANDOMNESS_ENTRY, SEED_ENTRY,
    VDF_RESULTS_INDEX,
};
use exonum_rng::crypto;
use exonum_rng::crypto::PublicKey;

fn key(byte: u8) -> PublicKey {
    PublicKey::new([byte; 32])
}

#[test]
fn index_starts_empty() {
    let index = ValidatorIndex::new();
    assert_eq!(index.len(), 0);
    assert!(index.is_empty());
    assert!(!index.contains(&key(1)));
    assert_eq!(index.get(&key(1)), None);
    assert!(index.values().is_empty());
}

#[test]
fn index_holds_one_value_per_key() {
    let mut index = ValidatorIndex::new();
    index.put(&key(1), "a".to_owned());
    index.put(&key(2), "b".to_owned());
    assert_eq!(index.len(), 2);
    assert!(!index.is_empty());
    assert!(index.contains(&key(1)));
    assert!(index.contains(&key(2)));
    assert!(!index.contains(&key(3)));
    assert_eq!(index.get(&key(1)), Some("a".to_owned()));
    assert_eq!(index.get(&key(2)), Some("b".to_owned()));
    assert_eq!(index.get(&key(3)), None);

    index.put(&key(1), "c".to_owned());
    assert_eq!(index.len(), 2);
    assert_eq!(index.get(&key(1)), Some("c".to_owned()));
    assert_eq!(index.get(&key(2)), Some("b".to_owned()));
}

#[test]
fn index_values_come_once_for_each_key() {
    let mut index = ValidatorIndex::new();
    index.put(&key(1), "x".to_owned());
    index.put(&key(2), "y".to_owned());
    index.put(&key(3), "x".to_owned());
    index.put(&key(2), "z".to_owned());
    let mut values = index.values();
    values.sort();
    assert_eq!(values, vec!["x".to_owned(), "x".to_owned(), "z".to_owned()]);
}

#[test]
fn index_clear_removes_every_entry() {
    let mut index = ValidatorIndex::new();
    index.put(&key(1), "a".to_owned());
    index.put(&key(2), "b".to_owned());
    index.clear();
    assert_eq!(index.len(), 0);
    assert!(index.is_empty());
    assert_eq!(index.get(&key(1)), None);
    assert!(index.values().is_empty());
    index.put(&key(2), "c".to_owned());
    assert_eq!(index.get(&key(2)), Some("c".to_owned()));
    assert_eq!(index.len(), 1);
}

#[test]
fn index_copy_has_the_same_entries_and_its_own_life() {
    let mut index = ValidatorIndex::new();
    index.put(&key(1), "a".to_owned());
    index.put(&key(2), "b".to_owned());
    let mut copy = index.clone();
    assert_eq!(copy.len(), 2);
    assert_eq!(copy.get(&key(1)), Some("a".to_owned()));
    assert_eq!(copy.get(&key(2)), Some("b".to_owned()));
    copy.put(&key(3), "c".to_owned());
    copy.put(&key(1), "d".to_owned());
    assert_eq!(index.len(), 2);
    assert_eq!(index.get(&key(1)), Some("a".to_owned()));
    assert_eq!(index.get(&key(3)), None);
}

#[test]
fn index_entries_come_once_for_each_key() {
    let mut index = ValidatorIndex::new();
    index.put(&key(2), "x".to_owned());
    index.put(&key(1), "y".to_owned());
    index.put(&key(2), "z".to_owned());
    let mut entries = index.entries();
    entries.sort_by_key(|entry| entry.0.to_bytes());
    assert_eq!(entries, vec![(key(1), "y".to_owned()), (key(2), "z".to_owned())]);
}

#[test]
fn index_tells_keys_apart_by_every_byte() {
    let mut bytes = [0u8; 32];
    let first = PublicKey::new(bytes);
    bytes[31] = 1;
    let second = PublicKey::new(bytes);
    let mut index = ValidatorIndex::new();
    index.put(&first, "a".to_owned());
    index.put(&second, "b".to_owned());
    assert_eq!(index.len(), 2);
    assert_eq!(index.get(&first), Some("a".to_owned()));
    assert_eq!(index.get(&second), Some("b".to_owned()));
}

#[test]
fn entry_holds_at_most_one_hash() {
    let mut entry = Entry::new();
    assert_eq!(entry.get(), None);
    assert!(!entry.is_present());
    let first = crypto::hash(b"first");
    let second = crypto::hash(b"second");
    entry.set(first);
    assert_eq!(entry.get(), Some(first));
    assert!(entry.is_present());
    entry.set(second);
    assert_eq!(entry.get(), Some(second));
    entry.remove();
    assert_eq!(entry.get(), None);
    assert!(!entry.is_present());
    entry.remove();
    assert_eq!(entry.get(), None);
}

#[test]
fn entry_contributes_its_hash_or_zero() {
    let mut entry = Entry::new();
    assert_eq!(entry.hash(), crypto::Hash::zero());
    let value = crypto::hash(b"value");
    entry.set(value);
    assert_eq!(entry.hash(), value);
}

#[test]
fn storage_starts_with_empty_cells() {
    let storage = Storage::new(vec![key(1), key(2), key(3), key(4)]);
    assert_eq!(storage.validator_count(), 4);
    let schema = RngSchema::new(&storage);
    assert_eq!(schema.num_seed_commitments(), 0);
    assert_eq!(schema.num_vdf_results(), 0);
    assert_eq!(schema.last_seed().get(), None);
    assert_eq!(schema.last_randomness().get(), None);
    assert!(schema.validators_seed_commitments().is_empty());
    assert!(schema.validators_vdf_results().is_empty());
}

#[test]
fn schema_writes_reach_the_storage() {
    let mut storage = Storage::new(vec![key(1)]);
    let seed = crypto::hash(b"seed");
    let randomness = crypto::hash(b"randomness");
    {
        let mut schema = RngSchema::new(&mut storage);
        schema.validators_seed_commitments_mut().put(&key(1), "11".to_owned());
        schema.validators_seed_commitments_mut().put(&key(2), "22".to_owned());
        schema.validators_vdf_results_mut().put(&key(1), "33".to_owned());
        schema.last_seed_mut().set(seed);
        schema.last_randomness_mut().set(randomness);
        assert_eq!(schema.num_seed_commitments(), 2);
        assert_eq!(schema.num_vdf_results(), 1);
        let fork = schema.into_view();
        assert_eq!(fork.validator_count(), 1);
    }
    let schema = RngSchema::new(&storage);
    assert_eq!(schema.num_seed_commitments(), 2);
    assert_eq!(schema.num_vdf_results(), 1);
    assert_eq!(schema.validators_seed_commitments().get(&key(2)), Some("22".to_owned()));
    assert_eq!(schema.validators_vdf_results().get(&key(1)), Some("33".to_owned()));
    assert_eq!(schema.validators_vdf_results().get(&key(2)), None);
    assert_eq!(schema.last_seed().get(), Some(seed));
    assert_eq!(schema.last_randomness().get(), Some(randomness));
    assert_eq!(storage.commitments.len(), 2);
}

#[test]
fn state_hash_is_root_seed_randomness() {
    let mut storage = Storage::new(vec![key(1)]);
    let root = crypto::hash(b"root");
    assert_eq!(
        RngSchema::new(&storage).state_hash(root),
        vec![root, crypto::Hash::zero(), crypto::Hash::zero()]
    );

    let seed = crypto::hash(b"seed");
    let randomness = crypto::hash(b"randomness");
    storage.seed.set(seed);
    storage.randomness.set(randomness);
    assert_eq!(RngSchema::new(&storage).state_hash(root), vec![root, seed, randomness]);
}

#[test]
fn state_hash_takes_no_account_of_vdf_results() {
    let mut storage = Storage::new(vec![key(1)]);
    let root = crypto::hash(b"root");
    storage.seed.set(crypto::hash(b"seed"));
    let before = RngSchema::new(&storage).state_hash(root);
    storage.vdf_results.put(&key(1), "7".to_owned());
    assert_eq!(RngSchema::new(&storage).state_hash(root), before);
}

#[test]
fn cells_are_stored_under_the_names_of_the_service() {
    assert_eq!(COMMITMENTS_INDEX, "exonum_rng.validators_commitments");
    assert_eq!(VDF_RESULTS_INDEX, "exonum_rng.vdf_results");
    assert_eq!(SEED_ENTRY, "exonum_rng.seed");
    assert_eq!(RANDOMNESS_ENTRY, "exonum_rng.randomness");
}

#[test]
fn not_enough_seed_commitments_has_code_one() {
    let error = Error::NotEnoughSeedCommitments;
    assert_eq!(error.code(), 1);
    assert_eq!(error.description(), "Not enough seed commitments.");
}
