use exonum_rng::blockchain::schema::Storage;
use exonum_rng::blockchain::transactions::{ExonumRngTransactions, TxPublishSeedCommitment};
use exonum_rng::crypto;
use exonum_rng::crypto::PublicKey;
use exonum_rng::service::{decimal_string, Action};
use exonum_rng::{ExonumRngService, SERVICE_ID, SERVICE_NAME};

fn validator_keys(count: u8) -> Vec<PublicKey> {
    (0..count).map(|i| PublicKey::new([i + 1; 32])).collect()
}

#[test]
fn service_has_its_id_and_name() {
    let service = ExonumRngService::new();
    assert_eq!(service.service_id(), 9000);
    assert_eq!(service.service_name(), "exonum_rng");
    assert_eq!(SERVICE_ID, 9000);
    assert_eq!(SERVICE_NAME, "exonum_rng");
}

#[test]
fn numbers_are_rendered_in_decimal() {
    assert_eq!(decimal_string(0), "0");
    assert_eq!(decimal_string(7), "7");
    assert_eq!(decimal_string(10), "10");
    assert_eq!(decimal_string(1_002_003), "1002003");
    assert_eq!(decimal_string(9_223_372_036_854_775_808), "9223372036854775808");
    assert_eq!(decimal_string(u64::MAX), "18446744073709551615");
    for number in [1u64, 9, 11, 99, 100, 12_345_678_901_234_567_890] {
        assert_eq!(decimal_string(number), number.to_string());
    }
}

#[test]
fn seed_commitment_commits_to_the_number_in_decimal() {
    let service = ExonumRngService::new();
    let key = PublicKey::new([5; 32]);
    let tx = service.seed_commitment(&key, 18_446_744_073_709_551_615);
    assert_eq!(tx.pub_key(), &key);
    assert_eq!(tx.value(), "18446744073709551615");
}

#[test]
fn a_node_that_is_no_validator_does_nothing() {
    let service = ExonumRngService::new();
    let validators = validator_keys(4);
    let storage = Storage::new(validators.clone());
    let action = service.after_commit(None, &storage, &validators[0]);
    assert!(matches!(action, Action::Wait));
}

#[test]
fn a_validator_without_commitment_commits_to_a_number() {
    let service = ExonumRngService::new();
    let validators = validator_keys(4);
    let mut storage = Storage::new(validators.clone());
    TxPublishSeedCommitment::new(&validators[1], "1").execute(&mut storage).unwrap();

    match service.after_commit(Some(0), &storage, &validators[0]) {
        Action::PublishSeedCommitment(tx) => {
            assert_eq!(tx.pub_key(), &validators[0]);
            let number: u64 = tx.value().parse().unwrap();
            assert_eq!(tx.value(), number.to_string());
        }
        other => panic!("unexpected action {:?}", other),
    }
}

#[test]
fn a_validator_commits_even_where_there_is_a_seed() {
    let service = ExonumRngService::new();
    let validators = validator_keys(4);
    let mut storage = Storage::new(validators.clone());
    for validator in &validators[..3] {
        TxPublishSeedCommitment::new(validator, "1").execute(&mut storage).unwrap();
    }
    let action = service.after_commit(Some(3), &storage, &validators[3]);
    assert!(matches!(action, Action::PublishSeedCommitment(_)));
}

#[test]
fn a_validator_that_has_committed_waits_for_the_seed() {
    let service = ExonumRngService::new();
    let validators = validator_keys(4);
    let mut storage = Storage::new(validators.clone());
    TxPublishSeedCommitment::new(&validators[0], "1").execute(&mut storage).unwrap();
    let action = service.after_commit(Some(0), &storage, &validators[0]);
    assert!(matches!(action, Action::Wait));
}

#[test]
fn a_validator_evaluates_the_delay_function_on_the_seed() {
    let service = ExonumRngService::new();
    let validators = validator_keys(4);
    let mut storage = Storage::new(validators.clone());
    for (validator, value) in validators[..3].iter().zip(["111", "222", "333"].iter()) {
        TxPublishSeedCommitment::new(validator, value).execute(&mut storage).unwrap();
    }
    match service.after_commit(Some(2), &storage, &validators[2]) {
        Action::CalculateVdf { seed, difficulty } => {
            assert_eq!(seed, crypto::hash(b"111222333"));
            assert_eq!(difficulty, 129_536);
        }
        other => panic!("unexpected action {:?}", other),
    }
}

#[test]
fn an_evaluation_becomes_a_vdf_result() {
    let service = ExonumRngService::new();
    let key = PublicKey::new([5; 32]);
    let seed = crypto::hash(b"seed");
    let tx = service.vdf_calculated(&key, &seed, Some("12345".to_owned())).unwrap();
    assert_eq!(tx.pub_key(), &key);
    assert_eq!(tx.seed(), &seed);
    assert_eq!(tx.value(), "12345");
}

#[test]
fn a_failed_evaluation_gives_no_transaction() {
    let service = ExonumRngService::new();
    let key = PublicKey::new([5; 32]);
    let seed = crypto::hash(b"seed");
    assert!(service.vdf_calculated(&key, &seed, None).is_none());
}

#[test]
fn service_state_hash_is_root_seed_randomness() {
    let service = ExonumRngService::new();
    let validators = validator_keys(1);
    let mut storage = Storage::new(validators.clone());
    let root = crypto::hash(b"root");
    assert_eq!(
        service.state_hash(&storage, root),
        vec![root, crypto::Hash::zero(), crypto::Hash::zero()]
    );
    TxPublishSeedCommitment::new(&validators[0], "111").execute(&mut storage).unwrap();
    assert_eq!(
        service.state_hash(&storage, root),
        vec![root, crypto::hash(b"111"), crypto::Hash::zero()]
    );
}

/// What the validators submit after a block that left `storage`, each acting on that state.
fn submitted_after_block(
    service: &ExonumRngService,
    storage: &Storage,
    validators: &[PublicKey],
) -> Vec<ExonumRngTransactions> {
    let mut submitted = Vec::new();
    for (id, validator) in validators.iter().enumerate() {
        match service.after_commit(Some(id as u16), storage, validator) {
            Action::Wait => {}
            Action::PublishSeedCommitment(tx) => {
                submitted.push(ExonumRngTransactions::TxPublishSeedCommitment(tx));
            }
            Action::CalculateVdf { seed, difficulty } => {
                assert_eq!(difficulty, 129_536);
                let tx = service
                    .vdf_calculated(validator, &seed, Some("7".to_owned()))
                    .unwrap();
                submitted.push(ExonumRngTransactions::TxPublishVdfResult(tx));
            }
        }
    }
    submitted
}

#[test]
fn validators_following_the_service_complete_a_round() {
    let service = ExonumRngService::new();
    let validators = validator_keys(4);
    let mut storage = Storage::new(validators.clone());
    let honest = &validators[..3];

    let commitments = submitted_after_block(&service, &storage, honest);
    assert_eq!(commitments.len(), 3);
    for tx in &commitments {
        assert_eq!(tx.message_id(), 0);
        tx.execute(&mut storage, true).unwrap();
    }
    assert!(storage.seed.get().is_some());
    assert_eq!(storage.randomness.get(), None);

    let results = submitted_after_block(&service, &storage, honest);
    assert_eq!(results.len(), 3);
    for tx in &results {
        assert_eq!(tx.message_id(), 1);
        tx.execute(&mut storage, true).unwrap();
    }
    assert_eq!(storage.randomness.get(), Some(crypto::hash(b"7")));
    assert_eq!(storage.seed.get(), None);
    assert!(storage.commitments.is_empty());
    assert!(storage.vdf_results.is_empty());

    let next_round = submitted_after_block(&service, &storage, honest);
    assert_eq!(next_round.len(), 3);
    assert!(next_round.iter().all(|tx| tx.message_id() == 0));
}
