//! What holds of the replicated state whatever transactions arrive.

use crate::blockchain::schema::{entry_hash, ServiceState};
use crate::blockchain::transactions::{
    apply, apply_all, is_supermajority, max_byzantine_nodes, publish_seed_commitment,
    publish_vdf_result, seed_of, SeedCommitment, Transaction, VdfResult,
};
use crate::crypto::sha256;
use crate::rng::{is_integer_text, vdf_is_valid};
use vstd::prelude::*;
use vstd::utf8::encode_utf8;

verus! {

/// The state is one that storage can hold: each of its maps has finitely many entries.
pub open spec fn well_formed(state: ServiceState) -> bool {
    state.commitments.dom().finite() && state.vdf_results.dom().finite()
}

/// Nothing of a round is in the state: no commitment, no VDF result and no seed.
pub open spec fn round_is_empty(state: ServiceState) -> bool {
    &&& state.commitments == Map::<Seq<u8>, Seq<char>>::empty()
    &&& state.vdf_results == Map::<Seq<u8>, Seq<char>>::empty()
    &&& state.seed is None
}

/// The shape that the state has at every moment of every round.
///
/// There is a seed exactly when a supermajority of the validators has committed, and it
/// is the seed of the commitments as they stand. VDF results are recorded only while
/// there is a seed, and never so many as make a supermajority: the result that would
/// make one ends the round.
pub open spec fn round_is_in_order(state: ServiceState) -> bool {
    &&& well_formed(state)
    &&& state.seed == if is_supermajority(state.commitments.dom().len(), state.validators) {
        Some(seed_of(state.commitments))
    } else {
        None
    }
    &&& !is_supermajority(state.vdf_results.dom().len(), state.validators)
    &&& state.vdf_results.dom().len() > 0 ==> state.seed is Some
}

/// Each recorded VDF result is an integer in decimal that `verifier` accepts for some
/// seed.
pub open spec fn results_are_verified(
    verifier: spec_fn(Seq<u8>, Seq<char>) -> bool,
    state: ServiceState,
) -> bool {
    forall|key: Seq<u8>| #[trigger]
        state.vdf_results.dom().contains(key) ==> is_integer_text(state.vdf_results[key], 10)
            && exists|seed: Seq<u8>| #[trigger] verifier(seed, state.vdf_results[key])
}

/// The verdict that comes with a VDF result is that of `verifier`.
pub open spec fn verdict_is_of(
    verifier: spec_fn(Seq<u8>, Seq<char>) -> bool,
    transaction: Transaction,
) -> bool {
    transaction matches Transaction::VdfResult { result, verified } ==> verified == verifier(
        result.seed,
        result.value,
    )
}

/// The service's part of the state hash: the Merkle root of the commitments, for which
/// `root_of` stands, then what the seed and the randomness contribute.
pub open spec fn state_hash_of(
    root_of: spec_fn(Map<Seq<u8>, Seq<char>>) -> Seq<u8>,
    state: ServiceState,
) -> Seq<Seq<u8>> {
    seq![root_of(state.commitments), entry_hash(state.seed), entry_hash(state.randomness)]
}

/// A transaction leaves the number of validators alone, and a state that storage can hold
/// stays one.
pub proof fn lemma_apply_keeps_well_formed(state: ServiceState, transaction: Transaction)
    requires
        well_formed(state),
    ensures
        well_formed(apply(state, transaction)),
        apply(state, transaction).validators == state.validators,
{
}

/// Replicas that start from the same state and apply the same transactions, with the same
/// verdicts of the verifier, hold the same state after each transaction, and contribute
/// the same hashes to the state hash.
pub proof fn lemma_replicas_agree(
    first: ServiceState,
    second: ServiceState,
    transactions: Seq<Transaction>,
    root_of: spec_fn(Map<Seq<u8>, Seq<char>>) -> Seq<u8>,
)
    requires
        first == second,
    ensures
        forall|applied: int|
            0 <= applied <= transactions.len() ==> {
                &&& #[trigger] apply_all(first, transactions.take(applied)) == apply_all(
                    second,
                    transactions.take(applied),
                )
                &&& state_hash_of(root_of, apply_all(first, transactions.take(applied)))
                    == state_hash_of(root_of, apply_all(second, transactions.take(applied)))
            },
{
}

/// The VDF results have no part in the state hash.
pub proof fn lemma_state_hash_ignores_vdf_results(
    root_of: spec_fn(Map<Seq<u8>, Seq<char>>) -> Seq<u8>,
    state: ServiceState,
    vdf_results: Map<Seq<u8>, Seq<char>>,
)
    ensures
        state_hash_of(root_of, ServiceState { vdf_results, ..state }) == state_hash_of(
            root_of,
            state,
        ),
{
}

/// An empty round is in order.
pub proof fn lemma_empty_round_is_in_order(state: ServiceState)
    requires
        round_is_empty(state),
    ensures
        round_is_in_order(state),
{
    assert(Map::<Seq<u8>, Seq<char>>::empty().dom() =~= Set::<Seq<u8>>::empty());
}

/// A round stays in order through every transaction.
pub proof fn lemma_round_stays_in_order(state: ServiceState, transaction: Transaction)
    requires
        round_is_in_order(state),
    ensures
        round_is_in_order(apply(state, transaction)),
{
    assert(Map::<Seq<u8>, Seq<char>>::empty().dom() =~= Set::<Seq<u8>>::empty());
    match transaction {
        Transaction::SeedCommitment(commitment) => {
            let commitments = state.commitments.insert(commitment.pub_key, commitment.value);
            assert(commitments.dom() =~= state.commitments.dom().insert(commitment.pub_key));
            assert(commitments.dom().len() >= state.commitments.dom().len());
        },
        Transaction::VdfResult { result, verified } => {
            let vdf_results = state.vdf_results.insert(result.pub_key, result.value);
            assert(vdf_results.dom() =~= state.vdf_results.dom().insert(result.pub_key));
            assert(vdf_results.dom().len() > 0);
        },
    }
}

/// After any sequence of transactions on a round that is in order, and so after any that
/// begins with an empty round, the round is in order. In particular there is a seed only
/// with a supermajority of commitments.
pub proof fn lemma_round_is_in_order(state: ServiceState, transactions: Seq<Transaction>)
    requires
        round_is_in_order(state),
    ensures
        round_is_in_order(apply_all(state, transactions)),
        apply_all(state, transactions).validators == state.validators,
        apply_all(state, transactions).seed is Some ==> is_supermajority(
            apply_all(state, transactions).commitments.dom().len(),
            state.validators,
        ),
    decreases transactions.len(),
{
    if transactions.len() > 0 {
        lemma_round_is_in_order(state, transactions.drop_last());
        let before = apply_all(state, transactions.drop_last());
        lemma_apply_keeps_well_formed(before, transactions.last());
        lemma_round_stays_in_order(before, transactions.last());
    }
}

/// A transaction that changes the randomness ends the round in the same step: it leaves
/// no seed, no VDF result and no commitment. Only a VDF result does so, one for the
/// current seed whose value is valid, and the new randomness is the hash of that value.
pub proof fn lemma_new_randomness_ends_round(state: ServiceState, transaction: Transaction)
    ensures
        apply(state, transaction).randomness != state.randomness ==> {
            &&& round_is_empty(apply(state, transaction))
            &&& transaction matches Transaction::VdfResult { result, verified }
            &&& state.seed == Some(result.seed)
            &&& vdf_is_valid(result.value, verified)
            &&& apply(state, transaction).randomness == Some(sha256(encode_utf8(result.value)))
        },
{
}

/// Within a block too, new randomness ends the round: where a transaction of the block
/// has changed the randomness and no seed commitment follows it in the block, the block
/// leaves no seed, no VDF result and no commitment.
pub proof fn lemma_block_with_new_randomness_ends_round(
    state: ServiceState,
    block: Seq<Transaction>,
    changed_at: int,
)
    requires
        0 <= changed_at < block.len(),
        apply_all(state, block.take(changed_at + 1)).randomness != apply_all(
            state,
            block.take(changed_at),
        ).randomness,
        forall|later: int|
            changed_at < later < block.len() ==> !(#[trigger] block[later] is SeedCommitment),
    ensures
        round_is_empty(apply_all(state, block)),
    decreases block.len(),
{
    let earlier = block.drop_last();
    if changed_at + 1 == block.len() {
        assert(block.take(changed_at + 1) =~= block);
        assert(block.take(changed_at) =~= earlier);
        lemma_new_randomness_ends_round(apply_all(state, earlier), block.last());
    } else {
        assert(earlier.take(changed_at + 1) =~= block.take(changed_at + 1));
        assert(earlier.take(changed_at) =~= block.take(changed_at));
        assert forall|later: int| changed_at < later < earlier.len() implies !(
        #[trigger] earlier[later] is SeedCommitment) by {
            assert(earlier[later] == block[later]);
        }
        lemma_block_with_new_randomness_ends_round(state, earlier, changed_at);
        assert(!(block[block.len() - 1] is SeedCommitment));
    }
}

/// A VDF result that the verifier does not accept leaves the state as it is, and so does
/// one whose value is no integer, whatever the verifier is said to say of it.
pub proof fn lemma_rejected_result_changes_nothing(
    state: ServiceState,
    pub_key: Seq<u8>,
    seed: Seq<u8>,
    value: Seq<char>,
    verified: bool,
)
    requires
        !verified || !is_integer_text(value, 10),
    ensures
        publish_vdf_result(state, pub_key, seed, value, verified) == state,
{
}

/// Only results that the verifier accepts are recorded: where each recorded result is an
/// integer that the verifier accepts for some seed, that is so after any transaction that
/// comes with the verifier's verdict.
pub proof fn lemma_results_stay_verified(
    verifier: spec_fn(Seq<u8>, Seq<char>) -> bool,
    state: ServiceState,
    transaction: Transaction,
)
    requires
        results_are_verified(verifier, state),
        verdict_is_of(verifier, transaction),
    ensures
        results_are_verified(verifier, apply(state, transaction)),
{
    let after = apply(state, transaction);
    assert forall|key: Seq<u8>| #[trigger] after.vdf_results.dom().contains(key) implies
        is_integer_text(after.vdf_results[key], 10) && exists|seed: Seq<u8>| #[trigger]
            verifier(seed, after.vdf_results[key]) by {
        let recorded_before = state.vdf_results.dom().contains(key) && state.vdf_results[key]
            == after.vdf_results[key];
        match transaction {
            Transaction::SeedCommitment(commitment) => {
                assert(recorded_before);
            },
            Transaction::VdfResult { result, verified } => {
                if state.seed != Some(result.seed) || !vdf_is_valid(result.value, verified) {
                    assert(recorded_before);
                } else if key == result.pub_key {
                    assert(after.vdf_results[key] == result.value);
                    assert(verifier(result.seed, result.value));
                } else {
                    assert(recorded_before);
                }
            },
        }
        if recorded_before {
            let seed = choose|seed: Seq<u8>| #[trigger] verifier(seed, state.vdf_results[key]);
            assert(verifier(seed, after.vdf_results[key]));
        }
    }
}

/// After any sequence of transactions that come with the verifier's verdicts, on a state
/// whose recorded results the verifier accepts, each recorded result is an integer that
/// the verifier accepts for some seed.
pub proof fn lemma_results_are_verified(
    verifier: spec_fn(Seq<u8>, Seq<char>) -> bool,
    state: ServiceState,
    transactions: Seq<Transaction>,
)
    requires
        results_are_verified(verifier, state),
        forall|i: int| 0 <= i < transactions.len() ==> verdict_is_of(verifier, #[trigger] transactions[i]),
    ensures
        results_are_verified(verifier, apply_all(state, transactions)),
    decreases transactions.len(),
{
    if transactions.len() > 0 {
        lemma_results_are_verified(verifier, state, transactions.drop_last());
        lemma_results_stay_verified(
            verifier,
            apply_all(state, transactions.drop_last()),
            transactions.last(),
        );
    }
}

/// The same seed commitment applied twice in a row changes nothing the second time.
pub proof fn lemma_same_commitment_twice(state: ServiceState, pub_key: Seq<u8>, value: Seq<char>)
    ensures
        publish_seed_commitment(publish_seed_commitment(state, pub_key, value), pub_key, value)
            == publish_seed_commitment(state, pub_key, value),
{
    let once = publish_seed_commitment(state, pub_key, value);
    assert(once.commitments.insert(pub_key, value) =~= once.commitments);
}

/// A VDF result for another seed than the current one leaves the state as it is,
/// whatever the verifier says of it.
pub proof fn lemma_result_for_other_seed_changes_nothing(
    state: ServiceState,
    pub_key: Seq<u8>,
    seed: Seq<u8>,
    value: Seq<char>,
    verified: bool,
)
    requires
        state.seed != Some(seed),
    ensures
        publish_vdf_result(state, pub_key, seed, value, verified) == state,
{
}

/// The transactions by which the validators `keys` commit, one after the other, each to
/// the value at its place in `values`.
pub open spec fn commitments_by(keys: Seq<Seq<u8>>, values: Seq<Seq<char>>) -> Seq<Transaction> {
    Seq::new(
        keys.len(),
        |i: int|
            Transaction::SeedCommitment(SeedCommitment { pub_key: keys[i], value: values[i] }),
    )
}

/// The transactions by which the validators `keys` report, one after the other, results
/// for `seed` that the verifier accepts, each the value at its place in `values`.
pub open spec fn results_by(keys: Seq<Seq<u8>>, seed: Seq<u8>, values: Seq<Seq<char>>) -> Seq<
    Transaction,
> {
    Seq::new(
        keys.len(),
        |i: int|
            Transaction::VdfResult {
                result: VdfResult { pub_key: keys[i], seed, value: values[i] },
                verified: true,
            },
    )
}

/// Commitments of different validators in an empty round are all recorded, and they give
/// the round its seed as soon as they are a supermajority, not before.
pub proof fn lemma_commitments_seal_the_seed(
    state: ServiceState,
    keys: Seq<Seq<u8>>,
    values: Seq<Seq<char>>,
)
    requires
        round_is_empty(state),
        keys.no_duplicates(),
        keys.len() == values.len(),
    ensures
        ({
            let sealed = apply_all(state, commitments_by(keys, values));
            &&& sealed.validators == state.validators
            &&& sealed.randomness == state.randomness
            &&& sealed.vdf_results == Map::<Seq<u8>, Seq<char>>::empty()
            &&& sealed.commitments.dom() == keys.to_set()
            &&& sealed.commitments.dom().finite()
            &&& sealed.commitments.dom().len() == keys.len()
            &&& forall|i: int| 0 <= i < keys.len() ==> sealed.commitments[#[trigger] keys[i]] == values[i]
            &&& sealed.seed == if is_supermajority(keys.len(), state.validators) {
                Some(seed_of(sealed.commitments))
            } else {
                None
            }
        }),
    decreases keys.len(),
{
    let transactions = commitments_by(keys, values);
    if keys.len() == 0 {
        assert(Map::<Seq<u8>, Seq<char>>::empty().dom() =~= keys.to_set());
    } else {
        let earlier_keys = keys.drop_last();
        let earlier_values = values.drop_last();
        assert(transactions.drop_last() =~= commitments_by(earlier_keys, earlier_values));
        lemma_commitments_seal_the_seed(state, earlier_keys, earlier_values);
        let before = apply_all(state, transactions.drop_last());
        let sealed = apply_all(state, transactions);
        assert(sealed == publish_seed_commitment(before, keys.last(), values.last()));
        lemma_one_more_key(keys);
        assert(sealed.commitments.dom() =~= earlier_keys.to_set().insert(keys.last()));
        assert forall|i: int| 0 <= i < keys.len() implies sealed.commitments[#[trigger] keys[i]]
            == values[i] by {
            if i < keys.len() - 1 {
                assert(earlier_keys[i] == keys[i]);
                assert(before.commitments[earlier_keys[i]] == earlier_values[i]);
                assert(earlier_keys.to_set().contains(earlier_keys[i]));
            }
        }
    }
}

/// VDF results of different validators for the current seed, which the verifier accepts,
/// are all recorded and leave the rest of the state alone, as long as they are no
/// supermajority.
pub proof fn lemma_results_wait_for_a_supermajority(
    state: ServiceState,
    keys: Seq<Seq<u8>>,
    seed: Seq<u8>,
    values: Seq<Seq<char>>,
)
    requires
        state.seed == Some(seed),
        state.vdf_results == Map::<Seq<u8>, Seq<char>>::empty(),
        keys.no_duplicates(),
        keys.len() == values.len(),
        forall|i: int| 0 <= i < values.len() ==> is_integer_text(#[trigger] values[i], 10),
        !is_supermajority(keys.len(), state.validators),
    ensures
        ({
            let after = apply_all(state, results_by(keys, seed, values));
            &&& after == ServiceState { vdf_results: after.vdf_results, ..state }
            &&& after.vdf_results.dom() == keys.to_set()
            &&& after.vdf_results.dom().finite()
            &&& after.vdf_results.dom().len() == keys.len()
        }),
    decreases keys.len(),
{
    let transactions = results_by(keys, seed, values);
    if keys.len() == 0 {
        assert(Map::<Seq<u8>, Seq<char>>::empty().dom() =~= keys.to_set());
    } else {
        let earlier_keys = keys.drop_last();
        let earlier_values = values.drop_last();
        assert(transactions.drop_last() =~= results_by(earlier_keys, seed, earlier_values));
        lemma_results_wait_for_a_supermajority(state, earlier_keys, seed, earlier_values);
        let before = apply_all(state, transactions.drop_last());
        let after = apply_all(state, transactions);
        assert(after == publish_vdf_result(before, keys.last(), seed, values.last(), true));
        lemma_one_more_key(keys);
        assert(before.vdf_results.insert(keys.last(), values.last()).dom()
            =~= earlier_keys.to_set().insert(keys.last()));
    }
}

/// The keys of a sequence without repetition are those before the last, and the last,
/// which is none of them.
proof fn lemma_one_more_key(keys: Seq<Seq<u8>>)
    requires
        keys.no_duplicates(),
        keys.len() > 0,
    ensures
        !keys.drop_last().to_set().contains(keys.last()),
        keys.to_set() == keys.drop_last().to_set().insert(keys.last()),
{
    let earlier_keys = keys.drop_last();
    if earlier_keys.contains(keys.last()) {
        let i = earlier_keys.index_of(keys.last());
        assert(keys[i] == keys[keys.len() - 1]);
    }
    assert forall|key: Seq<u8>| keys.to_set().contains(key) <==> earlier_keys.to_set().insert(
        keys.last(),
    ).contains(key) by {
        if keys.contains(key) {
            let i = keys.index_of(key);
            if i < keys.len() - 1 {
                assert(earlier_keys[i] == key);
            }
        }
        if earlier_keys.contains(key) {
            let i = earlier_keys.index_of(key);
            assert(keys[i] == key);
        }
        assert(keys[keys.len() - 1] == keys.last());
    }
    assert(keys.to_set() =~= earlier_keys.to_set().insert(keys.last()));
}

/// A round in which a supermajority of the validators takes part comes to its end. From
/// an empty round, commitments of a supermajority of different validators give a seed;
/// and once as many different validators as make the smallest supermajority have
/// reported results for that seed, integers which the verifier accepts, the hash of the
/// last of these results is the new randomness and the round is empty again.
pub proof fn lemma_supermajority_completes_the_round(
    state: ServiceState,
    committers: Seq<Seq<u8>>,
    commitments: Seq<Seq<char>>,
    reporters: Seq<Seq<u8>>,
    results: Seq<Seq<char>>,
)
    requires
        round_is_empty(state),
        committers.no_duplicates(),
        committers.len() == commitments.len(),
        is_supermajority(committers.len(), state.validators),
        reporters.no_duplicates(),
        reporters.len() == results.len(),
        reporters.len() == 2 * max_byzantine_nodes(state.validators) + 1,
        forall|i: int| 0 <= i < results.len() ==> is_integer_text(#[trigger] results[i], 10),
    ensures
        ({
            let sealed = apply_all(state, commitments_by(committers, commitments));
            let done = apply_all(sealed, results_by(reporters, sealed.seed->0, results));
            &&& sealed.seed == Some(seed_of(sealed.commitments))
            &&& done.randomness == Some(sha256(encode_utf8(results.last())))
            &&& round_is_empty(done)
            &&& done.validators == state.validators
        }),
{
    lemma_commitments_seal_the_seed(state, committers, commitments);
    let sealed = apply_all(state, commitments_by(committers, commitments));
    let seed = sealed.seed->0;
    let transactions = results_by(reporters, seed, results);
    let earlier_keys = reporters.drop_last();
    let earlier_values = results.drop_last();
    assert(transactions.drop_last() =~= results_by(earlier_keys, seed, earlier_values));
    lemma_results_wait_for_a_supermajority(sealed, earlier_keys, seed, earlier_values);
    let before = apply_all(sealed, transactions.drop_last());
    let done = apply_all(sealed, transactions);
    assert(done == publish_vdf_result(before, reporters.last(), seed, results.last(), true));
    lemma_one_more_key(reporters);
    assert(before.vdf_results.insert(reporters.last(), results.last()).dom()
        =~= earlier_keys.to_set().insert(reporters.last()));
    vstd::seq_lib::seq_to_set_is_finite(reporters);
    reporters.unique_seq_to_set();
}

} // verus!
