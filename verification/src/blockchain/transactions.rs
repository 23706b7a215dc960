//! The two transactions of the service and what each does to the replicated state.

use crate::blockchain::errors::Error;
use crate::blockchain::schema::{held_values, BigInt, RngSchema, ServiceState, Storage};
use crate::blockchain::ToHash;
use crate::crypto;
use crate::crypto::{sha256, PublicKey};
use crate::rng::{
    calculate_combined_seed, combined_seed, lemma_seed_ignores_arrival_order, sort_commitments,
    sorted_commitments, texts, validate_vdf, vdf_is_valid,
};
use vstd::prelude::*;
use vstd::string::StringExecFns;
use vstd::utf8::encode_utf8;

verus! {

/// The largest number of faulty validators that a network of `validators` nodes
/// tolerates: a third of the others, rounded down.
pub open spec fn max_byzantine_nodes(validators: nat) -> nat {
    if validators == 0 {
        0
    } else {
        ((validators - 1) / 3) as nat
    }
}

/// Whether `count` validators are enough to decide: more than twice the number of
/// faulty validators that the network tolerates.
pub open spec fn is_supermajority(count: nat, validators: nat) -> bool {
    count > 2 * max_byzantine_nodes(validators)
}

/// The seed that a round's commitments give: the combined seed of the committed values in
/// ascending order.
pub open spec fn seed_of(commitments: Map<Seq<u8>, Seq<char>>) -> Seq<u8> {
    combined_seed(sorted_commitments(held_values(commitments)))
}

/// The state after a seed commitment: the value is recorded under the author's key, and
/// with a supermajority of commitments the seed is derived from all of them.
pub open spec fn publish_seed_commitment(
    state: ServiceState,
    pub_key: Seq<u8>,
    value: Seq<char>,
) -> ServiceState {
    let commitments = state.commitments.insert(pub_key, value);
    ServiceState {
        commitments,
        seed: if is_supermajority(commitments.dom().len(), state.validators) {
            Some(seed_of(commitments))
        } else {
            state.seed
        },
        ..state
    }
}

/// The state after a VDF result, where `verified` is the verdict of the VDF verifier on
/// it. A result for another seed than the current one, or one that is not valid, changes
/// nothing. Any other is recorded under the author's key; with a supermajority of results
/// the round ends: the hash of this last result becomes the randomness, and the seed, the
/// results and the commitments go.
pub open spec fn publish_vdf_result(
    state: ServiceState,
    pub_key: Seq<u8>,
    seed: Seq<u8>,
    value: Seq<char>,
    verified: bool,
) -> ServiceState {
    if state.seed != Some(seed) || !vdf_is_valid(value, verified) {
        state
    } else {
        let vdf_results = state.vdf_results.insert(pub_key, value);
        if is_supermajority(vdf_results.dom().len(), state.validators) {
            ServiceState {
                validators: state.validators,
                commitments: Map::empty(),
                vdf_results: Map::empty(),
                seed: None,
                randomness: Some(sha256(encode_utf8(value))),
            }
        } else {
            ServiceState { vdf_results, ..state }
        }
    }
}

/// The largest number of faulty validators that a network of `num_nodes` nodes tolerates.
pub fn max_byzantine(num_nodes: usize) -> (faulty: usize)
    ensures
        faulty == max_byzantine_nodes(num_nodes as nat),
{
    if num_nodes == 0 {
        0
    } else {
        (num_nodes - 1) / 3
    }
}

/// Whether `count` of `num_nodes` validators are enough to decide.
pub fn has_supermajority(count: usize, num_nodes: usize) -> (enough: bool)
    ensures
        enough == is_supermajority(count as nat, num_nodes as nat),
{
    count > 2 * max_byzantine(num_nodes)
}

/// What a seed commitment says.
pub struct SeedCommitment {
    /// Public key of the author.
    pub pub_key: Seq<u8>,
    /// Value of the seed commitment.
    pub value: Seq<char>,
}

/// A validator's contribution to the seed of the current round.
#[derive(Debug, Clone)]
pub struct TxPublishSeedCommitment {
    pub_key: PublicKey,
    value: BigInt,
}

impl View for TxPublishSeedCommitment {
    type V = SeedCommitment;

    closed spec fn view(&self) -> SeedCommitment {
        SeedCommitment { pub_key: self.pub_key@, value: self.value@ }
    }
}

impl TxPublishSeedCommitment {
    /// A commitment of `pub_key` to `value`.
    pub fn new(pub_key: &PublicKey, value: &str) -> (tx: TxPublishSeedCommitment)
        ensures
            tx@ == (SeedCommitment { pub_key: pub_key@, value: value@ }),
    {
        TxPublishSeedCommitment { pub_key: *pub_key, value: String::from_str(value) }
    }

    /// Public key of the author.
    pub fn pub_key(&self) -> (pub_key: &PublicKey)
        ensures
            pub_key@ == self@.pub_key,
    {
        &self.pub_key
    }

    /// Value of the seed commitment.
    pub fn value(&self) -> (value: &str)
        ensures
            value@ == self@.value,
    {
        self.value.as_str()
    }

    /// Records the commitment and, with a supermajority of commitments, derives the seed
    /// from all of them. Always succeeds.
    pub fn execute(&self, fork: &mut Storage) -> (result: Result<(), Error>)
        ensures
            result is Ok,
            final(fork)@ == publish_seed_commitment(old(fork)@, self@.pub_key, self@.value),
            final(fork).validator_keys == old(fork).validator_keys,
            final(fork).vdf_results == old(fork).vdf_results,
            final(fork).randomness == old(fork).randomness,
    {
        let num_nodes = fork.validator_count();
        let mut schema = RngSchema::new(fork);

        schema.validators_seed_commitments_mut().put(&self.pub_key, self.value.clone());

        // Check that validators have collected enough seed commitments
        if has_supermajority(schema.num_seed_commitments(), num_nodes) {
            let commitments = {
                let mut comms = schema.validators_seed_commitments().values();
                proof {
                    lemma_seed_ignores_arrival_order(
                        texts(comms@),
                        held_values(schema.view.commitments@),
                    );
                }
                // Sort commitments
                sort_commitments(&mut comms);
                comms
            };

            let seed = calculate_combined_seed(commitments.as_slice());

            schema.last_seed_mut().set(seed);
        }
        Ok(())
    }
}

/// What a VDF result says.
pub struct VdfResult {
    /// Public key of the author.
    pub pub_key: Seq<u8>,
    /// Seed from which the author calculated the VDF.
    pub seed: Seq<u8>,
    /// Value of the VDF.
    pub value: Seq<char>,
}

/// A validator's evaluation of the delay function on the seed of the current round.
#[derive(Debug, Clone)]
pub struct TxPublishVdfResult {
    pub_key: PublicKey,
    seed: crypto::Hash,
    value: BigInt,
}

impl View for TxPublishVdfResult {
    type V = VdfResult;

    closed spec fn view(&self) -> VdfResult {
        VdfResult { pub_key: self.pub_key@, seed: self.seed@, value: self.value@ }
    }
}

impl TxPublishVdfResult {
    /// The result `value` that `pub_key` has calculated from `seed`.
    pub fn new(pub_key: &PublicKey, seed: &crypto::Hash, value: &str) -> (tx: TxPublishVdfResult)
        ensures
            tx@ == (VdfResult { pub_key: pub_key@, seed: seed@, value: value@ }),
    {
        TxPublishVdfResult { pub_key: *pub_key, seed: *seed, value: String::from_str(value) }
    }

    /// Public key of the author.
    pub fn pub_key(&self) -> (pub_key: &PublicKey)
        ensures
            pub_key@ == self@.pub_key,
    {
        &self.pub_key
    }

    /// Seed from which the VDF is calculated by the validator.
    pub fn seed(&self) -> (seed: &crypto::Hash)
        ensures
            seed@ == self@.seed,
    {
        &self.seed
    }

    /// Value of the VDF function, to be verified by others against the seed. Also serves
    /// as an unpredictable random number candidate.
    pub fn value(&self) -> (value: &str)
        ensures
            value@ == self@.value,
    {
        self.value.as_str()
    }

    /// Records the result and, with a supermajority of results, closes the round.
    ///
    /// `verified` says whether the VDF verifier accepts the value for the seed that the
    /// transaction names; whoever calls has asked it. A result for another seed than the
    /// current one, one whose value is no integer, and one that the verifier does not
    /// accept leave the storage as it is. Always succeeds.
    pub fn execute(&self, fork: &mut Storage, verified: bool) -> (result: Result<(), Error>)
        ensures
            result is Ok,
            final(fork)@ == publish_vdf_result(
                old(fork)@,
                self@.pub_key,
                self@.seed,
                self@.value,
                verified,
            ),
            final(fork).validator_keys == old(fork).validator_keys,
            old(fork)@.seed != Some(self@.seed) || !vdf_is_valid(self@.value, verified)
                ==> *final(fork) == *old(fork),
    {
        let num_nodes = fork.validator_count();
        let mut schema = RngSchema::new(fork);

        // Ignore VDF result if there is no seed
        let current_seed = match schema.last_seed().get() {
            Some(seed) => seed,
            None => return Ok(()),
        };

        // Ignore VDF result with seed different from agreed one
        if self.seed != current_seed {
            return Ok(());
        }
        if !validate_vdf(&self.seed, &self.value, verified) {
            return Ok(());
        }
        schema.validators_vdf_results_mut().put(&self.pub_key, self.value.clone());

        // Check that validators have collected enough VDF results
        if has_supermajority(schema.num_vdf_results(), num_nodes) {
            let vdf_result_candidate = self.value();
            schema.last_randomness_mut().set(vdf_result_candidate.to_hash());

            // Clear leftovers to not mess with next rounds
            schema.last_seed_mut().remove();
            schema.validators_vdf_results_mut().clear();
            schema.validators_seed_commitments_mut().clear();
        }
        Ok(())
    }
}

/// What a transaction of the service says, together with the verdict of the VDF verifier
/// where the transaction carries a VDF result.
pub enum Transaction {
    /// A validator's contribution to the seed.
    SeedCommitment(SeedCommitment),
    /// A validator's VDF result, and whether the verifier accepts its value for its seed.
    VdfResult { result: VdfResult, verified: bool },
}

/// The state after one transaction.
pub open spec fn apply(state: ServiceState, transaction: Transaction) -> ServiceState {
    match transaction {
        Transaction::SeedCommitment(commitment) => publish_seed_commitment(
            state,
            commitment.pub_key,
            commitment.value,
        ),
        Transaction::VdfResult { result, verified } => publish_vdf_result(
            state,
            result.pub_key,
            result.seed,
            result.value,
            verified,
        ),
    }
}

/// The state after a sequence of transactions, applied in order.
pub open spec fn apply_all(state: ServiceState, transactions: Seq<Transaction>) -> ServiceState
    decreases transactions.len(),
{
    if transactions.len() == 0 {
        state
    } else {
        apply(apply_all(state, transactions.drop_last()), transactions.last())
    }
}

/// The transactions of the service.
#[derive(Debug, Clone)]
pub enum ExonumRngTransactions {
    /// A validator's contribution to the seed of the current round.
    TxPublishSeedCommitment(TxPublishSeedCommitment),
    /// A validator's evaluation of the delay function on the seed of the current round.
    TxPublishVdfResult(TxPublishVdfResult),
}

impl ExonumRngTransactions {
    /// What the transaction says, with the verdict of the verifier where it has a part.
    pub open spec fn with_verdict(self, verified: bool) -> Transaction {
        match self {
            ExonumRngTransactions::TxPublishSeedCommitment(tx) => Transaction::SeedCommitment(tx@),
            ExonumRngTransactions::TxPublishVdfResult(tx) => Transaction::VdfResult {
                result: tx@,
                verified,
            },
        }
    }

    /// The number that tells the kinds of transaction apart on the wire: 0 for a seed
    /// commitment, 1 for a VDF result.
    pub fn message_id(&self) -> (id: u16)
        ensures
            id == match self {
                ExonumRngTransactions::TxPublishSeedCommitment(_) => 0u16,
                ExonumRngTransactions::TxPublishVdfResult(_) => 1u16,
            },
    {
        match self {
            ExonumRngTransactions::TxPublishSeedCommitment(_) => 0,
            ExonumRngTransactions::TxPublishVdfResult(_) => 1,
        }
    }

    /// Executes the transaction. `verified` is the verdict of the VDF verifier on a VDF
    /// result; a seed commitment takes no account of it. Always succeeds.
    pub fn execute(&self, fork: &mut Storage, verified: bool) -> (result: Result<(), Error>)
        ensures
            result is Ok,
            final(fork)@ == apply(old(fork)@, self.with_verdict(verified)),
            final(fork).validator_keys == old(fork).validator_keys,
    {
        match self {
            ExonumRngTransactions::TxPublishSeedCommitment(tx) => tx.execute(fork),
            ExonumRngTransactions::TxPublishVdfResult(tx) => tx.execute(fork, verified),
        }
    }
}

} // verus!
