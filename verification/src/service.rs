//! The service itself: its identity, and what a validator does after each block.

use crate::blockchain::schema::{entry_hash, BigInt, RngSchema, ServiceState, Storage};
use crate::blockchain::transactions::{
    SeedCommitment, TxPublishSeedCommitment, TxPublishVdfResult, VdfResult,
};
use crate::crypto;
use crate::crypto::PublicKey;
use crate::rng::{is_digit_of, is_integer_text, lemma_digits_are_integer_text, VDF_DIFFICULTY};
use rand::Rng;
use vstd::prelude::*;
use vstd::string::StringExecFns;

verus! {

/// Identifier of the service.
pub const SERVICE_ID: u16 = 9000;

/// Name of the service.
pub const SERVICE_NAME: &'static str = "exonum_rng";

/// The character of a decimal digit.
pub open spec fn decimal_char(digit: nat) -> char {
    if digit == 0 {
        '0'
    } else if digit == 1 {
        '1'
    } else if digit == 2 {
        '2'
    } else if digit == 3 {
        '3'
    } else if digit == 4 {
        '4'
    } else if digit == 5 {
        '5'
    } else if digit == 6 {
        '6'
    } else if digit == 7 {
        '7'
    } else if digit == 8 {
        '8'
    } else {
        '9'
    }
}

/// A number in decimal, without leading zeros.
pub open spec fn decimal_digits(number: nat) -> Seq<char>
    decreases number,
{
    if number < 10 {
        seq![decimal_char(number)]
    } else {
        decimal_digits(number / 10).push(decimal_char(number % 10))
    }
}

/// What a validator does after a block.
pub enum Step {
    /// Nothing: it is no validator, or it has committed and waits for the seed.
    Wait,
    /// It signs and submits this seed commitment.
    PublishSeedCommitment(SeedCommitment),
    /// It evaluates the delay function on `seed` with `difficulty` steps, and reports what
    /// came of it.
    CalculateVdf { seed: Seq<u8>, difficulty: u64 },
}

/// What a validator does after a block that leaves the state `state`, where `number` is
/// the number it commits to if it has to commit.
pub open spec fn next_step(is_validator: bool, state: ServiceState, public_key: Seq<u8>, number: u64) -> Step {
    if !is_validator {
        Step::Wait
    } else if !state.commitments.dom().contains(public_key) {
        Step::PublishSeedCommitment(
            SeedCommitment { pub_key: public_key, value: decimal_digits(number as nat) },
        )
    } else {
        match state.seed {
            Some(seed) => Step::CalculateVdf { seed, difficulty: VDF_DIFFICULTY },
            None => Step::Wait,
        }
    }
}

/// A number in decimal is an integer in decimal: what a validator commits to is a text
/// that reads as a number.
pub proof fn lemma_decimal_is_integer_text(number: nat)
    ensures
        decimal_digits(number).len() > 0,
        forall|i: int|
            0 <= i < decimal_digits(number).len() ==> is_digit_of(
                #[trigger] decimal_digits(number)[i],
                10,
            ),
        is_integer_text(decimal_digits(number), 10),
    decreases number,
{
    if number >= 10 {
        lemma_decimal_is_integer_text(number / 10);
    }
    lemma_digits_are_integer_text(decimal_digits(number), 10);
}

/// The one-digit string of a decimal digit.
fn decimal_digit(digit: u64) -> (text: &'static str)
    requires
        digit < 10,
    ensures
        text@ == seq![decimal_char(digit as nat)],
{
    proof {
        reveal_strlit("0");
        reveal_strlit("1");
        reveal_strlit("2");
        reveal_strlit("3");
        reveal_strlit("4");
        reveal_strlit("5");
        reveal_strlit("6");
        reveal_strlit("7");
        reveal_strlit("8");
        reveal_strlit("9");
    }
    let text = match digit {
        0 => "0",
        1 => "1",
        2 => "2",
        3 => "3",
        4 => "4",
        5 => "5",
        6 => "6",
        7 => "7",
        8 => "8",
        _ => "9",
    };
    assert(text@ =~= seq![decimal_char(digit as nat)]);
    text
}

/// Renders a number in decimal.
pub fn decimal_string(number: u64) -> (text: BigInt)
    ensures
        text@ == decimal_digits(number as nat),
    decreases number,
{
    if number < 10 {
        String::from_str(decimal_digit(number))
    } else {
        let mut text = decimal_string(number / 10);
        text.append(decimal_digit(number % 10));
        text
    }
}

/// A number drawn by `rand::thread_rng().gen::<u64>()`. Nothing is promised of it: each
/// call may give another number.
#[verifier::external_body]
fn random_u64() -> (number: u64) {
    rand::thread_rng().gen::<u64>()
}

/// What the service asks of its validator after a block.
#[derive(Debug, Clone)]
pub enum Action {
    /// Nothing is to be done.
    Wait,
    /// The commitment is to be signed and submitted.
    PublishSeedCommitment(TxPublishSeedCommitment),
    /// The delay function is to be evaluated on `seed` with `difficulty` steps, away from
    /// the thread that acknowledges blocks, and the outcome handed to
    /// [`ExonumRngService::vdf_calculated`].
    CalculateVdf { seed: crypto::Hash, difficulty: u64 },
}

impl View for Action {
    type V = Step;

    open spec fn view(&self) -> Step {
        match *self {
            Action::Wait => Step::Wait,
            Action::PublishSeedCommitment(tx) => Step::PublishSeedCommitment(tx@),
            Action::CalculateVdf { seed, difficulty } => Step::CalculateVdf {
                seed: seed@,
                difficulty,
            },
        }
    }
}

/// The randomness service.
#[derive(Debug, Default)]
pub struct ExonumRngService;

impl ExonumRngService {
    /// The service.
    pub fn new() -> (service: ExonumRngService) {
        ExonumRngService
    }

    /// Identifier of the service.
    pub fn service_id(&self) -> (id: u16)
        ensures
            id == 9000,
    {
        SERVICE_ID
    }

    /// Name of the service.
    pub fn service_name(&self) -> (name: &'static str)
        ensures
            name@ == "exonum_rng"@,
    {
        SERVICE_NAME
    }

    /// The service's part of the state hash for the state that `view` shows;
    /// `commitments_root` is the Merkle root of the commitments there.
    pub fn state_hash(&self, view: &Storage, commitments_root: crypto::Hash) -> (hashes: Vec<
        crypto::Hash,
    >)
        ensures
            hashes@.len() == 3,
            hashes@[0] == commitments_root,
            hashes@[1]@ == entry_hash(view@.seed),
            hashes@[2]@ == entry_hash(view@.randomness),
    {
        let schema = RngSchema::new(view);
        schema.state_hash(commitments_root)
    }

    /// The seed commitment of `public_key` to `number`.
    pub fn seed_commitment(&self, public_key: &PublicKey, number: u64) -> (tx:
        TxPublishSeedCommitment)
        ensures
            tx@ == (SeedCommitment {
                pub_key: public_key@,
                value: decimal_digits(number as nat),
            }),
    {
        let value = decimal_string(number);
        TxPublishSeedCommitment::new(public_key, value.as_str())
    }

    /// Decides what the validator does after the commit of a block.
    ///
    /// A node that is no validator does nothing. A validator without a commitment in this
    /// round commits to a number that it draws at random. One that has committed waits for
    /// the seed, and once there is a seed it evaluates the delay function on it.
    pub fn after_commit(
        &self,
        validator_id: Option<u16>,
        snapshot: &Storage,
        public_key: &PublicKey,
    ) -> (action: Action)
        ensures
            exists|number: u64|
                action@ == #[trigger] next_step(
                    validator_id is Some,
                    snapshot@,
                    public_key@,
                    number,
                ),
    {
        // The transaction must be created by the validator.
        if validator_id.is_none() {
            assert(Step::Wait == next_step(false, snapshot@, public_key@, 0));
            return Action::Wait;
        }
        let schema = RngSchema::new(snapshot);

        if !schema.validators_seed_commitments().contains(public_key) {
            // Send validator's seed commitment
            let number = random_u64();
            let tx = self.seed_commitment(public_key, number);
            assert(Step::PublishSeedCommitment(tx@) == next_step(
                true,
                snapshot@,
                public_key@,
                number,
            ));
            return Action::PublishSeedCommitment(tx);
        }
        let action = match schema.last_seed().get() {
            Some(seed) => Action::CalculateVdf { seed, difficulty: VDF_DIFFICULTY },
            None => Action::Wait,
        };
        assert(action@ == next_step(true, snapshot@, public_key@, 0));
        action
    }

    /// What follows an evaluation of the delay function on `seed`: the VDF result to sign
    /// and submit, or nothing where the evaluation gave no value.
    pub fn vdf_calculated(
        &self,
        public_key: &PublicKey,
        seed: &crypto::Hash,
        value: Option<BigInt>,
    ) -> (tx: Option<TxPublishVdfResult>)
        ensures
            tx is Some <==> value is Some,
            tx matches Some(result) ==> result@ == (VdfResult {
                pub_key: public_key@,
                seed: seed@,
                value: value->0@,
            }),
    {
        match value {
            Some(text) => Some(TxPublishVdfResult::new(public_key, seed, text.as_str())),
            None => None,
        }
    }
}

} // verus!
