//! Error codes of the service.

use vstd::prelude::*;
use vstd::string::StringExecFns;

verus! {

/// What a transaction of the service can fail with.
#[derive(Debug, Clone, Copy, PartialEq, Eq, Structural)]
pub enum Error {
    /// Not enough seed commitments. The code is kept for clients; no transaction gives
    /// it, since one that comes before the threshold is reached waits in silence.
    NotEnoughSeedCommitments,
}

impl Error {
    /// The code under which the error is reported.
    pub fn code(&self) -> (code: u8)
        ensures
            code == 1,
    {
        match self {
            Error::NotEnoughSeedCommitments => 1,
        }
    }

    /// The error in words.
    pub fn description(&self) -> (text: String)
        ensures
            text@ == "Not enough seed commitments."@,
    {
        match self {
            Error::NotEnoughSeedCommitments => String::from_str("Not enough seed commitments."),
        }
    }
}

} // verus!
