//! A randomness service for a network of validators.
//!
//! In each round the validators commit to numbers of their choice. Once a supermajority has
//! committed, the commitments give the round its seed, and each validator evaluates a
//! verifiable delay function on it. Once a supermajority has reported results that the
//! verifier of the delay function accepts, the hash of the last of them is the new random
//! value, and the next round begins.
//!
//! The library holds the state of a round, the transactions that change it and what a
//! validator does after each block. It neither evaluates nor verifies the delay function:
//! it says when to evaluate it, and takes the verifier's verdict as it is given.

pub mod blockchain;
pub mod crypto;
pub mod rng;
pub mod service;

pub use service::{ExonumRngService, SERVICE_ID, SERVICE_NAME};
