//! The replicated state of the service and the transactions that change it.

pub mod errors;
pub mod round;
pub mod schema;
pub mod transactions;

use crate::crypto;
use crate::crypto::sha256;
use vstd::prelude::*;
use vstd::utf8::encode_utf8;

verus! {

/// Texts that can be hashed: the hash is that of the text's UTF-8 bytes.
pub trait ToHash {
    /// The text that is hashed.
    spec fn text(&self) -> Seq<char>;

    /// The hash of the text's bytes.
    fn to_hash(&self) -> (h: crypto::Hash)
        ensures
            h@ == sha256(encode_utf8(self.text())),
    ;
}

impl ToHash for String {
    open spec fn text(&self) -> Seq<char> {
        self@
    }

    fn to_hash(&self) -> (h: crypto::Hash) {
        crypto::hash(self.as_str().as_bytes())
    }
}

impl<'a> ToHash for &'a str {
    open spec fn text(&self) -> Seq<char> {
        self@
    }

    fn to_hash(&self) -> (h: crypto::Hash) {
        crypto::hash(self.as_bytes())
    }
}

} // verus!
