//! Fixed-width byte values of the service: hashes and validator keys.

use sha2::Digest;
use vstd::prelude::*;
use vstd::string::StringExecFns;

verus! {

/// Number of bytes in a [`Hash`].
pub const HASH_SIZE: usize = 32;

/// Number of bytes in a [`PublicKey`].
pub const PUBLIC_KEY_LENGTH: usize = 32;

/// The SHA-256 digest of a byte string: 32 bytes.
pub uninterp spec fn sha256(data: Seq<u8>) -> Seq<u8>;

/// Thirty-two zero bytes: what stands for the hash of a cell that holds nothing.
pub open spec fn zero_bytes() -> Seq<u8> {
    Seq::new(32, |i: int| 0u8)
}

/// The lower-case hexadecimal digit of a value below sixteen.
pub open spec fn hex_char(nibble: int) -> char {
    if nibble == 0 {
        '0'
    } else if nibble == 1 {
        '1'
    } else if nibble == 2 {
        '2'
    } else if nibble == 3 {
        '3'
    } else if nibble == 4 {
        '4'
    } else if nibble == 5 {
        '5'
    } else if nibble == 6 {
        '6'
    } else if nibble == 7 {
        '7'
    } else if nibble == 8 {
        '8'
    } else if nibble == 9 {
        '9'
    } else if nibble == 10 {
        'a'
    } else if nibble == 11 {
        'b'
    } else if nibble == 12 {
        'c'
    } else if nibble == 13 {
        'd'
    } else if nibble == 14 {
        'e'
    } else {
        'f'
    }
}

/// The hexadecimal rendering of a byte string: two lower-case digits per byte, the high
/// half first.
pub open spec fn hex_digits(bytes: Seq<u8>) -> Seq<char> {
    Seq::new(
        2 * bytes.len(),
        |i: int|
            if i % 2 == 0 {
                hex_char(bytes[i / 2] as int / 16)
            } else {
                hex_char(bytes[i / 2] as int % 16)
            },
    )
}

/// Whether two arrays hold the same bytes.
fn same_bytes(a: &[u8; 32], b: &[u8; 32]) -> (same: bool)
    ensures
        same == (a@ == b@),
{
    let mut i: usize = 0;
    while i < 32
        invariant
            i <= 32,
            forall|j: int| 0 <= j < i ==> a@[j] == b@[j],
        decreases 32 - i,
    {
        if a[i] != b[i] {
            return false;
        }
        i += 1;
    }
    assert(a@ =~= b@);
    true
}

/// Copies a slice of exactly 32 bytes into an array.
fn array_of(bytes: &[u8]) -> (array: [u8; 32])
    requires
        bytes@.len() == 32,
    ensures
        array@ == bytes@,
{
    let mut array = [0u8; 32];
    let mut i: usize = 0;
    while i < 32
        invariant
            i <= 32,
            bytes@.len() == 32,
            forall|j: int| 0 <= j < i ==> array@[j] == bytes@[j],
        decreases 32 - i,
    {
        array[i] = bytes[i];
        i += 1;
    }
    assert(array@ =~= bytes@);
    array
}

/// The one-digit string of a value below sixteen.
fn hex_digit(nibble: u8) -> (digit: &'static str)
    requires
        nibble < 16,
    ensures
        digit@ == seq![hex_char(nibble as int)],
{
    proof {
        reveal_strlit("0");
        reveal_strlit("1");
        reveal_strlit("2");
        reveal_strlit("3");
        reveal_strlit("4");
        reveal_strlit("5");
        reveal_strlit("6");
        reveal_strlit("7");
        reveal_strlit("8");
        reveal_strlit("9");
        reveal_strlit("a");
        reveal_strlit("b");
        reveal_strlit("c");
        reveal_strlit("d");
        reveal_strlit("e");
        reveal_strlit("f");
    }
    let digit = match nibble {
        0 => "0",
        1 => "1",
        2 => "2",
        3 => "3",
        4 => "4",
        5 => "5",
        6 => "6",
        7 => "7",
        8 => "8",
        9 => "9",
        10 => "a",
        11 => "b",
        12 => "c",
        13 => "d",
        14 => "e",
        _ => "f",
    };
    assert(digit@ =~= seq![hex_char(nibble as int)]);
    digit
}

/// Renders 32 bytes in hexadecimal.
fn hex_of(bytes: &[u8; 32]) -> (hex: String)
    ensures
        hex@ == hex_digits(bytes@),
{
    let mut hex = String::new();
    let mut i: usize = 0;
    while i < 32
        invariant
            i <= 32,
            hex@ == hex_digits(bytes@.take(i as int)),
        decreases 32 - i,
    {
        let byte = bytes[i];
        hex.append(hex_digit(byte / 16));
        hex.append(hex_digit(byte % 16));
        assert(hex@ =~= hex_digits(bytes@.take(i as int + 1)));
        i += 1;
    }
    assert(bytes@.take(32) =~= bytes@);
    hex
}

/// SHA-256 of `data`, computed by `sha2::Sha256::digest`. The contract gives the digest its
/// name; that it has 32 bytes is the width of the outside function's result.
#[verifier::external_body]
fn sha256_digest(data: &[u8]) -> (digest: [u8; 32])
    ensures
        digest@ == sha256(data@),
{
    let mut digest = [0u8; 32];
    digest.copy_from_slice(sha2::Sha256::digest(data).as_slice());
    digest
}

/// A hash: the 32 bytes of a SHA-256 digest.
#[derive(Clone, Copy, Debug)]
pub struct Hash {
    bytes: [u8; 32],
}

impl View for Hash {
    type V = Seq<u8>;

    closed spec fn view(&self) -> Seq<u8> {
        self.bytes@
    }
}

impl Hash {
    /// Wraps 32 bytes as a hash value.
    pub fn new(bytes: [u8; 32]) -> (h: Hash)
        ensures
            h@ == bytes@,
    {
        Hash { bytes }
    }

    /// The hash whose bytes are all zero.
    pub fn zero() -> (h: Hash)
        ensures
            h@ == zero_bytes(),
    {
        let h = Hash { bytes: [0u8; 32] };
        assert(h@ =~= zero_bytes());
        h
    }

    /// Reads a hash from a slice; there is none where the slice does not hold exactly 32
    /// bytes.
    pub fn from_slice(bytes: &[u8]) -> (h: Option<Hash>)
        ensures
            h is Some <==> bytes@.len() == 32,
            h matches Some(hash) ==> hash@ == bytes@,
    {
        if bytes.len() == 32 {
            Some(Hash { bytes: array_of(bytes) })
        } else {
            None
        }
    }

    /// The bytes of the hash.
    pub fn to_bytes(&self) -> (bytes: [u8; 32])
        ensures
            bytes@ == self@,
    {
        self.bytes
    }

    /// The hash in hexadecimal: 64 lower-case digits.
    pub fn to_hex(&self) -> (hex: String)
        ensures
            hex@ == hex_digits(self@),
    {
        hex_of(&self.bytes)
    }

    /// A hash holds 32 bytes.
    pub proof fn lemma_len(self)
        ensures
            self@.len() == 32,
    {
    }

    /// Two hashes with the same bytes are the same hash.
    pub proof fn lemma_same_bytes(self, other: Hash)
        requires
            self@ == other@,
        ensures
            self == other,
    {
        assert(self.bytes@ =~= other.bytes@);
        assert(self.bytes == other.bytes);
    }
}

impl PartialEq for Hash {
    fn eq(&self, other: &Hash) -> (same: bool) {
        same_bytes(&self.bytes, &other.bytes)
    }
}

impl vstd::std_specs::cmp::PartialEqSpecImpl for Hash {
    open spec fn obeys_eq_spec() -> bool {
        true
    }

    open spec fn eq_spec(&self, other: &Hash) -> bool {
        self@ == other@
    }
}

impl Eq for Hash {

}

/// The long-lived key by which a validator is known.
#[derive(Clone, Copy, Debug)]
pub struct PublicKey {
    bytes: [u8; 32],
}

impl View for PublicKey {
    type V = Seq<u8>;

    closed spec fn view(&self) -> Seq<u8> {
        self.bytes@
    }
}

impl PublicKey {
    /// Wraps 32 bytes as a public key.
    pub fn new(bytes: [u8; 32]) -> (key: PublicKey)
        ensures
            key@ == bytes@,
    {
        PublicKey { bytes }
    }

    /// Reads a key from a slice; there is none where the slice does not hold exactly 32
    /// bytes.
    pub fn from_slice(bytes: &[u8]) -> (key: Option<PublicKey>)
        ensures
            key is Some <==> bytes@.len() == 32,
            key matches Some(k) ==> k@ == bytes@,
    {
        if bytes.len() == 32 {
            Some(PublicKey { bytes: array_of(bytes) })
        } else {
            None
        }
    }

    /// The bytes of the key.
    pub fn to_bytes(&self) -> (bytes: [u8; 32])
        ensures
            bytes@ == self@,
    {
        self.bytes
    }

    /// The key in hexadecimal: 64 lower-case digits.
    pub fn to_hex(&self) -> (hex: String)
        ensures
            hex@ == hex_digits(self@),
    {
        hex_of(&self.bytes)
    }

    /// A key holds 32 bytes.
    pub proof fn lemma_len(self)
        ensures
            self@.len() == 32,
    {
    }

    /// Two keys with the same bytes are the same key.
    pub proof fn lemma_same_bytes(self, other: PublicKey)
        requires
            self@ == other@,
        ensures
            self == other,
    {
        assert(self.bytes@ =~= other.bytes@);
        assert(self.bytes == other.bytes);
    }
}

impl PartialEq for PublicKey {
    fn eq(&self, other: &PublicKey) -> (same: bool) {
        same_bytes(&self.bytes, &other.bytes)
    }
}

impl vstd::std_specs::cmp::PartialEqSpecImpl for PublicKey {
    open spec fn obeys_eq_spec() -> bool {
        true
    }

    open spec fn eq_spec(&self, other: &PublicKey) -> bool {
        self@ == other@
    }
}

impl Eq for PublicKey {

}

/// Hashes a byte string with SHA-256.
pub fn hash(data: &[u8]) -> (h: Hash)
    ensures
        h@ == sha256(data@),
{
    Hash { bytes: sha256_digest(data) }
}

} // verus!
