//! Derivation of a round's seed from the validators' commitments, and the validity of
//! VDF values.

use crate::blockchain::schema::BigInt;
use crate::crypto;
use crate::crypto::sha256;
use vstd::prelude::*;
use vstd::relations::{sorted_by, total_ordering};
use vstd::seq_lib::{
    lemma_sorted_unique, to_multiset_contains, to_multiset_insert, to_multiset_remove,
};
use vstd::string::StringExecFns;
use vstd::utf8::{encode_utf8, encode_utf8_decode_utf8};

verus! {

/// Number of sequential steps that an evaluation of the delay function takes. Every
/// validator must use the same value.
pub const VDF_DIFFICULTY: u64 = 8096 * 16;

/// Lexicographic order on byte strings: the first byte that differs decides, and a proper
/// prefix comes before what it is a prefix of.
pub open spec fn bytes_le(a: Seq<u8>, b: Seq<u8>) -> bool
    decreases a.len(),
{
    if a.len() == 0 {
        true
    } else if b.len() == 0 {
        false
    } else if a[0] != b[0] {
        a[0] < b[0]
    } else {
        bytes_le(a.drop_first(), b.drop_first())
    }
}

/// Order of commitments: lexicographic on their UTF-8 bytes.
pub open spec fn commitment_le(a: Seq<char>, b: Seq<char>) -> bool {
    bytes_le(encode_utf8(a), encode_utf8(b))
}

/// The order of commitments as a relation.
pub open spec fn commitment_order() -> spec_fn(Seq<char>, Seq<char>) -> bool {
    |a: Seq<char>, b: Seq<char>| commitment_le(a, b)
}

/// The texts of a sequence of strings.
pub open spec fn texts(values: Seq<String>) -> Seq<Seq<char>> {
    values.map_values(|value: String| value@)
}

/// The commitments in ascending order.
pub open spec fn sorted_commitments(values: Seq<Seq<char>>) -> Seq<Seq<char>> {
    values.sort_by(commitment_order())
}

/// The seed that a sequence of commitments gives: the hash of the bytes of their
/// concatenation, in the order given and with nothing between them.
pub open spec fn combined_seed(commitments: Seq<Seq<char>>) -> Seq<u8> {
    sha256(encode_utf8(commitments.flatten()))
}

/// Every byte string comes before itself or is equal to it.
proof fn lemma_bytes_le_reflexive(a: Seq<u8>)
    ensures
        bytes_le(a, a),
    decreases a.len(),
{
    if a.len() > 0 {
        lemma_bytes_le_reflexive(a.drop_first());
    }
}

/// Byte strings that come before each other are the same.
proof fn lemma_bytes_le_antisymmetric(a: Seq<u8>, b: Seq<u8>)
    requires
        bytes_le(a, b),
        bytes_le(b, a),
    ensures
        a == b,
    decreases a.len(),
{
    if a.len() == 0 || b.len() == 0 {
        assert(a =~= b);
    } else {
        lemma_bytes_le_antisymmetric(a.drop_first(), b.drop_first());
        assert(a =~= seq![a[0]] + a.drop_first());
        assert(b =~= seq![b[0]] + b.drop_first());
    }
}

/// What comes before something that comes before a third comes before the third.
proof fn lemma_bytes_le_transitive(a: Seq<u8>, b: Seq<u8>, c: Seq<u8>)
    requires
        bytes_le(a, b),
        bytes_le(b, c),
    ensures
        bytes_le(a, c),
    decreases a.len(),
{
    if a.len() > 0 && a[0] == b[0] && b[0] == c[0] {
        lemma_bytes_le_transitive(a.drop_first(), b.drop_first(), c.drop_first());
    }
}

/// Of two byte strings one comes before the other.
proof fn lemma_bytes_le_connected(a: Seq<u8>, b: Seq<u8>)
    ensures
        bytes_le(a, b) || bytes_le(b, a),
    decreases a.len(),
{
    if a.len() > 0 && b.len() > 0 && a[0] == b[0] {
        lemma_bytes_le_connected(a.drop_first(), b.drop_first());
    }
}

/// The order of commitments is total: any two commitments compare, and two that compare
/// both ways are the same text.
pub proof fn lemma_commitment_order_total()
    ensures
        total_ordering(commitment_order()),
{
    let order = commitment_order();
    assert forall|x: Seq<char>| #[trigger] order(x, x) by {
        lemma_bytes_le_reflexive(encode_utf8(x));
    }
    assert forall|x: Seq<char>, y: Seq<char>| #[trigger] order(x, y) && #[trigger] order(y, x)
        implies x == y by {
        lemma_bytes_le_antisymmetric(encode_utf8(x), encode_utf8(y));
        encode_utf8_decode_utf8(x);
        encode_utf8_decode_utf8(y);
    }
    assert forall|x: Seq<char>, y: Seq<char>, z: Seq<char>| #[trigger]
        order(x, y) && #[trigger] order(y, z) implies order(x, z) by {
        lemma_bytes_le_transitive(encode_utf8(x), encode_utf8(y), encode_utf8(z));
    }
    assert forall|x: Seq<char>, y: Seq<char>| #[trigger] order(x, y) || #[trigger] order(y, x) by {
        lemma_bytes_le_connected(encode_utf8(x), encode_utf8(y));
    }
}

/// Sorting is the only way to bring commitments into ascending order: an ascending
/// sequence that holds each commitment as often as `values` does is `values` sorted.
pub proof fn lemma_sorted_commitments_unique(values: Seq<Seq<char>>, ascending: Seq<Seq<char>>)
    requires
        sorted_by(ascending, commitment_order()),
        ascending.to_multiset() == values.to_multiset(),
    ensures
        ascending == sorted_commitments(values),
{
    lemma_commitment_order_total();
    values.lemma_sort_by_ensures(commitment_order());
    lemma_sorted_unique(ascending, sorted_commitments(values), commitment_order());
}

/// The seed of sorted commitments does not depend on the order in which they arrived:
/// sequences that hold the same commitments, each as often, give the same seed.
pub proof fn lemma_seed_ignores_arrival_order(first: Seq<Seq<char>>, second: Seq<Seq<char>>)
    requires
        first.to_multiset() == second.to_multiset(),
    ensures
        sorted_commitments(first) == sorted_commitments(second),
        combined_seed(sorted_commitments(first)) == combined_seed(sorted_commitments(second)),
{
    lemma_commitment_order_total();
    first.lemma_sort_by_ensures(commitment_order());
    lemma_sorted_commitments_unique(second, sorted_commitments(first));
}

/// Whether commitment `a` comes before `b` or is equal to it.
pub fn commitment_precedes(a: &str, b: &str) -> (le: bool)
    ensures
        le == commitment_le(a@, b@),
{
    let x = a.as_bytes();
    let y = b.as_bytes();
    let mut i: usize = 0;
    assert(x@.skip(0) =~= x@ && y@.skip(0) =~= y@);
    while i < x.len() && i < y.len() && x[i] == y[i]
        invariant
            i <= x@.len(),
            i <= y@.len(),
            bytes_le(x@, y@) == bytes_le(x@.skip(i as int), y@.skip(i as int)),
        decreases x@.len() - i,
    {
        assert(x@.skip(i as int).drop_first() =~= x@.skip(i as int + 1));
        assert(y@.skip(i as int).drop_first() =~= y@.skip(i as int + 1));
        i += 1;
    }
    if i == x.len() {
        true
    } else if i == y.len() {
        false
    } else {
        x[i] < y[i]
    }
}

/// Sorts commitments in place into ascending order.
pub fn sort_commitments(values: &mut Vec<BigInt>)
    ensures
        texts(final(values)@) == sorted_commitments(texts(old(values)@)),
        sorted_by(texts(final(values)@), commitment_order()),
        texts(final(values)@).to_multiset() == texts(old(values)@).to_multiset(),
{
    let ghost order = commitment_order();
    proof {
        lemma_commitment_order_total();
    }
    let mut i: usize = 0;
    while i < values.len()
        invariant
            i <= values@.len(),
            order == commitment_order(),
            total_ordering(order),
            sorted_by(texts(values@).take(i as int), order),
            texts(values@).to_multiset() == texts(old(values)@).to_multiset(),
        decreases values@.len() - i,
    {
        let ghost before = values@;
        let value = values.remove(i);
        let ghost rest = values@;
        let mut at: usize = 0;
        while at < i && commitment_precedes(values[at].as_str(), value.as_str())
            invariant
                at <= i,
                i <= values@.len(),
                values@ == rest,
                order == commitment_order(),
                forall|j: int| 0 <= j < at ==> order(#[trigger] texts(rest)[j], value@),
            decreases i - at,
        {
            assert(texts(rest)[at as int] == values@[at as int]@);
            at += 1;
        }
        values.insert(at, value);
        proof {
            let moved = texts(before)[i as int];
            assert(texts(rest) =~= texts(before).remove(i as int));
            assert(texts(values@) =~= texts(rest).insert(at as int, moved));
            assert(texts(values@).to_multiset() =~= texts(before).to_multiset()) by {
                broadcast use vstd::multiset::group_multiset_axioms;

                to_multiset_remove(texts(before), i as int);
                to_multiset_insert(texts(rest), at as int, moved);
                to_multiset_contains(texts(before), moved);
                assert(texts(before).contains(moved));
            }
            let prefix = texts(values@).take(i as int + 1);
            assert forall|j: int, k: int| 0 <= j < k < prefix.len() implies #[trigger] order(
                prefix[j],
                prefix[k],
            ) by {
                if k < at {
                    assert(prefix[j] == texts(before).take(i as int)[j]);
                    assert(prefix[k] == texts(before).take(i as int)[k]);
                } else if k == at {
                    assert(prefix[j] == texts(rest)[j]);
                } else if j < at {
                    assert(prefix[j] == texts(before).take(i as int)[j]);
                    assert(prefix[k] == texts(before).take(i as int)[k - 1]);
                } else if j == at {
                    assert(!order(texts(rest)[at as int], moved));
                    assert(order(moved, texts(rest)[at as int]));
                    assert(texts(rest)[at as int] == texts(before).take(i as int)[at as int]);
                    assert(prefix[k] == texts(before).take(i as int)[k - 1]);
                    if at as int != k - 1 {
                        assert(order(
                            texts(before).take(i as int)[at as int],
                            texts(before).take(i as int)[k - 1],
                        ));
                    }
                } else {
                    assert(prefix[j] == texts(before).take(i as int)[j - 1]);
                    assert(prefix[k] == texts(before).take(i as int)[k - 1]);
                }
            }
        }
        i += 1;
    }
    proof {
        assert(texts(values@).take(values@.len() as int) =~= texts(values@));
        lemma_sorted_commitments_unique(texts(old(values)@), texts(values@));
    }
}

/// Calculates the combined seed: the hash of the commitments' concatenation,
/// `seed = hash(c1 || c2 || ... || cn)`.
pub fn calculate_combined_seed(commitments: &[BigInt]) -> (seed: crypto::Hash)
    ensures
        seed@ == combined_seed(texts(commitments@)),
{
    let mut combined = String::new();
    let mut i: usize = 0;
    while i < commitments.len()
        invariant
            i <= commitments@.len(),
            combined@ == texts(commitments@).take(i as int).flatten(),
        decreases commitments@.len() - i,
    {
        combined.append(commitments[i].as_str());
        proof {
            let done = texts(commitments@).take(i as int);
            assert(texts(commitments@).take(i as int + 1) =~= done.push(commitments@[i as int]@));
            done.lemma_flatten_push(commitments@[i as int]@);
        }
        i += 1;
    }
    assert(texts(commitments@).take(commitments@.len() as int) =~= texts(commitments@));
    crypto::hash(combined.as_str().as_bytes())
}

/// The value of a byte as a digit: `0` to `9` are 0 to 9, and the letters, small or
/// capital, go on from 10. A byte that is no digit has the value 36, above the digits of
/// every base.
pub open spec fn digit_value(byte: u8) -> int {
    if 0x30 <= byte <= 0x39 {
        byte - 0x30
    } else if 0x61 <= byte <= 0x7a {
        byte - 0x61 + 10
    } else if 0x41 <= byte <= 0x5a {
        byte - 0x41 + 10
    } else {
        36
    }
}

/// Whether a byte is ASCII white space: a space, a tab, a line feed, a vertical tab, a
/// form feed or a carriage return.
pub open spec fn is_white_space(byte: u8) -> bool {
    byte == 0x20 || (0x09 <= byte <= 0x0d)
}

/// Whether the rest of a text completes an integer in base `radix`, where `has_sign`
/// says that a sign has been read and `has_digits` that a digit has.
///
/// One sign, `+` or `-`, may come before the first digit. White space is passed over
/// wherever it stands, and so is an underscore after the first digit. Every other byte
/// must be a digit of the base, and there must be a digit.
pub open spec fn completes_integer(rest: Seq<u8>, radix: int, has_sign: bool, has_digits: bool) -> bool
    decreases rest.len(),
{
    if rest.len() == 0 {
        has_digits
    } else if (rest[0] == 0x2b || rest[0] == 0x2d) && !has_sign && !has_digits {
        completes_integer(rest.drop_first(), radix, true, false)
    } else if (rest[0] == 0x5f && has_digits) || is_white_space(rest[0]) {
        completes_integer(rest.drop_first(), radix, has_sign, has_digits)
    } else {
        digit_value(rest[0]) < radix && completes_integer(rest.drop_first(), radix, has_sign, true)
    }
}

/// Whether a text is an integer in base `radix`, of any size.
pub open spec fn is_integer_text(text: Seq<char>, radix: int) -> bool {
    completes_integer(encode_utf8(text), radix, false, false)
}

/// Whether a VDF value counts as valid: it is an integer in decimal, and the verifier,
/// which is handed the seed and the value as integers, accepts.
pub open spec fn vdf_is_valid(value: Seq<char>, verified: bool) -> bool {
    is_integer_text(value, 10) && verified
}

/// Whether `rug::Integer::from_str_radix` reads `text` as an integer in base `radix`. The
/// contract states what texts it reads, as its parser goes through them byte by byte; it
/// leaves out the bases for which the function panics.
#[verifier::external_body]
fn reads_as_integer(text: &str, radix: i32) -> (ok: bool)
    requires
        2 <= radix <= 36,
    ensures
        ok == is_integer_text(text@, radix as int),
{
    rug::Integer::from_str_radix(text, radix).is_ok()
}

/// Validates a VDF value against the provided seed.
///
/// The seed is read as an integer from its hexadecimal rendering, which never fails, and
/// the value as an integer in decimal. `verified` is the verdict of the VDF verifier on
/// these integers, with [`VDF_DIFFICULTY`] steps; it counts only where both were read.
/// Verification is much faster than calculation, so a transaction can wait for it.
pub fn validate_vdf(seed: &crypto::Hash, value: &BigInt, verified: bool) -> (valid: bool)
    ensures
        valid == vdf_is_valid(value@, verified),
{
    proof {
        seed.lemma_len();
        lemma_hex_is_integer_text(seed@);
    }
    let seed = reads_as_integer(seed.to_hex().as_str(), 16);
    let value = reads_as_integer(value.as_str(), 10);

    if seed {
        if value {
            return verified;
        }
    }
    false
}

/// Whether a character is a digit of base `radix`.
pub open spec fn is_digit_of(character: char, radix: int) -> bool {
    &&& ('0' <= character <= '9') || ('a' <= character <= 'z') || ('A' <= character <= 'Z')
    &&& digit_value(character as u8) < radix
}

/// A text of digits of the base, and of nothing else, is an integer as soon as there is
/// a digit.
pub proof fn lemma_digits_are_integer_text(text: Seq<char>, radix: int)
    requires
        text.len() > 0,
        forall|i: int| 0 <= i < text.len() ==> is_digit_of(#[trigger] text[i], radix),
    ensures
        is_integer_text(text, radix),
{
    assert forall|i: int| 0 <= i < text.len() implies '\0' <= #[trigger] text[i] <= '\u{7f}' by {
        assert(is_digit_of(text[i], radix));
    }
    assert(vstd::utf8::is_ascii_chars(text));
    vstd::utf8::is_ascii_chars_encode_utf8(text);
    let encoded = encode_utf8(text);
    assert forall|i: int| 0 <= i < encoded.len() implies digit_value(#[trigger] encoded[i]) < 36
        && digit_value(encoded[i]) < radix by {
        assert(is_digit_of(text[i], radix));
        assert(text[i] as u8 == encoded[i]);
    }
    lemma_digits_complete_integer(encoded, radix, false);
}

/// The hexadecimal rendering of bytes is an integer in base 16 as soon as there is a
/// byte, so that the seed of a VDF value is always read.
pub proof fn lemma_hex_is_integer_text(bytes: Seq<u8>)
    requires
        bytes.len() > 0,
    ensures
        is_integer_text(crypto::hex_digits(bytes), 16),
{
    let hex = crypto::hex_digits(bytes);
    assert forall|i: int| 0 <= i < hex.len() implies is_digit_of(#[trigger] hex[i], 16) by {
        let byte = bytes[i / 2];
        assert(0 <= byte as int / 16 < 16 && 0 <= byte as int % 16 < 16);
    }
    lemma_digits_are_integer_text(hex, 16);
}

/// Bytes that are digits complete an integer, provided that a digit has been read or is
/// still to come.
proof fn lemma_digits_complete_integer(rest: Seq<u8>, radix: int, has_digits: bool)
    requires
        forall|i: int| 0 <= i < rest.len() ==> digit_value(#[trigger] rest[i]) < 36,
        forall|i: int| 0 <= i < rest.len() ==> digit_value(#[trigger] rest[i]) < radix,
    ensures
        completes_integer(rest, radix, false, has_digits) == (has_digits || rest.len() > 0),
    decreases rest.len(),
{
    if rest.len() > 0 {
        assert(digit_value(rest[0]) < 36);
        assert forall|i: int| 0 <= i < rest.drop_first().len() implies digit_value(
            #[trigger] rest.drop_first()[i],
        ) < 36 && digit_value(rest.drop_first()[i]) < radix by {
            assert(rest.drop_first()[i] == rest[i + 1]);
        }
        lemma_digits_complete_integer(rest.drop_first(), radix, true);
    }
}

} // verus!
