use exonum_rng::blockchain::ToHash;
use exonum_rng::crypto;
use exonum_rng::crypto::{PublicKey, HASH_SIZE, PUBLIC_KEY_LENGTH};

#[test]
fn hash_of_the_empty_string() {
    assert_eq!(
        crypto::hash(b"").to_hex(),
        "e3b0c44298fc1c149afbf4c8996fb92427ae41e4649b934ca495991b7852b855"
    );
}

#[test]
fn hash_of_abc() {
    assert_eq!(
        crypto::hash(b"abc").to_hex(),
        "ba7816bf8f01cfea414140de5dae2223b00361a396177a9cb410ff61f20015ad"
    );
    assert_eq!(
        crypto::hash(b"abc").to_bytes()[..4],
        [0xba, 0x78, 0x16, 0xbf]
    );
}

#[test]
fn hash_differs_from_its_input() {
    let input = [7u8; 32];
    assert_ne!(crypto::hash(&input).to_bytes(), input);
}

#[test]
fn text_is_hashed_by_its_utf8_bytes() {
    assert_eq!("abc".to_hash(), crypto::hash(b"abc"));
    assert_eq!("abc".to_owned().to_hash(), crypto::hash(b"abc"));
    assert_eq!(
        "\u{e9}".to_hash().to_hex(),
        "4a99557e4033c3539de2eb65472017cad5f9557f7a0625a09f1c3f6e2ba69c4c"
    );
}

#[test]
fn hex_has_two_lower_case_digits_per_byte() {
    let mut bytes = [0u8; 32];
    bytes[0] = 0x0f;
    bytes[1] = 0xa0;
    bytes[31] = 0xff;
    let hex = crypto::Hash::new(bytes).to_hex();
    assert_eq!(hex.len(), 64);
    assert_eq!(&hex[..4], "0fa0");
    assert_eq!(&hex[62..], "ff");
    assert_eq!(&hex[4..62], "0".repeat(58));
    assert_eq!(PublicKey::new(bytes).to_hex(), hex);
}

#[test]
fn zero_hash_is_all_zero() {
    assert_eq!(crypto::Hash::zero().to_bytes(), [0u8; 32]);
    assert_eq!(crypto::Hash::zero().to_hex(), "0".repeat(64));
}

#[test]
fn hashes_are_equal_when_their_bytes_are() {
    let mut bytes = [3u8; 32];
    let first = crypto::Hash::new(bytes);
    assert_eq!(first, crypto::Hash::new([3u8; 32]));
    bytes[31] = 4;
    assert_ne!(first, crypto::Hash::new(bytes));
    bytes[31] = 3;
    bytes[0] = 4;
    assert_ne!(first, crypto::Hash::new(bytes));
}

#[test]
fn keys_are_equal_when_their_bytes_are() {
    let mut bytes = [3u8; 32];
    let first = PublicKey::new(bytes);
    assert_eq!(first, PublicKey::new([3u8; 32]));
    bytes[16] = 4;
    assert_ne!(first, PublicKey::new(bytes));
    assert_eq!(PublicKey::new(bytes).to_bytes(), bytes);
}

#[test]
fn a_slice_of_another_length_is_no_hash() {
    assert_eq!(HASH_SIZE, 32);
    assert_eq!(PUBLIC_KEY_LENGTH, 32);
    assert_eq!(crypto::Hash::from_slice(&[1u8; 31]), None);
    assert_eq!(crypto::Hash::from_slice(&[1u8; 33]), None);
    assert_eq!(crypto::Hash::from_slice(&[]), None);
    assert_eq!(crypto::Hash::from_slice(&[1u8; 32]), Some(crypto::Hash::new([1u8; 32])));
    assert_eq!(PublicKey::from_slice(&[1u8; 31]), None);
    assert_eq!(PublicKey::from_slice(&[1u8; 33]), None);
    let mut bytes = [0u8; 32];
    for (i, byte) in bytes.iter_mut().enumerate() {
        *byte = i as u8;
    }
    assert_eq!(PublicKey::from_slice(&bytes).unwrap().to_bytes(), bytes);
}
