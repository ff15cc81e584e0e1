use core::mem::{align_of, size_of};

use miden_logic::digest::{Digest, Digest192, Digest256, Digest512};

#[test]
fn test_memory_layout_assumptions() {
    assert_eq!(size_of::<Digest<32>>(), size_of::<[u8; 32]>());
    assert_eq!(align_of::<Digest<32>>(), align_of::<[u8; 32]>());

    assert_eq!(size_of::<Digest<64>>(), size_of::<[u8; 64]>());
    assert_eq!(align_of::<Digest<64>>(), align_of::<[u8; 64]>());

    assert_eq!(size_of::<Digest<24>>(), size_of::<[u8; 24]>());
    assert_eq!(align_of::<Digest<24>>(), align_of::<[u8; 24]>());

    assert_eq!(size_of::<Digest192>(), 24);
    assert_eq!(size_of::<Digest256>(), 32);
    assert_eq!(size_of::<Digest512>(), 64);
}

#[test]
fn test_digest_default_32() {
    let digest = Digest::<32>::default();
    assert_eq!(digest.as_bytes(), &[0u8; 32]);
}

#[test]
fn test_digest_default_64() {
    let digest = Digest::<64>::default();
    assert_eq!(digest.as_bytes(), &[0u8; 64]);
}

#[test]
fn test_digest256_alias() {
    let digest = Digest256::default();
    assert_eq!(digest.as_bytes(), &[0u8; 32]);
}

#[test]
fn test_digest512_alias() {
    let digest = Digest512::default();
    assert_eq!(digest.as_bytes(), &[0u8; 64]);
}

#[test]
fn test_digest_from_bytes_32() {
    let bytes = [1u8; 32];
    let digest = Digest::<32>::from(bytes);
    assert_eq!(digest.as_bytes(), &bytes);
}

#[test]
fn test_digest_from_bytes_64() {
    let bytes = [1u8; 64];
    let digest = Digest::<64>::from(bytes);
    assert_eq!(digest.as_bytes(), &bytes);
}

#[test]
fn test_digest_hex_roundtrip_32() {
    let bytes = [0xab; 32];
    let digest = Digest::<32>::from(bytes);
    let hex: String = digest.into();
    let recovered = Digest::<32>::try_from(hex.as_str()).unwrap();
    assert_eq!(recovered.as_bytes(), &bytes);
}

#[test]
fn test_digest_hex_roundtrip_64() {
    let bytes = [0xcd; 64];
    let digest = Digest::<64>::from(bytes);
    let hex: String = digest.into();
    let recovered = Digest::<64>::try_from(hex.as_str()).unwrap();
    assert_eq!(recovered.as_bytes(), &bytes);
}

#[test]
fn test_digest_hex_roundtrip_24() {
    let bytes = [0xef; 24];
    let digest = Digest::<24>::from(bytes);
    let hex: String = digest.into();
    let recovered = Digest::<24>::try_from(hex.as_str()).unwrap();
    assert_eq!(recovered.as_bytes(), &bytes);
}

#[test]
fn test_digest_digests_as_bytes_32() {
    let d1 = Digest::<32>::from([1u8; 32]);
    let d2 = Digest::<32>::from([2u8; 32]);
    let digests = [d1, d2];
    let bytes = Digest::<32>::digests_as_bytes(&digests);
    assert_eq!(bytes.len(), 64);
    assert_eq!(&bytes[0..32], &[1u8; 32]);
    assert_eq!(&bytes[32..64], &[2u8; 32]);
}

#[test]
fn test_digest_digests_as_bytes_64() {
    let d1 = Digest::<64>::from([1u8; 64]);
    let d2 = Digest::<64>::from([2u8; 64]);
    let digests = [d1, d2];
    let bytes = Digest::<64>::digests_as_bytes(&digests);
    assert_eq!(bytes.len(), 128);
    assert_eq!(&bytes[0..64], &[1u8; 64]);
    assert_eq!(&bytes[64..128], &[2u8; 64]);
}

#[test]
fn hex_string_is_lowercase_with_prefix() {
    let digest = Digest::<2>::from([0xab, 0x01]);
    assert_eq!(digest.to_hex_string(), "0xab01");
}

use miden_logic::digest::HexParseError;

#[test]
fn hex_parse_errors() {
    assert_eq!(
        Digest::<2>::try_from("0xab").err(),
        Some(HexParseError::InvalidLength { expected: 6, actual: 4 })
    );
    assert_eq!(Digest::<2>::try_from("abcdef").err(), Some(HexParseError::MissingPrefix));
    assert_eq!(Digest::<2>::try_from("0xabcg").err(), Some(HexParseError::InvalidChar));
}

#[test]
fn hex_decoding_accepts_uppercase() {
    let d = Digest::<2>::try_from("0xABcd").unwrap();
    assert_eq!(d.as_bytes(), &[0xab, 0xcd]);
}

#[test]
fn digest_converts_back_to_bytes() {
    let bytes: [u8; 3] = Digest::new([4, 5, 6]).into();
    assert_eq!(bytes, [4, 5, 6]);
}
