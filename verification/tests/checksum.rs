use bzipper::checksum::Checksum;
use bzipper::deserialise::{DStream, Deserialise};
use bzipper::error::Error;
use bzipper::serialise::SStream;
use sha2::{Digest, Sha256};

const EMPTY_DIGEST: [u8; 32] = [
    0xe3, 0xb0, 0xc4, 0x42, 0x98, 0xfc, 0x1c, 0x14, 0x9a, 0xfb, 0xf4, 0xc8, 0x99, 0x6f, 0xb9, 0x24,
    0x27, 0xae, 0x41, 0xe4, 0x64, 0x9b, 0x93, 0x4c, 0xa4, 0x95, 0x99, 0x1b, 0x78, 0x52, 0xb8, 0x55,
];

const A_DIGEST: [u8; 32] = [
    0xca, 0x97, 0x81, 0x12, 0xca, 0x1b, 0xbd, 0xca, 0xfa, 0xc2, 0x31, 0xb3, 0x9a, 0x23, 0xdc, 0x4d,
    0xa7, 0x86, 0xef, 0xf8, 0x14, 0x7c, 0x4e, 0x72, 0xb9, 0x80, 0x77, 0x85, 0xaf, 0xee, 0x48, 0xbb,
];

const ABC_DIGEST: [u8; 32] = [
    0xba, 0x78, 0x16, 0xbf, 0x8f, 0x01, 0xcf, 0xea, 0x41, 0x41, 0x40, 0xde, 0x5d, 0xae, 0x22, 0x23,
    0xb0, 0x03, 0x61, 0xa3, 0x96, 0x17, 0x7a, 0x9c, 0xb4, 0x10, 0xff, 0x61, 0xf2, 0x00, 0x15, 0xad,
];

#[test]
fn checksum_is_sha256_of_the_encoding() {
    assert_eq!(Checksum::new(&()).as_bytes(), &EMPTY_DIGEST);
    assert_eq!(Checksum::new(&0x61u8).as_bytes(), &A_DIGEST);
    assert_eq!(Checksum::new(&'a').as_bytes() == &A_DIGEST, false);
}

#[test]
fn checksum_agrees_with_the_hash_primitive() {
    let value: Option<[i16; 2]> = Some([-3, 500]);
    let bytes = SStream::from_value(&value).into_vec();
    let digest: [u8; 32] = Sha256::digest(&bytes).into();
    assert_eq!(Checksum::new(&value).as_bytes(), &digest);
    assert_ne!(Checksum::new(&value).as_bytes().to_vec(), bytes);
}

#[test]
fn checksum_is_deterministic_and_tells_values_apart() {
    assert_eq!(Checksum::new(&7u32), Checksum::new(&7u32));
    assert_ne!(Checksum::new(&7u32), Checksum::new(&8u32));
    assert_ne!(Checksum::new(&7u32), Checksum::new(&7u64));
    assert_eq!(Checksum::new(&()), Checksum::from_bytes(EMPTY_DIGEST));
}

#[test]
fn checksum_equality_is_exact() {
    let sum = Checksum::from_bytes(ABC_DIGEST);
    for i in 0..32 {
        let mut bytes = ABC_DIGEST;
        bytes[i] ^= 0x01;
        assert_ne!(Checksum::from_bytes(bytes), sum);
    }
    assert_eq!(Checksum::from_bytes(ABC_DIGEST), sum);
}

#[test]
fn checksum_wire_form_is_the_raw_bytes() {
    let sum = Checksum::from_bytes(ABC_DIGEST);
    assert_eq!(SStream::from_value(&sum).into_vec(), ABC_DIGEST.to_vec());
    let mut bytes = ABC_DIGEST.to_vec();
    bytes.push(0xEE);
    let mut stream = DStream::new(&bytes);
    assert_eq!(Checksum::deserialise(&mut stream).unwrap(), sum);
    assert_eq!(stream.remaining(), 1);
}

#[test]
fn checksum_needs_all_32_bytes() {
    let mut stream = DStream::new(&ABC_DIGEST[..31]);
    assert!(matches!(
        Checksum::deserialise(&mut stream),
        Err(Error::EndOfDStream { len: 31, ok_len: 32 })
    ));
    assert_eq!(stream.remaining(), 31);
}

#[test]
fn checksum_text_is_reversed_and_unpadded() {
    let mut bytes = [0u8; 32];
    bytes[0] = 0x01;
    bytes[1] = 0xAB;
    bytes[31] = 0x0F;
    let text = Checksum::from_bytes(bytes).to_string();
    assert_eq!(text, format!("f{}ab1", "0".repeat(29)));
    let expected: String = ABC_DIGEST.iter().rev().map(|b| format!("{b:x}")).collect();
    assert_eq!(Checksum::from_bytes(ABC_DIGEST).to_string(), expected);
    assert_eq!(Checksum::from_bytes([0xFF; 32]).to_string(), "ff".repeat(32));
    assert_eq!(Checksum::from_bytes([0x00; 32]).to_string(), "0".repeat(32));
}
