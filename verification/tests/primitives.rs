use bzipper::codec::Codec;
use bzipper::deserialise::{DStream, Deserialise};
use bzipper::error::Error;
use bzipper::non_zero::NonZero;
use bzipper::serialise::{SStream, Serialise};

fn encode<T: Serialise>(value: &T) -> Vec<u8> {
    SStream::from_value(value).into_vec()
}

fn decode<T: Deserialise>(bytes: &[u8]) -> Result<T, Error> {
    let mut stream = DStream::new(bytes);
    T::deserialise(&mut stream)
}

#[test]
fn bool_domain() {
    let mut stream = DStream::new(&[0x00, 0x01, 0x02]);
    assert_eq!(bool::deserialise(&mut stream).unwrap(), false);
    assert_eq!(bool::deserialise(&mut stream).unwrap(), true);
    assert!(matches!(bool::deserialise(&mut stream), Err(Error::InvalidBoolean { value: 0x02 })));
}

#[test]
fn bool_encodes_as_one_byte() {
    assert_eq!(encode(&false), vec![0x00]);
    assert_eq!(encode(&true), vec![0x01]);
}

#[test]
fn bool_rejects_every_other_byte() {
    for value in 2..=255u8 {
        match decode::<bool>(&[value]) {
            Err(Error::InvalidBoolean { value: reported }) => assert_eq!(reported, value),
            other => panic!("byte {value:#04x} gave {other:?}"),
        }
    }
}

#[test]
fn u32_is_big_endian() {
    assert_eq!(encode(&0x0102_0304u32), vec![0x01, 0x02, 0x03, 0x04]);
    assert_eq!(decode::<u32>(&[0x01, 0x02, 0x03, 0x04]).unwrap(), 0x0102_0304);
}

#[test]
fn unsigned_integers_have_exact_bytes() {
    assert_eq!(encode(&0xABu8), vec![0xAB]);
    assert_eq!(encode(&0xABCDu16), vec![0xAB, 0xCD]);
    assert_eq!(
        encode(&0x0102_0304_0506_0708u64),
        vec![0x01, 0x02, 0x03, 0x04, 0x05, 0x06, 0x07, 0x08]
    );
    assert_eq!(
        encode(&0x0102_0304_0506_0708_090A_0B0C_0D0E_0F10u128),
        vec![
            0x01, 0x02, 0x03, 0x04, 0x05, 0x06, 0x07, 0x08, 0x09, 0x0A, 0x0B, 0x0C, 0x0D, 0x0E,
            0x0F, 0x10
        ]
    );
}

#[test]
fn signed_integers_are_twos_complement() {
    assert_eq!(encode(&-1i8), vec![0xFF]);
    assert_eq!(encode(&i8::MIN), vec![0x80]);
    assert_eq!(encode(&-2i16), vec![0xFF, 0xFE]);
    assert_eq!(encode(&i32::MIN), vec![0x80, 0x00, 0x00, 0x00]);
    assert_eq!(encode(&-1i64), vec![0xFF; 8]);
    assert_eq!(encode(&i128::MIN)[0], 0x80);
    assert_eq!(encode(&0x1234i16), vec![0x12, 0x34]);
    assert_eq!(decode::<i8>(&[0x80]).unwrap(), i8::MIN);
    assert_eq!(decode::<i16>(&[0xFF, 0xFE]).unwrap(), -2);
    assert_eq!(decode::<i32>(&[0xFF, 0xFF, 0xFF, 0xFF]).unwrap(), -1);
    assert_eq!(decode::<i64>(&[0x7F, 0xFF, 0xFF, 0xFF, 0xFF, 0xFF, 0xFF, 0xFF]).unwrap(), i64::MAX);
}

#[test]
fn integers_agree_with_the_standard_byte_order() {
    for value in [0u64, 1, 0xFF, 0x100, 0xDEAD_BEEF, u64::MAX] {
        assert_eq!(encode(&value), value.to_be_bytes().to_vec());
    }
    for value in [0i32, 1, -1, i32::MIN, i32::MAX, -123_456] {
        assert_eq!(encode(&value), value.to_be_bytes().to_vec());
        assert_eq!(decode::<i32>(&value.to_be_bytes()).unwrap(), value);
    }
    for value in [0i128, -1, i128::MIN, i128::MAX, 42] {
        assert_eq!(encode(&value), value.to_be_bytes().to_vec());
        assert_eq!(decode::<i128>(&value.to_be_bytes()).unwrap(), value);
    }
    for value in [0u128, u128::MAX, 1 << 127] {
        assert_eq!(encode(&value), value.to_be_bytes().to_vec());
        assert_eq!(decode::<u128>(&value.to_be_bytes()).unwrap(), value);
    }
}

#[test]
fn every_u8_and_i8_round_trips() {
    for value in 0..=u8::MAX {
        assert_eq!(decode::<u8>(&encode(&value)).unwrap(), value);
    }
    for value in i8::MIN..=i8::MAX {
        assert_eq!(decode::<i8>(&encode(&value)).unwrap(), value);
    }
}

#[test]
fn every_u16_and_i16_round_trips() {
    for value in 0..=u16::MAX {
        assert_eq!(decode::<u16>(&encode(&value)).unwrap(), value);
    }
    for value in i16::MIN..=i16::MAX {
        assert_eq!(decode::<i16>(&encode(&value)).unwrap(), value);
    }
}

#[test]
fn encoding_is_deterministic() {
    let value: Option<[u16; 3]> = Some([1, 2, 3]);
    assert_eq!(encode(&value), encode(&value));
    let text = bzipper::fixed_string::FixedString::<8>::new("héllo").unwrap();
    assert_eq!(encode(&text), encode(&text));
}

#[test]
fn short_input_reports_the_shortfall() {
    assert!(matches!(decode::<u8>(&[]), Err(Error::EndOfDStream { len: 0, ok_len: 1 })));
    assert!(matches!(decode::<i8>(&[]), Err(Error::EndOfDStream { len: 0, ok_len: 1 })));
    assert!(matches!(decode::<u16>(&[1]), Err(Error::EndOfDStream { len: 1, ok_len: 2 })));
    assert!(matches!(decode::<i16>(&[1]), Err(Error::EndOfDStream { len: 1, ok_len: 2 })));
    assert!(matches!(decode::<u32>(&[1, 2, 3]), Err(Error::EndOfDStream { len: 3, ok_len: 4 })));
    assert!(matches!(decode::<i32>(&[1, 2]), Err(Error::EndOfDStream { len: 2, ok_len: 4 })));
    assert!(matches!(decode::<u64>(&[0; 7]), Err(Error::EndOfDStream { len: 7, ok_len: 8 })));
    assert!(matches!(decode::<i64>(&[0; 5]), Err(Error::EndOfDStream { len: 5, ok_len: 8 })));
    assert!(matches!(decode::<u128>(&[0; 15]), Err(Error::EndOfDStream { len: 15, ok_len: 16 })));
    assert!(matches!(decode::<i128>(&[0; 9]), Err(Error::EndOfDStream { len: 9, ok_len: 16 })));
    assert!(matches!(decode::<char>(&[0; 3]), Err(Error::EndOfDStream { len: 3, ok_len: 4 })));
    assert!(matches!(decode::<bool>(&[]), Err(Error::EndOfDStream { len: 0, ok_len: 1 })));
}

#[test]
fn short_input_consumes_nothing() {
    let mut stream = DStream::new(&[0xAA, 0xBB, 0xCC]);
    assert!(u32::deserialise(&mut stream).is_err());
    assert_eq!(stream.remaining(), 3);
    assert_eq!(u16::deserialise(&mut stream).unwrap(), 0xAABB);
    assert_eq!(stream.remaining(), 1);
}

#[test]
fn char_is_a_four_byte_code_point() {
    assert_eq!(encode(&'A'), vec![0x00, 0x00, 0x00, 0x41]);
    assert_eq!(encode(&'\u{10FFFF}'), vec![0x00, 0x10, 0xFF, 0xFF]);
    assert_eq!(encode(&'é'), vec![0x00, 0x00, 0x00, 0xE9]);
    assert_eq!(decode::<char>(&[0x00, 0x01, 0xF6, 0x00]).unwrap(), '\u{1F600}');
    assert_eq!(decode::<char>(&[0x00, 0x00, 0xD7, 0xFF]).unwrap(), '\u{D7FF}');
    assert_eq!(decode::<char>(&[0x00, 0x00, 0xE0, 0x00]).unwrap(), '\u{E000}');
}

#[test]
fn char_rejects_what_is_no_scalar_value() {
    assert!(matches!(
        decode::<char>(&[0x00, 0x00, 0xD8, 0x00]),
        Err(Error::InvalidCodePoint { value: 0xD800 })
    ));
    assert!(matches!(
        decode::<char>(&[0x00, 0x00, 0xDF, 0xFF]),
        Err(Error::InvalidCodePoint { value: 0xDFFF })
    ));
    assert!(matches!(
        decode::<char>(&[0x00, 0x11, 0x00, 0x00]),
        Err(Error::InvalidCodePoint { value: 0x11_0000 })
    ));
    assert!(matches!(
        decode::<char>(&[0xFF, 0xFF, 0xFF, 0xFF]),
        Err(Error::InvalidCodePoint { value: 0xFFFF_FFFF })
    ));
}

#[test]
fn unit_takes_no_bytes() {
    assert_eq!(encode(&()), Vec::<u8>::new());
    let mut stream = DStream::new(&[7]);
    <()>::deserialise(&mut stream).unwrap();
    assert_eq!(stream.remaining(), 1);
    decode::<()>(&[]).unwrap();
}

#[test]
fn option_has_a_presence_byte() {
    assert_eq!(encode(&Some(0x1234u16)), vec![0x01, 0x12, 0x34]);
    assert_eq!(encode(&None::<u16>), vec![0x00]);
    assert_eq!(decode::<Option<u16>>(&[0x01, 0x12, 0x34]).unwrap(), Some(0x1234));
    assert_eq!(decode::<Option<u16>>(&[0x00, 0x12, 0x34]).unwrap(), None);
    assert!(matches!(
        decode::<Option<u16>>(&[0x02, 0x12, 0x34]),
        Err(Error::InvalidBoolean { value: 0x02 })
    ));
    assert!(matches!(
        decode::<Option<u16>>(&[0x01, 0x12]),
        Err(Error::EndOfDStream { len: 1, ok_len: 2 })
    ));
    assert!(matches!(decode::<Option<u16>>(&[]), Err(Error::EndOfDStream { len: 0, ok_len: 1 })));
}

#[test]
fn result_has_a_discriminant_byte() {
    let good: Result<u8, bool> = Ok(7);
    let bad: Result<u8, bool> = Err(true);
    assert_eq!(encode(&good), vec![0x00, 0x07]);
    assert_eq!(encode(&bad), vec![0x01, 0x01]);
    assert_eq!(decode::<Result<u8, bool>>(&[0x00, 0x07]).unwrap(), Ok(7));
    assert_eq!(decode::<Result<u8, bool>>(&[0x01, 0x00]).unwrap(), Err(false));
    assert!(matches!(
        decode::<Result<u8, bool>>(&[0x01, 0x07]),
        Err(Error::InvalidBoolean { value: 0x07 })
    ));
    assert!(matches!(
        decode::<Result<u8, bool>>(&[0x03]),
        Err(Error::InvalidBoolean { value: 0x03 })
    ));
}

#[test]
fn array_has_an_eight_byte_count() {
    assert_eq!(
        encode(&[0x0102u16, 0x0304, 0x0506]),
        vec![0, 0, 0, 0, 0, 0, 0, 3, 0x01, 0x02, 0x03, 0x04, 0x05, 0x06]
    );
    assert_eq!(encode(&[0u8; 0]), vec![0; 8]);
    assert_eq!(
        decode::<[u16; 3]>(&[0, 0, 0, 0, 0, 0, 0, 3, 0x01, 0x02, 0x03, 0x04, 0x05, 0x06]).unwrap(),
        [0x0102, 0x0304, 0x0506]
    );
    assert_eq!(decode::<[u8; 0]>(&[0; 8]).unwrap(), [0u8; 0]);
}

#[test]
fn array_length_is_enforced() {
    let mut bytes = encode(&[1u8, 2, 3]);
    bytes[7] = 4;
    assert!(matches!(
        decode::<[u8; 3]>(&bytes),
        Err(Error::ArrayLengthMismatch { len: 4, ok_len: 3 })
    ));
    bytes[7] = 2;
    assert!(matches!(
        decode::<[u8; 3]>(&bytes),
        Err(Error::ArrayLengthMismatch { len: 2, ok_len: 3 })
    ));
    bytes[7] = 3;
    assert_eq!(decode::<[u8; 3]>(&bytes).unwrap(), [1, 2, 3]);
}

#[test]
fn array_reports_the_first_element_that_fails() {
    let bytes = [0, 0, 0, 0, 0, 0, 0, 3, 0x01, 0x05, 0x06];
    assert!(matches!(decode::<[bool; 3]>(&bytes), Err(Error::InvalidBoolean { value: 0x05 })));
    let short = [0, 0, 0, 0, 0, 0, 0, 2, 0x00, 0x01, 0x00];
    assert!(matches!(decode::<[u16; 2]>(&short), Err(Error::EndOfDStream { len: 1, ok_len: 2 })));
    assert!(matches!(
        decode::<[u16; 2]>(&[0, 0, 0]),
        Err(Error::EndOfDStream { len: 3, ok_len: 8 })
    ));
}

#[test]
fn nested_containers_round_trip() {
    let value: [Option<Result<i16, char>>; 4] = [None, Some(Ok(-5)), Some(Err('ß')), Some(Ok(0))];
    let bytes = encode(&value);
    assert_eq!(decode::<[Option<Result<i16, char>>; 4]>(&bytes).unwrap(), value);
    let grid = [[1u8, 2], [3, 4], [5, 6]];
    assert_eq!(decode::<[[u8; 2]; 3]>(&encode(&grid)).unwrap(), grid);
}

#[test]
fn decoding_consumes_exactly_the_encoding() {
    let mut bytes = encode(&Some(0xBEEFu16));
    bytes.extend_from_slice(&[9, 9]);
    let mut stream = DStream::new(&bytes);
    assert_eq!(Option::<u16>::deserialise(&mut stream).unwrap(), Some(0xBEEF));
    assert_eq!(stream.remaining(), 2);
    assert_eq!(stream.take(2).unwrap(), &[9, 9]);
}

#[test]
fn non_zero_encodes_as_the_integer() {
    let value = NonZero::new(0x1234u16).unwrap();
    assert_eq!(value.get(), 0x1234);
    assert_eq!(encode(&value), vec![0x12, 0x34]);
    assert_eq!(decode::<NonZero<u16>>(&[0x12, 0x34]).unwrap().get(), 0x1234);
    assert_eq!(decode::<NonZero<i32>>(&[0xFF; 4]).unwrap().get(), -1);
}

#[test]
fn non_zero_rejects_zero() {
    assert!(NonZero::new(0u8).is_none());
    assert!(NonZero::new(0i64).is_none());
    assert!(matches!(decode::<NonZero<u32>>(&[0, 0, 0, 0]), Err(Error::NullInteger)));
    assert!(matches!(decode::<NonZero<i128>>(&[0; 16]), Err(Error::NullInteger)));
    assert!(matches!(
        decode::<NonZero<u32>>(&[0, 0, 0]),
        Err(Error::EndOfDStream { len: 3, ok_len: 4 })
    ));
}

#[test]
fn wire_limits_are_the_structural_maxima() {
    assert_eq!(u8::wire_limit(), 1);
    assert_eq!(i128::wire_limit(), 16);
    assert_eq!(bool::wire_limit(), 1);
    assert_eq!(char::wire_limit(), 4);
    assert_eq!(<()>::wire_limit(), 0);
    assert_eq!(Option::<u32>::wire_limit(), 5);
    assert_eq!(Result::<u8, u64>::wire_limit(), 9);
    assert_eq!(<[u16; 3]>::wire_limit(), 14);
    assert_eq!(<[u8; 0]>::wire_limit(), 8);
    assert_eq!(NonZero::<u64>::wire_limit(), 8);
    assert_eq!(bzipper::fixed_string::FixedString::<4>::wire_limit(), 24);
    assert_eq!(<[u8; usize::MAX]>::wire_limit(), usize::MAX);
    assert_eq!(<[(); usize::MAX]>::wire_limit(), 8);
}

#[test]
fn float_bit_patterns_are_big_endian() {
    assert_eq!(encode(&1.5f32.to_bits()), 1.5f32.to_be_bytes().to_vec());
    assert_eq!(encode(&(-0.1f64).to_bits()), (-0.1f64).to_be_bytes().to_vec());
    let back = f64::from_bits(decode::<u64>(&f64::MAX.to_be_bytes()).unwrap());
    assert_eq!(back, f64::MAX);
    let nan = f32::from_bits(decode::<u32>(&f32::NAN.to_be_bytes()).unwrap());
    assert!(nan.is_nan());
}

#[test]
fn a_failure_leaves_the_stream_after_what_was_read() {
    let mut stream = DStream::new(&[0x05, 0xAA]);
    assert!(bool::deserialise(&mut stream).is_err());
    assert_eq!(stream.remaining(), 1);

    let mut stream = DStream::new(&[0x00, 0x00, 0xD8, 0x00, 0xAA]);
    assert!(char::deserialise(&mut stream).is_err());
    assert_eq!(stream.remaining(), 1);

    let mut stream = DStream::new(&[0x01, 0x07, 0xAA]);
    assert!(Option::<bool>::deserialise(&mut stream).is_err());
    assert_eq!(stream.remaining(), 1);

    let mut stream = DStream::new(&[0x01, 0x12]);
    assert!(Option::<u16>::deserialise(&mut stream).is_err());
    assert_eq!(stream.remaining(), 1);

    let mut stream = DStream::new(&[0, 0, 0, 0, 0, 0, 0, 9, 1, 2, 3]);
    assert!(<[u8; 3]>::deserialise(&mut stream).is_err());
    assert_eq!(stream.remaining(), 3);

    let mut stream = DStream::new(&[0, 0, 0, 0, 0, 0, 0, 3, 0, 1, 4, 0xAA]);
    assert!(<[bool; 3]>::deserialise(&mut stream).is_err());
    assert_eq!(stream.remaining(), 1);

    let mut stream = DStream::new(&[0, 0, 0xAA]);
    assert!(NonZero::<u16>::deserialise(&mut stream).is_err());
    assert_eq!(stream.remaining(), 1);
}
