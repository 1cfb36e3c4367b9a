use bzipper::deserialise::{DStream, Deserialise};
use bzipper::error::Error;
use bzipper::fixed_string::FixedString;
use bzipper::serialise::{SStream, Serialise};
use std::str::FromStr;

fn encode<T: Serialise>(value: &T) -> Vec<u8> {
    SStream::from_value(value).into_vec()
}

fn decode<T: Deserialise>(bytes: &[u8]) -> Result<T, Error> {
    let mut stream = DStream::new(bytes);
    T::deserialise(&mut stream)
}

#[test]
fn capacity_is_enforced() {
    match FixedString::<4>::new("hello") {
        Err(Error::FixedStringTooShort { len, s }) => {
            assert_eq!(len, 4);
            assert_eq!(s, "hello");
        }
        other => panic!("unexpected: {other:?}"),
    }
    let text = FixedString::<4>::new("hell").unwrap();
    assert_eq!(text.len(), 4);
    assert_eq!(text.to_string(), "hell");
}

#[test]
fn capacity_counts_scalar_values_not_bytes() {
    let text = FixedString::<4>::new("äöü€").unwrap();
    assert_eq!(text.len(), 4);
    assert_eq!(text.to_string(), "äöü€");
    assert!(FixedString::<4>::new("äöü€!").is_err());
    assert!(FixedString::<0>::new("").is_ok());
    assert!(matches!(
        FixedString::<0>::new("a"),
        Err(Error::FixedStringTooShort { len: 0, .. })
    ));
}

#[test]
fn len_and_is_empty() {
    let empty = FixedString::<3>::new("").unwrap();
    assert_eq!(empty.len(), 0);
    assert!(empty.is_empty());
    let text = FixedString::<3>::new("ab").unwrap();
    assert_eq!(text.len(), 2);
    assert!(!text.is_empty());
}

#[test]
fn default_is_empty() {
    let text = FixedString::<5>::default();
    assert!(text.is_empty());
    assert_eq!(text.to_string(), "");
    assert_eq!(text, FixedString::<5>::new("").unwrap());
}

#[test]
fn get_stops_at_the_logical_length() {
    let text = FixedString::<4>::new("ab").unwrap();
    assert_eq!(text.get(0), Some('a'));
    assert_eq!(text.get(1), Some('b'));
    assert_eq!(text.get(2), None);
    assert_eq!(text.get(4), None);
}

#[test]
fn iter_yields_the_logical_prefix() {
    let text = FixedString::<8>::new("héy").unwrap();
    let seen: Vec<char> = text.iter().copied().collect();
    assert_eq!(seen, vec!['h', 'é', 'y']);
    let by_reference: String = (&text).into_iter().collect();
    assert_eq!(by_reference, "héy");
    assert_eq!(FixedString::<8>::default().iter().count(), 0);
}

#[test]
fn iter_mut_changes_the_text_in_place() {
    let mut text = FixedString::<8>::new("abc").unwrap();
    for c in text.iter_mut() {
        *c = c.to_ascii_uppercase();
    }
    assert_eq!(text.to_string(), "ABC");
    assert_eq!(text.len(), 3);
    assert_eq!(text.iter_mut().len(), 3);
    assert_eq!(text, FixedString::<8>::new("ABC").unwrap());
}

#[test]
fn into_iter_owns_the_text() {
    let text = FixedString::<4>::new("xyz").unwrap();
    let mut iter = text.into_iter();
    assert_eq!(iter.remaining(), 3);
    assert_eq!(iter.next(), Some('x'));
    assert_eq!(iter.next(), Some('y'));
    assert_eq!(iter.remaining(), 1);
    assert_eq!(iter.next(), Some('z'));
    assert_eq!(iter.next(), None);
    assert_eq!(iter.next(), None);
    let collected: String = FixedString::<4>::new("xyz").unwrap().into_iter().collect();
    assert_eq!(collected, "xyz");
    let mut seen = Vec::new();
    for c in FixedString::<4>::new("ab").unwrap() {
        seen.push(c);
    }
    assert_eq!(seen, vec!['a', 'b']);
}

#[test]
fn equality_compares_the_text() {
    let a = FixedString::<6>::new("same").unwrap();
    let b = FixedString::<6>::new("same").unwrap();
    let c = FixedString::<6>::new("sama").unwrap();
    let d = FixedString::<6>::new("sam").unwrap();
    assert!(a == b);
    assert!(a != c);
    assert!(a != d);
    assert!(d != a);
    assert_eq!(a.clone(), a);
}

#[test]
fn equality_ignores_what_a_longer_text_left_behind() {
    let mut long = FixedString::<6>::new("abcdef").unwrap();
    for c in long.iter_mut() {
        *c = 'z';
    }
    let short = FixedString::<6>::new("zz").unwrap();
    assert!(long != short);
    assert_eq!(long, FixedString::<6>::new("zzzzzz").unwrap());
}

#[test]
fn equality_with_str_compares_the_text() {
    let text = FixedString::<4>::new("abc").unwrap();
    assert!(text == "abc");
    assert!(!(text == "ab"));
    assert!(!(text == ""));
    assert!(!(text == "abc\0"));
    assert!(!(text == "abd"));
    assert!(!(text == "abcd"));
    assert!(!(text == "abc\0\0"));
    assert!(!(text == "xbc"));
    assert!(FixedString::<4>::default() == "");
    assert!(!(FixedString::<4>::default() == "\0"));
    assert!(FixedString::<4>::new("a\0").unwrap() == "a\0");
    assert!(FixedString::<2>::new("é€").unwrap() == "é€");
}

#[test]
fn equality_with_str_ignores_what_a_longer_text_left_behind() {
    let mut text = FixedString::<6>::new("abcdef").unwrap();
    for c in text.iter_mut() {
        *c = 'z';
    }
    assert!(text == "zzzzzz");
    let short = FixedString::<6>::new("zz").unwrap();
    assert!(short == "zz");
    assert!(!(short == "zzz"));
    assert!(!(short == "zz\0"));
}

#[test]
fn from_str_and_try_from_are_new() {
    let parsed = FixedString::<3>::from_str("abc").unwrap();
    assert_eq!(parsed, FixedString::<3>::new("abc").unwrap());
    assert!(matches!(
        FixedString::<3>::from_str("abcd"),
        Err(Error::FixedStringTooShort { len: 3, .. })
    ));
    let converted = FixedString::<3>::try_from("ab").unwrap();
    assert_eq!(converted.to_string(), "ab");
    assert!(matches!(
        FixedString::<3>::try_from("abcd"),
        Err(Error::FixedStringTooShort { len: 3, .. })
    ));
    let through_parse: FixedString<3> = "xy".parse().unwrap();
    assert_eq!(through_parse.to_string(), "xy");
}

#[test]
fn debug_string_quotes_and_escapes_nul() {
    assert_eq!(FixedString::<8>::new("ab").unwrap().debug_string(), "\"ab\"");
    assert_eq!(FixedString::<8>::new("a\0b").unwrap().debug_string(), "\"a\\0b\"");
    assert_eq!(FixedString::<8>::new("").unwrap().debug_string(), "\"\"");
    assert_eq!(FixedString::<8>::new("é\n").unwrap().debug_string(), "\"é\n\"");
}

#[test]
fn wire_form_has_a_byte_length_prefix() {
    let text = FixedString::<8>::new("abc").unwrap();
    assert_eq!(encode(&text), vec![0, 0, 0, 0, 0, 0, 0, 3, b'a', b'b', b'c']);
    assert_eq!(encode(&FixedString::<8>::default()), vec![0; 8]);
    assert_eq!(encode(&FixedString::<0>::default()), vec![0; 8]);
}

#[test]
fn wire_prefix_is_the_utf8_byte_length() {
    let text = FixedString::<4>::new("a€b").unwrap();
    assert_eq!(text.len(), 3);
    assert_eq!(
        encode(&text),
        vec![0, 0, 0, 0, 0, 0, 0, 5, b'a', 0xE2, 0x82, 0xAC, b'b']
    );
    let wide = FixedString::<2>::new("😀😀").unwrap();
    let bytes = encode(&wide);
    assert_eq!(bytes.len(), 8 + 8);
    assert_eq!(bytes[7], 8);
    assert_eq!(decode::<FixedString<2>>(&bytes).unwrap(), wide);
}

#[test]
fn fixed_string_round_trips() {
    for text in ["", "a", "hello", "äöü€😀", "a\0b", "tab\there"] {
        let value = FixedString::<8>::new(text).unwrap();
        let bytes = encode(&value);
        let back = decode::<FixedString<8>>(&bytes).unwrap();
        assert_eq!(back, value);
        assert_eq!(back.to_string(), text);
        assert_eq!(encode(&back), bytes);
    }
}

#[test]
fn decode_leaves_what_follows_the_text() {
    let bytes = [0, 0, 0, 0, 0, 0, 0, 2, b'o', b'k', 0xFF, 0xFE];
    let mut stream = DStream::new(&bytes);
    let text = FixedString::<4>::deserialise(&mut stream).unwrap();
    assert_eq!(text.to_string(), "ok");
    assert_eq!(stream.remaining(), 2);
}

#[test]
fn decode_rejects_malformed_utf8() {
    let bytes = [0, 0, 0, 0, 0, 0, 0, 2, 0xC3, 0x28];
    assert!(matches!(decode::<FixedString<8>>(&bytes), Err(Error::InvalidUtf8)));
    let lone = [0, 0, 0, 0, 0, 0, 0, 1, 0x80];
    assert!(matches!(decode::<FixedString<8>>(&lone), Err(Error::InvalidUtf8)));
    let surrogate = [0, 0, 0, 0, 0, 0, 0, 3, 0xED, 0xA0, 0x80];
    assert!(matches!(decode::<FixedString<8>>(&surrogate), Err(Error::InvalidUtf8)));
    let overlong = [0, 0, 0, 0, 0, 0, 0, 2, 0xC0, 0x80];
    assert!(matches!(decode::<FixedString<8>>(&overlong), Err(Error::InvalidUtf8)));
    let cut = [0, 0, 0, 0, 0, 0, 0, 2, 0xE2, 0x82];
    assert!(matches!(decode::<FixedString<8>>(&cut), Err(Error::InvalidUtf8)));
}

#[test]
fn decode_rejects_text_beyond_the_capacity() {
    let bytes = [0, 0, 0, 0, 0, 0, 0, 5, b'h', b'e', b'l', b'l', b'o'];
    match decode::<FixedString<4>>(&bytes) {
        Err(Error::FixedStringTooShort { len, s }) => {
            assert_eq!(len, 4);
            assert_eq!(s, "hello");
        }
        other => panic!("unexpected: {other:?}"),
    }
    assert_eq!(decode::<FixedString<5>>(&bytes).unwrap().to_string(), "hello");
    let abcde = [0, 0, 0, 0, 0, 0, 0, 5, b'a', b'b', b'c', b'd', b'e'];
    let mut stream = DStream::from(&abcde);
    match FixedString::<4>::deserialise(&mut stream) {
        Err(Error::FixedStringTooShort { len, s }) => {
            assert_eq!(len, 4);
            assert_eq!(s, "abcde");
        }
        other => panic!("unexpected: {other:?}"),
    }
}

#[test]
fn decode_measures_capacity_in_scalar_values() {
    let bytes = [0, 0, 0, 0, 0, 0, 0, 6, 0xE2, 0x82, 0xAC, 0xE2, 0x82, 0xAC];
    assert_eq!(decode::<FixedString<2>>(&bytes).unwrap().to_string(), "€€");
    assert!(matches!(
        decode::<FixedString<1>>(&bytes),
        Err(Error::FixedStringTooShort { len: 1, .. })
    ));
}

#[test]
fn decode_reports_missing_bytes() {
    assert!(matches!(
        decode::<FixedString<4>>(&[0, 0, 0]),
        Err(Error::EndOfDStream { len: 3, ok_len: 8 })
    ));
    let bytes = [0, 0, 0, 0, 0, 0, 0, 4, b'a', b'b'];
    assert!(matches!(
        decode::<FixedString<4>>(&bytes),
        Err(Error::EndOfDStream { len: 2, ok_len: 4 })
    ));
    let huge = [0xFF, 0xFF, 0xFF, 0xFF, 0xFF, 0xFF, 0xFF, 0xFF, b'a'];
    assert!(matches!(
        decode::<FixedString<4>>(&huge),
        Err(Error::EndOfDStream { len: 1, ok_len: usize::MAX })
    ));
}

#[test]
fn a_failed_text_leaves_the_stream_after_what_was_read() {
    let malformed = [0, 0, 0, 0, 0, 0, 0, 2, 0xC3, 0x28, 0xAA];
    let mut stream = DStream::new(&malformed);
    assert!(FixedString::<8>::deserialise(&mut stream).is_err());
    assert_eq!(stream.remaining(), 1);

    let long = [0, 0, 0, 0, 0, 0, 0, 3, b'a', b'b', b'c', 0xAA];
    let mut stream = DStream::new(&long);
    assert!(FixedString::<2>::deserialise(&mut stream).is_err());
    assert_eq!(stream.remaining(), 1);

    let short = [0, 0, 0, 0, 0, 0, 0, 9, b'a'];
    let mut stream = DStream::new(&short);
    assert!(FixedString::<2>::deserialise(&mut stream).is_err());
    assert_eq!(stream.remaining(), 1);
}

#[test]
fn the_capacity_error_reads_the_same_from_new_and_from_decode() {
    let bytes = [0, 0, 0, 0, 0, 0, 0, 5, b'a', b'b', b'c', b'd', b'e'];
    let decoded = decode::<FixedString<4>>(&bytes).unwrap_err();
    let made = FixedString::<4>::new("abcde").unwrap_err();
    assert_eq!(decoded.to_string(), "fixed string with `N = 4` cannot hold \"abcde\"");
    assert_eq!(decoded.to_string(), made.to_string());
}
