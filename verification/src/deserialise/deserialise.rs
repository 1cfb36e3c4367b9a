use crate::codec::container::{lemma_array_of, lemma_parse_all_fails, parse_all};
use crate::codec::Codec;
use crate::deserialise::DStream;
use crate::endian::{be_value, lemma_radix_values, parse_be, read_be, saturate};
use crate::error::{Error, ErrorView};
use vstd::prelude::*;
use vstd::utf8::is_scalar;

verus! {

/// Types that can be read back from their canonical encoding.
pub trait Deserialise: Codec {
    /// Reads one value from the front of what `stream` has left.
    ///
    /// On success the stream has advanced past exactly the bytes of the
    /// value. On failure it has advanced past the bytes that were read
    /// before the failure showed.
    fn deserialise(stream: &mut DStream) -> (r: Result<Self, Error>)
        ensures
            match Self::parse(old(stream)@) {
                Ok((value, n)) => r == Ok::<Self, Error>(value) && final(stream)@ == old(
                    stream,
                )@.skip(n as int),
                Err((e, n)) => r is Err && r->Err_0@ == e && final(stream)@ == old(stream)@.skip(
                    n as int,
                ),
            },
    ;
}

impl Deserialise for u8 {
    fn deserialise(stream: &mut DStream) -> (r: Result<Self, Error>) {
        proof {
            lemma_radix_values();
        }
        match read_be(stream, 1) {
            Ok(value) => Ok(value as u8),
            Err(e) => Err(e),
        }
    }
}

impl Deserialise for u16 {
    fn deserialise(stream: &mut DStream) -> (r: Result<Self, Error>) {
        proof {
            lemma_radix_values();
        }
        match read_be(stream, 2) {
            Ok(value) => Ok(value as u16),
            Err(e) => Err(e),
        }
    }
}

impl Deserialise for u32 {
    fn deserialise(stream: &mut DStream) -> (r: Result<Self, Error>) {
        proof {
            lemma_radix_values();
        }
        match read_be(stream, 4) {
            Ok(value) => Ok(value as u32),
            Err(e) => Err(e),
        }
    }
}

impl Deserialise for u64 {
    fn deserialise(stream: &mut DStream) -> (r: Result<Self, Error>) {
        proof {
            lemma_radix_values();
        }
        match read_be(stream, 8) {
            Ok(value) => Ok(value as u64),
            Err(e) => Err(e),
        }
    }
}

impl Deserialise for u128 {
    fn deserialise(stream: &mut DStream) -> (r: Result<Self, Error>) {
        proof {
            lemma_radix_values();
        }
        match read_be(stream, 16) {
            Ok(value) => Ok(value as u128),
            Err(e) => Err(e),
        }
    }
}

impl Deserialise for i8 {
    fn deserialise(stream: &mut DStream) -> (r: Result<Self, Error>) {
        proof {
            lemma_radix_values();
        }
        match read_be(stream, 1) {
            Ok(raw) => {
                if raw >= 0x80 {
                    Ok((raw - 0x80) as i8 + i8::MIN)
                } else {
                    Ok(raw as i8)
                }
            },
            Err(e) => Err(e),
        }
    }
}

impl Deserialise for i16 {
    fn deserialise(stream: &mut DStream) -> (r: Result<Self, Error>) {
        proof {
            lemma_radix_values();
        }
        match read_be(stream, 2) {
            Ok(raw) => {
                if raw >= 0x8000 {
                    Ok((raw - 0x8000) as i16 + i16::MIN)
                } else {
                    Ok(raw as i16)
                }
            },
            Err(e) => Err(e),
        }
    }
}

impl Deserialise for i32 {
    fn deserialise(stream: &mut DStream) -> (r: Result<Self, Error>) {
        proof {
            lemma_radix_values();
        }
        match read_be(stream, 4) {
            Ok(raw) => {
                if raw >= 0x8000_0000 {
                    Ok((raw - 0x8000_0000) as i32 + i32::MIN)
                } else {
                    Ok(raw as i32)
                }
            },
            Err(e) => Err(e),
        }
    }
}

impl Deserialise for i64 {
    fn deserialise(stream: &mut DStream) -> (r: Result<Self, Error>) {
        proof {
            lemma_radix_values();
        }
        match read_be(stream, 8) {
            Ok(raw) => {
                if raw >= 0x8000_0000_0000_0000 {
                    Ok((raw - 0x8000_0000_0000_0000) as i64 + i64::MIN)
                } else {
                    Ok(raw as i64)
                }
            },
            Err(e) => Err(e),
        }
    }
}

impl Deserialise for i128 {
    fn deserialise(stream: &mut DStream) -> (r: Result<Self, Error>) {
        proof {
            lemma_radix_values();
        }
        match read_be(stream, 16) {
            Ok(raw) => {
                if raw >= 0x8000_0000_0000_0000_0000_0000_0000_0000 {
                    Ok((raw - 0x8000_0000_0000_0000_0000_0000_0000_0000) as i128 + i128::MIN)
                } else {
                    Ok(raw as i128)
                }
            },
            Err(e) => Err(e),
        }
    }
}

impl Deserialise for bool {
    fn deserialise(stream: &mut DStream) -> (r: Result<Self, Error>) {
        let ghost before = stream@;
        let value = match u8::deserialise(stream) {
            Ok(value) => value,
            Err(e) => {
                return Err(e);
            },
        };
        proof {
            lemma_radix_values();
            reveal_with_fuel(be_value, 2);
            assert(before.take(1).drop_last() =~= Seq::<u8>::empty());
            assert(value == before[0]);
        }
        match value {
            0 => Ok(false),
            1 => Ok(true),
            _ => {
                Err(Error::InvalidBoolean { value })
            },
        }
    }
}

/// `char::from_u32`: the scalar value with the code point `value`, and
/// nothing where `value` is a surrogate or lies beyond `0x10FFFF`.
#[verifier::external_body]
fn char_from_u32(value: u32) -> (r: Option<char>)
    ensures
        r == if is_scalar(value) {
            Some(value as char)
        } else {
            None
        },
{
    char::from_u32(value)
}

impl Deserialise for char {
    fn deserialise(stream: &mut DStream) -> (r: Result<Self, Error>) {
        let ghost before = stream@;
        let value = match u32::deserialise(stream) {
            Ok(value) => value,
            Err(e) => {
                return Err(e);
            },
        };
        proof {
            lemma_radix_values();
            crate::endian::lemma_parse_be(before, 4);
        }
        match char_from_u32(value) {
            Some(c) => Ok(c),
            None => {
                Err(Error::InvalidCodePoint { value })
            },
        }
    }
}

impl Deserialise for () {
    fn deserialise(stream: &mut DStream) -> (r: Result<Self, Error>) {
        assert(stream@ =~= old(stream)@.skip(0));
        Ok(())
    }
}

impl<T: Deserialise> Deserialise for Option<T> {
    fn deserialise(stream: &mut DStream) -> (r: Result<Self, Error>) {
        let ghost before = stream@;
        let sign = match bool::deserialise(stream) {
            Ok(sign) => sign,
            Err(e) => {
                return Err(e);
            },
        };
        if sign {
            match T::deserialise(stream) {
                Ok(value) => {
                    proof {
                        T::lemma_parse(before.skip(1));
                        assert(stream@ =~= before.skip(1 + T::parse(before.skip(1))->Ok_0.1 as int));
                    }
                    Ok(Some(value))
                },
                Err(e) => {
                    proof {
                        T::lemma_parse(before.skip(1));
                        let n = T::parse(before.skip(1))->Err_0.1;
                        assert(stream@ =~= before.skip(1 + n as int));
                    }
                    Err(e)
                },
            }
        } else {
            Ok(None)
        }
    }
}

impl<T: Deserialise, E: Deserialise> Deserialise for Result<T, E> {
    fn deserialise(stream: &mut DStream) -> (r: Result<Self, Error>) {
        let ghost before = stream@;
        let sign = match bool::deserialise(stream) {
            Ok(sign) => sign,
            Err(e) => {
                return Err(e);
            },
        };
        if sign {
            match E::deserialise(stream) {
                Ok(error) => {
                    proof {
                        E::lemma_parse(before.skip(1));
                        assert(stream@ =~= before.skip(1 + E::parse(before.skip(1))->Ok_0.1 as int));
                    }
                    Ok(Err(error))
                },
                Err(e) => {
                    proof {
                        E::lemma_parse(before.skip(1));
                        let n = E::parse(before.skip(1))->Err_0.1;
                        assert(stream@ =~= before.skip(1 + n as int));
                    }
                    Err(e)
                },
            }
        } else {
            match T::deserialise(stream) {
                Ok(value) => {
                    proof {
                        T::lemma_parse(before.skip(1));
                        assert(stream@ =~= before.skip(1 + T::parse(before.skip(1))->Ok_0.1 as int));
                    }
                    Ok(Ok(value))
                },
                Err(e) => {
                    proof {
                        T::lemma_parse(before.skip(1));
                        let n = T::parse(before.skip(1))->Err_0.1;
                        assert(stream@ =~= before.skip(1 + n as int));
                    }
                    Err(e)
                },
            }
        }
    }
}

/// `<[T; N]>::try_from` for a vector: the `N` elements of `items`, in
/// order, as an array.
#[verifier::external_body]
fn array_from_vec<T, const N: usize>(items: Vec<T>) -> (array: [T; N])
    requires
        items@.len() == N,
    ensures
        array@ == items@,
{
    <[T; N]>::try_from(items).ok().unwrap()
}

impl<T: Deserialise, const N: usize> Deserialise for [T; N] {
    fn deserialise(stream: &mut DStream) -> (r: Result<Self, Error>) {
        let ghost before = stream@;
        let declared = match u64::deserialise(stream) {
            Ok(declared) => declared,
            Err(e) => {
                return Err(e);
            },
        };
        proof {
            lemma_radix_values();
            crate::endian::lemma_parse_be(before, 8);
        }
        if declared != N as u64 {
            return Err(Error::ArrayLengthMismatch { len: saturate(declared), ok_len: N });
        }
        let ghost body = stream@;
        let ghost mut consumed: nat = 0;
        let mut items: Vec<T> = Vec::new();
        let mut i: usize = 0;
        while i < N
            invariant
                i <= N,
                before == old(stream)@,
                8 <= before.len(),
                parse_be(before, 8) is Ok,
                parse_be(before, 8)->Ok_0.0 == N,
                body == before.skip(8),
                consumed <= body.len(),
                stream@ == body.skip(consumed as int),
                parse_all::<T>(body, i as nat) == Ok::<(Seq<T>, nat), (ErrorView, nat)>(
                    (items@, consumed),
                ),
            decreases N - i,
        {
            match T::deserialise(stream) {
                Ok(item) => {
                    proof {
                        let m = T::parse(body.skip(consumed as int))->Ok_0.1;
                        T::lemma_parse(body.skip(consumed as int));
                        assert(stream@ =~= body.skip((consumed + m) as int));
                        consumed = consumed + m;
                    }
                    items.push(item);
                },
                Err(e) => {
                    proof {
                        T::lemma_parse(body.skip(consumed as int));
                        let m = T::parse(body.skip(consumed as int))->Err_0.1;
                        assert(stream@ =~= before.skip((8 + consumed + m) as int));
                        reveal_with_fuel(parse_all, 2);
                    }
                    assert(parse_all::<T>(body, (i + 1) as nat) is Err);
                    proof {
                        lemma_parse_all_fails::<T>(body, (i + 1) as nat, N as nat);
                    }
                    return Err(e);
                },
            }
            i += 1;
        }
        proof {
            crate::codec::container::lemma_parse_all::<T>(body, N as nat);
            assert(stream@ =~= before.skip((8 + consumed) as int));
        }
        let array: [T; N] = array_from_vec(items);
        proof {
            lemma_array_of(array);
        }
        Ok(array)
    }
}

} // verus!
