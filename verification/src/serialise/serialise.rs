use crate::codec::Codec;
use crate::codec::container::wire_all;
use crate::endian::{be_bytes, lemma_radix_values, write_be};
use crate::serialise::SStream;
use vstd::prelude::*;

verus! {

/// Types that can be written in their canonical encoding.
pub trait Serialise: Codec {
    /// Writes the canonical encoding of this value after everything that
    /// `stream` holds already.
    fn serialise(&self, stream: &mut SStream)
        ensures
            final(stream)@ == old(stream)@ + self.wire(),
    ;
}

impl Serialise for u8 {
    fn serialise(&self, stream: &mut SStream) {
        write_be(stream, *self as u128, 1);
    }
}

impl Serialise for u16 {
    fn serialise(&self, stream: &mut SStream) {
        write_be(stream, *self as u128, 2);
    }
}

impl Serialise for u32 {
    fn serialise(&self, stream: &mut SStream) {
        write_be(stream, *self as u128, 4);
    }
}

impl Serialise for u64 {
    fn serialise(&self, stream: &mut SStream) {
        write_be(stream, *self as u128, 8);
    }
}

impl Serialise for u128 {
    fn serialise(&self, stream: &mut SStream) {
        write_be(stream, *self as u128, 16);
    }
}

impl Serialise for i8 {
    fn serialise(&self, stream: &mut SStream) {
        proof {
            lemma_radix_values();
        }
        let raw: u128 = if *self < 0 {
            (*self - i8::MIN) as u128 + 0x80
        } else {
            *self as u128
        };
        write_be(stream, raw, 1);
    }
}

impl Serialise for i16 {
    fn serialise(&self, stream: &mut SStream) {
        proof {
            lemma_radix_values();
        }
        let raw: u128 = if *self < 0 {
            (*self - i16::MIN) as u128 + 0x8000
        } else {
            *self as u128
        };
        write_be(stream, raw, 2);
    }
}

impl Serialise for i32 {
    fn serialise(&self, stream: &mut SStream) {
        proof {
            lemma_radix_values();
        }
        let raw: u128 = if *self < 0 {
            (*self - i32::MIN) as u128 + 0x8000_0000
        } else {
            *self as u128
        };
        write_be(stream, raw, 4);
    }
}

impl Serialise for i64 {
    fn serialise(&self, stream: &mut SStream) {
        proof {
            lemma_radix_values();
        }
        let raw: u128 = if *self < 0 {
            (*self - i64::MIN) as u128 + 0x8000_0000_0000_0000
        } else {
            *self as u128
        };
        write_be(stream, raw, 8);
    }
}

impl Serialise for i128 {
    fn serialise(&self, stream: &mut SStream) {
        proof {
            lemma_radix_values();
        }
        let raw: u128 = if *self < 0 {
            (*self - i128::MIN) as u128 + 0x8000_0000_0000_0000_0000_0000_0000_0000
        } else {
            *self as u128
        };
        write_be(stream, raw, 16);
    }
}

impl Serialise for bool {
    fn serialise(&self, stream: &mut SStream) {
        if *self {
            stream.push(1);
        } else {
            stream.push(0);
        }
        assert(stream@ =~= old(stream)@ + self.wire());
    }
}

impl Serialise for char {
    fn serialise(&self, stream: &mut SStream) {
        write_be(stream, (*self) as u32 as u128, 4);
    }
}

impl Serialise for () {
    fn serialise(&self, stream: &mut SStream) {
        assert(stream@ =~= old(stream)@ + self.wire());
    }
}

impl<T: Serialise> Serialise for Option<T> {
    fn serialise(&self, stream: &mut SStream) {
        match self {
            Some(value) => {
                stream.push(1);
                value.serialise(stream);
            },
            None => {
                stream.push(0);
            },
        }
        assert(stream@ =~= old(stream)@ + self.wire());
    }
}

impl<T: Serialise, E: Serialise> Serialise for Result<T, E> {
    fn serialise(&self, stream: &mut SStream) {
        match self {
            Ok(value) => {
                stream.push(0);
                value.serialise(stream);
            },
            Err(error) => {
                stream.push(1);
                error.serialise(stream);
            },
        }
        assert(stream@ =~= old(stream)@ + self.wire());
    }
}

impl<T: Serialise, const N: usize> Serialise for [T; N] {
    fn serialise(&self, stream: &mut SStream) {
        write_be(stream, N as u128, 8);
        let mut i: usize = 0;
        while i < N
            invariant
                i <= N,
                stream@ == old(stream)@ + be_bytes(N as nat, 8) + wire_all(self@.take(i as int)),
            decreases N - i,
        {
            proof {
                assert(self@.take(i + 1).drop_last() =~= self@.take(i as int));
            }
            self[i].serialise(stream);
            i += 1;
            assert(stream@ =~= old(stream)@ + be_bytes(N as nat, 8) + wire_all(
                self@.take(i as int),
            ));
        }
        assert(self@.take(N as int) =~= self@);
        assert(stream@ =~= old(stream)@ + self.wire());
    }
}

} // verus!
