//! The wire format of booleans, scalar values and the unit type.

use crate::codec::Codec;
use crate::endian::{
    be_bytes, lemma_be_bytes_len, lemma_parse_be, lemma_parse_be_of_bytes, lemma_radix_values,
    parse_be,
};
use crate::error::ErrorView;
use vstd::prelude::*;
use vstd::utf8::is_scalar;

verus! {

impl Codec for bool {
    open spec fn valid(&self) -> bool {
        true
    }

    open spec fn wire(&self) -> Seq<u8> {
        if *self {
            seq![1u8]
        } else {
            seq![0u8]
        }
    }

    open spec fn parse(bytes: Seq<u8>) -> Result<(Self, nat), (ErrorView, nat)> {
        if bytes.len() < 1 {
            Err((ErrorView::EndOfDStream { len: 0, ok_len: 1 }, 0))
        } else if bytes[0] == 0 {
            Ok((false, 1))
        } else if bytes[0] == 1 {
            Ok((true, 1))
        } else {
            Err((ErrorView::InvalidBoolean { value: bytes[0] }, 1))
        }
    }

    open spec fn max_len() -> nat {
        1
    }

    fn wire_limit() -> (n: usize) {
        1
    }

    proof fn lemma_round_trip(&self, rest: Seq<u8>) {
    }

    proof fn lemma_parse(bytes: Seq<u8>) {
        if let Ok((value, n)) = Self::parse(bytes) {
            assert(bytes.take(1) =~= value.wire());
        }
    }

    proof fn lemma_max_len(&self) {
    }
}

impl Codec for char {
    open spec fn valid(&self) -> bool {
        true
    }

    open spec fn wire(&self) -> Seq<u8> {
        be_bytes((*self) as u32 as nat, 4)
    }

    open spec fn parse(bytes: Seq<u8>) -> Result<(Self, nat), (ErrorView, nat)> {
        match parse_be(bytes, 4) {
            Ok((value, n)) => if is_scalar(value as u32) {
                Ok((value as u32 as char, n))
            } else {
                Err((ErrorView::InvalidCodePoint { value: value as u32 }, n))
            },
            Err(e) => Err(e),
        }
    }

    open spec fn max_len() -> nat {
        4
    }

    fn wire_limit() -> (n: usize) {
        4
    }

    proof fn lemma_round_trip(&self, rest: Seq<u8>) {
        broadcast use {vstd::utf8::char_is_scalar, vstd::utf8::char_u32_cast};

        lemma_radix_values();
        let c: char = *self;
        let code = c as u32;
        vstd::utf8::char_is_scalar(c);
        vstd::utf8::char_u32_cast(c, code);
        assert(is_scalar(code));
        assert(code as char == c);
        assert(code as nat as u32 == code);
        lemma_be_bytes_len(code as nat, 4);
        lemma_parse_be_of_bytes(code as nat, 4, rest);
    }

    proof fn lemma_parse(bytes: Seq<u8>) {
        broadcast use {vstd::utf8::char_is_scalar, vstd::utf8::char_u32_cast};

        lemma_radix_values();
        lemma_parse_be(bytes, 4);
    }

    proof fn lemma_max_len(&self) {
        lemma_be_bytes_len((*self) as u32 as nat, 4);
    }
}

impl Codec for () {
    open spec fn valid(&self) -> bool {
        true
    }

    open spec fn wire(&self) -> Seq<u8> {
        Seq::empty()
    }

    open spec fn parse(bytes: Seq<u8>) -> Result<(Self, nat), (ErrorView, nat)> {
        Ok(((), 0))
    }

    open spec fn max_len() -> nat {
        0
    }

    fn wire_limit() -> (n: usize) {
        0
    }

    proof fn lemma_round_trip(&self, rest: Seq<u8>) {
    }

    proof fn lemma_parse(bytes: Seq<u8>) {
        assert(bytes.take(0) =~= ().wire());
    }

    proof fn lemma_max_len(&self) {
    }
}

} // verus!
