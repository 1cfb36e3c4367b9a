//! The wire format of the fixed-width integers: big-endian, two's complement.

use crate::codec::Codec;
use crate::endian::{
    be_bytes, from_twos_complement, lemma_be_bytes_len, lemma_from_twos_complement,
    lemma_parse_be, lemma_parse_be_of_bytes, lemma_radix_values, lemma_twos_complement, parse_be,
    twos_complement,
};
use crate::error::ErrorView;
use vstd::prelude::*;

verus! {

impl Codec for u8 {
    open spec fn valid(&self) -> bool {
        true
    }

    open spec fn wire(&self) -> Seq<u8> {
        be_bytes(*self as nat, 1)
    }

    open spec fn parse(bytes: Seq<u8>) -> Result<(Self, nat), (ErrorView, nat)> {
        match parse_be(bytes, 1) {
            Ok((value, n)) => Ok((value as u8, n)),
            Err(e) => Err(e),
        }
    }

    open spec fn max_len() -> nat {
        1
    }

    fn wire_limit() -> (n: usize) {
        1
    }

    proof fn lemma_round_trip(&self, rest: Seq<u8>) {
        lemma_radix_values();
        lemma_be_bytes_len(*self as nat, 1);
        lemma_parse_be_of_bytes(*self as nat, 1, rest);
    }

    proof fn lemma_parse(bytes: Seq<u8>) {
        lemma_radix_values();
        lemma_parse_be(bytes, 1);
    }

    proof fn lemma_max_len(&self) {
        lemma_be_bytes_len(*self as nat, 1);
    }
}

impl Codec for u16 {
    open spec fn valid(&self) -> bool {
        true
    }

    open spec fn wire(&self) -> Seq<u8> {
        be_bytes(*self as nat, 2)
    }

    open spec fn parse(bytes: Seq<u8>) -> Result<(Self, nat), (ErrorView, nat)> {
        match parse_be(bytes, 2) {
            Ok((value, n)) => Ok((value as u16, n)),
            Err(e) => Err(e),
        }
    }

    open spec fn max_len() -> nat {
        2
    }

    fn wire_limit() -> (n: usize) {
        2
    }

    proof fn lemma_round_trip(&self, rest: Seq<u8>) {
        lemma_radix_values();
        lemma_be_bytes_len(*self as nat, 2);
        lemma_parse_be_of_bytes(*self as nat, 2, rest);
    }

    proof fn lemma_parse(bytes: Seq<u8>) {
        lemma_radix_values();
        lemma_parse_be(bytes, 2);
    }

    proof fn lemma_max_len(&self) {
        lemma_be_bytes_len(*self as nat, 2);
    }
}

impl Codec for u32 {
    open spec fn valid(&self) -> bool {
        true
    }

    open spec fn wire(&self) -> Seq<u8> {
        be_bytes(*self as nat, 4)
    }

    open spec fn parse(bytes: Seq<u8>) -> Result<(Self, nat), (ErrorView, nat)> {
        match parse_be(bytes, 4) {
            Ok((value, n)) => Ok((value as u32, n)),
            Err(e) => Err(e),
        }
    }

    open spec fn max_len() -> nat {
        4
    }

    fn wire_limit() -> (n: usize) {
        4
    }

    proof fn lemma_round_trip(&self, rest: Seq<u8>) {
        lemma_radix_values();
        lemma_be_bytes_len(*self as nat, 4);
        lemma_parse_be_of_bytes(*self as nat, 4, rest);
    }

    proof fn lemma_parse(bytes: Seq<u8>) {
        lemma_radix_values();
        lemma_parse_be(bytes, 4);
    }

    proof fn lemma_max_len(&self) {
        lemma_be_bytes_len(*self as nat, 4);
    }
}

impl Codec for u64 {
    open spec fn valid(&self) -> bool {
        true
    }

    open spec fn wire(&self) -> Seq<u8> {
        be_bytes(*self as nat, 8)
    }

    open spec fn parse(bytes: Seq<u8>) -> Result<(Self, nat), (ErrorView, nat)> {
        match parse_be(bytes, 8) {
            Ok((value, n)) => Ok((value as u64, n)),
            Err(e) => Err(e),
        }
    }

    open spec fn max_len() -> nat {
        8
    }

    fn wire_limit() -> (n: usize) {
        8
    }

    proof fn lemma_round_trip(&self, rest: Seq<u8>) {
        lemma_radix_values();
        lemma_be_bytes_len(*self as nat, 8);
        lemma_parse_be_of_bytes(*self as nat, 8, rest);
    }

    proof fn lemma_parse(bytes: Seq<u8>) {
        lemma_radix_values();
        lemma_parse_be(bytes, 8);
    }

    proof fn lemma_max_len(&self) {
        lemma_be_bytes_len(*self as nat, 8);
    }
}

impl Codec for u128 {
    open spec fn valid(&self) -> bool {
        true
    }

    open spec fn wire(&self) -> Seq<u8> {
        be_bytes(*self as nat, 16)
    }

    open spec fn parse(bytes: Seq<u8>) -> Result<(Self, nat), (ErrorView, nat)> {
        match parse_be(bytes, 16) {
            Ok((value, n)) => Ok((value as u128, n)),
            Err(e) => Err(e),
        }
    }

    open spec fn max_len() -> nat {
        16
    }

    fn wire_limit() -> (n: usize) {
        16
    }

    proof fn lemma_round_trip(&self, rest: Seq<u8>) {
        lemma_radix_values();
        lemma_be_bytes_len(*self as nat, 16);
        lemma_parse_be_of_bytes(*self as nat, 16, rest);
    }

    proof fn lemma_parse(bytes: Seq<u8>) {
        lemma_radix_values();
        lemma_parse_be(bytes, 16);
    }

    proof fn lemma_max_len(&self) {
        lemma_be_bytes_len(*self as nat, 16);
    }
}

impl Codec for i8 {
    open spec fn valid(&self) -> bool {
        true
    }

    open spec fn wire(&self) -> Seq<u8> {
        be_bytes(twos_complement(*self as int, 1), 1)
    }

    open spec fn parse(bytes: Seq<u8>) -> Result<(Self, nat), (ErrorView, nat)> {
        match parse_be(bytes, 1) {
            Ok((value, n)) => Ok((from_twos_complement(value, 1) as i8, n)),
            Err(e) => Err(e),
        }
    }

    open spec fn max_len() -> nat {
        1
    }

    fn wire_limit() -> (n: usize) {
        1
    }

    proof fn lemma_round_trip(&self, rest: Seq<u8>) {
        lemma_radix_values();
        lemma_twos_complement(*self as int, 1);
        let raw = twos_complement(*self as int, 1);
        lemma_be_bytes_len(raw, 1);
        lemma_parse_be_of_bytes(raw, 1, rest);
    }

    proof fn lemma_parse(bytes: Seq<u8>) {
        lemma_radix_values();
        lemma_parse_be(bytes, 1);
        if let Ok((raw, n)) = parse_be(bytes, 1) {
            lemma_from_twos_complement(raw, 1);
        }
    }

    proof fn lemma_max_len(&self) {
        lemma_be_bytes_len(twos_complement(*self as int, 1), 1);
    }
}

impl Codec for i16 {
    open spec fn valid(&self) -> bool {
        true
    }

    open spec fn wire(&self) -> Seq<u8> {
        be_bytes(twos_complement(*self as int, 2), 2)
    }

    open spec fn parse(bytes: Seq<u8>) -> Result<(Self, nat), (ErrorView, nat)> {
        match parse_be(bytes, 2) {
            Ok((value, n)) => Ok((from_twos_complement(value, 2) as i16, n)),
            Err(e) => Err(e),
        }
    }

    open spec fn max_len() -> nat {
        2
    }

    fn wire_limit() -> (n: usize) {
        2
    }

    proof fn lemma_round_trip(&self, rest: Seq<u8>) {
        lemma_radix_values();
        lemma_twos_complement(*self as int, 2);
        let raw = twos_complement(*self as int, 2);
        lemma_be_bytes_len(raw, 2);
        lemma_parse_be_of_bytes(raw, 2, rest);
    }

    proof fn lemma_parse(bytes: Seq<u8>) {
        lemma_radix_values();
        lemma_parse_be(bytes, 2);
        if let Ok((raw, n)) = parse_be(bytes, 2) {
            lemma_from_twos_complement(raw, 2);
        }
    }

    proof fn lemma_max_len(&self) {
        lemma_be_bytes_len(twos_complement(*self as int, 2), 2);
    }
}

impl Codec for i32 {
    open spec fn valid(&self) -> bool {
        true
    }

    open spec fn wire(&self) -> Seq<u8> {
        be_bytes(twos_complement(*self as int, 4), 4)
    }

    open spec fn parse(bytes: Seq<u8>) -> Result<(Self, nat), (ErrorView, nat)> {
        match parse_be(bytes, 4) {
            Ok((value, n)) => Ok((from_twos_complement(value, 4) as i32, n)),
            Err(e) => Err(e),
        }
    }

    open spec fn max_len() -> nat {
        4
    }

    fn wire_limit() -> (n: usize) {
        4
    }

    proof fn lemma_round_trip(&self, rest: Seq<u8>) {
        lemma_radix_values();
        lemma_twos_complement(*self as int, 4);
        let raw = twos_complement(*self as int, 4);
        lemma_be_bytes_len(raw, 4);
        lemma_parse_be_of_bytes(raw, 4, rest);
    }

    proof fn lemma_parse(bytes: Seq<u8>) {
        lemma_radix_values();
        lemma_parse_be(bytes, 4);
        if let Ok((raw, n)) = parse_be(bytes, 4) {
            lemma_from_twos_complement(raw, 4);
        }
    }

    proof fn lemma_max_len(&self) {
        lemma_be_bytes_len(twos_complement(*self as int, 4), 4);
    }
}

impl Codec for i64 {
    open spec fn valid(&self) -> bool {
        true
    }

    open spec fn wire(&self) -> Seq<u8> {
        be_bytes(twos_complement(*self as int, 8), 8)
    }

    open spec fn parse(bytes: Seq<u8>) -> Result<(Self, nat), (ErrorView, nat)> {
        match parse_be(bytes, 8) {
            Ok((value, n)) => Ok((from_twos_complement(value, 8) as i64, n)),
            Err(e) => Err(e),
        }
    }

    open spec fn max_len() -> nat {
        8
    }

    fn wire_limit() -> (n: usize) {
        8
    }

    proof fn lemma_round_trip(&self, rest: Seq<u8>) {
        lemma_radix_values();
        lemma_twos_complement(*self as int, 8);
        let raw = twos_complement(*self as int, 8);
        lemma_be_bytes_len(raw, 8);
        lemma_parse_be_of_bytes(raw, 8, rest);
    }

    proof fn lemma_parse(bytes: Seq<u8>) {
        lemma_radix_values();
        lemma_parse_be(bytes, 8);
        if let Ok((raw, n)) = parse_be(bytes, 8) {
            lemma_from_twos_complement(raw, 8);
        }
    }

    proof fn lemma_max_len(&self) {
        lemma_be_bytes_len(twos_complement(*self as int, 8), 8);
    }
}

impl Codec for i128 {
    open spec fn valid(&self) -> bool {
        true
    }

    open spec fn wire(&self) -> Seq<u8> {
        be_bytes(twos_complement(*self as int, 16), 16)
    }

    open spec fn parse(bytes: Seq<u8>) -> Result<(Self, nat), (ErrorView, nat)> {
        match parse_be(bytes, 16) {
            Ok((value, n)) => Ok((from_twos_complement(value, 16) as i128, n)),
            Err(e) => Err(e),
        }
    }

    open spec fn max_len() -> nat {
        16
    }

    fn wire_limit() -> (n: usize) {
        16
    }

    proof fn lemma_round_trip(&self, rest: Seq<u8>) {
        lemma_radix_values();
        lemma_twos_complement(*self as int, 16);
        let raw = twos_complement(*self as int, 16);
        lemma_be_bytes_len(raw, 16);
        lemma_parse_be_of_bytes(raw, 16, rest);
    }

    proof fn lemma_parse(bytes: Seq<u8>) {
        lemma_radix_values();
        lemma_parse_be(bytes, 16);
        if let Ok((raw, n)) = parse_be(bytes, 16) {
            lemma_from_twos_complement(raw, 16);
        }
    }

    proof fn lemma_max_len(&self) {
        lemma_be_bytes_len(twos_complement(*self as int, 16), 16);
    }
}

} // verus!
