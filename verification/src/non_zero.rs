//! Integers that are never zero, and their wire format.

use crate::codec::Codec;
use crate::deserialise::{DStream, Deserialise};
use crate::error::{Error, ErrorView};
use crate::serialise::{SStream, Serialise};
use vstd::prelude::*;

verus! {

/// The fixed-width integer types.
pub trait Integer: Serialise + Deserialise + Copy {
    /// Whether this integer is zero.
    spec fn is_zero(&self) -> bool;

    /// Whether this integer is zero.
    fn zero(&self) -> (zero: bool)
        ensures
            zero == self.is_zero(),
    ;
}

impl Integer for u8 {
    open spec fn is_zero(&self) -> bool {
        *self == 0
    }

    fn zero(&self) -> (zero: bool) {
        *self == 0
    }
}

impl Integer for u16 {
    open spec fn is_zero(&self) -> bool {
        *self == 0
    }

    fn zero(&self) -> (zero: bool) {
        *self == 0
    }
}

impl Integer for u32 {
    open spec fn is_zero(&self) -> bool {
        *self == 0
    }

    fn zero(&self) -> (zero: bool) {
        *self == 0
    }
}

impl Integer for u64 {
    open spec fn is_zero(&self) -> bool {
        *self == 0
    }

    fn zero(&self) -> (zero: bool) {
        *self == 0
    }
}

impl Integer for u128 {
    open spec fn is_zero(&self) -> bool {
        *self == 0
    }

    fn zero(&self) -> (zero: bool) {
        *self == 0
    }
}

impl Integer for i8 {
    open spec fn is_zero(&self) -> bool {
        *self == 0
    }

    fn zero(&self) -> (zero: bool) {
        *self == 0
    }
}

impl Integer for i16 {
    open spec fn is_zero(&self) -> bool {
        *self == 0
    }

    fn zero(&self) -> (zero: bool) {
        *self == 0
    }
}

impl Integer for i32 {
    open spec fn is_zero(&self) -> bool {
        *self == 0
    }

    fn zero(&self) -> (zero: bool) {
        *self == 0
    }
}

impl Integer for i64 {
    open spec fn is_zero(&self) -> bool {
        *self == 0
    }

    fn zero(&self) -> (zero: bool) {
        *self == 0
    }
}

impl Integer for i128 {
    open spec fn is_zero(&self) -> bool {
        *self == 0
    }

    fn zero(&self) -> (zero: bool) {
        *self == 0
    }
}

/// An integer that is not zero.
///
/// Its view is the integer.
#[derive(Debug)]
pub struct NonZero<T: Integer> {
    value: T,
}

impl<T: Integer> View for NonZero<T> {
    type V = T;

    closed spec fn view(&self) -> T {
        self.value
    }
}

impl<T: Integer> NonZero<T> {
    #[verifier::type_invariant]
    closed spec fn inv(&self) -> bool {
        !self.value.is_zero()
    }

    /// The non-zero integer that holds `value`.
    pub closed spec fn of(value: T) -> Self {
        NonZero { value }
    }

    /// A non-zero integer is the non-zero integer of its own value.
    pub proof fn lemma_of(self, value: T)
        ensures
            Self::of(self@) == self,
            Self::of(value)@ == value,
    {
    }

    /// `value` as a non-zero integer, or nothing where it is zero.
    pub fn new(value: T) -> (r: Option<Self>)
        ensures
            r == if value.is_zero() {
                None
            } else {
                Some(Self::of(value))
            },
    {
        if value.zero() {
            None
        } else {
            Some(NonZero { value })
        }
    }

    /// The integer, which is not zero.
    pub fn get(&self) -> (value: T)
        ensures
            value == self@,
            !value.is_zero(),
    {
        proof {
            use_type_invariant(self);
        }
        self.value
    }
}

impl<T: Integer> Clone for NonZero<T> {
    fn clone(&self) -> (r: Self)
        ensures
            r == *self,
    {
        *self
    }
}

impl<T: Integer> Copy for NonZero<T> {

}

impl<T: Integer> Codec for NonZero<T> {
    open spec fn valid(&self) -> bool {
        !self@.is_zero() && self@.valid()
    }

    /// The encoding of the integer itself.
    open spec fn wire(&self) -> Seq<u8> {
        self@.wire()
    }

    open spec fn parse(bytes: Seq<u8>) -> Result<(Self, nat), (ErrorView, nat)> {
        match T::parse(bytes) {
            Ok((value, n)) => if value.is_zero() {
                Err((ErrorView::NullInteger, n))
            } else {
                Ok((Self::of(value), n))
            },
            Err(e) => Err(e),
        }
    }

    open spec fn max_len() -> nat {
        T::max_len()
    }

    fn wire_limit() -> (n: usize) {
        T::wire_limit()
    }

    proof fn lemma_round_trip(&self, rest: Seq<u8>) {
        self@.lemma_round_trip(rest);
    }

    proof fn lemma_parse(bytes: Seq<u8>) {
        T::lemma_parse(bytes);
    }

    proof fn lemma_max_len(&self) {
        self@.lemma_max_len();
    }
}

impl<T: Integer> Serialise for NonZero<T> {
    fn serialise(&self, stream: &mut SStream) {
        self.value.serialise(stream);
    }
}

impl<T: Integer> Deserialise for NonZero<T> {
    fn deserialise(stream: &mut DStream) -> (r: Result<Self, Error>) {
        let ghost before = stream@;
        let value = match T::deserialise(stream) {
            Ok(value) => value,
            Err(e) => {
                return Err(e);
            },
        };
        if value.zero() {
            proof {
                T::lemma_parse(before);
            }
            return Err(Error::NullInteger);
        }
        Ok(NonZero { value })
    }
}

} // verus!
