//! The wire format of every supported type, as mathematics.

pub mod basic;
pub mod container;
pub mod integer;

use crate::endian::saturated;
use crate::error::ErrorView;
use vstd::prelude::*;

verus! {

/// The wire format of a type: what its values look like as bytes, and which
/// bytes give which value back.
pub trait Codec: Sized {
    /// Whether this value satisfies the invariants its type was built with.
    spec fn valid(&self) -> bool;

    /// The canonical encoding of this value.
    spec fn wire(&self) -> Seq<u8>;

    /// What decoding from the front of `bytes` gives: the value and the
    /// number of bytes it took, or the failure and the number of bytes that
    /// were read before it.
    spec fn parse(bytes: Seq<u8>) -> Result<(Self, nat), (ErrorView, nat)>;

    /// The length of the longest encoding that any value of the type has.
    spec fn max_len() -> nat;

    /// The length of the longest encoding, as far as a `usize` can hold it.
    fn wire_limit() -> (n: usize)
        ensures
            n == saturated(Self::max_len()),
    ;

    /// Decoding the encoding of a value gives that value back and consumes
    /// exactly the encoding, whatever follows it.
    proof fn lemma_round_trip(&self, rest: Seq<u8>)
        requires
            self.valid(),
        ensures
            Self::parse(self.wire() + rest) == Ok::<(Self, nat), (ErrorView, nat)>(
                (*self, self.wire().len()),
            ),
    ;

    /// What decoding accepts is the canonical encoding of the value it
    /// gives, and decoding never reads beyond the bytes it has.
    proof fn lemma_parse(bytes: Seq<u8>)
        ensures
            Self::parse(bytes) matches Ok((value, n)) ==> value.valid() && n <= bytes.len()
                && bytes.take(n as int) == value.wire(),
            Self::parse(bytes) matches Err((_, n)) ==> n <= bytes.len(),
    ;

    /// No encoding is longer than the type's maximum.
    proof fn lemma_max_len(&self)
        requires
            self.valid(),
        ensures
            self.wire().len() <= Self::max_len(),
    ;
}

} // verus!
