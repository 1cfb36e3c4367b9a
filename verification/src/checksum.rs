use crate::codec::container::{array_of, lemma_array_exists, lemma_array_of};
use crate::codec::Codec;
use crate::deserialise::{DStream, Deserialise};
use crate::digits::{hex_byte, push_hex};
use crate::error::{Error, ErrorView};
use crate::serialise::{SStream, Serialise};
use sha2::{Digest, Sha256};
use vstd::prelude::*;
use vstd::std_specs::cmp::PartialEqSpecImpl;

verus! {

/// The SHA-256 digest of `bytes`: 32 bytes that depend on `bytes` alone.
pub uninterp spec fn sha256(bytes: Seq<u8>) -> Seq<u8>;

/// `sha2::Sha256::digest`: hashes `bytes` with a fresh SHA-256 hasher and
/// hands the 32 bytes of the digest out as an array.
#[verifier::external_body]
fn sha256_digest(bytes: &[u8]) -> (digest: [u8; 32])
    ensures
        digest@ == sha256(bytes@),
{
    Sha256::digest(bytes).into()
}

/// The bytes in lowercase hexadecimal, last byte first.
pub open spec fn hex_reversed(bytes: Seq<u8>) -> Seq<char>
    decreases bytes.len(),
{
    if bytes.len() == 0 {
        Seq::empty()
    } else {
        hex_byte(bytes.last(), false) + hex_reversed(bytes.drop_last())
    }
}

/// A 32-byte digest of a value's canonical encoding.
///
/// Its view is the digest as a sequence of 32 bytes.
#[derive(Clone, Copy, Debug)]
pub struct Checksum(pub(crate) [u8; 32]);

impl View for Checksum {
    type V = Seq<u8>;

    closed spec fn view(&self) -> Seq<u8> {
        self.0@
    }
}

impl Checksum {
    /// The checksum whose bytes are `bytes`.
    pub closed spec fn of(bytes: Seq<u8>) -> Checksum {
        Checksum(array_of(bytes))
    }

    /// A checksum is the checksum of its own bytes, and the checksum of 32
    /// bytes holds those bytes.
    pub proof fn lemma_of(self, bytes: Seq<u8>)
        ensures
            Self::of(self@) == self,
            bytes.len() == 32 ==> Self::of(bytes)@ == bytes,
    {
        lemma_array_of(self.0);
        if bytes.len() == 32 {
            lemma_array_exists::<u8, 32>(bytes);
        }
    }

    /// The checksum that holds the SHA-256 digest of `bytes`.
    pub open spec fn digest(bytes: Seq<u8>) -> Checksum {
        Self::of(sha256(bytes))
    }

    /// The checksum of the canonical encoding of `data`.
    pub fn new<T: Serialise>(data: &T) -> (sum: Self)
        ensures
            sum@ == sha256(data.wire()),
            sum == Self::digest(data.wire()),
    {
        let stream = SStream::from_value(data);
        let sum = Self::from_bytes(sha256_digest(stream.as_slice()));
        proof {
            sum.lemma_of(sum@);
        }
        sum
    }

    /// The checksum that holds the 32 bytes `bytes`.
    pub fn from_bytes(bytes: [u8; 32]) -> (sum: Self)
        ensures
            sum@ == bytes@,
    {
        Self(bytes)
    }

    /// The 32 bytes of the checksum.
    pub fn as_bytes(&self) -> (bytes: &[u8; 32])
        ensures
            bytes@ == self@,
    {
        &self.0
    }

    /// The checksum as text: every byte in lowercase hexadecimal without a
    /// leading zero, the last byte first.
    pub fn to_string(&self) -> (text: String)
        ensures
            text@ == hex_reversed(self@),
    {
        let mut text = String::new();
        let mut i: usize = 32;
        assert(self.0@.take(32) =~= self.0@);
        assert(Seq::<char>::empty() + hex_reversed(self.0@) =~= hex_reversed(self.0@));
        while i > 0
            invariant
                i <= 32,
                hex_reversed(self.0@) == text@ + hex_reversed(self.0@.take(i as int)),
            decreases i,
        {
            i -= 1;
            let byte = self.0[i];
            let ghost written = text@;
            let ghost rest = hex_reversed(self.0@.take(i as int));
            proof {
                let front = self.0@.take(i + 1);
                assert(front.drop_last() =~= self.0@.take(i as int));
                assert(front.last() == byte);
                assert(hex_reversed(front) == hex_byte(byte, false) + rest);
                assert(written + (hex_byte(byte, false) + rest) =~= (written + hex_byte(
                    byte,
                    false,
                )) + rest);
            }
            push_hex(&mut text, byte, false);
        }
        assert(self.0@.take(0) =~= Seq::<u8>::empty());
        assert(text@ + Seq::<char>::empty() =~= text@);
        text
    }

    /// Every checksum is 32 bytes long, and two checksums with the same
    /// bytes are the same checksum.
    pub broadcast proof fn lemma_view(self, other: Checksum)
        ensures
            #![trigger self@, other@]
            self@.len() == 32,
            self@ == other@ <==> self == other,
    {
        if self@ == other@ {
            assert forall|i: int| 0 <= i < 32 implies self.0[i] == other.0[i] by {
                assert(self.0@[i] == other.0@[i]);
            }
            assert(self.0 =~= other.0);
        }
    }
}

impl Codec for Checksum {
    open spec fn valid(&self) -> bool {
        true
    }

    /// The 32 bytes of the digest as they are: no prefix, no reordering.
    open spec fn wire(&self) -> Seq<u8> {
        self@
    }

    open spec fn parse(bytes: Seq<u8>) -> Result<(Self, nat), (ErrorView, nat)> {
        if bytes.len() < 32 {
            Err((ErrorView::EndOfDStream { len: bytes.len() as usize, ok_len: 32 }, 0))
        } else {
            Ok((Checksum::of(bytes.take(32)), 32))
        }
    }

    open spec fn max_len() -> nat {
        32
    }

    fn wire_limit() -> (n: usize) {
        32
    }

    proof fn lemma_round_trip(&self, rest: Seq<u8>) {
        assert((self@ + rest).take(32) =~= self@);
        self.lemma_of(self@);
    }

    proof fn lemma_parse(bytes: Seq<u8>) {
        if bytes.len() >= 32 {
            Checksum::of(bytes.take(32)).lemma_of(bytes.take(32));
        }
    }

    proof fn lemma_max_len(&self) {
    }
}

impl Serialise for Checksum {
    fn serialise(&self, stream: &mut SStream) {
        stream.append(self.0.as_slice());
    }
}

impl Deserialise for Checksum {
    fn deserialise(stream: &mut DStream) -> (r: Result<Self, Error>) {
        let raw = match stream.take(32) {
            Ok(raw) => raw,
            Err(e) => {
                return Err(e);
            },
        };
        let mut bytes = [0u8;32];
        let mut i: usize = 0;
        while i < 32
            invariant
                i <= 32,
                raw@.len() == 32,
                forall|j: int| 0 <= j < i ==> bytes@[j] == raw@[j],
            decreases 32 - i,
        {
            bytes[i] = raw[i];
            i += 1;
        }
        let sum = Checksum(bytes);
        proof {
            assert(bytes@ =~= raw@);
            sum.lemma_of(sum@);
        }
        Ok(sum)
    }
}

impl PartialEq for Checksum {
    /// Exact comparison of all 32 bytes.
    fn eq(&self, other: &Self) -> (r: bool) {
        let mut i: usize = 0;
        while i < 32
            invariant
                i <= 32,
                forall|j: int| 0 <= j < i ==> self.0@[j] == other.0@[j],
            decreases 32 - i,
        {
            if self.0[i] != other.0[i] {
                return false;
            }
            i += 1;
        }
        assert(self.0@ =~= other.0@);
        true
    }
}

impl PartialEqSpecImpl for Checksum {
    open spec fn obeys_eq_spec() -> bool {
        true
    }

    open spec fn eq_spec(&self, other: &Self) -> bool {
        self@ == other@
    }
}

impl Eq for Checksum {

}

} // verus!
