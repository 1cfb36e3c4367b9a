use crate::checksum::Checksum;
use crate::codec::Codec;
use crate::deserialise::{DStream, Deserialise};
use crate::endian::saturated;
use crate::error::{Error, ErrorView};
use crate::serialise::{SStream, Serialise};
use vstd::prelude::*;

verus! {

/// A message together with the checksum of its canonical encoding.
#[derive(Clone, Debug)]
pub struct Packet<T: Deserialise + Serialise> {
    pub message: T,
    pub checksum: Checksum,
}

impl<T: Deserialise + Serialise> Codec for Packet<T> {
    open spec fn valid(&self) -> bool {
        self.message.valid()
    }

    /// The message first, the checksum second, with nothing in between.
    open spec fn wire(&self) -> Seq<u8> {
        self.message.wire() + self.checksum.wire()
    }

    open spec fn parse(bytes: Seq<u8>) -> Result<(Self, nat), (ErrorView, nat)> {
        match T::parse(bytes) {
            Err(e) => Err(e),
            Ok((message, n)) => match Checksum::parse(bytes.skip(n as int)) {
                Err((e, m)) => Err((e, n + m)),
                Ok((checksum, m)) => Ok((Packet { message, checksum }, n + m)),
            },
        }
    }

    open spec fn max_len() -> nat {
        T::max_len() + 32
    }

    fn wire_limit() -> (n: usize) {
        T::wire_limit().saturating_add(32)
    }

    proof fn lemma_round_trip(&self, rest: Seq<u8>) {
        let bytes = self.wire() + rest;
        assert(bytes =~= self.message.wire() + (self.checksum.wire() + rest));
        self.message.lemma_round_trip(self.checksum.wire() + rest);
        assert(bytes.skip(self.message.wire().len() as int) =~= self.checksum.wire() + rest);
        self.checksum.lemma_round_trip(rest);
    }

    proof fn lemma_parse(bytes: Seq<u8>) {
        T::lemma_parse(bytes);
        if let Ok((_, n)) = T::parse(bytes) {
            Checksum::lemma_parse(bytes.skip(n as int));
        }
        if let Ok((value, total)) = Self::parse(bytes) {
            let n = T::parse(bytes)->Ok_0.1;
            assert(bytes.take(total as int) =~= bytes.take(n as int) + bytes.skip(n as int).take(
                32,
            ));
        }
    }

    proof fn lemma_max_len(&self) {
        self.message.lemma_max_len();
        self.checksum.lemma_max_len();
    }
}

impl<T: Deserialise + Serialise> Serialise for Packet<T> {
    fn serialise(&self, stream: &mut SStream) {
        self.message.serialise(stream);
        self.checksum.serialise(stream);
        assert(stream@ =~= old(stream)@ + self.wire());
    }
}

impl<T: Deserialise + Serialise> Deserialise for Packet<T> {
    fn deserialise(stream: &mut DStream) -> (r: Result<Self, Error>) {
        let ghost before = stream@;
        let message = match T::deserialise(stream) {
            Ok(message) => message,
            Err(e) => {
                return Err(e);
            },
        };
        proof {
            T::lemma_parse(before);
        }
        let ghost n = T::parse(before)->Ok_0.1;
        let checksum = match Checksum::deserialise(stream) {
            Ok(checksum) => checksum,
            Err(e) => {
                proof {
                    Checksum::lemma_parse(before.skip(n as int));
                    assert(stream@ =~= before.skip(n as int));
                }
                return Err(e);
            },
        };
        assert(stream@ =~= before.skip((n + 32) as int));
        Ok(Packet { message, checksum })
    }
}

impl<T: Deserialise + Serialise> Packet<T> {
    /// The bytes of the packet that carries `message`: the encoding of the
    /// message, then the digest of that encoding.
    pub open spec fn encoding(message: T) -> Seq<u8> {
        message.wire() + Checksum::digest(message.wire())@
    }

    /// What checking a decoded message against its checksum gives: the
    /// message where the embedded checksum `sum` is the recomputed `ok_sum`,
    /// and the mismatch with both of them where it is not.
    pub open spec fn checked(message: T, sum: Checksum, ok_sum: Checksum) -> Result<T, ErrorView> {
        if sum@ == ok_sum@ {
            Ok(message)
        } else {
            Err(ErrorView::PackageChecksumMismatch { sum: sum@, ok_sum: ok_sum@ })
        }
    }

    /// What decoding the packet `data` gives: the message, or the failure.
    ///
    /// Data longer than any packet of this type is refused before anything
    /// is read. A field that does not decode is reported as a nested
    /// failure. Bytes after the checksum are ignored.
    pub open spec fn decoding(data: Seq<u8>) -> Result<T, ErrorView> {
        if data.len() > Self::max_len() {
            Err(
                ErrorView::InvalidPackageLength {
                    len: data.len() as usize,
                    ok_len: saturated(Self::max_len()),
                },
            )
        } else {
            match Self::parse(data) {
                Err((e, _)) => Err(ErrorView::DeserialiseFailure { source: Box::new(e) }),
                Ok((packet, _)) => Self::checked(
                    packet.message,
                    packet.checksum,
                    Checksum::digest(packet.message.wire()),
                ),
            }
        }
    }

    /// Encodes `message` followed by the checksum of its encoding.
    pub fn encode(message: T) -> (bytes: Box<[u8]>)
        ensures
            bytes@ == Self::encoding(message),
    {
        let checksum = Checksum::new(&message);
        let packet = Packet { message, checksum };
        let stream = SStream::from_value(&packet);
        assert(stream@ =~= Self::encoding(message));
        stream.into_boxed_slice()
    }

    /// Hands `message` out where the embedded checksum `sum` equals the
    /// recomputed checksum `ok_sum`, and reports the mismatch otherwise.
    pub fn verify(message: T, sum: Checksum, ok_sum: Checksum) -> (r: Result<T, Error>)
        ensures
            match Self::checked(message, sum, ok_sum) {
                Ok(m) => r == Ok::<T, Error>(m),
                Err(e) => r is Err && r->Err_0@ == e,
            },
    {
        if sum != ok_sum {
            return Err(Error::PackageChecksumMismatch { sum, ok_sum });
        }
        Ok(message)
    }

    /// Decodes a packet and hands its message out once the checksum has
    /// been found to match.
    pub fn decode(data: &[u8]) -> (r: Result<T, Error>)
        ensures
            match Self::decoding(data@) {
                Ok(message) => r == Ok::<T, Error>(message),
                Err(e) => r is Err && r->Err_0@ == e,
            },
    {
        let limit = Self::wire_limit();
        if data.len() > limit {
            return Err(Error::InvalidPackageLength { len: data.len(), ok_len: limit });
        }
        let mut stream = DStream::new(data);
        let packet = match Self::deserialise(&mut stream) {
            Ok(packet) => packet,
            Err(e) => {
                return Err(Error::DeserialiseFailure { source: Box::new(e) });
            },
        };
        let checksum = Checksum::new(&packet.message);
        Self::verify(packet.message, packet.checksum, checksum)
    }
}

} // verus!
