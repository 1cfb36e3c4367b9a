//! What holds of the codec as a whole, proved from the contracts of its parts.

use crate::checksum::Checksum;
use crate::codec::Codec;
use crate::deserialise::Deserialise;
use crate::endian::{lemma_be_bytes_len, parse_be, radix, saturated};
use crate::error::ErrorView;
use crate::fixed_string::fixed_string::lemma_encode_utf8_widest;
use crate::fixed_string::FixedString;
use crate::packet::Packet;
use crate::serialise::{SStream, Serialise};
use vstd::prelude::*;
use vstd::utf8::encode_utf8;

verus! {

/// Round trip: decoding the encoding of a value of the format's domain
/// gives the value back and consumes all of the encoding.
pub proof fn lemma_decode_encode<T: Codec>(value: T)
    requires
        value.valid(),
    ensures
        T::parse(value.wire()) == Ok::<(T, nat), (ErrorView, nat)>((value, value.wire().len())),
{
    value.lemma_round_trip(Seq::empty());
    assert(value.wire() + Seq::<u8>::empty() =~= value.wire());
}

/// Canonical form: bytes that decode to a value begin with the encoding of
/// that value, so no two different byte strings of that length decode to it.
pub proof fn lemma_encode_decode<T: Codec>(bytes: Seq<u8>, value: T, n: nat)
    requires
        T::parse(bytes) == Ok::<(T, nat), (ErrorView, nat)>((value, n)),
    ensures
        value.valid(),
        n == value.wire().len(),
        n <= bytes.len(),
        bytes.take(n as int) == value.wire(),
{
    T::lemma_parse(bytes);
}

/// Determinism: two calls of [`Serialise::serialise`] on one value, on
/// sinks that hold the same bytes, leave the same bytes in both.
pub proof fn lemma_serialise_deterministic<T: Serialise>(
    value: &T,
    first: &mut SStream,
    second: &mut SStream,
)
    requires
        call_ensures(T::serialise, (value, first), ()),
        call_ensures(T::serialise, (value, second), ()),
        (*first)@ == (*second)@,
    ensures
        (*final(first))@ == (*final(second))@,
{
}

/// Determinism: whatever two calls of [`SStream::from_value`] on one value
/// return holds the same bytes.
pub proof fn lemma_encode_deterministic<T: Serialise>(value: &T, first: SStream, second: SStream)
    requires
        call_ensures(SStream::from_value::<T>, (value,), first),
        call_ensures(SStream::from_value::<T>, (value,), second),
    ensures
        first@ == second@,
{
}

/// Determinism: whatever two calls of [`Packet::encode`] on one message
/// return is the same bytes.
pub proof fn lemma_packet_deterministic<T: Deserialise + Serialise>(
    message: T,
    first: Box<[u8]>,
    second: Box<[u8]>,
)
    requires
        call_ensures(Packet::<T>::encode, (message,), first),
        call_ensures(Packet::<T>::encode, (message,), second),
    ensures
        first@ == second@,
{
}

/// Cursor exhaustion: a number of `width` bytes does not decode from fewer
/// bytes; the failure reports the `width` bytes asked for and the bytes
/// that were left, and nothing has been read.
pub proof fn lemma_short_input(bytes: Seq<u8>, width: nat)
    requires
        bytes.len() < width,
    ensures
        parse_be(bytes, width) == Err::<(nat, nat), (ErrorView, nat)>(
            (ErrorView::EndOfDStream { len: bytes.len() as usize, ok_len: width as usize }, 0),
        ),
{
}

/// Cursor exhaustion for each fixed-width type: fewer bytes than the type
/// is wide decode to the failure that reports the width and the bytes left.
pub proof fn lemma_short_input_of_types(bytes: Seq<u8>)
    ensures
        bytes.len() < 1 ==> u8::parse(bytes) == short::<u8>(bytes, 1) && i8::parse(bytes)
            == short::<i8>(bytes, 1),
        bytes.len() < 2 ==> u16::parse(bytes) == short::<u16>(bytes, 2) && i16::parse(bytes)
            == short::<i16>(bytes, 2),
        bytes.len() < 4 ==> u32::parse(bytes) == short::<u32>(bytes, 4) && i32::parse(bytes)
            == short::<i32>(bytes, 4) && char::parse(bytes) == short::<char>(bytes, 4),
        bytes.len() < 8 ==> u64::parse(bytes) == short::<u64>(bytes, 8) && i64::parse(bytes)
            == short::<i64>(bytes, 8),
        bytes.len() < 16 ==> u128::parse(bytes) == short::<u128>(bytes, 16) && i128::parse(bytes)
            == short::<i128>(bytes, 16),
        bytes.len() < 32 ==> Checksum::parse(bytes) == short::<Checksum>(bytes, 32),
{
}

/// The failure of a read of `width` bytes from the shorter `bytes`, which reads nothing.
pub open spec fn short<T>(bytes: Seq<u8>, width: usize) -> Result<(T, nat), (ErrorView, nat)> {
    Err((ErrorView::EndOfDStream { len: bytes.len() as usize, ok_len: width }, 0))
}

/// Packet identity: the packet made from a message of the format's domain
/// is the message's encoding and 32 bytes more, is no longer than the
/// longest packet of the type, and decodes to that message.
pub proof fn lemma_packet_identity<T: Deserialise + Serialise>(message: T)
    requires
        message.valid(),
    ensures
        Packet::<T>::encoding(message).len() == message.wire().len() + 32,
        Packet::<T>::encoding(message).len() <= Packet::<T>::max_len(),
        Packet::<T>::decoding(Packet::<T>::encoding(message)) == Ok::<T, ErrorView>(message),
{
    broadcast use Checksum::lemma_view;

    let checksum = Checksum::digest(message.wire());
    let packet = Packet { message, checksum };
    assert(checksum@.len() == 32);
    packet.lemma_max_len();
    lemma_decode_encode(packet);
}

/// Packet identity at the upper end: the packet of a fixed string that is
/// full of scalar values of four bytes each has exactly the length of the
/// longest packet of its type, and decodes to that string.
pub proof fn lemma_longest_packet<const N: usize>(string: FixedString<N>)
    requires
        string.wf(),
        string@.len() == N,
        forall|i: int| 0 <= i < string@.len() ==> string@[i] as u32 >= 0x1_0000,
        4 * N < radix(8),
    ensures
        Packet::<FixedString<N>>::encoding(string).len() == 8 + 4 * N + 32,
        Packet::<FixedString<N>>::encoding(string).len() == Packet::<FixedString<N>>::max_len(),
        Packet::<FixedString<N>>::decoding(Packet::<FixedString<N>>::encoding(string)) == Ok::<
            FixedString<N>,
            ErrorView,
        >(string),
{
    string.lemma_valid();
    lemma_encode_utf8_widest(string@);
    lemma_be_bytes_len(encode_utf8(string@).len(), 8);
    lemma_packet_identity(string);
}

/// Packet identity at the lower end: the packet of the unit value is the
/// 32 bytes of a checksum and decodes to the unit value.
pub proof fn lemma_shortest_packet()
    ensures
        Packet::<()>::encoding(()).len() == 32,
        Packet::<()>::decoding(Packet::<()>::encoding(())) == Ok::<(), ErrorView>(()),
{
    lemma_packet_identity(());
}

/// Packet size bound: data longer than the longest packet of the type is
/// refused for its length, whatever it holds.
pub proof fn lemma_oversize_refused<T: Deserialise + Serialise>(data: Seq<u8>)
    requires
        data.len() > Packet::<T>::max_len(),
    ensures
        Packet::<T>::decoding(data) == Err::<T, ErrorView>(
            ErrorView::InvalidPackageLength {
                len: data.len() as usize,
                ok_len: saturated(Packet::<T>::max_len()),
            },
        ),
{
}

/// Checksum sensitivity, as far as it holds of every hash: data decodes to
/// a message only if it begins with the encoding of that message followed
/// by the digest of that encoding. Data that differs from it anywhere in
/// that range is refused.
pub proof fn lemma_decoded_is_intact<T: Deserialise + Serialise>(data: Seq<u8>, message: T)
    requires
        Packet::<T>::decoding(data) == Ok::<T, ErrorView>(message),
    ensures
        Packet::<T>::encoding(message).len() <= data.len(),
        data.take(Packet::<T>::encoding(message).len() as int) == Packet::<T>::encoding(message),
{
    broadcast use Checksum::lemma_view;

    Packet::<T>::lemma_parse(data);
    let (packet, n) = Packet::<T>::parse(data)->Ok_0;
    assert(packet.checksum@ == Checksum::digest(message.wire())@);
}

/// A decoded message whose embedded checksum is not the digest of its
/// encoding is reported as a checksum mismatch that carries both.
pub proof fn lemma_mismatch_reported<T: Deserialise + Serialise>(data: Seq<u8>)
    requires
        data.len() <= Packet::<T>::max_len(),
        Packet::<T>::parse(data) is Ok,
        Packet::<T>::parse(data)->Ok_0.0.checksum@ != Checksum::digest(
            Packet::<T>::parse(data)->Ok_0.0.message.wire(),
        )@,
    ensures
        Packet::<T>::decoding(data) == Err::<T, ErrorView>(
            ErrorView::PackageChecksumMismatch {
                sum: Packet::<T>::parse(data)->Ok_0.0.checksum@,
                ok_sum: Checksum::digest(Packet::<T>::parse(data)->Ok_0.0.message.wire())@,
            },
        ),
{
}

} // verus!
