//! Big-endian integers of a fixed width, as mathematics and as code.

use crate::deserialise::DStream;
use crate::error::{Error, ErrorView};
use crate::serialise::SStream;
use vstd::prelude::*;

verus! {

/// The number of values that `width` bytes can tell apart: 256 to the power `width`.
pub open spec fn radix(width: nat) -> nat
    decreases width,
{
    if width == 0 {
        1
    } else {
        256 * radix((width - 1) as nat)
    }
}

/// The `width` low-order base-256 digits of `value`, most significant first.
pub open spec fn be_bytes(value: nat, width: nat) -> Seq<u8>
    decreases width,
{
    if width == 0 {
        Seq::empty()
    } else {
        be_bytes(value / 256, (width - 1) as nat).push((value % 256) as u8)
    }
}

/// The number whose base-256 digits, most significant first, are `bytes`.
pub open spec fn be_value(bytes: Seq<u8>) -> nat
    decreases bytes.len(),
{
    if bytes.len() == 0 {
        0
    } else {
        256 * be_value(bytes.drop_last()) + bytes.last() as nat
    }
}

/// The unsigned number that stands for `value` in two's complement of `width` bytes.
pub open spec fn twos_complement(value: int, width: nat) -> nat {
    if value < 0 {
        (value + radix(width)) as nat
    } else {
        value as nat
    }
}

/// The signed number that `value` stands for in two's complement of `width` bytes.
pub open spec fn from_twos_complement(value: nat, width: nat) -> int {
    if 2 * value >= radix(width) {
        value - radix(width)
    } else {
        value as int
    }
}

/// The count `n` as far as a `usize` can hold it: counts beyond the
/// platform's address range are all reported as `usize::MAX`.
pub open spec fn saturated(n: nat) -> usize {
    if n > usize::MAX {
        usize::MAX
    } else {
        n as usize
    }
}

/// What reading a `width`-byte big-endian number from the front of `bytes`
/// gives: the number and the count of bytes read, or the shortfall, for
/// which nothing is read.
pub open spec fn parse_be(bytes: Seq<u8>, width: nat) -> Result<(nat, nat), (ErrorView, nat)> {
    if bytes.len() < width {
        Err((ErrorView::EndOfDStream { len: bytes.len() as usize, ok_len: width as usize }, 0))
    } else {
        Ok((be_value(bytes.take(width as int)), width))
    }
}

/// The radix of each width that a primitive integer has.
pub proof fn lemma_radix_values()
    ensures
        radix(0) == 1,
        radix(1) == 0x100,
        radix(2) == 0x1_0000,
        radix(4) == 0x1_0000_0000,
        radix(8) == 0x1_0000_0000_0000_0000,
        radix(16) == 0x1_0000_0000_0000_0000_0000_0000_0000_0000,
{
    reveal_with_fuel(radix, 3);
    assert(radix(2) == 0x1_0000);
    assert(radix(4) == 0x1_0000 * radix(2));
    assert(radix(6) == 0x1_0000 * radix(4));
    assert(radix(8) == 0x1_0000 * radix(6));
    assert(radix(10) == 0x1_0000 * radix(8));
    assert(radix(12) == 0x1_0000 * radix(10));
    assert(radix(14) == 0x1_0000 * radix(12));
    assert(radix(16) == 0x1_0000 * radix(14));
}

/// A wider field has at least the radix of a narrower one.
pub proof fn lemma_radix_monotonic(narrow: nat, wide: nat)
    requires
        narrow <= wide,
    ensures
        1 <= radix(narrow) <= radix(wide),
    decreases wide,
{
    if wide == 0 {
    } else if narrow == wide {
        lemma_radix_monotonic((narrow - 1) as nat, (wide - 1) as nat);
    } else {
        lemma_radix_monotonic(narrow, (wide - 1) as nat);
    }
}

/// A big-endian encoding of `width` bytes is `width` bytes long.
pub proof fn lemma_be_bytes_len(value: nat, width: nat)
    ensures
        be_bytes(value, width).len() == width,
    decreases width,
{
    if width > 0 {
        lemma_be_bytes_len(value / 256, (width - 1) as nat);
    }
}

/// The value of a byte sequence is below the radix of its length.
pub proof fn lemma_be_value_bound(bytes: Seq<u8>)
    ensures
        be_value(bytes) < radix(bytes.len()),
    decreases bytes.len(),
{
    if bytes.len() > 0 {
        lemma_be_value_bound(bytes.drop_last());
    }
}

/// Encoding a number that fits `width` bytes and reading it back gives the number.
pub proof fn lemma_be_value_of_bytes(value: nat, width: nat)
    requires
        value < radix(width),
    ensures
        be_value(be_bytes(value, width)) == value,
    decreases width,
{
    if width > 0 {
        let front = be_bytes(value / 256, (width - 1) as nat);
        let all = be_bytes(value, width);
        lemma_be_value_of_bytes(value / 256, (width - 1) as nat);
        assert(all.drop_last() =~= front);
        assert(all.last() == (value % 256) as u8);
    }
}

/// Reading a byte sequence and encoding the number in as many bytes gives the sequence.
pub proof fn lemma_be_bytes_of_value(bytes: Seq<u8>)
    ensures
        be_bytes(be_value(bytes), bytes.len()) == bytes,
    decreases bytes.len(),
{
    if bytes.len() > 0 {
        lemma_be_bytes_of_value(bytes.drop_last());
        let value = be_value(bytes);
        assert(value / 256 == be_value(bytes.drop_last()));
        assert(value % 256 == bytes.last() as nat);
        assert(be_bytes(value, bytes.len()) =~= bytes);
    } else {
        assert(be_bytes(be_value(bytes), bytes.len()) =~= bytes);
    }
}

/// Two's complement and its inverse undo each other on the numbers that fit.
pub proof fn lemma_twos_complement(value: int, width: nat)
    requires
        width > 0,
        -(radix(width) as int) <= 2 * value < radix(width),
    ensures
        twos_complement(value, width) < radix(width),
        from_twos_complement(twos_complement(value, width), width) == value,
{
}

/// The inverse of two's complement and two's complement undo each other.
pub proof fn lemma_from_twos_complement(value: nat, width: nat)
    requires
        width > 0,
        value < radix(width),
    ensures
        -(radix(width) as int) <= 2 * from_twos_complement(value, width) < radix(width),
        twos_complement(from_twos_complement(value, width), width) == value,
{
}

/// Reading back what `be_bytes` wrote gives the number and leaves what followed.
pub proof fn lemma_parse_be_of_bytes(value: nat, width: nat, rest: Seq<u8>)
    requires
        value < radix(width),
    ensures
        parse_be(be_bytes(value, width) + rest, width) == Ok::<(nat, nat), (ErrorView, nat)>(
            (value, width),
        ),
{
    lemma_be_bytes_len(value, width);
    lemma_be_value_of_bytes(value, width);
    assert((be_bytes(value, width) + rest).take(width as int) =~= be_bytes(value, width));
}

/// What `parse_be` accepts is the encoding of the number it gives.
pub proof fn lemma_parse_be(bytes: Seq<u8>, width: nat)
    ensures
        parse_be(bytes, width) matches Ok((value, n)) ==> n == width && n <= bytes.len() && value
            < radix(width) && bytes.take(n as int) == be_bytes(value, width),
{
    if bytes.len() >= width {
        lemma_be_value_bound(bytes.take(width as int));
        lemma_be_bytes_of_value(bytes.take(width as int));
    }
}

/// A 64-bit count as a `usize`, saturated.
pub fn saturate(n: u64) -> (r: usize)
    ensures
        r == saturated(n as nat),
{
    if n > usize::MAX as u64 {
        usize::MAX
    } else {
        n as usize
    }
}

/// Writes the `width` low-order bytes of `value`, most significant first.
pub(crate) fn write_be(stream: &mut SStream, value: u128, width: usize)
    requires
        width <= 16,
    ensures
        final(stream)@ == old(stream)@ + be_bytes(value as nat, width as nat),
    decreases width,
{
    if width > 0 {
        write_be(stream, value / 256, width - 1);
        stream.push((value % 256) as u8);
        assert(stream@ =~= old(stream)@ + be_bytes(value as nat, width as nat));
    } else {
        assert(stream@ =~= old(stream)@ + be_bytes(value as nat, width as nat));
    }
}

/// Reads a big-endian number of `width` bytes, or fails without consuming
/// anything when fewer than `width` bytes are left.
pub(crate) fn read_be(stream: &mut DStream, width: usize) -> (r: Result<u128, Error>)
    requires
        width <= 16,
    ensures
        match parse_be(old(stream)@, width as nat) {
            Ok((value, n)) => r == Ok::<u128, Error>(value as u128) && value < radix(width as nat)
                && final(stream)@ == old(stream)@.skip(n as int),
            Err((e, _)) => r is Err && r->Err_0@ == e && final(stream)@ == old(stream)@,
        },
{
    let bytes = match stream.take(width) {
        Ok(bytes) => bytes,
        Err(e) => {
            return Err(e);
        },
    };
    let mut value: u128 = 0;
    let mut i: usize = 0;
    while i < width
        invariant
            i <= width <= 16,
            bytes@.len() == width,
            value == be_value(bytes@.take(i as int)),
        decreases width - i,
    {
        proof {
            lemma_be_value_bound(bytes@.take(i as int));
            lemma_radix_monotonic(i as nat + 1, 16);
            lemma_radix_values();
            assert(bytes@.take(i + 1).drop_last() =~= bytes@.take(i as int));
        }
        value = value * 256 + bytes[i] as u128;
        i += 1;
    }
    proof {
        assert(bytes@.take(width as int) =~= bytes@);
        assert(old(stream)@.take(width as int) == bytes@);
        lemma_be_value_bound(bytes@);
    }
    Ok(value)
}

} // verus!
