//! Numbers as decimal and hexadecimal text.

use crate::strings::string_push;
use vstd::prelude::*;

verus! {

/// The hexadecimal digit for `nibble`, in upper case where `upper` holds.
pub open spec fn hex_digit(nibble: u8, upper: bool) -> char {
    if nibble < 10 {
        (nibble + 48) as u8 as char
    } else if upper {
        (nibble + 55) as u8 as char
    } else {
        (nibble + 87) as u8 as char
    }
}

/// A byte in hexadecimal, without a leading zero.
pub open spec fn hex_byte(byte: u8, upper: bool) -> Seq<char> {
    if byte < 16 {
        seq![hex_digit(byte, upper)]
    } else {
        seq![hex_digit(byte / 16, upper), hex_digit(byte % 16, upper)]
    }
}

/// The hexadecimal digit for `nibble`, in upper case where `upper` holds.
pub(crate) fn hex_digit_of(nibble: u8, upper: bool) -> (digit: char)
    requires
        nibble < 16,
    ensures
        digit == hex_digit(nibble, upper),
{
    if nibble < 10 {
        (nibble + 48) as char
    } else if upper {
        (nibble + 55) as char
    } else {
        (nibble + 87) as char
    }
}

/// Writes `byte` in hexadecimal, without a leading zero, at the end of `text`.
pub fn push_hex(text: &mut String, byte: u8, upper: bool)
    ensures
        final(text)@ == old(text)@ + hex_byte(byte, upper),
{
    if byte >= 16 {
        string_push(text, hex_digit_of(byte / 16, upper));
    }
    string_push(text, hex_digit_of(byte % 16, upper));
    assert(text@ =~= old(text)@ + hex_byte(byte, upper));
}

/// A code point in upper-case hexadecimal: at least four digits, with
/// leading zeros where it has fewer.
pub open spec fn hex_code_point(value: u32) -> Seq<char>
    decreases value,
{
    if value < 0x1_0000 {
        seq![
            hex_digit((value / 0x1000) as u8, true),
            hex_digit((value / 0x100 % 16) as u8, true),
            hex_digit((value / 0x10 % 16) as u8, true),
            hex_digit((value % 16) as u8, true),
        ]
    } else {
        hex_code_point(value / 16).push(hex_digit((value % 16) as u8, true))
    }
}

/// Writes `value` in upper-case hexadecimal of at least four digits at the end of `text`.
pub fn push_hex_code_point(text: &mut String, value: u32)
    ensures
        final(text)@ == old(text)@ + hex_code_point(value),
    decreases value,
{
    if value < 0x1_0000 {
        string_push(text, hex_digit_of((value / 0x1000) as u8, true));
        string_push(text, hex_digit_of((value / 0x100 % 16) as u8, true));
        string_push(text, hex_digit_of((value / 0x10 % 16) as u8, true));
        string_push(text, hex_digit_of((value % 16) as u8, true));
    } else {
        push_hex_code_point(text, value / 16);
        string_push(text, hex_digit_of((value % 16) as u8, true));
    }
    assert(text@ =~= old(text)@ + hex_code_point(value));
}

/// A number in decimal, without leading zeros.
pub open spec fn decimal(value: nat) -> Seq<char>
    decreases value,
{
    if value < 10 {
        seq![hex_digit(value as u8, false)]
    } else {
        decimal(value / 10).push(hex_digit((value % 10) as u8, false))
    }
}

/// Writes `value` in decimal at the end of `text`.
pub fn push_decimal(text: &mut String, value: usize)
    ensures
        final(text)@ == old(text)@ + decimal(value as nat),
    decreases value,
{
    if value >= 10 {
        push_decimal(text, value / 10);
    }
    string_push(text, hex_digit_of((value % 10) as u8, false));
    assert(text@ =~= old(text)@ + decimal(value as nat));
}

} // verus!
