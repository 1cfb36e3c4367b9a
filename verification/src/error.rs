use crate::checksum::{hex_reversed, Checksum};
use crate::digits::{
    decimal, hex_byte, hex_code_point, push_decimal, push_hex, push_hex_code_point,
};
use crate::strings::{debug_quoted, str_debug};
use vstd::prelude::*;
use vstd::std_specs::convert::FromSpecImpl;
use vstd::string::StringExecFns;

verus! {

/// The result of an operation that may fail with an [`Error`].
pub type Result<T> = core::result::Result<T, Error>;

/// Everything that can go wrong while decoding.
#[derive(Debug)]
#[allow(inconsistent_fields)]
pub enum Error {
    /// An array's declared element count `len` differs from the expected `ok_len`.
    ArrayLengthMismatch { len: usize, ok_len: usize },
    /// A field nested inside a larger structure failed to decode.
    DeserialiseFailure { source: Box<Error> },
    /// `ok_len` bytes were requested but only `len` were left.
    EndOfDStream { len: usize, ok_len: usize },
    /// A boolean byte was neither `0x00` nor `0x01`.
    InvalidBoolean { value: u8 },
    /// A four-byte value is not a Unicode scalar value.
    InvalidCodePoint { value: u32 },
    /// Length-prefixed text was not well-formed UTF-8.
    InvalidUtf8,
    /// The text `s` does not fit a fixed string of the capacity `len`.
    FixedStringTooShort { len: usize, s: String },
    /// A packet of `len` bytes exceeds the largest possible size `ok_len`.
    InvalidPackageLength { len: usize, ok_len: usize },
    /// A non-zero integer field held zero.
    NullInteger,
    /// The embedded checksum `sum` differs from the recomputed `ok_sum`.
    PackageChecksumMismatch { sum: Checksum, ok_sum: Checksum },
}

/// The mathematical content of an [`Error`]: text as a sequence of scalar
/// values, checksums as sequences of bytes.
#[allow(inconsistent_fields)]
pub ghost enum ErrorView {
    ArrayLengthMismatch { len: usize, ok_len: usize },
    DeserialiseFailure { source: Box<ErrorView> },
    EndOfDStream { len: usize, ok_len: usize },
    InvalidBoolean { value: u8 },
    InvalidCodePoint { value: u32 },
    InvalidUtf8,
    FixedStringTooShort { len: usize, s: Seq<char> },
    InvalidPackageLength { len: usize, ok_len: usize },
    NullInteger,
    PackageChecksumMismatch { sum: Seq<u8>, ok_sum: Seq<u8> },
}

impl Error {
    /// The mathematical content of this error.
    pub open spec fn content(self) -> ErrorView
        decreases self,
    {
        match self {
            Error::ArrayLengthMismatch { len, ok_len } => ErrorView::ArrayLengthMismatch {
                len,
                ok_len,
            },
            Error::DeserialiseFailure { source } => ErrorView::DeserialiseFailure {
                source: Box::new(source.content()),
            },
            Error::EndOfDStream { len, ok_len } => ErrorView::EndOfDStream { len, ok_len },
            Error::InvalidBoolean { value } => ErrorView::InvalidBoolean { value },
            Error::InvalidCodePoint { value } => ErrorView::InvalidCodePoint { value },
            Error::InvalidUtf8 => ErrorView::InvalidUtf8,
            Error::FixedStringTooShort { len, s } => ErrorView::FixedStringTooShort { len, s: s@ },
            Error::InvalidPackageLength { len, ok_len } => ErrorView::InvalidPackageLength {
                len,
                ok_len,
            },
            Error::NullInteger => ErrorView::NullInteger,
            Error::PackageChecksumMismatch { sum, ok_sum } => ErrorView::PackageChecksumMismatch {
                sum: sum@,
                ok_sum: ok_sum@,
            },
        }
    }
}

impl Error {
    /// The failure that this one wraps: the nested cause of a
    /// `DeserialiseFailure`, and nothing for every other error.
    pub fn source(&self) -> (cause: Option<&Error>)
        ensures
            cause == match *self {
                Error::DeserialiseFailure { source } => Some(&*source),
                _ => None::<&Error>,
            },
    {
        match self {
            Error::DeserialiseFailure { source } => Some(&**source),
            _ => None,
        }
    }
}

impl ErrorView {
    /// The message that describes this error to a person.
    pub open spec fn message(self) -> Seq<char>
        decreases self,
    {
        match self {
            ErrorView::ArrayLengthMismatch { len, ok_len } => "expected array of length ("@
                + decimal(ok_len as nat) + ") but got ("@ + decimal(len as nat) + ") elements"@,
            ErrorView::DeserialiseFailure { source } => "unable to deserialise: \""@
                + source.message() + "\""@,
            ErrorView::EndOfDStream { len, ok_len } => "("@ + decimal(ok_len as nat)
                + ") byte(s) were requested but only ("@ + decimal(len as nat)
                + ") byte(s) were left"@,
            ErrorView::InvalidBoolean { value } => "expected boolean but got 0x"@ + hex_byte(
                value,
                true,
            ),
            ErrorView::InvalidCodePoint { value } => "code point U+"@ + hex_code_point(value)
                + " is not valid"@,
            ErrorView::InvalidUtf8 => "expected well-formed UTF-8"@,
            ErrorView::FixedStringTooShort { len, s } => "fixed string with `N = "@ + decimal(
                len as nat,
            ) + "` cannot hold "@ + debug_quoted(s),
            ErrorView::InvalidPackageLength { len, ok_len } =>
                "invalid packet length: expected at most ("@ + decimal(ok_len as nat)
                + ") byte(s) but got ("@ + decimal(len as nat) + ") byte(s)"@,
            ErrorView::NullInteger => "expected non-zero integer but got (0)"@,
            ErrorView::PackageChecksumMismatch { sum, ok_sum } => "expected packet checksum "@
                + hex_reversed(ok_sum) + " but got "@ + hex_reversed(sum),
        }
    }
}

impl Error {
    /// The message for a text that does not fit a fixed string of the size
    /// `len`, where `quoted` is the text as it is to be shown.
    pub fn too_short_message(len: usize, quoted: &str) -> (text: String)
        ensures
            text@ == "fixed string with `N = "@ + decimal(len as nat) + "` cannot hold "@
                + quoted@,
    {
        let mut text = String::new();
        text.append("fixed string with `N = ");
        push_decimal(&mut text, len);
        text.append("` cannot hold ");
        text.append(quoted);
        assert(text@ =~= "fixed string with `N = "@ + decimal(len as nat) + "` cannot hold "@
            + quoted@);
        text
    }

    /// The message that describes this error to a person.
    pub fn to_string(&self) -> (text: String)
        ensures
            text@ == self@.message(),
        decreases self,
    {
        let mut text = String::new();
        match self {
            Error::ArrayLengthMismatch { len, ok_len } => {
                text.append("expected array of length (");
                push_decimal(&mut text, *ok_len);
                text.append(") but got (");
                push_decimal(&mut text, *len);
                text.append(") elements");
                assert(text@ =~= self@.message());
            },
            Error::DeserialiseFailure { source } => {
                let inner = source.to_string();
                text.append("unable to deserialise: \"");
                text.append(inner.as_str());
                text.append("\"");
                assert(text@ =~= self@.message());
            },
            Error::EndOfDStream { len, ok_len } => {
                text.append("(");
                push_decimal(&mut text, *ok_len);
                text.append(") byte(s) were requested but only (");
                push_decimal(&mut text, *len);
                text.append(") byte(s) were left");
                assert(text@ =~= self@.message());
            },
            Error::InvalidBoolean { value } => {
                text.append("expected boolean but got 0x");
                push_hex(&mut text, *value, true);
                assert(text@ =~= self@.message());
            },
            Error::InvalidCodePoint { value } => {
                text.append("code point U+");
                push_hex_code_point(&mut text, *value);
                text.append(" is not valid");
                assert(text@ =~= self@.message());
            },
            Error::InvalidUtf8 => {
                text.append("expected well-formed UTF-8");
                assert(text@ =~= self@.message());
            },
            Error::FixedStringTooShort { len, s } => {
                let quoted = str_debug(s.as_str());
                text = Self::too_short_message(*len, quoted.as_str());
            },
            Error::InvalidPackageLength { len, ok_len } => {
                text.append("invalid packet length: expected at most (");
                push_decimal(&mut text, *ok_len);
                text.append(") byte(s) but got (");
                push_decimal(&mut text, *len);
                text.append(") byte(s)");
                assert(text@ =~= self@.message());
            },
            Error::NullInteger => {
                text.append("expected non-zero integer but got (0)");
                assert(text@ =~= self@.message());
            },
            Error::PackageChecksumMismatch { sum, ok_sum } => {
                let expected = ok_sum.to_string();
                let got = sum.to_string();
                text.append("expected packet checksum ");
                text.append(expected.as_str());
                text.append(" but got ");
                text.append(got.as_str());
                assert(text@ =~= self@.message());
            },
        }
        text
    }
}

impl From<Error> for i32 {
    /// The exit status of a program that ends with a decoding error.
    fn from(_error: Error) -> (code: i32) {
        1
    }
}

impl FromSpecImpl<Error> for i32 {
    open spec fn obeys_from_spec() -> bool {
        true
    }

    open spec fn from_spec(_error: Error) -> i32 {
        1
    }
}

impl View for Error {
    type V = ErrorView;

    open spec fn view(&self) -> ErrorView {
        self.content()
    }
}

} // verus!
