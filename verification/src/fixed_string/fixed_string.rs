use crate::codec::Codec;
use crate::deserialise::{DStream, Deserialise};
use crate::endian::{
    be_bytes, lemma_be_bytes_len, lemma_parse_be, lemma_parse_be_of_bytes, lemma_radix_values,
    parse_be, radix, saturated, write_be,
};
use crate::error::{Error, ErrorView};
use crate::fixed_string::Iter;
use crate::serialise::{SStream, Serialise};
use crate::strings::{str_from_utf8, string_push};
use vstd::prelude::*;
use vstd::std_specs::cmp::PartialEqSpecImpl;
use vstd::std_specs::convert::TryFromSpecImpl;
use vstd::std_specs::iter::IteratorSpec;
use vstd::string::StringSliceAdditionalSpecFns;
use vstd::utf8::{decode_utf8, encode_scalar, encode_utf8, valid_utf8};

verus! {

/// Text of at most `N` scalar values, held in a buffer of exactly `N` slots.
///
/// Its view is the text: the scalar values in the slots before the logical
/// length. The slots after it carry no meaning and are kept at `'\0'`.
#[derive(Debug)]
pub struct FixedString<const N: usize> {
    buf: [char; N],
    len: usize,
}

impl<const N: usize> View for FixedString<N> {
    type V = Seq<char>;

    closed spec fn view(&self) -> Seq<char> {
        self.buf@.take(self.len as int)
    }
}

impl<const N: usize> FixedString<N> {
    #[verifier::type_invariant]
    closed spec fn inv(&self) -> bool {
        self.len <= N
    }

    /// Whether the value is in the form that every operation of this type
    /// gives and keeps: the logical length is within the capacity, and
    /// every slot after it holds `'\0'`.
    pub closed spec fn wf(&self) -> bool {
        &&& self.len <= N
        &&& forall|i: int| self.len <= i < N ==> self.buf@[i] == '\0'
    }

    /// The fixed string that holds `text`.
    pub closed spec fn of(text: Seq<char>) -> Self {
        choose|s: Self| s.wf() && s@ == text
    }

    /// A well-formed fixed string holds at most `N` scalar values.
    pub proof fn lemma_len(self)
        requires
            self.wf(),
        ensures
            self@.len() <= N,
    {
    }

    /// Two well-formed fixed strings with the same text are the same value.
    pub proof fn lemma_same_text(self, other: Self)
        requires
            self.wf(),
            other.wf(),
            self@ == other@,
        ensures
            self == other,
    {
        assert(self.len == other.len) by {
            assert(self@.len() == self.len);
            assert(other@.len() == other.len);
        }
        assert forall|i: int| 0 <= i < N implies self.buf[i] == other.buf[i] by {
            if i < self.len {
                assert(self@[i] == self.buf@[i]);
                assert(other@[i] == other.buf@[i]);
            }
        }
        assert(self.buf =~= other.buf);
    }

    /// A well-formed fixed string is the fixed string of its own text.
    pub proof fn lemma_of_view(self)
        requires
            self.wf(),
        ensures
            Self::of(self@) == self,
    {
        self.lemma_same_text(Self::of(self@));
    }

    /// Where four bytes for each of the `N` slots fit the eight-byte length
    /// prefix, every well-formed fixed string is in the domain of the format.
    pub proof fn lemma_valid(self)
        requires
            self.wf(),
            4 * N < radix(8),
        ensures
            self.valid(),
    {
        lemma_encode_utf8_len(self@);
        self.lemma_len();
    }

    /// Every text of at most `N` scalar values is held by a well-formed fixed string.
    pub proof fn lemma_of(text: Seq<char>)
        requires
            text.len() <= N,
        ensures
            Self::of(text).wf(),
            Self::of(text)@ == text,
    {
        let padded = text + Seq::new((N - text.len()) as nat, |i: int| '\0');
        crate::codec::container::lemma_array_exists::<char, N>(padded);
        let witness = FixedString::<N> {
            buf: crate::codec::container::array_of::<char, N>(padded),
            len: text.len() as usize,
        };
        assert(witness@ =~= text);
        assert(witness.wf());
    }

    /// Copies `s`, scalar value by scalar value, or fails when `s` holds
    /// more than `N` of them.
    pub fn new(s: &str) -> (r: Result<Self, Error>)
        ensures
            match r {
                Ok(string) => s@.len() <= N && string@ == s@ && string.wf(),
                Err(e) => s@.len() > N && e@ == (ErrorView::FixedStringTooShort { len: N, s: s@ }),
            },
    {
        let mut buf = ['\0';N];
        let mut chars = s.chars();
        let mut len: usize = 0;
        loop
            invariant
                len <= N,
                len <= s@.len(),
                chars.remaining() == s@.skip(len as int),
                buf@.take(len as int) == s@.take(len as int),
                forall|i: int| len <= i < N ==> buf@[i] == '\0',
            decreases s@.len() - len,
        {
            match chars.next() {
                None => {
                    assert(s@.take(len as int) =~= s@);
                    return Ok(Self { buf, len });
                },
                Some(c) => {
                    if len >= N {
                        return Err(Error::FixedStringTooShort { len: N, s: s.to_owned() });
                    }
                    buf[len] = c;
                    len += 1;
                    assert(buf@.take(len as int) =~= s@.take(len as int));
                },
            }
        }
    }

    /// The number of scalar values held.
    pub fn len(&self) -> (n: usize)
        ensures
            n == self@.len(),
    {
        proof {
            use_type_invariant(self);
        }
        self.len
    }

    /// An iterator over the scalar values held, in order.
    pub fn iter(&self) -> (iter: core::slice::Iter<'_, char>)
        ensures
            vstd::std_specs::slice::into_iter_elts(iter) == self@,
    {
        proof {
            use_type_invariant(self);
        }
        let text = vstd::slice::slice_subrange(self.buf.as_slice(), 0, self.len);
        assert(text@ =~= self@);
        let iter = text.iter();
        assert(iter.remaining().unref() =~= text@);
        iter
    }

    /// The scalar values held, in order, open to change in place.
    ///
    /// What the caller leaves in the slice is the new text. A slice keeps
    /// its length, which is what the conditions below ask of it.
    pub fn iter_mut(&mut self) -> (text: &mut [char])
        ensures
            text@ == old(self)@,
            final(text)@.len() == old(self)@.len() ==> final(self)@ == final(text)@,
            final(text)@.len() == old(self)@.len() && old(self).wf() ==> final(self).wf(),
    {
        proof {
            use_type_invariant(&*self);
        }
        let len = self.len;
        let whole: &mut [char] = &mut self.buf;
        let (text, _) = whole.split_at_mut(len);
        text
    }

    /// The scalar value at `index`, or nothing beyond the logical length.
    pub fn get(&self, index: usize) -> (c: Option<char>)
        ensures
            c == if index < self@.len() {
                Some(self@[index as int])
            } else {
                None
            },
    {
        proof {
            use_type_invariant(self);
        }
        if index < self.len {
            Some(self.buf[index])
        } else {
            None
        }
    }

    /// The text as a `String`.
    pub fn to_string(&self) -> (text: String)
        ensures
            text@ == self@,
    {
        proof {
            use_type_invariant(self);
        }
        let mut text = String::new();
        let mut i: usize = 0;
        while i < self.len
            invariant
                i <= self.len <= N,
                text@ == self.buf@.take(i as int),
            decreases self.len - i,
        {
            string_push(&mut text, self.buf[i]);
            i += 1;
            assert(text@ =~= self.buf@.take(i as int));
        }
        text
    }

    /// The text as a person reads it in a log: in double quotes, with each
    /// `'\0'` written as a backslash and a zero.
    pub fn debug_string(&self) -> (text: String)
        ensures
            text@ == seq!['"'] + escaped(self@) + seq!['"'],
    {
        proof {
            use_type_invariant(self);
        }
        let mut text = String::new();
        string_push(&mut text, '"');
        let mut i: usize = 0;
        while i < self.len
            invariant
                i <= self.len <= N,
                text@ == seq!['"'] + escaped(self@.take(i as int)),
            decreases self.len - i,
        {
            let c = self.buf[i];
            proof {
                let front = self@.take(i + 1);
                assert(front.drop_last() =~= self@.take(i as int));
                assert(front.last() == c);
            }
            if c == '\0' {
                string_push(&mut text, '\\');
                string_push(&mut text, '0');
            } else {
                string_push(&mut text, c);
            }
            i += 1;
            assert(text@ =~= seq!['"'] + escaped(self@.take(i as int)));
        }
        assert(self@.take(self.len as int) =~= self@);
        string_push(&mut text, '"');
        assert(text@ =~= seq!['"'] + escaped(self@) + seq!['"']);
        text
    }

    /// Whether no scalar value is held.
    pub fn is_empty(&self) -> (b: bool)
        ensures
            b == (self@.len() == 0),
    {
        proof {
            use_type_invariant(self);
        }
        self.len == 0
    }
}

/// `text` with each `'\0'` written as a backslash and a zero.
pub open spec fn escaped(text: Seq<char>) -> Seq<char>
    decreases text.len(),
{
    if text.len() == 0 {
        Seq::empty()
    } else if text.last() == '\0' {
        escaped(text.drop_last()) + seq!['\\', '0']
    } else {
        escaped(text.drop_last()).push(text.last())
    }
}

/// The UTF-8 encoding of a text takes at most four bytes for each scalar value.
pub proof fn lemma_encode_utf8_len(text: Seq<char>)
    ensures
        encode_utf8(text).len() <= 4 * text.len(),
    decreases text.len(),
{
    if text.len() > 0 {
        lemma_encode_utf8_len(text.drop_first());
        assert(encode_scalar(text[0] as u32).len() <= 4);
    }
}

/// The UTF-8 encoding of a text of scalar values from `0x10000` on takes
/// exactly four bytes for each of them.
pub proof fn lemma_encode_utf8_widest(text: Seq<char>)
    requires
        forall|i: int| 0 <= i < text.len() ==> text[i] as u32 >= 0x1_0000,
    ensures
        encode_utf8(text).len() == 4 * text.len(),
    decreases text.len(),
{
    if text.len() > 0 {
        lemma_encode_utf8_widest(text.drop_first());
        assert(encode_scalar(text[0] as u32).len() == 4);
    }
}

/// What decoding a length-prefixed text of at most `capacity` scalar values
/// from the front of `bytes` gives: the text and the number of bytes taken,
/// or the failure and the number of bytes read before it.
pub open spec fn parse_text(bytes: Seq<u8>, capacity: nat) -> Result<(Seq<char>, nat), (ErrorView, nat)> {
    match parse_be(bytes, 8) {
        Err(e) => Err(e),
        Ok((declared, _)) => if bytes.len() - 8 < declared {
            Err(
                (
                    ErrorView::EndOfDStream {
                        len: (bytes.len() - 8) as usize,
                        ok_len: saturated(declared),
                    },
                    8,
                ),
            )
        } else {
            let raw = bytes.subrange(8, 8 + declared as int);
            if !valid_utf8(raw) {
                Err((ErrorView::InvalidUtf8, 8 + declared))
            } else if decode_utf8(raw).len() > capacity {
                Err(
                    (
                        ErrorView::FixedStringTooShort {
                            len: capacity as usize,
                            s: decode_utf8(raw),
                        },
                        8 + declared,
                    ),
                )
            } else {
                Ok((decode_utf8(raw), 8 + declared))
            }
        },
    }
}

impl<const N: usize> Codec for FixedString<N> {
    /// A fixed string is in the domain of the format when it is well formed
    /// and the length of its UTF-8 form fits the eight-byte prefix.
    open spec fn valid(&self) -> bool {
        self.wf() && encode_utf8(self@).len() < radix(8)
    }

    open spec fn wire(&self) -> Seq<u8> {
        be_bytes(encode_utf8(self@).len(), 8) + encode_utf8(self@)
    }

    open spec fn parse(bytes: Seq<u8>) -> Result<(Self, nat), (ErrorView, nat)> {
        match parse_text(bytes, N as nat) {
            Ok((text, n)) => Ok((Self::of(text), n)),
            Err(e) => Err(e),
        }
    }

    open spec fn max_len() -> nat {
        8 + 4 * (N as nat)
    }

    fn wire_limit() -> (n: usize) {
        match N.checked_mul(4) {
            Some(text) => text.saturating_add(8),
            None => usize::MAX,
        }
    }

    proof fn lemma_round_trip(&self, rest: Seq<u8>) {
        broadcast use {vstd::utf8::encode_utf8_valid_utf8, vstd::utf8::encode_utf8_decode_utf8};

        let raw = encode_utf8(self@);
        let bytes = self.wire() + rest;
        lemma_be_bytes_len(raw.len(), 8);
        assert(bytes =~= be_bytes(raw.len(), 8) + (raw + rest));
        lemma_parse_be_of_bytes(raw.len(), 8, raw + rest);
        assert(bytes.subrange(8, 8 + raw.len() as int) =~= raw);
        self.lemma_len();
        self.lemma_of_view();
    }

    proof fn lemma_parse(bytes: Seq<u8>) {
        broadcast use vstd::utf8::decode_utf8_encode_utf8;

        lemma_parse_be(bytes, 8);
        if let Ok((value, n)) = Self::parse(bytes) {
            let declared = parse_be(bytes, 8)->Ok_0.0;
            let raw = bytes.subrange(8, 8 + declared as int);
            Self::lemma_of(decode_utf8(raw));
            assert(bytes.take(n as int) =~= bytes.take(8) + raw);
        }
    }

    proof fn lemma_max_len(&self) {
        lemma_be_bytes_len(encode_utf8(self@).len(), 8);
        lemma_encode_utf8_len(self@);
        self.lemma_len();
    }
}

impl<const N: usize> Serialise for FixedString<N> {
    fn serialise(&self, stream: &mut SStream) {
        let text = self.to_string();
        let raw = text.as_str().as_bytes();
        write_be(stream, raw.len() as u128, 8);
        stream.append(raw);
        assert(stream@ =~= old(stream)@ + self.wire());
    }
}

impl<const N: usize> Deserialise for FixedString<N> {
    fn deserialise(stream: &mut DStream) -> (r: Result<Self, Error>) {
        broadcast use vstd::utf8::encode_utf8_decode_utf8;

        let ghost before = stream@;
        let declared = match u64::deserialise(stream) {
            Ok(declared) => declared,
            Err(e) => {
                return Err(e);
            },
        };
        proof {
            lemma_radix_values();
            lemma_parse_be(before, 8);
        }
        if declared > usize::MAX as u64 {
            return Err(Error::EndOfDStream { len: stream.remaining(), ok_len: usize::MAX });
        }
        let raw = match stream.take(declared as usize) {
            Ok(raw) => raw,
            Err(e) => {
                return Err(e);
            },
        };
        proof {
            assert(raw@ =~= before.subrange(8, 8 + declared));
            assert(stream@ =~= before.skip(8 + declared));
        }
        let text = match str_from_utf8(raw) {
            Some(text) => text,
            None => {
                return Err(Error::InvalidUtf8);
            },
        };
        assert(text@ == decode_utf8(raw@));
        match Self::new(text) {
            Ok(string) => {
                proof {
                    string.lemma_of_view();
                }
                Ok(string)
            },
            Err(e) => Err(e),
        }
    }
}

impl<const N: usize> Clone for FixedString<N> {
    fn clone(&self) -> (r: Self)
        ensures
            r == *self,
    {
        proof {
            use_type_invariant(self);
        }
        Self { buf: self.buf, len: self.len }
    }
}

impl<const N: usize> Default for FixedString<N> {
    /// The empty text.
    fn default() -> (r: Self)
        ensures
            r@ == Seq::<char>::empty(),
            r.wf(),
    {
        let r = Self { buf: ['\0';N], len: 0 };
        assert(r@ =~= Seq::<char>::empty());
        r
    }
}

impl<const N: usize> PartialEq for FixedString<N> {
    /// Compares the texts; the slots after the logical length play no part.
    fn eq(&self, other: &Self) -> (r: bool) {
        proof {
            use_type_invariant(self);
            use_type_invariant(other);
        }
        if self.len != other.len {
            assert(self@.len() != other@.len());
            return false;
        }
        let mut i: usize = 0;
        while i < self.len
            invariant
                i <= self.len <= N,
                self.len == other.len,
                forall|j: int| 0 <= j < i ==> self.buf@[j] == other.buf@[j],
            decreases self.len - i,
        {
            if self.buf[i] != other.buf[i] {
                assert(self@[i as int] != other@[i as int]);
                return false;
            }
            i += 1;
        }
        assert(self@ =~= other@);
        true
    }
}

impl<const N: usize> PartialEqSpecImpl for FixedString<N> {
    open spec fn obeys_eq_spec() -> bool {
        true
    }

    open spec fn eq_spec(&self, other: &Self) -> bool {
        self@ == other@
    }
}

impl<'a, const N: usize> PartialEq<&'a str> for FixedString<N> {
    /// Whether `other` is the text held; the slots after the logical length
    /// play no part.
    fn eq(&self, other: &&'a str) -> (r: bool) {
        proof {
            use_type_invariant(self);
        }
        let mut chars = other.chars();
        let mut i: usize = 0;
        loop
            invariant
                i <= self.len <= N,
                i <= other@.len(),
                chars.remaining() == other@.skip(i as int),
                self.buf@.take(i as int) == other@.take(i as int),
            decreases other@.len() - i,
        {
            match chars.next() {
                None => {
                    assert(other@.take(i as int) =~= other@);
                    assert(i != self.len ==> self@.len() != other@.len());
                    return i == self.len;
                },
                Some(c) => {
                    assert(other@.skip(i as int)[0] == c);
                    if i >= self.len {
                        assert(self@.len() != other@.len());
                        return false;
                    }
                    if self.buf[i] != c {
                        assert(self@[i as int] != other@[i as int]);
                        return false;
                    }
                    i += 1;
                    assert(self.buf@.take(i as int) =~= other@.take(i as int));
                },
            }
        }
    }
}

impl<'a, const N: usize> PartialEqSpecImpl<&'a str> for FixedString<N> {
    open spec fn obeys_eq_spec() -> bool {
        true
    }

    open spec fn eq_spec(&self, other: &&'a str) -> bool {
        self@ == other@
    }
}

impl<const N: usize> core::str::FromStr for FixedString<N> {
    type Err = Error;

    /// The same as [`FixedString::new`].
    fn from_str(s: &str) -> (r: Result<Self, Error>)
        ensures
            match r {
                Ok(string) => s@.len() <= N && string@ == s@ && string.wf(),
                Err(e) => s@.len() > N && e@ == (ErrorView::FixedStringTooShort { len: N, s: s@ }),
            },
    {
        Self::new(s)
    }
}

impl<'a, const N: usize> TryFrom<&'a str> for FixedString<N> {
    type Error = Error;

    /// The same as [`FixedString::new`].
    fn try_from(value: &'a str) -> (r: Result<Self, Error>)
        ensures
            match r {
                Ok(string) => value@.len() <= N && string@ == value@ && string.wf(),
                Err(e) => value@.len() > N && e@ == (ErrorView::FixedStringTooShort {
                    len: N,
                    s: value@,
                }),
            },
    {
        Self::new(value)
    }
}

impl<'a, const N: usize> TryFromSpecImpl<&'a str> for FixedString<N> {
    /// The result is stated by the contract of `try_from` itself, over the
    /// views of the text and of the error.
    open spec fn obeys_try_from_spec() -> bool {
        false
    }

    open spec fn try_from_spec(value: &'a str) -> Result<Self, Error> {
        arbitrary()
    }
}

impl<const N: usize> IntoIterator for FixedString<N> {
    type Item = char;

    type IntoIter = Iter<N>;

    /// An iterator that owns the scalar values held and hands them out in order.
    fn into_iter(self) -> (iter: Iter<N>)
        ensures
            iter@ == self@,
    {
        proof {
            use_type_invariant(&self);
        }
        Iter::new(self.buf, self.len)
    }
}

impl<'a, const N: usize> IntoIterator for &'a FixedString<N> {
    type Item = &'a char;

    type IntoIter = core::slice::Iter<'a, char>;

    /// The same as [`FixedString::iter`].
    fn into_iter(self) -> (iter: core::slice::Iter<'a, char>)
        ensures
            vstd::std_specs::slice::into_iter_elts(iter) == self@,
    {
        self.iter()
    }
}

impl<const N: usize> Eq for FixedString<N> {

}

} // verus!
