use crate::error::Error;
use crate::digits::{hex_byte, push_hex};
use crate::strings::string_push;
use vstd::prelude::*;
use vstd::std_specs::convert::{FromSpec, FromSpecImpl};

verus! {

/// Each byte of `bytes` in upper-case hexadecimal, after `0x` and before a comma.
pub open spec fn bytes_text(bytes: Seq<u8>) -> Seq<char>
    decreases bytes.len(),
{
    if bytes.len() == 0 {
        Seq::empty()
    } else {
        bytes_text(bytes.drop_last()) + seq!['0', 'x'] + hex_byte(bytes.last(), true) + seq![',']
    }
}

/// A sequential reader over a borrowed byte region.
///
/// Its view is the sequence of bytes that have not been read yet.
pub struct DStream<'a> {
    data: &'a [u8],
    len: usize,
}

impl<'a> View for DStream<'a> {
    type V = Seq<u8>;

    closed spec fn view(&self) -> Seq<u8> {
        self.data@.skip(self.data@.len() - self.len)
    }
}

impl<'a> DStream<'a> {
    #[verifier::type_invariant]
    closed spec fn inv(&self) -> bool {
        self.len <= self.data@.len()
    }

    /// A reader positioned at the start of `data`.
    pub fn new(data: &'a [u8]) -> (stream: Self)
        ensures
            stream@ == data@,
    {
        Self { data, len: data.len() }
    }

    /// The number of bytes not yet read.
    pub fn remaining(&self) -> (n: usize)
        ensures
            n == self@.len(),
    {
        proof {
            use_type_invariant(self);
        }
        self.len
    }

    /// What is left to read, as text for a person: each byte in upper-case
    /// hexadecimal after `0x` and before a comma, all of it in square brackets.
    pub fn debug_string(&self) -> (text: String)
        ensures
            text@ == seq!['['] + bytes_text(self@) + seq![']'],
    {
        proof {
            use_type_invariant(self);
        }
        let start = self.data.len() - self.len;
        let mut text = String::new();
        string_push(&mut text, '[');
        let mut i: usize = 0;
        while i < self.len
            invariant
                i <= self.len <= self.data@.len(),
                start == self.data@.len() - self.len,
                self.data@.len() <= usize::MAX,
                text@ == seq!['['] + bytes_text(self@.take(i as int)),
            decreases self.len - i,
        {
            let byte = self.data[start + i];
            let ghost written = text@;
            proof {
                let front = self@.take(i + 1);
                assert(front.drop_last() =~= self@.take(i as int));
                assert(front.last() == byte);
            }
            string_push(&mut text, '0');
            string_push(&mut text, 'x');
            push_hex(&mut text, byte, true);
            string_push(&mut text, ',');
            i += 1;
            assert(text@ =~= seq!['['] + bytes_text(self@.take(i as int)));
        }
        assert(self@.take(self.len as int) =~= self@);
        string_push(&mut text, ']');
        assert(text@ =~= seq!['['] + bytes_text(self@) + seq![']']);
        text
    }

    /// Reads the next `len` bytes and advances past them, or fails without
    /// consuming anything when fewer than `len` bytes are left.
    pub fn take(&mut self, len: usize) -> (r: Result<&'a [u8], Error>)
        ensures
            len <= old(self)@.len() ==> r is Ok && r->Ok_0@ == old(self)@.take(len as int)
                && final(self)@ == old(self)@.skip(len as int),
            len > old(self)@.len() ==> r == Err::<&'a [u8], Error>(
                Error::EndOfDStream { len: old(self)@.len() as usize, ok_len: len },
            ) && final(self)@ == old(self)@,
    {
        proof {
            use_type_invariant(&*self);
        }
        if self.len < len {
            return Err(Error::EndOfDStream { len: self.len, ok_len: len });
        }
        let start = self.data.len() - self.len;
        let stop = start + len;
        self.len -= len;
        let out = vstd::slice::slice_subrange(self.data, start, stop);
        assert(out@ == old(self)@.take(len as int));
        assert(self@ == old(self)@.skip(len as int));
        Ok(out)
    }
}

impl<'a> Clone for DStream<'a> {
    /// A second reader over the same region, at the same position.
    fn clone(&self) -> (r: Self)
        ensures
            r == *self,
    {
        proof {
            use_type_invariant(self);
        }
        DStream { data: self.data, len: self.len }
    }
}

impl<'a> From<&'a [u8]> for DStream<'a> {
    /// A reader positioned at the start of `value`.
    fn from(value: &'a [u8]) -> (stream: Self) {
        DStream { data: value, len: value.len() }
    }
}

impl<'a> FromSpecImpl<&'a [u8]> for DStream<'a> {
    open spec fn obeys_from_spec() -> bool {
        true
    }

    closed spec fn from_spec(value: &'a [u8]) -> Self {
        DStream { data: value, len: value.len() }
    }
}

impl<'a, const N: usize> From<&'a [u8; N]> for DStream<'a> {
    /// A reader positioned at the start of `value`.
    fn from(value: &'a [u8; N]) -> (stream: Self) {
        let data: &'a [u8] = value;
        DStream { data, len: N }
    }
}

impl<'a, const N: usize> FromSpecImpl<&'a [u8; N]> for DStream<'a> {
    open spec fn obeys_from_spec() -> bool {
        true
    }

    closed spec fn from_spec(value: &'a [u8; N]) -> Self {
        DStream { data: vstd::array::spec_array_as_slice(value), len: N }
    }
}

/// A reader made from a byte region has all of the region left to read.
pub proof fn lemma_from_slice<'a>(value: &'a [u8])
    ensures
        <DStream<'a> as FromSpec<&'a [u8]>>::from_spec(value)@ == value@,
{
    assert(value@.skip(0) =~= value@);
}

/// A reader made from a byte array has all of the array left to read.
pub proof fn lemma_from_array<'a, const N: usize>(value: &'a [u8; N])
    ensures
        <DStream<'a> as FromSpec<&'a [u8; N]>>::from_spec(value)@ == value@,
{
    assert(value@.skip(0) =~= value@);
}

} // verus!
