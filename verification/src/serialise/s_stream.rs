use crate::serialise::Serialise;
use vstd::prelude::*;

verus! {

/// `Vec::into_boxed_slice`: the same bytes in the same order, as a boxed slice.
#[verifier::external_body]
fn boxed(bytes: Vec<u8>) -> (r: Box<[u8]>)
    ensures
        r@ == bytes@,
{
    bytes.into_boxed_slice()
}

/// An append-only byte sink.
///
/// Its view is the sequence of bytes written so far.
pub struct SStream(Vec<u8>);

impl View for SStream {
    type V = Seq<u8>;

    closed spec fn view(&self) -> Seq<u8> {
        self.0@
    }
}

impl SStream {
    /// An empty sink.
    pub fn new() -> (stream: Self)
        ensures
            stream@ == Seq::<u8>::empty(),
    {
        Self(Vec::new())
    }

    /// A sink that holds the canonical encoding of `value` and nothing else.
    pub fn from_value<T: Serialise>(value: &T) -> (stream: Self)
        ensures
            stream@ == value.wire(),
    {
        let mut stream = Self::new();
        value.serialise(&mut stream);
        assert(stream@ =~= value.wire());
        stream
    }

    /// The number of bytes written so far.
    pub fn len(&self) -> (n: usize)
        ensures
            n == self@.len(),
    {
        self.0.len()
    }

    /// Writes `extra` after everything written before.
    pub fn append(&mut self, extra: &[u8])
        ensures
            final(self)@ == old(self)@ + extra@,
    {
        self.0.extend_from_slice(extra);
    }

    /// Writes the single byte `byte` after everything written before.
    pub fn push(&mut self, byte: u8)
        ensures
            final(self)@ == old(self)@.push(byte),
    {
        self.0.push(byte);
    }

    /// The bytes written so far.
    pub fn as_slice(&self) -> (bytes: &[u8])
        ensures
            bytes@ == self@,
    {
        self.0.as_slice()
    }

    /// Ends writing and hands the bytes out as a boxed slice.
    pub fn into_boxed_slice(self) -> (bytes: Box<[u8]>)
        ensures
            bytes@ == self@,
    {
        boxed(self.0)
    }

    /// Ends writing and hands the bytes out.
    pub fn into_vec(self) -> (bytes: Vec<u8>)
        ensures
            bytes@ == self@,
    {
        self.0
    }
}

} // verus!
