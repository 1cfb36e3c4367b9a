use vstd::prelude::*;
use vstd::std_specs::iter::IteratorSpecImpl;

verus! {

/// An owning iterator over the scalar values of a fixed string.
///
/// Its view is the sequence of scalar values still to come.
pub struct Iter<const N: usize> {
    buf: [char; N],
    len: usize,
    pos: usize,
}

impl<const N: usize> View for Iter<N> {
    type V = Seq<char>;

    closed spec fn view(&self) -> Seq<char> {
        self.buf@.subrange(self.pos as int, self.len as int)
    }
}

impl<const N: usize> Iter<N> {
    #[verifier::type_invariant]
    closed spec fn inv(&self) -> bool {
        self.pos <= self.len <= N
    }

    /// An iterator over the first `len` slots of `buf`.
    pub(crate) fn new(buf: [char; N], len: usize) -> (iter: Self)
        requires
            len <= N,
        ensures
            iter@ == buf@.take(len as int),
    {
        let iter = Self { buf, len, pos: 0 };
        assert(iter@ =~= buf@.take(len as int));
        iter
    }

    /// The number of scalar values still to come.
    pub fn remaining(&self) -> (n: usize)
        ensures
            n == self@.len(),
    {
        proof {
            use_type_invariant(self);
        }
        self.len - self.pos
    }
}

impl<const N: usize> Iterator for Iter<N> {
    type Item = char;

    /// The next scalar value, or nothing once all have been handed out.
    fn next(&mut self) -> (item: Option<char>)
        ensures
            old(self)@.len() == 0 ==> item is None && final(self)@ == old(self)@,
            old(self)@.len() > 0 ==> item == Some(old(self)@[0]) && final(self)@ == old(
                self,
            )@.drop_first(),
    {
        proof {
            use_type_invariant(&*self);
        }
        if self.pos >= self.len {
            return None;
        }
        let item = self.buf[self.pos];
        self.pos += 1;
        assert(self@ =~= old(self)@.drop_first());
        Some(item)
    }
}

impl<const N: usize> IteratorSpecImpl for Iter<N> {
    open spec fn obeys_prophetic_iter_laws(&self) -> bool {
        true
    }

    open spec fn remaining(&self) -> Seq<char> {
        self@
    }

    open spec fn will_return_none(&self) -> bool {
        true
    }

    open spec fn decrease(&self) -> Option<nat> {
        Some(self@.len())
    }

    open spec fn initial_value_relation(&self, init: &Self) -> bool {
        self@ == init@
    }

    open spec fn peek(&self, index: int) -> Option<char> {
        if 0 <= index < self@.len() {
            Some(self@[index])
        } else {
            None
        }
    }
}

} // verus!
