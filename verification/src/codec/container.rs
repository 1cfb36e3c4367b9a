//! The wire format of optional values, outcomes and fixed-size arrays.

use crate::codec::Codec;
use crate::endian::{
    be_bytes, lemma_be_bytes_len, lemma_parse_be, lemma_parse_be_of_bytes, lemma_radix_values,
    parse_be, saturated,
};
use crate::error::ErrorView;
use vstd::prelude::*;

verus! {

/// A product is at least as large as the product with a smaller factor,
/// and as the factor itself where the other factor is not zero.
pub proof fn lemma_product_bounds(count: nat, small: nat, large: nat)
    requires
        small <= large,
    ensures
        count * small <= count * large,
        count >= 1 ==> count * large >= large,
{
    assert(count * small <= count * large) by (nonlinear_arith)
        requires
            small <= large,
    ;
    assert(count >= 1 ==> count * large >= large) by (nonlinear_arith);
}

/// The encodings of `items`, one after the other.
pub open spec fn wire_all<T: Codec>(items: Seq<T>) -> Seq<u8>
    decreases items.len(),
{
    if items.len() == 0 {
        Seq::empty()
    } else {
        wire_all(items.drop_last()) + items.last().wire()
    }
}

/// What decoding `count` values in a row from the front of `bytes` gives:
/// the values and the number of bytes they took together, or the failure of
/// the first value that does not decode and the number of bytes read up to it.
pub open spec fn parse_all<T: Codec>(bytes: Seq<u8>, count: nat) -> Result<(Seq<T>, nat), (ErrorView, nat)>
    decreases count,
{
    if count == 0 {
        Ok((Seq::empty(), 0))
    } else {
        match parse_all::<T>(bytes, (count - 1) as nat) {
            Err(e) => Err(e),
            Ok((items, n)) => match T::parse(bytes.skip(n as int)) {
                Err((e, m)) => Err((e, n + m)),
                Ok((item, m)) => Ok((items.push(item), n + m)),
            },
        }
    }
}

/// The array that holds `items`.
pub open spec fn array_of<T, const N: usize>(items: Seq<T>) -> [T; N] {
    choose|array: [T; N]| array@ == items
}

/// `array` with its first `count` slots overwritten by those of `items`.
spec fn overwritten<T, const N: usize>(array: [T; N], items: Seq<T>, count: nat) -> [T; N]
    decreases count,
{
    if count == 0 {
        array
    } else {
        vstd::array::spec_array_update(
            overwritten(array, items, (count - 1) as nat),
            count - 1,
            items[count - 1],
        )
    }
}

proof fn lemma_overwritten<T, const N: usize>(array: [T; N], items: Seq<T>, count: nat)
    requires
        count <= N,
        items.len() == N,
    ensures
        forall|i: int| 0 <= i < count ==> overwritten(array, items, count)@[i] == items[i],
    decreases count,
{
    if count > 0 {
        lemma_overwritten(array, items, (count - 1) as nat);
    }
}

/// Every sequence of `N` values is held by some array.
pub proof fn lemma_array_exists<T, const N: usize>(items: Seq<T>)
    requires
        items.len() == N,
    ensures
        array_of::<T, N>(items)@ == items,
{
    let witness = overwritten(arbitrary::<[T; N]>(), items, N as nat);
    lemma_overwritten(arbitrary::<[T; N]>(), items, N as nat);
    assert(witness@ =~= items);
}

/// An array is the array of its own elements.
pub proof fn lemma_array_of<T, const N: usize>(array: [T; N])
    ensures
        array_of::<T, N>(array@) == array,
{
    let chosen = array_of::<T, N>(array@);
    assert(chosen@ == array@);
    assert forall|i: int| 0 <= i < N implies chosen[i] == array[i] by {
        assert(chosen@[i] == array@[i]);
    }
    assert(chosen =~= array);
}

/// Decoding the encodings of valid values in a row gives the values back.
pub proof fn lemma_parse_all_of_wire<T: Codec>(items: Seq<T>, rest: Seq<u8>)
    requires
        forall|i: int| 0 <= i < items.len() ==> (#[trigger] items[i]).valid(),
    ensures
        parse_all::<T>(wire_all(items) + rest, items.len()) == Ok::<(Seq<T>, nat), (ErrorView, nat)>(
            (items, wire_all(items).len()),
        ),
    decreases items.len(),
{
    if items.len() > 0 {
        let front = items.drop_last();
        let last = items.last();
        let bytes = wire_all(items) + rest;
        assert(bytes =~= wire_all(front) + (last.wire() + rest));
        lemma_parse_all_of_wire(front, last.wire() + rest);
        assert(parse_all::<T>(bytes, front.len()) == Ok::<(Seq<T>, nat), (ErrorView, nat)>(
            (front, wire_all(front).len()),
        ));
        assert(bytes.skip(wire_all(front).len() as int) =~= last.wire() + rest);
        last.lemma_round_trip(rest);
        assert(front.push(last) =~= items);
        assert(wire_all(items).len() == wire_all(front).len() + last.wire().len());
        assert((items.len() - 1) as nat == front.len());
    } else {
        assert(items =~= Seq::<T>::empty());
    }
}

/// What decoding in a row accepts is the encoding of the values it gives,
/// and decoding in a row never reads beyond the bytes it has.
pub proof fn lemma_parse_all<T: Codec>(bytes: Seq<u8>, count: nat)
    ensures
        parse_all::<T>(bytes, count) matches Ok((items, n)) ==> items.len() == count && n
            <= bytes.len() && bytes.take(n as int) == wire_all(items) && forall|i: int|
            0 <= i < items.len() ==> (#[trigger] items[i]).valid(),
        parse_all::<T>(bytes, count) matches Err((_, n)) ==> n <= bytes.len(),
    decreases count,
{
    if count > 0 {
        lemma_parse_all::<T>(bytes, (count - 1) as nat);
        if let Ok((front, n)) = parse_all::<T>(bytes, (count - 1) as nat) {
            T::lemma_parse(bytes.skip(n as int));
            if let Ok((item, m)) = T::parse(bytes.skip(n as int)) {
                let items = front.push(item);
                assert(items.drop_last() =~= front);
                assert(bytes.take((n + m) as int) =~= bytes.take(n as int) + bytes.skip(
                    n as int,
                ).take(m as int));
            }
        }
    } else {
        assert(bytes.take(0) =~= wire_all(Seq::<T>::empty()));
    }
}

/// Once a value in the row fails to decode, every longer row fails the same way.
pub proof fn lemma_parse_all_fails<T: Codec>(bytes: Seq<u8>, short: nat, long: nat)
    requires
        short <= long,
        parse_all::<T>(bytes, short) is Err,
    ensures
        parse_all::<T>(bytes, long) == parse_all::<T>(bytes, short),
    decreases long,
{
    if short < long {
        lemma_parse_all_fails::<T>(bytes, short, (long - 1) as nat);
    }
}

/// Values in a row take no more bytes than their count times the longest encoding.
pub proof fn lemma_wire_all_len<T: Codec>(items: Seq<T>)
    requires
        forall|i: int| 0 <= i < items.len() ==> (#[trigger] items[i]).valid(),
    ensures
        wire_all(items).len() <= items.len() * T::max_len(),
    decreases items.len(),
{
    if items.len() > 0 {
        let front = items.drop_last();
        lemma_wire_all_len(front);
        items.last().lemma_max_len();
        assert(items.len() * T::max_len() == front.len() * T::max_len() + T::max_len())
            by (nonlinear_arith)
            requires
                items.len() == front.len() + 1,
        ;
    }
}

impl<T: Codec, const N: usize> Codec for [T; N] {
    open spec fn valid(&self) -> bool {
        forall|i: int| 0 <= i < N ==> (#[trigger] self@[i]).valid()
    }

    open spec fn wire(&self) -> Seq<u8> {
        be_bytes(N as nat, 8) + wire_all(self@)
    }

    open spec fn parse(bytes: Seq<u8>) -> Result<(Self, nat), (ErrorView, nat)> {
        match parse_be(bytes, 8) {
            Err(e) => Err(e),
            Ok((declared, _)) => if declared != N {
                Err((ErrorView::ArrayLengthMismatch { len: saturated(declared), ok_len: N }, 8))
            } else {
                match parse_all::<T>(bytes.skip(8), N as nat) {
                    Ok((items, n)) => Ok((array_of(items), 8 + n)),
                    Err((e, n)) => Err((e, 8 + n)),
                }
            },
        }
    }

    open spec fn max_len() -> nat {
        8 + (N as nat) * T::max_len()
    }

    fn wire_limit() -> (n: usize) {
        let each = T::wire_limit();
        proof {
            lemma_product_bounds(N as nat, each as nat, T::max_len());
            lemma_product_bounds(N as nat, each as nat, each as nat);
            assert(N == 0 ==> (N as nat) * T::max_len() == 0 && N * each == 0) by (nonlinear_arith);
        }
        match N.checked_mul(each) {
            Some(all) => all.saturating_add(8),
            None => usize::MAX,
        }
    }

    proof fn lemma_round_trip(&self, rest: Seq<u8>) {
        lemma_radix_values();
        lemma_be_bytes_len(N as nat, 8);
        let bytes = self.wire() + rest;
        assert(bytes =~= be_bytes(N as nat, 8) + (wire_all(self@) + rest));
        lemma_parse_be_of_bytes(N as nat, 8, wire_all(self@) + rest);
        assert(bytes.skip(8) =~= wire_all(self@) + rest);
        lemma_parse_all_of_wire(self@, rest);
        lemma_array_of(*self);
    }

    proof fn lemma_parse(bytes: Seq<u8>) {
        lemma_radix_values();
        lemma_parse_be(bytes, 8);
        if bytes.len() >= 8 {
            lemma_parse_all::<T>(bytes.skip(8), N as nat);
        }
        if let Ok((value, n)) = Self::parse(bytes) {
            let (items, m) = parse_all::<T>(bytes.skip(8), N as nat)->Ok_0;
            lemma_array_exists::<T, N>(items);
            assert(value@ == items);
            assert(bytes.take(n as int) =~= bytes.take(8) + bytes.skip(8).take(m as int));
        }
    }

    proof fn lemma_max_len(&self) {
        lemma_be_bytes_len(N as nat, 8);
        lemma_wire_all_len(self@);
    }
}

impl<T: Codec> Codec for Option<T> {
    open spec fn valid(&self) -> bool {
        match self {
            Some(value) => value.valid(),
            None => true,
        }
    }

    open spec fn wire(&self) -> Seq<u8> {
        match self {
            Some(value) => seq![1u8] + value.wire(),
            None => seq![0u8],
        }
    }

    open spec fn parse(bytes: Seq<u8>) -> Result<(Self, nat), (ErrorView, nat)> {
        match bool::parse(bytes) {
            Err(e) => Err(e),
            Ok((false, _)) => Ok((None, 1)),
            Ok((true, _)) => match T::parse(bytes.skip(1)) {
                Ok((value, n)) => Ok((Some(value), 1 + n)),
                Err((e, n)) => Err((e, 1 + n)),
            },
        }
    }

    open spec fn max_len() -> nat {
        1 + T::max_len()
    }

    fn wire_limit() -> (n: usize) {
        T::wire_limit().saturating_add(1)
    }

    proof fn lemma_round_trip(&self, rest: Seq<u8>) {
        match self {
            Some(value) => {
                value.lemma_round_trip(rest);
                assert((self.wire() + rest).skip(1) =~= value.wire() + rest);
            },
            None => {},
        }
    }

    proof fn lemma_parse(bytes: Seq<u8>) {
        if bytes.len() >= 1 {
            T::lemma_parse(bytes.skip(1));
        }
        if let Ok((value, n)) = Self::parse(bytes) {
            match value {
                Some(inner) => {
                    assert(bytes.take(n as int) =~= seq![1u8] + bytes.skip(1).take(n - 1));
                },
                None => {
                    assert(bytes.take(1) =~= seq![0u8]);
                },
            }
        }
    }

    proof fn lemma_max_len(&self) {
        match self {
            Some(value) => {
                value.lemma_max_len();
            },
            None => {},
        }
    }
}

impl<T: Codec, E: Codec> Codec for Result<T, E> {
    open spec fn valid(&self) -> bool {
        match self {
            Ok(value) => value.valid(),
            Err(error) => error.valid(),
        }
    }

    open spec fn wire(&self) -> Seq<u8> {
        match self {
            Ok(value) => seq![0u8] + value.wire(),
            Err(error) => seq![1u8] + error.wire(),
        }
    }

    open spec fn parse(bytes: Seq<u8>) -> Result<(Self, nat), (ErrorView, nat)> {
        match bool::parse(bytes) {
            Err(e) => Err(e),
            Ok((false, _)) => match T::parse(bytes.skip(1)) {
                Ok((value, n)) => Ok((Ok(value), 1 + n)),
                Err((e, n)) => Err((e, 1 + n)),
            },
            Ok((true, _)) => match E::parse(bytes.skip(1)) {
                Ok((error, n)) => Ok((Err(error), 1 + n)),
                Err((e, n)) => Err((e, 1 + n)),
            },
        }
    }

    open spec fn max_len() -> nat {
        if T::max_len() >= E::max_len() {
            1 + T::max_len()
        } else {
            1 + E::max_len()
        }
    }

    fn wire_limit() -> (n: usize) {
        let value = T::wire_limit();
        let error = E::wire_limit();
        if value >= error {
            value.saturating_add(1)
        } else {
            error.saturating_add(1)
        }
    }

    proof fn lemma_round_trip(&self, rest: Seq<u8>) {
        match self {
            Ok(value) => {
                value.lemma_round_trip(rest);
                assert((self.wire() + rest).skip(1) =~= value.wire() + rest);
            },
            Err(error) => {
                error.lemma_round_trip(rest);
                assert((self.wire() + rest).skip(1) =~= error.wire() + rest);
            },
        }
    }

    proof fn lemma_parse(bytes: Seq<u8>) {
        if bytes.len() >= 1 {
            T::lemma_parse(bytes.skip(1));
            E::lemma_parse(bytes.skip(1));
        }
        if let Ok((value, n)) = Self::parse(bytes) {
            match value {
                Ok(inner) => {
                    assert(bytes.take(n as int) =~= seq![0u8] + bytes.skip(1).take(n - 1));
                },
                Err(inner) => {
                    assert(bytes.take(n as int) =~= seq![1u8] + bytes.skip(1).take(n - 1));
                },
            }
        }
    }

    proof fn lemma_max_len(&self) {
        match self {
            Ok(value) => {
                value.lemma_max_len();
            },
            Err(error) => {
                error.lemma_max_len();
            },
        }
    }
}

} // verus!
