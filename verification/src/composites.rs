//! The codecs of the composite types: vectors and slices, arrays, options and pairs.
//! Each is put together from the codecs of its parts and adds no check of its own.
use vstd::prelude::*;
use crate::de::{Error, Parsed, Sender, Deserialize, Decode};
use crate::es::{
    Receiver,
    Serialize,
    Encode,
    lemma_delivered_front,
    lemma_delivered_back,
};
use crate::sequence::{
    encode_all,
    parse_all,
    counted_encoding,
    counted_parse,
    take_all,
    put_all,
    array_from_vec,
    vec_from_array,
    lemma_encode_all_step,
};

verus! {

/// A vector is read as the count of its elements, then the elements in order.
impl<Item, T> Deserialize<Item> for Vec<T> where T: Deserialize<Item>, usize: Deserialize<Item> {
    open spec fn parse(items: Seq<Item>) -> Parsed<Seq<T::V>> {
        counted_parse::<Item, T>(items)
    }

    fn deserialize<S: Sender<Item = Item> + ?Sized>(sender: &mut S) -> (r: Result<
        Self,
        Error<S::Error>,
    >) {
        let ghost before = sender.pending();
        match sender.auto::<usize>() {
            Ok(count) => {
                let ghost taken = <usize as Deserialize<Item>>::parse(before)->Value_1;
                let values = take_all::<Item, T, S>(sender, count);
                proof {
                    if sender.modelled() && values is Ok {
                        let more = parse_all::<Item, T>(
                            before.skip(taken as int),
                            count as nat,
                        )->Value_1;
                        assert(before.skip(taken as int).skip(more as int) =~= before.skip(
                            (taken + more) as int,
                        ));
                    }
                }
                values
            },
            Err(error) => Err(error),
        }
    }
}

/// A vector is written as the count of its elements, then the elements in order.
impl<Item, T> Serialize<Item> for Vec<T> where T: Serialize<Item>, usize: Serialize<Item> {
    open spec fn encoding(&self) -> Seq<Item> {
        counted_encoding::<Item, T>(self@)
    }

    fn serialize<R: Receiver<Item = Item>>(self, receiver: &mut R) -> (r: Result<(), R::Error>) {
        let ghost before = receiver.accepted();
        let ghost reliable = receiver.reliable();
        let ghost count = self.len().encoding();
        let ghost elements = encode_all::<Item, T>(self@);
        match receiver.auto(self.len()) {
            Ok(_) => {
                let ghost between = receiver.accepted();
                let r = put_all(receiver, self);
                proof {
                    if receiver.modelled() {
                        lemma_delivered_back(
                            before,
                            between,
                            receiver.accepted(),
                            reliable,
                            count,
                            elements,
                            r,
                        );
                    }
                }
                r
            },
            Err(error) => {
                proof {
                    if receiver.modelled() {
                        lemma_delivered_front(
                            before,
                            receiver.accepted(),
                            reliable,
                            count,
                            elements,
                            Err::<(), R::Error>(error),
                        );
                    }
                }
                Err(error)
            },
        }
    }
}

/// A slice is written as a vector of its elements is. The elements are copied out.
impl<'a, Item, T> Serialize<Item> for &'a [T] where
    T: Serialize<Item> + Copy,
    usize: Serialize<Item>,
 {
    open spec fn encoding(&self) -> Seq<Item> {
        counted_encoding::<Item, T>((*self)@)
    }

    fn serialize<R: Receiver<Item = Item>>(self, receiver: &mut R) -> (r: Result<(), R::Error>) {
        let ghost before = receiver.accepted();
        let ghost reliable = receiver.reliable();
        let ghost count = self.len().encoding();
        let ghost elements = encode_all::<Item, T>(self@);
        match receiver.auto(self.len()) {
            Ok(_) => {},
            Err(error) => {
                proof {
                    if receiver.modelled() {
                        lemma_delivered_front(
                            before,
                            receiver.accepted(),
                            reliable,
                            count,
                            elements,
                            Err::<(), R::Error>(error),
                        );
                    }
                }
                return Err(error);
            },
        }
        let ghost between = receiver.accepted();
        let mut i: usize = 0;
        while i < self.len()
            invariant
                i <= self@.len(),
                receiver.modelled() == old(receiver).modelled(),
                receiver.reliable() == reliable,
                reliable == old(receiver).reliable(),
                before == old(receiver).accepted(),
                count == (self@.len() as usize).encoding(),
                elements == encode_all::<Item, T>(self@),
                receiver.modelled() ==> between =~= before + count,
                receiver.modelled() ==> receiver.accepted() =~= between + encode_all::<Item, T>(
                    self@.take(i as int),
                ),
            decreases self@.len() - i,
        {
            proof {
                lemma_encode_all_step::<Item, T>(self@, i as int);
            }
            let ghost reached = receiver.accepted();
            match receiver.auto(self[i]) {
                Ok(_) => {},
                Err(error) => {
                    proof {
                        if receiver.modelled() {
                            let upto = encode_all::<Item, T>(self@.take(i as int + 1));
                            assert(receiver.accepted().is_prefix_of(between + upto));
                            assert((between + upto).is_prefix_of(between + elements));
                            assert(between.is_prefix_of(receiver.accepted()));
                        }
                        if receiver.modelled() {
                            lemma_delivered_back(
                                before,
                                between,
                                receiver.accepted(),
                                reliable,
                                count,
                                elements,
                                Err::<(), R::Error>(error),
                            );
                        }
                    }
                    return Err(error);
                },
            }
            i += 1;
        }
        proof {
            assert(self@.take(i as int) =~= self@);
            if receiver.modelled() {
                lemma_delivered_back(
                    before,
                    between,
                    receiver.accepted(),
                    reliable,
                    count,
                    elements,
                    Ok::<(), R::Error>(()),
                );
            }
        }
        Ok(())
    }
}

/// An array is read as its `N` elements in order. No count stands before them.
impl<const N: usize, Item, T: Deserialize<Item>> Deserialize<Item> for [T; N] {
    open spec fn parse(items: Seq<Item>) -> Parsed<Seq<T::V>> {
        parse_all::<Item, T>(items, N as nat)
    }

    fn deserialize<S: Sender<Item = Item> + ?Sized>(sender: &mut S) -> (r: Result<
        Self,
        Error<S::Error>,
    >) {
        match take_all::<Item, T, S>(sender, N) {
            Ok(values) => {
                let array: [T; N] = array_from_vec(values);
                assert(array.deep_view() =~= values.deep_view());
                Ok(array)
            },
            Err(error) => Err(error),
        }
    }
}

/// An array is written as its `N` elements in order. No count stands before them.
impl<const N: usize, Item, T: Serialize<Item>> Serialize<Item> for [T; N] {
    open spec fn encoding(&self) -> Seq<Item> {
        encode_all::<Item, T>(self@)
    }

    fn serialize<R: Receiver<Item = Item>>(self, receiver: &mut R) -> (r: Result<(), R::Error>) {
        put_all(receiver, vec_from_array(self))
    }
}

/// An option is read as a boolean that says whether a value follows, and then the
/// value if one does.
impl<Item, T> Deserialize<Item> for Option<T> where T: Deserialize<Item>, bool: Deserialize<Item> {
    open spec fn parse(items: Seq<Item>) -> Parsed<Option<T::V>> {
        match <bool as Deserialize<Item>>::parse(items) {
            Parsed::Value(present, taken) => {
                if !present {
                    Parsed::Value(None, taken)
                } else if taken <= items.len() {
                    match T::parse(items.skip(taken as int)) {
                        Parsed::Value(value, more) => Parsed::Value(Some(value), taken + more),
                        Parsed::Short => Parsed::Short,
                        Parsed::Invalid => Parsed::Invalid,
                    }
                } else {
                    Parsed::Short
                }
            },
            Parsed::Short => Parsed::Short,
            Parsed::Invalid => Parsed::Invalid,
        }
    }

    fn deserialize<S: Sender<Item = Item> + ?Sized>(sender: &mut S) -> (r: Result<
        Self,
        Error<S::Error>,
    >) {
        let ghost before = sender.pending();
        match sender.auto::<bool>() {
            Ok(present) => {
                if present {
                    let ghost taken = <bool as Deserialize<Item>>::parse(before)->Value_1;
                    match sender.auto::<T>() {
                        Ok(value) => {
                            proof {
                                if sender.modelled() {
                                    let more = T::parse(before.skip(taken as int))->Value_1;
                                    assert(before.skip(taken as int).skip(more as int)
                                        =~= before.skip((taken + more) as int));
                                }
                            }
                            Ok(Some(value))
                        },
                        Err(error) => Err(error),
                    }
                } else {
                    Ok(None)
                }
            },
            Err(error) => Err(error),
        }
    }
}

/// An option is written as a boolean that says whether a value follows, and then the
/// value if there is one.
impl<Item, T> Serialize<Item> for Option<T> where T: Serialize<Item>, bool: Serialize<Item> {
    open spec fn encoding(&self) -> Seq<Item> {
        match self {
            Some(value) => true.encoding() + value.encoding(),
            None => false.encoding(),
        }
    }

    fn serialize<R: Receiver<Item = Item>>(self, receiver: &mut R) -> (r: Result<(), R::Error>) {
        match self {
            Some(value) => receiver.auto((true, value)),
            None => receiver.auto(false),
        }
    }
}

/// A pair is read as its first part, then its second.
impl<Item, A, B> Deserialize<Item> for (A, B) where A: Deserialize<Item>, B: Deserialize<Item> {
    open spec fn parse(items: Seq<Item>) -> Parsed<(A::V, B::V)> {
        match A::parse(items) {
            Parsed::Value(first, taken) => {
                if taken <= items.len() {
                    match B::parse(items.skip(taken as int)) {
                        Parsed::Value(second, more) => Parsed::Value(
                            (first, second),
                            taken + more,
                        ),
                        Parsed::Short => Parsed::Short,
                        Parsed::Invalid => Parsed::Invalid,
                    }
                } else {
                    Parsed::Short
                }
            },
            Parsed::Short => Parsed::Short,
            Parsed::Invalid => Parsed::Invalid,
        }
    }

    fn deserialize<S: Sender<Item = Item> + ?Sized>(sender: &mut S) -> (r: Result<
        Self,
        Error<S::Error>,
    >) {
        let ghost before = sender.pending();
        match sender.auto::<A>() {
            Ok(first) => {
                let ghost taken = A::parse(before)->Value_1;
                match sender.auto::<B>() {
                    Ok(second) => {
                        proof {
                            if sender.modelled() {
                                let more = B::parse(before.skip(taken as int))->Value_1;
                                assert(before.skip(taken as int).skip(more as int)
                                    =~= before.skip((taken + more) as int));
                            }
                        }
                        Ok((first, second))
                    },
                    Err(error) => Err(error),
                }
            },
            Err(error) => Err(error),
        }
    }
}

/// A pair is written as its first part, then its second.
impl<Item, A, B> Serialize<Item> for (A, B) where A: Serialize<Item>, B: Serialize<Item> {
    open spec fn encoding(&self) -> Seq<Item> {
        self.0.encoding() + self.1.encoding()
    }

    fn serialize<R: Receiver<Item = Item>>(self, receiver: &mut R) -> (r: Result<(), R::Error>) {
        let ghost before = receiver.accepted();
        let ghost reliable = receiver.reliable();
        let ghost first = self.0.encoding();
        let ghost second = self.1.encoding();
        let (a, b) = self;
        match receiver.auto(a) {
            Ok(_) => {
                let ghost between = receiver.accepted();
                let r = receiver.auto(b);
                proof {
                    if receiver.modelled() {
                        lemma_delivered_back(
                            before,
                            between,
                            receiver.accepted(),
                            reliable,
                            first,
                            second,
                            r,
                        );
                    }
                }
                r
            },
            Err(error) => {
                proof {
                    if receiver.modelled() {
                        lemma_delivered_front(
                            before,
                            receiver.accepted(),
                            reliable,
                            first,
                            second,
                            Err::<(), R::Error>(error),
                        );
                    }
                }
                Err(error)
            },
        }
    }
}

} // verus!
