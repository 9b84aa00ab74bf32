//! Runs of values of one type, as they stand in a stream one after another.
use vstd::prelude::*;
use crate::de::{Error, Parsed, Sender, Deserialize, Decode, outcome, seen};
use crate::es::{Receiver, Serialize, Encode, delivered};

verus! {

/// `TryFrom<Vec<T>>` for `[T; N]` of the standard library, which moves the elements of
/// a vector of length `N` into an array and keeps their order. It fails for any other
/// length, which `requires` rules out.
#[verifier::external_body]
pub(crate) fn array_from_vec<T, const N: usize>(items: Vec<T>) -> (array: [T; N])
    requires
        items@.len() == N,
    ensures
        array@ == items@,
{
    let converted: Result<[T; N], Vec<T>> = items.try_into();
    converted.ok().unwrap()
}

/// `From<[T; N]>` for `Vec<T>` of the standard library, which moves the elements of an
/// array into a vector and keeps their order.
#[verifier::external_body]
pub(crate) fn vec_from_array<T, const N: usize>(array: [T; N]) -> (items: Vec<T>)
    ensures
        items@ == array@,
{
    Vec::from(array)
}

/// The encodings of `values`, one after another.
pub open spec fn encode_all<Item, T: Serialize<Item>>(values: Seq<T>) -> Seq<Item>
    decreases values.len(),
{
    if values.len() == 0 {
        Seq::empty()
    } else {
        encode_all(values.drop_last()) + values.last().encoding()
    }
}

/// What the wire format makes of `items` when `count` values of one type are read from
/// their front, one after another: all the values and the length of their encodings
/// together, or the failure of the first value that fails.
pub open spec fn parse_all<Item, T: Deserialize<Item>>(items: Seq<Item>, count: nat) -> Parsed<
    Seq<T::V>,
>
    decreases count,
{
    if count == 0 {
        Parsed::Value(Seq::empty(), 0)
    } else {
        match parse_all::<Item, T>(items, (count - 1) as nat) {
            Parsed::Value(front, taken) => {
                if taken <= items.len() {
                    match T::parse(items.skip(taken as int)) {
                        Parsed::Value(last, more) => Parsed::Value(front.push(last), taken + more),
                        Parsed::Short => Parsed::Short,
                        Parsed::Invalid => Parsed::Invalid,
                    }
                } else {
                    Parsed::Short
                }
            },
            Parsed::Short => Parsed::Short,
            Parsed::Invalid => Parsed::Invalid,
        }
    }
}

/// The wire format of a run whose length the reader does not know: the count of its
/// values, then the values.
pub open spec fn counted_encoding<Item, T: Serialize<Item>>(values: Seq<T>) -> Seq<Item> where
    usize: Serialize<Item>,
 {
    (values.len() as usize).encoding() + encode_all::<Item, T>(values)
}

/// What the wire format makes of `items` when a count is read from their front, and
/// then as many values as it says.
pub open spec fn counted_parse<Item, T: Deserialize<Item>>(items: Seq<Item>) -> Parsed<
    Seq<T::V>,
> where usize: Deserialize<Item> {
    match <usize as Deserialize<Item>>::parse(items) {
        Parsed::Value(count, taken) => {
            if taken <= items.len() {
                match parse_all::<Item, T>(items.skip(taken as int), count as nat) {
                    Parsed::Value(values, more) => Parsed::Value(values, taken + more),
                    Parsed::Short => Parsed::Short,
                    Parsed::Invalid => Parsed::Invalid,
                }
            } else {
                Parsed::Short
            }
        },
        Parsed::Short => Parsed::Short,
        Parsed::Invalid => Parsed::Invalid,
    }
}

/// The mathematical values of `values`, element by element.
pub open spec fn models<T: DeepView>(values: Seq<T>) -> Seq<T::V> {
    Seq::new(values.len(), |i: int| values[i].deep_view())
}

/// Once a value of a run fails, the run fails in the same way, however many values
/// were to follow.
pub proof fn lemma_parse_all_failure_stays<Item, T: Deserialize<Item>>(
    items: Seq<Item>,
    failed: nat,
    count: nat,
)
    requires
        failed <= count,
        !(parse_all::<Item, T>(items, failed) is Value),
    ensures
        parse_all::<Item, T>(items, count) == parse_all::<Item, T>(items, failed),
    decreases count,
{
    if failed < count {
        lemma_parse_all_failure_stays::<Item, T>(items, failed, (count - 1) as nat);
    }
}

/// A run that is read in full yields as many values as were asked for.
pub proof fn lemma_parse_all_length<Item, T: Deserialize<Item>>(items: Seq<Item>, count: nat)
    ensures
        parse_all::<Item, T>(items, count) matches Parsed::Value(values, _) ==> values.len()
            == count,
    decreases count,
{
    if count > 0 {
        lemma_parse_all_length::<Item, T>(items, (count - 1) as nat);
    }
}

/// The encoding of a run is that of its front part followed by that of the rest.
pub proof fn lemma_encode_all_concat<Item, T: Serialize<Item>>(front: Seq<T>, back: Seq<T>)
    ensures
        encode_all::<Item, T>(front + back) =~= encode_all::<Item, T>(front) + encode_all::<
            Item,
            T,
        >(back),
    decreases back.len(),
{
    if back.len() == 0 {
        assert(front + back =~= front);
    } else {
        assert((front + back).drop_last() =~= front + back.drop_last());
        lemma_encode_all_concat::<Item, T>(front, back.drop_last());
    }
}

/// The encoding of the first `done + 1` values of a run is that of the first `done`
/// followed by that of the next value, and both are front parts of the whole encoding.
pub proof fn lemma_encode_all_step<Item, T: Serialize<Item>>(values: Seq<T>, done: int)
    requires
        0 <= done < values.len(),
    ensures
        encode_all::<Item, T>(values.take(done + 1)) =~= encode_all::<Item, T>(
            values.take(done),
        ) + values[done].encoding(),
        encode_all::<Item, T>(values.take(done + 1)).is_prefix_of(
            encode_all::<Item, T>(values),
        ),
{
    assert(values.take(done + 1).drop_last() =~= values.take(done));
    assert(values =~= values.take(done + 1) + values.skip(done + 1));
    lemma_encode_all_concat::<Item, T>(values.take(done + 1), values.skip(done + 1));
}

/// Reads `count` values of one type, one after another.
pub fn take_all<Item, T: Deserialize<Item>, S: Sender<Item = Item> + ?Sized>(
    sender: &mut S,
    count: usize,
) -> (r: Result<Vec<T>, Error<S::Error>>)
    ensures
        final(sender).modelled() == old(sender).modelled(),
        final(sender).reliable() == old(sender).reliable(),
        old(sender).modelled() ==> outcome(
            old(sender).pending(),
            final(sender).pending(),
            old(sender).reliable(),
            parse_all::<Item, T>(old(sender).pending(), count as nat),
            seen(r),
        ),
        r matches Ok(values) ==> values@.len() == count,
{
    let ghost before = sender.pending();
    let ghost mut taken: nat = 0;
    let mut values: Vec<T> = Vec::new();
    let mut i: usize = 0;
    assert(values.deep_view() =~= Seq::<T::V>::empty());
    while i < count
        invariant
            i <= count,
            sender.modelled() == old(sender).modelled(),
            sender.reliable() == old(sender).reliable(),
            before == old(sender).pending(),
            values@.len() == i,
            sender.modelled() ==> taken <= before.len(),
            sender.modelled() ==> sender.pending() =~= before.skip(taken as int),
            sender.modelled() ==> parse_all::<Item, T>(before, i as nat) == Parsed::Value(
                values.deep_view(),
                taken,
            ),
        decreases count - i,
    {
        let ghost front = values.deep_view();
        match sender.auto::<T>() {
            Ok(value) => {
                proof {
                    if sender.modelled() {
                        let more = T::parse(before.skip(taken as int))->Value_1;
                        assert(before.skip(taken as int).skip(more as int) =~= before.skip(
                            (taken + more) as int,
                        ));
                        taken = taken + more;
                    }
                }
                values.push(value);
                assert(values.deep_view() =~= front.push(value.deep_view()));
            },
            Err(error) => {
                proof {
                    if sender.modelled() && !(parse_all::<Item, T>(before, (i + 1) as nat) is Value) {
                        lemma_parse_all_failure_stays::<Item, T>(
                            before,
                            (i + 1) as nat,
                            count as nat,
                        );
                    }
                }
                return Err(error);
            },
        }
        i += 1;
    }
    Ok(values)
}

/// Writes `values` one after another.
pub fn put_all<Item, T: Serialize<Item>, R: Receiver<Item = Item>>(
    receiver: &mut R,
    values: Vec<T>,
) -> (r: Result<(), R::Error>)
    ensures
        final(receiver).modelled() == old(receiver).modelled(),
        final(receiver).reliable() == old(receiver).reliable(),
        old(receiver).modelled() ==> delivered(
            old(receiver).accepted(),
            final(receiver).accepted(),
            old(receiver).reliable(),
            encode_all::<Item, T>(values@),
            r,
        ),
{
    let ghost before = receiver.accepted();
    let ghost all = values@;
    for value in it: values
        invariant
            it.seq() == all,
            receiver.modelled() == old(receiver).modelled(),
            receiver.reliable() == old(receiver).reliable(),
            before == old(receiver).accepted(),
            receiver.modelled() ==> receiver.accepted() =~= before + encode_all::<Item, T>(
                all.take(it.index() as int),
            ),
    {
        let ghost done = it.index() as int;
        proof {
            lemma_encode_all_step::<Item, T>(all, done);
        }
        match receiver.auto(value) {
            Ok(_) => {},
            Err(error) => {
                proof {
                    if receiver.modelled() {
                        let reached = before + encode_all::<Item, T>(all.take(done + 1));
                        let whole = before + encode_all::<Item, T>(all);
                        assert(receiver.accepted().is_prefix_of(reached));
                        assert(reached.is_prefix_of(whole));
                        assert(receiver.accepted().is_prefix_of(whole));
                        assert(before.is_prefix_of(receiver.accepted()));
                    }
                }
                return Err(error);
            },
        }
    }
    assert(all.take(all.len() as int) =~= all);
    Ok(())
}

} // verus!
