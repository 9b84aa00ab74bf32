//! The writing side: sinks of items, and values that can be encoded into them.
use vstd::prelude::*;

verus! {

/// How the result of a write relates to the items that were to be written.
///
/// `before` and `after` are the items that the sink had taken in when the write began
/// and when it ended.
///
/// * On success exactly `items` have been appended, in their order.
/// * A reliable sink never fails.
/// * On a failure the sink holds what it held before, followed by some front part of
///   `items`.
pub open spec fn delivered<Item, E>(
    before: Seq<Item>,
    after: Seq<Item>,
    reliable: bool,
    items: Seq<Item>,
    r: Result<(), E>,
) -> bool {
    match r {
        Ok(_) => after =~= before + items,
        Err(_) => !reliable && before.is_prefix_of(after) && after.is_prefix_of(before + items),
    }
}

/// A write that fails in its first part has failed as a whole.
pub proof fn lemma_delivered_front<Item, E>(
    before: Seq<Item>,
    after: Seq<Item>,
    reliable: bool,
    first: Seq<Item>,
    second: Seq<Item>,
    r: Result<(), E>,
)
    requires
        r is Err,
        delivered(before, after, reliable, first, r),
    ensures
        delivered(before, after, reliable, first + second, r),
{
    assert((before + first).is_prefix_of(before + (first + second)));
}

/// A write whose first part went through ends as its second part does.
pub proof fn lemma_delivered_back<Item, E>(
    before: Seq<Item>,
    between: Seq<Item>,
    after: Seq<Item>,
    reliable: bool,
    first: Seq<Item>,
    second: Seq<Item>,
    r: Result<(), E>,
)
    requires
        between =~= before + first,
        delivered(between, after, reliable, second, r),
    ensures
        delivered(before, after, reliable, first + second, r),
{
    assert(before + (first + second) =~= between + second);
    assert(before.is_prefix_of(between));
}

/// A sink of items: an ordered sequence that grows at its end.
pub trait Receiver: Sized {
    /// What the sink takes in.
    type Item;

    /// The error with which the sink can fail.
    type Error;

    /// Whether [`Receiver::accepted`] and [`Receiver::reliable`] speak for this sink.
    /// They do for a sink that was verified against them. By default they do not, and
    /// nothing is claimed of what is written to such a sink.
    open spec fn modelled(&self) -> bool {
        false
    }

    /// The items that the sink has taken in so far, in order.
    open spec fn accepted(&self) -> Seq<Self::Item> {
        Seq::empty()
    }

    /// Whether the sink is free of failures. A write to a reliable sink succeeds.
    open spec fn reliable(&self) -> bool {
        false
    }

    /// Takes in one item.
    fn accept(&mut self, item: Self::Item) -> (r: Result<(), Self::Error>)
        ensures
            final(self).modelled() == old(self).modelled(),
            final(self).reliable() == old(self).reliable(),
            old(self).modelled() ==> delivered(
                old(self).accepted(),
                final(self).accepted(),
                old(self).reliable(),
                seq![item],
                r,
            ),
    ;

    /// Takes in all of `items`, in their order.
    fn accept_buffer(&mut self, items: &[Self::Item]) -> (r: Result<(), Self::Error>) where
        Self::Item: Copy,

        ensures
            final(self).modelled() == old(self).modelled(),
            final(self).reliable() == old(self).reliable(),
            old(self).modelled() ==> delivered(
                old(self).accepted(),
                final(self).accepted(),
                old(self).reliable(),
                items@,
                r,
            ),
    {
        let ghost before = self.accepted();
        let mut i: usize = 0;
        while i < items.len()
            invariant
                i <= items@.len(),
                self.modelled() == old(self).modelled(),
                self.reliable() == old(self).reliable(),
                before == old(self).accepted(),
                self.modelled() ==> self.accepted() =~= before + items@.take(i as int),
            decreases items@.len() - i,
        {
            let item = items[i];
            match self.accept(item) {
                Ok(_) => {
                    assert(items@.take(i as int + 1) =~= items@.take(i as int) + seq![item]);
                },
                Err(error) => {
                    assert(self.modelled() ==> self.accepted().is_prefix_of(before + items@)) by {
                        if self.modelled() {
                            let upto = before + items@.take(i as int + 1);
                            assert(items@.take(i as int + 1) =~= items@.take(i as int) + seq![
                                item,
                            ]);
                            assert(self.accepted().is_prefix_of(upto));
                            assert(upto.is_prefix_of(before + items@));
                        }
                    }
                    return Err(error);
                },
            }
            i += 1;
        }
        assert(items@.take(i as int) =~= items@);
        Ok(())
    }
}

/// A type whose values can be encoded into a stream of `Item`s.
pub trait Serialize<Item> {
    /// The wire format of the value: the items that encode it, in order.
    spec fn encoding(&self) -> Seq<Item>;

    /// Appends the encoding of `self` to what `receiver` has taken in.
    fn serialize<R: Receiver<Item = Item>>(self, receiver: &mut R) -> (r: Result<(), R::Error>)
        ensures
            final(receiver).modelled() == old(receiver).modelled(),
            final(receiver).reliable() == old(receiver).reliable(),
            old(receiver).modelled() ==> delivered(
                old(receiver).accepted(),
                final(receiver).accepted(),
                old(receiver).reliable(),
                self.encoding(),
                r,
            ),
    ;
}

/// Encoding as a method of the sink. Every [`Receiver`] has it.
pub trait Encode: Receiver {
    /// Encodes `obj` into the sink.
    fn auto<T: Serialize<Self::Item>>(&mut self, obj: T) -> (r: Result<(), Self::Error>)
        ensures
            final(self).modelled() == old(self).modelled(),
            final(self).reliable() == old(self).reliable(),
            old(self).modelled() ==> delivered(
                old(self).accepted(),
                final(self).accepted(),
                old(self).reliable(),
                obj.encoding(),
                r,
            ),
    {
        obj.serialize(self)
    }

    /// The same as [`Encode::auto`], for types that are a source and a sink at once.
    fn auto_ser<T: Serialize<Self::Item>>(&mut self, obj: T) -> (r: Result<(), Self::Error>)
        ensures
            final(self).modelled() == old(self).modelled(),
            final(self).reliable() == old(self).reliable(),
            old(self).modelled() ==> delivered(
                old(self).accepted(),
                final(self).accepted(),
                old(self).reliable(),
                obj.encoding(),
                r,
            ),
    {
        self.auto(obj)
    }
}

impl<R: Receiver> Encode for R {
}

} // verus!
