//! The reading side: sources of items, and values that can be decoded from them.
use vstd::prelude::*;
use vstd::string::StringExecFns;
use crate::sequence::array_from_vec;

verus! {

/// `text` as the standard library's `Debug` writes a string: between double quotes,
/// with the characters escaped that cannot stand there as they are.
pub uninterp spec fn quoted(text: Seq<char>) -> Seq<char>;

/// `Debug` of the standard library for `str`, through `format!`.
#[verifier::external_body]
fn quote(text: &str) -> (r: String)
    ensures
        r@ == quoted(text@),
{
    format!("{text:?}")
}

/// `Debug` of the standard library for a value of any type that has it, through
/// `format!`. What comes out is up to the type, so nothing is claimed of it.
#[verifier::external_body]
fn debug_text<T: core::fmt::Debug>(value: &T) -> (r: String) {
    format!("{value:?}")
}

/// What can go wrong while a value is decoded.
#[derive(Debug)]
pub enum Error<SenderError> {
    /// The source ran out of items while another one was needed.
    EOF,
    /// The source itself failed, for a reason that has nothing to do with decoding.
    Sender(SenderError),
    /// The items that were read do not form a value of the requested type. The text
    /// is a diagnosis for a human reader.
    Parse(String),
}

impl<SenderError> Error<SenderError> {
    /// Makes a parse error out of a diagnosis.
    pub fn make_parse(diagnosis: String) -> (error: Self)
        ensures
            error == Error::<SenderError>::Parse(diagnosis),
    {
        Error::Parse(diagnosis)
    }

    /// What the error says to a human reader: a sentence for each variant, followed by
    /// what the error carries, as `Debug` writes it.
    pub fn describe(&self) -> (text: String) where SenderError: core::fmt::Debug
        ensures
            match self {
                Error::EOF => text@ == "reached EOF before expecting it !"@,
                Error::Sender(_) => "the sender (the instance providing items) had an error: "@.is_prefix_of(
                    text@,
                ),
                Error::Parse(diagnosis) => text@ == "an error occured while parsing: "@
                    + quoted(diagnosis@),
            },
    {
        match self {
            Error::EOF => String::from_str("reached EOF before expecting it !"),
            Error::Sender(inner) => {
                let mut text = String::from_str(
                    "the sender (the instance providing items) had an error: ",
                );
                let detail = debug_text(inner);
                text.append(detail.as_str());
                text
            },
            Error::Parse(diagnosis) => {
                let mut text = String::from_str("an error occured while parsing: ");
                let detail = quote(diagnosis.as_str());
                text.append(detail.as_str());
                text
            },
        }
    }

    /// Takes the source's own error out of `self`, for callers that have already
    /// ruled out the other two variants.
    pub fn unwrap_sender(self) -> (inner: SenderError)
        requires
            self is Sender,
        ensures
            self == Error::Sender(inner),
    {
        match self {
            Error::Sender(inner) => inner,
            _ => vstd::pervasive::unreached(),
        }
    }
}

/// A diagnosis is a parse error.
impl<SenderError> From<String> for Error<SenderError> {
    fn from(value: String) -> (error: Self) {
        Error::Parse(value)
    }
}

impl<SenderError> vstd::std_specs::convert::FromSpecImpl<String> for Error<SenderError> {
    open spec fn obeys_from_spec() -> bool {
        true
    }

    open spec fn from_spec(value: String) -> Self {
        Error::Parse(value)
    }
}

/// What the wire format makes of a sequence of items, read from its front.
pub enum Parsed<M> {
    /// The front of the sequence encodes this value, and the encoding is this many
    /// items long.
    Value(M, nat),
    /// The sequence ends before the value is complete.
    Short,
    /// The items do not encode a value.
    Invalid,
}

impl<M> Parsed<M> {
    /// The same outcome with the value, if there is one, replaced by `f` of it.
    pub open spec fn map<N>(self, f: spec_fn(M) -> N) -> Parsed<N> {
        match self {
            Parsed::Value(model, taken) => Parsed::Value(f(model), taken),
            Parsed::Short => Parsed::Short,
            Parsed::Invalid => Parsed::Invalid,
        }
    }
}

/// The mathematical value of a decoding result: that of the decoded value, or the
/// error as it is.
pub open spec fn seen<T: DeepView, E>(r: Result<T, Error<E>>) -> Result<T::V, Error<E>> {
    match r {
        Ok(value) => Ok(value.deep_view()),
        Err(error) => Err(error),
    }
}

/// How the result of a read relates to what the wire format prescribes.
///
/// `before` and `after` are the items that the source had yet to hand out when the read
/// began and when it ended, `expected` is what the format makes of `before`, and `got`
/// is what the read returned.
///
/// * A value is returned only where the format yields that value, and the source has
///   then advanced by exactly the length of its encoding.
/// * End of stream is reported only where `before` is too short, a parse error only
///   where its items are invalid.
/// * A reliable source never reports an error of its own, so on a reliable source the
///   result is the one that the format prescribes.
/// * Whatever happened, the source has only moved forward.
pub open spec fn outcome<Item, M, E>(
    before: Seq<Item>,
    after: Seq<Item>,
    reliable: bool,
    expected: Parsed<M>,
    got: Result<M, Error<E>>,
) -> bool {
    match got {
        Ok(value) => expected matches Parsed::Value(model, taken) && value == model && taken
            <= before.len() && after =~= before.skip(taken as int),
        Err(Error::EOF) => expected is Short && after.is_suffix_of(before),
        Err(Error::Parse(_)) => expected is Invalid && after.is_suffix_of(before),
        Err(Error::Sender(_)) => !reliable && after.is_suffix_of(before),
    }
}

/// What reading a single item makes of `items`.
pub open spec fn first_item<Item>(items: Seq<Item>) -> Parsed<Item> {
    if items.len() > 0 {
        Parsed::Value(items[0], 1)
    } else {
        Parsed::Short
    }
}

/// What reading `count` items at once makes of `items`.
pub open spec fn first_items<Item>(items: Seq<Item>, count: nat) -> Parsed<Seq<Item>> {
    if items.len() >= count {
        Parsed::Value(items.take(count as int), count)
    } else {
        Parsed::Short
    }
}

/// The view of a result that carries a buffer of items.
pub open spec fn seen_buffer<Item, const N: usize, E>(r: Result<[Item; N], Error<E>>) -> Result<
    Seq<Item>,
    Error<E>,
> {
    match r {
        Ok(buffer) => Ok(buffer@),
        Err(error) => Err(error),
    }
}

/// A source of items: an ordered sequence that is consumed from its front.
pub trait Sender {
    /// What the source hands out.
    type Item;

    /// The error with which the source itself can fail.
    type Error;

    /// Whether [`Sender::pending`] and [`Sender::reliable`] speak for this source. They
    /// do for a source that was verified against them. By default they do not, and
    /// nothing is claimed of what is read from such a source.
    open spec fn modelled(&self) -> bool {
        false
    }

    /// The items that the source has yet to hand out, in order.
    open spec fn pending(&self) -> Seq<Self::Item> {
        Seq::empty()
    }

    /// Whether the source is free of failures of its own. A read from a reliable
    /// source can only end in a value, in end of stream or in a parse error.
    open spec fn reliable(&self) -> bool {
        false
    }

    /// Hands out the next item.
    fn get(&mut self) -> (r: Result<Self::Item, Error<Self::Error>>)
        ensures
            final(self).modelled() == old(self).modelled(),
            final(self).reliable() == old(self).reliable(),
            old(self).modelled() ==> outcome(
                old(self).pending(),
                final(self).pending(),
                old(self).reliable(),
                first_item(old(self).pending()),
                r,
            ),
    ;

    /// Fills the whole of `buffer` with the next items. On an error the buffer holds
    /// nothing in particular.
    fn fill_buffer(&mut self, buffer: &mut [Self::Item]) -> (r: Result<(), Error<Self::Error>>)
        ensures
            final(self).modelled() == old(self).modelled(),
            final(self).reliable() == old(self).reliable(),
            final(buffer)@.len() == old(buffer)@.len(),
            old(self).modelled() ==> outcome(
                old(self).pending(),
                final(self).pending(),
                old(self).reliable(),
                first_items(old(self).pending(), old(buffer)@.len()),
                match r {
                    Ok(_) => Ok(final(buffer)@),
                    Err(error) => Err(error),
                },
            ),
    {
        let ghost before = self.pending();
        let count = buffer.len();
        let mut i: usize = 0;
        while i < count
            invariant
                i <= count,
                count == buffer@.len(),
                count == old(buffer)@.len(),
                self.modelled() == old(self).modelled(),
                self.reliable() == old(self).reliable(),
                before == old(self).pending(),
                self.modelled() ==> i <= before.len(),
                self.modelled() ==> self.pending() =~= before.skip(i as int),
                self.modelled() ==> buffer@.take(i as int) =~= before.take(i as int),
            decreases count - i,
        {
            match self.get() {
                Ok(item) => {
                    buffer[i] = item;
                },
                Err(error) => {
                    return Err(error);
                },
            }
            i += 1;
        }
        assert(buffer@.take(count as int) =~= buffer@);
        Ok(())
    }

    /// Hands out the next `N` items as one buffer.
    fn get_buffer<const N: usize>(&mut self) -> (r: Result<[Self::Item; N], Error<Self::Error>>)
        ensures
            final(self).modelled() == old(self).modelled(),
            final(self).reliable() == old(self).reliable(),
            old(self).modelled() ==> outcome(
                old(self).pending(),
                final(self).pending(),
                old(self).reliable(),
                first_items(old(self).pending(), N as nat),
                seen_buffer(r),
            ),
    {
        let ghost before = self.pending();
        let mut buffer: Vec<Self::Item> = Vec::new();
        let mut i: usize = 0;
        while i < N
            invariant
                i <= N,
                self.modelled() == old(self).modelled(),
                self.reliable() == old(self).reliable(),
                before == old(self).pending(),
                buffer@.len() == i,
                self.modelled() ==> i <= before.len(),
                self.modelled() ==> self.pending() =~= before.skip(i as int),
                self.modelled() ==> buffer@ =~= before.take(i as int),
            decreases N - i,
        {
            match self.get() {
                Ok(item) => {
                    buffer.push(item);
                },
                Err(error) => {
                    return Err(error);
                },
            }
            i += 1;
        }
        Ok(array_from_vec(buffer))
    }
}

/// A type whose values can be decoded from a stream of `Item`s.
///
/// The wire format of the type is the pure function [`Deserialize::parse`]; decoding
/// follows it on whatever the source holds.
pub trait Deserialize<Item>: Sized + DeepView {
    /// What the wire format makes of `items`: the value that their front encodes, as a
    /// mathematical value, with the length of that encoding; or that the items end
    /// too early; or that they encode no value.
    spec fn parse(items: Seq<Item>) -> Parsed<Self::V>;

    /// Decodes one value from the front of what `sender` holds, and consumes exactly
    /// the items that encode it.
    fn deserialize<S: Sender<Item = Item> + ?Sized>(sender: &mut S) -> (r: Result<
        Self,
        Error<S::Error>,
    >)
        ensures
            final(sender).modelled() == old(sender).modelled(),
            final(sender).reliable() == old(sender).reliable(),
            old(sender).modelled() ==> outcome(
                old(sender).pending(),
                final(sender).pending(),
                old(sender).reliable(),
                Self::parse(old(sender).pending()),
                seen(r),
            ),
    ;
}

/// Decoding as a method of the source. Every [`Sender`] has it.
pub trait Decode: Sender {
    /// Decodes a value of the type that the caller asks for.
    fn auto<D: Deserialize<Self::Item>>(&mut self) -> (r: Result<D, Error<Self::Error>>)
        ensures
            final(self).modelled() == old(self).modelled(),
            final(self).reliable() == old(self).reliable(),
            old(self).modelled() ==> outcome(
                old(self).pending(),
                final(self).pending(),
                old(self).reliable(),
                D::parse(old(self).pending()),
                seen(r),
            ),
    {
        D::deserialize(self)
    }

    /// The same as [`Decode::auto`], for types that are a source and a sink at once.
    fn auto_de<D: Deserialize<Self::Item>>(&mut self) -> (r: Result<D, Error<Self::Error>>)
        ensures
            final(self).modelled() == old(self).modelled(),
            final(self).reliable() == old(self).reliable(),
            old(self).modelled() ==> outcome(
                old(self).pending(),
                final(self).pending(),
                old(self).reliable(),
                D::parse(old(self).pending()),
                seen(r),
            ),
    {
        self.auto()
    }
}

impl<S: Sender + ?Sized> Decode for S {
}

} // verus!
