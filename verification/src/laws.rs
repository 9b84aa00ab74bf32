//! What holds of every codec of this library: decoding undoes encoding, takes exactly
//! the items that encoding made, and reports the end of the stream where items are
//! missing.
use vstd::prelude::*;
use vstd::utf8::{
    encode_utf8,
    encode_utf8_valid_utf8,
    encode_utf8_decode_utf8,
    char_is_scalar,
    char_u32_cast,
};
use crate::de::{Error, Parsed, Deserialize, outcome, seen};
use crate::es::{Serialize, delivered};
use crate::sequence::{encode_all, parse_all, models, counted_encoding, counted_parse};
use crate::wire::{be_bytes, lemma_radix_values, lemma_be_bytes_len, lemma_be_value_of_bytes};
use crate::primitives::flag;

verus! {

/// A type whose decoding undoes its encoding.
pub trait RoundTrip<Item>: Serialize<Item> + Deserialize<Item> {
    /// Whether the value can exist at run time, which is to say that every length in
    /// it fits a `usize`.
    spec fn representable(&self) -> bool;

    /// Decoding the encoding of a value gives the value again, and takes exactly the
    /// items of the encoding, whatever follows them in the stream.
    proof fn round_trip(value: Self, rest: Seq<Item>)
        requires
            value.representable(),
        ensures
            Self::parse(value.encoding() + rest) == Parsed::Value(
                value.deep_view(),
                value.encoding().len(),
            ),
    ;

    /// Decoding an encoding that is cut off before its end reports that the stream is
    /// too short, wherever the cut is.
    proof fn truncated(value: Self, kept: int)
        requires
            value.representable(),
            0 <= kept < value.encoding().len(),
        ensures
            Self::parse(value.encoding().take(kept)) == Parsed::<Self::V>::Short,
    ;
}

/// Whether every value of a run can exist at run time.
pub open spec fn all_representable<Item, T: RoundTrip<Item>>(values: Seq<T>) -> bool {
    forall|i: int| 0 <= i < values.len() ==> (#[trigger] values[i]).representable()
}

/// Decoding the encodings of a run of values, one after another, gives the values
/// again in their order, and takes exactly the items of the encodings.
pub proof fn lemma_run_round_trip<Item, T: RoundTrip<Item>>(values: Seq<T>, rest: Seq<Item>)
    requires
        all_representable::<Item, T>(values),
    ensures
        parse_all::<Item, T>(encode_all::<Item, T>(values) + rest, values.len()) == Parsed::Value(
            models(values),
            encode_all::<Item, T>(values).len(),
        ),
    decreases values.len(),
{
    if values.len() == 0 {
        assert(models(values) =~= Seq::<T::V>::empty());
    } else {
        let front = values.drop_last();
        let last = values.last();
        let stream = encode_all::<Item, T>(values) + rest;
        let taken = encode_all::<Item, T>(front).len();
        assert(stream =~= encode_all::<Item, T>(front) + (last.encoding() + rest));
        lemma_run_round_trip::<Item, T>(front, last.encoding() + rest);
        assert(stream.skip(taken as int) =~= last.encoding() + rest);
        T::round_trip(last, rest);
        assert(models(values) =~= models(front).push(last.deep_view()));
    }
}

/// Decoding the encodings of a run of values that are cut off before their end reports
/// that the stream is too short.
pub proof fn lemma_run_truncated<Item, T: RoundTrip<Item>>(values: Seq<T>, kept: int)
    requires
        all_representable::<Item, T>(values),
        0 <= kept < encode_all::<Item, T>(values).len(),
    ensures
        parse_all::<Item, T>(encode_all::<Item, T>(values).take(kept), values.len())
            == Parsed::<Seq<T::V>>::Short,
    decreases values.len(),
{
    let front = values.drop_last();
    let last = values.last();
    let whole = encode_all::<Item, T>(values);
    let taken = encode_all::<Item, T>(front).len() as int;
    if kept < taken {
        assert(whole.take(kept) =~= encode_all::<Item, T>(front).take(kept));
        lemma_run_truncated::<Item, T>(front, kept);
    } else {
        let cut = last.encoding().take(kept - taken);
        assert(whole.take(kept) =~= encode_all::<Item, T>(front) + cut);
        lemma_run_round_trip::<Item, T>(front, cut);
        assert(whole.take(kept).skip(taken) =~= cut);
        T::truncated(last, kept - taken);
    }
}

/// Decoding a count and the encodings of as many values gives the values again.
pub proof fn lemma_counted_round_trip<Item, T: RoundTrip<Item>>(values: Seq<T>, rest: Seq<Item>)
    where usize: RoundTrip<Item>
    requires
        values.len() <= usize::MAX,
        (values.len() as usize).representable(),
        all_representable::<Item, T>(values),
    ensures
        counted_parse::<Item, T>(counted_encoding::<Item, T>(values) + rest) == Parsed::Value(
            models(values),
            counted_encoding::<Item, T>(values).len(),
        ),
{
    let count = values.len() as usize;
    let elements = encode_all::<Item, T>(values);
    let stream = counted_encoding::<Item, T>(values) + rest;
    assert(stream =~= count.encoding() + (elements + rest));
    <usize as RoundTrip<Item>>::round_trip(count, elements + rest);
    assert(stream.skip(count.encoding().len() as int) =~= elements + rest);
    lemma_run_round_trip::<Item, T>(values, rest);
}

/// Decoding a count and the encodings of as many values that are cut off before their
/// end reports that the stream is too short.
pub proof fn lemma_counted_truncated<Item, T: RoundTrip<Item>>(values: Seq<T>, kept: int)
    where usize: RoundTrip<Item>
    requires
        values.len() <= usize::MAX,
        (values.len() as usize).representable(),
        all_representable::<Item, T>(values),
        0 <= kept < counted_encoding::<Item, T>(values).len(),
    ensures
        counted_parse::<Item, T>(counted_encoding::<Item, T>(values).take(kept)) == Parsed::<
            Seq<T::V>,
        >::Short,
{
    let count = values.len() as usize;
    let elements = encode_all::<Item, T>(values);
    let whole = counted_encoding::<Item, T>(values);
    let taken = count.encoding().len() as int;
    if kept < taken {
        assert(whole.take(kept) =~= count.encoding().take(kept));
        <usize as RoundTrip<Item>>::truncated(count, kept);
    } else {
        let cut = elements.take(kept - taken);
        assert(whole.take(kept) =~= count.encoding() + cut);
        <usize as RoundTrip<Item>>::round_trip(count, cut);
        assert(whole.take(kept).skip(taken) =~= cut);
        lemma_run_truncated::<Item, T>(values, kept - taken);
    }
}

/// Two values that were encoded one after the other into one stream are decoded from
/// it one after the other: the first where the stream begins, the second where the
/// first ended.
pub proof fn lemma_consecutive<Item, A: RoundTrip<Item>, B: RoundTrip<Item>>(
    first: A,
    second: B,
    rest: Seq<Item>,
)
    requires
        first.representable(),
        second.representable(),
    ensures
        A::parse(first.encoding() + second.encoding() + rest) == Parsed::Value(
            first.deep_view(),
            first.encoding().len(),
        ),
        B::parse(
            (first.encoding() + second.encoding() + rest).skip(first.encoding().len() as int),
        ) == Parsed::Value(second.deep_view(), second.encoding().len()),
{
    let stream = first.encoding() + second.encoding() + rest;
    assert(stream =~= first.encoding() + (second.encoding() + rest));
    A::round_trip(first, second.encoding() + rest);
    assert(stream.skip(first.encoding().len() as int) =~= second.encoding() + rest);
    B::round_trip(second, rest);
}

/// A write of a value to a reliable sink succeeds, and the sink then holds what it held
/// before, followed by the encoding of the value.
pub proof fn lemma_written_is_encoding<Item, T: Serialize<Item>, E>(
    value: T,
    before: Seq<Item>,
    after: Seq<Item>,
    r: Result<(), E>,
)
    requires
        delivered(before, after, true, value.encoding(), r),
    ensures
        r is Ok,
        after == before + value.encoding(),
{
}

/// A read from a reliable source that holds the encoding of a value, and then `rest`,
/// returns that value and leaves `rest` in the source.
pub proof fn lemma_read_undoes_write<Item, T: RoundTrip<Item>, E>(
    value: T,
    rest: Seq<Item>,
    after: Seq<Item>,
    got: Result<T, Error<E>>,
)
    requires
        value.representable(),
        outcome(
            value.encoding() + rest,
            after,
            true,
            T::parse(value.encoding() + rest),
            seen(got),
        ),
    ensures
        got matches Ok(back) && back.deep_view() == value.deep_view(),
        after == rest,
{
    T::round_trip(value, rest);
    assert((value.encoding() + rest).skip(value.encoding().len() as int) =~= rest);
}

/// A read from a reliable source that holds only the front part of the encoding of a
/// value ends in end of stream, and in no other error, wherever the encoding is cut.
pub proof fn lemma_read_of_cut_is_end_of_stream<Item, T: RoundTrip<Item>, E>(
    value: T,
    kept: int,
    after: Seq<Item>,
    got: Result<T, Error<E>>,
)
    requires
        value.representable(),
        0 <= kept < value.encoding().len(),
        outcome(
            value.encoding().take(kept),
            after,
            true,
            T::parse(value.encoding().take(kept)),
            seen(got),
        ),
    ensures
        got matches Err(Error::EOF),
{
    T::truncated(value, kept);
}

/// Where two values were encoded one after the other and the stream is cut off before
/// its end, either the first value is decoded and the second runs into the end of the
/// stream, or the first does.
pub proof fn lemma_consecutive_truncated<Item, A: RoundTrip<Item>, B: RoundTrip<Item>>(
    first: A,
    second: B,
    kept: int,
)
    requires
        first.representable(),
        second.representable(),
        0 <= kept < first.encoding().len() + second.encoding().len(),
    ensures
        ({
            let cut = (first.encoding() + second.encoding()).take(kept);
            if kept < first.encoding().len() {
                A::parse(cut) == Parsed::<A::V>::Short
            } else {
                &&& A::parse(cut) == Parsed::Value(first.deep_view(), first.encoding().len())
                &&& B::parse(cut.skip(first.encoding().len() as int)) == Parsed::<B::V>::Short
            }
        }),
{
    let whole = first.encoding() + second.encoding();
    let taken = first.encoding().len() as int;
    if kept < taken {
        assert(whole.take(kept) =~= first.encoding().take(kept));
        A::truncated(first, kept);
    } else {
        let cut = second.encoding().take(kept - taken);
        assert(whole.take(kept) =~= first.encoding() + cut);
        A::round_trip(first, cut);
        assert(whole.take(kept).skip(taken) =~= cut);
        B::truncated(second, kept - taken);
    }
}

/// A byte in a stream of bytes.
impl RoundTrip<u8> for u8 {
    open spec fn representable(&self) -> bool {
        true
    }

    proof fn round_trip(value: Self, rest: Seq<u8>) {
    }

    proof fn truncated(value: Self, kept: int) {
    }
}

/// A `u16` in a stream in which bytes can stand.
impl<Item> RoundTrip<Item> for u16 where u8: RoundTrip<Item> {
    open spec fn representable(&self) -> bool {
        all_representable::<Item, u8>(be_bytes(*self as nat, 2))
    }

    proof fn round_trip(value: Self, rest: Seq<Item>) {
        let bytes = be_bytes(value as nat, 2);
        lemma_radix_values();
        lemma_be_bytes_len(value as nat, 2);
        lemma_be_value_of_bytes(value as nat, 2);
        lemma_run_round_trip::<Item, u8>(bytes, rest);
        assert(models(bytes) =~= bytes);
    }

    proof fn truncated(value: Self, kept: int) {
        lemma_be_bytes_len(value as nat, 2);
        lemma_run_truncated::<Item, u8>(be_bytes(value as nat, 2), kept);
    }
}

/// A `u32` in a stream in which bytes can stand.
impl<Item> RoundTrip<Item> for u32 where u8: RoundTrip<Item> {
    open spec fn representable(&self) -> bool {
        all_representable::<Item, u8>(be_bytes(*self as nat, 4))
    }

    proof fn round_trip(value: Self, rest: Seq<Item>) {
        let bytes = be_bytes(value as nat, 4);
        lemma_radix_values();
        lemma_be_bytes_len(value as nat, 4);
        lemma_be_value_of_bytes(value as nat, 4);
        lemma_run_round_trip::<Item, u8>(bytes, rest);
        assert(models(bytes) =~= bytes);
    }

    proof fn truncated(value: Self, kept: int) {
        lemma_be_bytes_len(value as nat, 4);
        lemma_run_truncated::<Item, u8>(be_bytes(value as nat, 4), kept);
    }
}

/// A `u64` in a stream in which bytes can stand.
impl<Item> RoundTrip<Item> for u64 where u8: RoundTrip<Item> {
    open spec fn representable(&self) -> bool {
        all_representable::<Item, u8>(be_bytes(*self as nat, 8))
    }

    proof fn round_trip(value: Self, rest: Seq<Item>) {
        let bytes = be_bytes(value as nat, 8);
        lemma_radix_values();
        lemma_be_bytes_len(value as nat, 8);
        lemma_be_value_of_bytes(value as nat, 8);
        lemma_run_round_trip::<Item, u8>(bytes, rest);
        assert(models(bytes) =~= bytes);
    }

    proof fn truncated(value: Self, kept: int) {
        lemma_be_bytes_len(value as nat, 8);
        lemma_run_truncated::<Item, u8>(be_bytes(value as nat, 8), kept);
    }
}

/// A `u128` in a stream in which bytes can stand.
impl<Item> RoundTrip<Item> for u128 where u8: RoundTrip<Item> {
    open spec fn representable(&self) -> bool {
        all_representable::<Item, u8>(be_bytes(*self as nat, 16))
    }

    proof fn round_trip(value: Self, rest: Seq<Item>) {
        let bytes = be_bytes(value as nat, 16);
        lemma_radix_values();
        lemma_be_bytes_len(value as nat, 16);
        lemma_be_value_of_bytes(value as nat, 16);
        lemma_run_round_trip::<Item, u8>(bytes, rest);
        assert(models(bytes) =~= bytes);
    }

    proof fn truncated(value: Self, kept: int) {
        lemma_be_bytes_len(value as nat, 16);
        lemma_run_truncated::<Item, u8>(be_bytes(value as nat, 16), kept);
    }
}

/// An `i8` in a stream in which bytes can stand.
impl<Item> RoundTrip<Item> for i8 where u8: RoundTrip<Item> {
    open spec fn representable(&self) -> bool {
        all_representable::<Item, u8>(be_bytes((*self as u8) as nat, 1))
    }

    proof fn round_trip(value: Self, rest: Seq<Item>) {
        let bytes = be_bytes((value as u8) as nat, 1);
        lemma_radix_values();
        lemma_be_bytes_len((value as u8) as nat, 1);
        lemma_be_value_of_bytes((value as u8) as nat, 1);
        lemma_run_round_trip::<Item, u8>(bytes, rest);
        assert(models(bytes) =~= bytes);
        assert((value as u8) as i8 == value) by (bit_vector);
    }

    proof fn truncated(value: Self, kept: int) {
        lemma_be_bytes_len((value as u8) as nat, 1);
        lemma_run_truncated::<Item, u8>(be_bytes((value as u8) as nat, 1), kept);
    }
}

/// An `i16` in a stream in which bytes can stand.
impl<Item> RoundTrip<Item> for i16 where u8: RoundTrip<Item> {
    open spec fn representable(&self) -> bool {
        all_representable::<Item, u8>(be_bytes((*self as u16) as nat, 2))
    }

    proof fn round_trip(value: Self, rest: Seq<Item>) {
        let bytes = be_bytes((value as u16) as nat, 2);
        lemma_radix_values();
        lemma_be_bytes_len((value as u16) as nat, 2);
        lemma_be_value_of_bytes((value as u16) as nat, 2);
        lemma_run_round_trip::<Item, u8>(bytes, rest);
        assert(models(bytes) =~= bytes);
        assert((value as u16) as i16 == value) by (bit_vector);
    }

    proof fn truncated(value: Self, kept: int) {
        lemma_be_bytes_len((value as u16) as nat, 2);
        lemma_run_truncated::<Item, u8>(be_bytes((value as u16) as nat, 2), kept);
    }
}

/// An `i32` in a stream in which bytes can stand.
impl<Item> RoundTrip<Item> for i32 where u8: RoundTrip<Item> {
    open spec fn representable(&self) -> bool {
        all_representable::<Item, u8>(be_bytes((*self as u32) as nat, 4))
    }

    proof fn round_trip(value: Self, rest: Seq<Item>) {
        let bytes = be_bytes((value as u32) as nat, 4);
        lemma_radix_values();
        lemma_be_bytes_len((value as u32) as nat, 4);
        lemma_be_value_of_bytes((value as u32) as nat, 4);
        lemma_run_round_trip::<Item, u8>(bytes, rest);
        assert(models(bytes) =~= bytes);
        assert((value as u32) as i32 == value) by (bit_vector);
    }

    proof fn truncated(value: Self, kept: int) {
        lemma_be_bytes_len((value as u32) as nat, 4);
        lemma_run_truncated::<Item, u8>(be_bytes((value as u32) as nat, 4), kept);
    }
}

/// An `i64` in a stream in which bytes can stand.
impl<Item> RoundTrip<Item> for i64 where u8: RoundTrip<Item> {
    open spec fn representable(&self) -> bool {
        all_representable::<Item, u8>(be_bytes((*self as u64) as nat, 8))
    }

    proof fn round_trip(value: Self, rest: Seq<Item>) {
        let bytes = be_bytes((value as u64) as nat, 8);
        lemma_radix_values();
        lemma_be_bytes_len((value as u64) as nat, 8);
        lemma_be_value_of_bytes((value as u64) as nat, 8);
        lemma_run_round_trip::<Item, u8>(bytes, rest);
        assert(models(bytes) =~= bytes);
        assert((value as u64) as i64 == value) by (bit_vector);
    }

    proof fn truncated(value: Self, kept: int) {
        lemma_be_bytes_len((value as u64) as nat, 8);
        lemma_run_truncated::<Item, u8>(be_bytes((value as u64) as nat, 8), kept);
    }
}

/// An `i128` in a stream in which bytes can stand.
impl<Item> RoundTrip<Item> for i128 where u8: RoundTrip<Item> {
    open spec fn representable(&self) -> bool {
        all_representable::<Item, u8>(be_bytes((*self as u128) as nat, 16))
    }

    proof fn round_trip(value: Self, rest: Seq<Item>) {
        let bytes = be_bytes((value as u128) as nat, 16);
        lemma_radix_values();
        lemma_be_bytes_len((value as u128) as nat, 16);
        lemma_be_value_of_bytes((value as u128) as nat, 16);
        lemma_run_round_trip::<Item, u8>(bytes, rest);
        assert(models(bytes) =~= bytes);
        assert((value as u128) as i128 == value) by (bit_vector);
    }

    proof fn truncated(value: Self, kept: int) {
        lemma_be_bytes_len((value as u128) as nat, 16);
        lemma_run_truncated::<Item, u8>(be_bytes((value as u128) as nat, 16), kept);
    }
}

/// A `usize` in a stream in which a `u64` can stand.
impl<Item> RoundTrip<Item> for usize where u64: RoundTrip<Item> {
    open spec fn representable(&self) -> bool {
        (*self as u64).representable()
    }

    proof fn round_trip(value: Self, rest: Seq<Item>) {
        <u64 as RoundTrip<Item>>::round_trip(value as u64, rest);
    }

    proof fn truncated(value: Self, kept: int) {
        <u64 as RoundTrip<Item>>::truncated(value as u64, kept);
    }
}

/// An `isize` in a stream in which a `i64` can stand.
impl<Item> RoundTrip<Item> for isize where i64: RoundTrip<Item> {
    open spec fn representable(&self) -> bool {
        (*self as i64).representable()
    }

    proof fn round_trip(value: Self, rest: Seq<Item>) {
        <i64 as RoundTrip<Item>>::round_trip(value as i64, rest);
    }

    proof fn truncated(value: Self, kept: int) {
        <i64 as RoundTrip<Item>>::truncated(value as i64, kept);
    }
}

/// A boolean in a stream in which bytes can stand.
impl<Item> RoundTrip<Item> for bool where u8: RoundTrip<Item> {
    open spec fn representable(&self) -> bool {
        flag(*self).representable()
    }

    proof fn round_trip(value: Self, rest: Seq<Item>) {
        <u8 as RoundTrip<Item>>::round_trip(flag(value), rest);
    }

    proof fn truncated(value: Self, kept: int) {
        <u8 as RoundTrip<Item>>::truncated(flag(value), kept);
    }
}

/// A character in a stream in which a `u32` can stand.
impl<Item> RoundTrip<Item> for char where u32: RoundTrip<Item> {
    open spec fn representable(&self) -> bool {
        (*self as u32).representable()
    }

    proof fn round_trip(value: Self, rest: Seq<Item>) {
        char_is_scalar(value);
        char_u32_cast(value, value as u32);
        <u32 as RoundTrip<Item>>::round_trip(value as u32, rest);
    }

    proof fn truncated(value: Self, kept: int) {
        <u32 as RoundTrip<Item>>::truncated(value as u32, kept);
    }
}

/// A text in a stream in which bytes can stand.
impl<Item> RoundTrip<Item> for String where u8: RoundTrip<Item> {
    open spec fn representable(&self) -> bool {
        &&& encode_utf8(self@).len() <= usize::MAX
        &&& (encode_utf8(self@).len() as usize).representable()
        &&& all_representable::<Item, u8>(encode_utf8(self@))
    }

    proof fn round_trip(value: Self, rest: Seq<Item>) {
        let bytes = encode_utf8(value@);
        lemma_counted_round_trip::<Item, u8>(bytes, rest);
        assert(models(bytes) =~= bytes);
        encode_utf8_valid_utf8(value@);
        encode_utf8_decode_utf8(value@);
    }

    proof fn truncated(value: Self, kept: int) {
        lemma_counted_truncated::<Item, u8>(encode_utf8(value@), kept);
    }
}

/// A vector of values that make the round trip.
impl<Item, T> RoundTrip<Item> for Vec<T> where T: RoundTrip<Item>, usize: RoundTrip<Item> {
    open spec fn representable(&self) -> bool {
        &&& self@.len() <= usize::MAX
        &&& (self@.len() as usize).representable()
        &&& all_representable::<Item, T>(self@)
    }

    proof fn round_trip(value: Self, rest: Seq<Item>) {
        lemma_counted_round_trip::<Item, T>(value@, rest);
        assert(models(value@) =~= value.deep_view());
    }

    proof fn truncated(value: Self, kept: int) {
        lemma_counted_truncated::<Item, T>(value@, kept);
    }
}

/// An array of values that make the round trip.
impl<const N: usize, Item, T: RoundTrip<Item>> RoundTrip<Item> for [T; N] {
    open spec fn representable(&self) -> bool {
        all_representable::<Item, T>(self@)
    }

    proof fn round_trip(value: Self, rest: Seq<Item>) {
        lemma_run_round_trip::<Item, T>(value@, rest);
        assert(models(value@) =~= value.deep_view());
    }

    proof fn truncated(value: Self, kept: int) {
        lemma_run_truncated::<Item, T>(value@, kept);
    }
}

/// An option of a value that makes the round trip.
impl<Item, T> RoundTrip<Item> for Option<T> where T: RoundTrip<Item>, bool: RoundTrip<Item> {
    open spec fn representable(&self) -> bool {
        match self {
            Some(inner) => true.representable() && inner.representable(),
            None => false.representable(),
        }
    }

    proof fn round_trip(value: Self, rest: Seq<Item>) {
        match value {
            Some(inner) => {
                lemma_consecutive::<Item, bool, T>(true, inner, rest);
                assert(true.encoding() + inner.encoding() + rest =~= value.encoding() + rest);
            },
            None => {
                <bool as RoundTrip<Item>>::round_trip(false, rest);
            },
        }
    }

    proof fn truncated(value: Self, kept: int) {
        match value {
            Some(inner) => {
                lemma_consecutive_truncated::<Item, bool, T>(true, inner, kept);
            },
            None => {
                <bool as RoundTrip<Item>>::truncated(false, kept);
            },
        }
    }
}

/// A pair of values that make the round trip.
impl<Item, A, B> RoundTrip<Item> for (A, B) where A: RoundTrip<Item>, B: RoundTrip<Item> {
    open spec fn representable(&self) -> bool {
        self.0.representable() && self.1.representable()
    }

    proof fn round_trip(value: Self, rest: Seq<Item>) {
        lemma_consecutive::<Item, A, B>(value.0, value.1, rest);
        assert(value.0.encoding() + value.1.encoding() + rest =~= value.encoding() + rest);
    }

    proof fn truncated(value: Self, kept: int) {
        lemma_consecutive_truncated::<Item, A, B>(value.0, value.1, kept);
    }
}

} // verus!
