//! Numbers on the wire: a fixed count of bytes, most significant byte first.
use vstd::prelude::*;
use crate::de::{Error, Parsed, Sender, Deserialize, outcome};
use crate::es::{Receiver, Serialize, delivered};
use crate::sequence::{encode_all, parse_all, take_all, put_all, lemma_parse_all_length};

verus! {

/// The number of values that `width` bytes can tell apart: 256 to the power of `width`.
pub open spec fn radix(width: nat) -> nat
    decreases width,
{
    if width == 0 {
        1
    } else {
        256 * radix((width - 1) as nat)
    }
}

/// The `width` lowest base-256 digits of `value`, most significant first.
pub open spec fn be_bytes(value: nat, width: nat) -> Seq<u8>
    decreases width,
{
    if width == 0 {
        Seq::empty()
    } else {
        be_bytes(value / 256, (width - 1) as nat).push((value % 256) as u8)
    }
}

/// The number whose base-256 digits are `bytes`, most significant first.
pub open spec fn be_value(bytes: Seq<u8>) -> nat
    decreases bytes.len(),
{
    if bytes.len() == 0 {
        0
    } else {
        be_value(bytes.drop_last()) * 256 + bytes.last() as nat
    }
}

/// The values of [`radix`] at the widths of the integer types.
pub proof fn lemma_radix_values()
    ensures
        radix(1) == 0x100,
        radix(2) == 0x1_0000,
        radix(4) == 0x1_0000_0000,
        radix(8) == 0x1_0000_0000_0000_0000,
        radix(16) == 0x1_0000_0000_0000_0000 * 0x1_0000_0000_0000_0000,
        radix(16) == u128::MAX + 1,
{
    reveal_with_fuel(radix, 17);
}

/// A wider number has room for more values.
pub proof fn lemma_radix_grows(narrow: nat, wide: nat)
    requires
        narrow <= wide,
    ensures
        0 < radix(narrow) <= radix(wide),
    decreases wide,
{
    if narrow < wide {
        lemma_radix_grows(narrow, (wide - 1) as nat);
    } else if wide > 0 {
        lemma_radix_grows((narrow - 1) as nat, (wide - 1) as nat);
    }
}

/// A number is written with exactly as many bytes as asked for.
pub proof fn lemma_be_bytes_len(value: nat, width: nat)
    ensures
        be_bytes(value, width).len() == width,
    decreases width,
{
    if width > 0 {
        lemma_be_bytes_len(value / 256, (width - 1) as nat);
    }
}

/// The bytes of a number denote a value that fits their count.
pub proof fn lemma_be_value_bound(bytes: Seq<u8>)
    ensures
        be_value(bytes) < radix(bytes.len()),
    decreases bytes.len(),
{
    if bytes.len() > 0 {
        lemma_be_value_bound(bytes.drop_last());
    }
}

/// Reading back the bytes of a number that fits the width gives the number.
pub proof fn lemma_be_value_of_bytes(value: nat, width: nat)
    requires
        value < radix(width),
    ensures
        be_value(be_bytes(value, width)) == value,
    decreases width,
{
    if width > 0 {
        let front = be_bytes(value / 256, (width - 1) as nat);
        let last = (value % 256) as u8;
        assert(front.push(last).drop_last() =~= front);
        lemma_be_value_of_bytes(value / 256, (width - 1) as nat);
    }
}

/// The bytes of `value`, `width` of them, most significant first.
pub fn be_bytes_of(value: u128, width: usize) -> (bytes: Vec<u8>)
    ensures
        bytes@ == be_bytes(value as nat, width as nat),
{
    let mut bytes: Vec<u8> = Vec::new();
    let mut filled: usize = 0;
    while filled < width
        invariant
            filled <= width,
            bytes@.len() == filled,
        decreases width - filled,
    {
        bytes.push(0u8);
        filled += 1;
    }
    let mut rest: u128 = value;
    let mut i: usize = width;
    while i > 0
        invariant
            i <= width,
            bytes@.len() == width,
            be_bytes(value as nat, width as nat) =~= be_bytes(rest as nat, i as nat) + bytes@.skip(
                i as int,
            ),
        decreases i,
    {
        let ghost earlier = bytes@;
        let digit: u8 = (rest % 256) as u8;
        i -= 1;
        bytes.set(i, digit);
        rest = rest / 256;
        assert(bytes@.skip(i as int) =~= seq![digit] + earlier.skip(i as int + 1));
    }
    assert(bytes@.skip(0) =~= bytes@);
    bytes
}

/// The number that `bytes` denote, most significant byte first.
pub fn be_value_of(bytes: &[u8]) -> (value: u128)
    requires
        bytes@.len() <= 16,
    ensures
        value == be_value(bytes@),
{
    let mut value: u128 = 0;
    let mut i: usize = 0;
    while i < bytes.len()
        invariant
            i <= bytes@.len() <= 16,
            value == be_value(bytes@.take(i as int)),
        decreases bytes@.len() - i,
    {
        proof {
            assert(bytes@.take(i as int + 1).drop_last() =~= bytes@.take(i as int));
            lemma_be_value_bound(bytes@.take(i as int));
            lemma_radix_grows(i as nat, 15);
            lemma_radix_values();
            assert(radix(16) == 256 * radix(15));
        }
        value = value * 256 + bytes[i] as u128;
        i += 1;
    }
    assert(bytes@.take(i as int) =~= bytes@);
    value
}

/// The wire format of a number of `width` bytes: the encodings of its bytes, most
/// significant first.
pub open spec fn be_encoding<Item>(value: nat, width: nat) -> Seq<Item> where u8: Serialize<Item> {
    encode_all::<Item, u8>(be_bytes(value, width))
}

/// What the wire format makes of `items` when a number of `width` bytes is read from
/// their front.
pub open spec fn be_parse<Item>(items: Seq<Item>, width: nat) -> Parsed<nat> where
    u8: Deserialize<Item>,
 {
    parse_all::<Item, u8>(items, width).map(|bytes: Seq<u8>| be_value(bytes))
}

/// The number in a result, as a natural number.
pub open spec fn seen_number<E>(r: Result<u128, Error<E>>) -> Result<nat, Error<E>> {
    match r {
        Ok(value) => Ok(value as nat),
        Err(error) => Err(error),
    }
}

/// Writes the `width` lowest bytes of `value`, most significant first.
pub fn put_be<Item, R: Receiver<Item = Item>>(receiver: &mut R, value: u128, width: usize) -> (r:
    Result<(), R::Error>) where u8: Serialize<Item>
    ensures
        final(receiver).modelled() == old(receiver).modelled(),
        final(receiver).reliable() == old(receiver).reliable(),
        old(receiver).modelled() ==> delivered(
            old(receiver).accepted(),
            final(receiver).accepted(),
            old(receiver).reliable(),
            be_encoding::<Item>(value as nat, width as nat),
            r,
        ),
{
    put_all(receiver, be_bytes_of(value, width))
}

/// Reads a number of `width` bytes, most significant first.
pub fn take_be<Item, S: Sender<Item = Item> + ?Sized>(sender: &mut S, width: usize) -> (r: Result<
    u128,
    Error<S::Error>,
>) where u8: Deserialize<Item>
    requires
        width <= 16,
    ensures
        final(sender).modelled() == old(sender).modelled(),
        final(sender).reliable() == old(sender).reliable(),
        old(sender).modelled() ==> outcome(
            old(sender).pending(),
            final(sender).pending(),
            old(sender).reliable(),
            be_parse::<Item>(old(sender).pending(), width as nat),
            seen_number(r),
        ),
        r matches Ok(value) ==> value < radix(width as nat),
{
    match take_all::<Item, u8, S>(sender, width) {
        Ok(bytes) => {
            proof {
                lemma_parse_all_length::<Item, u8>(old(sender).pending(), width as nat);
                assert(bytes.deep_view() =~= bytes@);
                lemma_be_value_bound(bytes@);
            }
            Ok(be_value_of(bytes.as_slice()))
        },
        Err(error) => Err(error),
    }
}

} // verus!
