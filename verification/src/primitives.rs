//! The codecs of the integers and of booleans.
use vstd::prelude::*;
use crate::de::{Error, Parsed, Sender, Deserialize, Decode, first_item};
use crate::es::{Receiver, Serialize, Encode};
use crate::wire::{be_encoding, be_parse, put_be, take_be, lemma_radix_values};

verus! {

/// A byte in a stream of bytes is the item itself.
impl Serialize<u8> for u8 {
    open spec fn encoding(&self) -> Seq<u8> {
        seq![*self]
    }

    fn serialize<R: Receiver<Item = u8>>(self, receiver: &mut R) -> (r: Result<(), R::Error>) {
        receiver.accept(self)
    }
}

/// A byte in a stream of bytes is the item itself.
impl Deserialize<u8> for u8 {
    open spec fn parse(items: Seq<u8>) -> Parsed<u8> {
        first_item(items)
    }

    fn deserialize<S: Sender<Item = u8> + ?Sized>(sender: &mut S) -> (r: Result<
        Self,
        Error<S::Error>,
    >) {
        sender.get()
    }
}

/// A `u16` is 2 bytes, most significant first.
impl<Item> Serialize<Item> for u16 where u8: Serialize<Item> {
    open spec fn encoding(&self) -> Seq<Item> {
        be_encoding::<Item>(*self as nat, 2)
    }

    fn serialize<R: Receiver<Item = Item>>(self, receiver: &mut R) -> (r: Result<(), R::Error>) {
        put_be(receiver, self as u128, 2)
    }
}

/// A `u16` is 2 bytes, most significant first.
impl<Item> Deserialize<Item> for u16 where u8: Deserialize<Item> {
    open spec fn parse(items: Seq<Item>) -> Parsed<u16> {
        be_parse::<Item>(items, 2).map(|value: nat| value as u16)
    }

    fn deserialize<S: Sender<Item = Item> + ?Sized>(sender: &mut S) -> (r: Result<
        Self,
        Error<S::Error>,
    >) {
        match take_be(sender, 2) {
            Ok(value) => {
                proof {
                    lemma_radix_values();
                }
                Ok(value as u16)
            },
            Err(error) => Err(error),
        }
    }
}

/// A `u32` is 4 bytes, most significant first.
impl<Item> Serialize<Item> for u32 where u8: Serialize<Item> {
    open spec fn encoding(&self) -> Seq<Item> {
        be_encoding::<Item>(*self as nat, 4)
    }

    fn serialize<R: Receiver<Item = Item>>(self, receiver: &mut R) -> (r: Result<(), R::Error>) {
        put_be(receiver, self as u128, 4)
    }
}

/// A `u32` is 4 bytes, most significant first.
impl<Item> Deserialize<Item> for u32 where u8: Deserialize<Item> {
    open spec fn parse(items: Seq<Item>) -> Parsed<u32> {
        be_parse::<Item>(items, 4).map(|value: nat| value as u32)
    }

    fn deserialize<S: Sender<Item = Item> + ?Sized>(sender: &mut S) -> (r: Result<
        Self,
        Error<S::Error>,
    >) {
        match take_be(sender, 4) {
            Ok(value) => {
                proof {
                    lemma_radix_values();
                }
                Ok(value as u32)
            },
            Err(error) => Err(error),
        }
    }
}

/// A `u64` is 8 bytes, most significant first.
impl<Item> Serialize<Item> for u64 where u8: Serialize<Item> {
    open spec fn encoding(&self) -> Seq<Item> {
        be_encoding::<Item>(*self as nat, 8)
    }

    fn serialize<R: Receiver<Item = Item>>(self, receiver: &mut R) -> (r: Result<(), R::Error>) {
        put_be(receiver, self as u128, 8)
    }
}

/// A `u64` is 8 bytes, most significant first.
impl<Item> Deserialize<Item> for u64 where u8: Deserialize<Item> {
    open spec fn parse(items: Seq<Item>) -> Parsed<u64> {
        be_parse::<Item>(items, 8).map(|value: nat| value as u64)
    }

    fn deserialize<S: Sender<Item = Item> + ?Sized>(sender: &mut S) -> (r: Result<
        Self,
        Error<S::Error>,
    >) {
        match take_be(sender, 8) {
            Ok(value) => {
                proof {
                    lemma_radix_values();
                }
                Ok(value as u64)
            },
            Err(error) => Err(error),
        }
    }
}

/// A `u128` is 16 bytes, most significant first.
impl<Item> Serialize<Item> for u128 where u8: Serialize<Item> {
    open spec fn encoding(&self) -> Seq<Item> {
        be_encoding::<Item>(*self as nat, 16)
    }

    fn serialize<R: Receiver<Item = Item>>(self, receiver: &mut R) -> (r: Result<(), R::Error>) {
        put_be(receiver, self as u128, 16)
    }
}

/// A `u128` is 16 bytes, most significant first.
impl<Item> Deserialize<Item> for u128 where u8: Deserialize<Item> {
    open spec fn parse(items: Seq<Item>) -> Parsed<u128> {
        be_parse::<Item>(items, 16).map(|value: nat| value as u128)
    }

    fn deserialize<S: Sender<Item = Item> + ?Sized>(sender: &mut S) -> (r: Result<
        Self,
        Error<S::Error>,
    >) {
        match take_be(sender, 16) {
            Ok(value) => {
                proof {
                    lemma_radix_values();
                }
                Ok(value as u128)
            },
            Err(error) => Err(error),
        }
    }
}

/// An `i8` is the 1 bytes of its two's complement, most significant first.
impl<Item> Serialize<Item> for i8 where u8: Serialize<Item> {
    open spec fn encoding(&self) -> Seq<Item> {
        be_encoding::<Item>((*self as u8) as nat, 1)
    }

    fn serialize<R: Receiver<Item = Item>>(self, receiver: &mut R) -> (r: Result<(), R::Error>) {
        let pattern: u8 = #[verifier::truncate] (self as u8);
        put_be(receiver, pattern as u128, 1)
    }
}

/// An `i8` is the 1 bytes of its two's complement, most significant first.
impl<Item> Deserialize<Item> for i8 where u8: Deserialize<Item> {
    open spec fn parse(items: Seq<Item>) -> Parsed<i8> {
        be_parse::<Item>(items, 1).map(|value: nat| (value as u8) as i8)
    }

    fn deserialize<S: Sender<Item = Item> + ?Sized>(sender: &mut S) -> (r: Result<
        Self,
        Error<S::Error>,
    >) {
        match take_be(sender, 1) {
            Ok(value) => {
                proof {
                    lemma_radix_values();
                }
                let pattern: u8 = value as u8;
                Ok(#[verifier::truncate] (pattern as i8))
            },
            Err(error) => Err(error),
        }
    }
}

/// An `i16` is the 2 bytes of its two's complement, most significant first.
impl<Item> Serialize<Item> for i16 where u8: Serialize<Item> {
    open spec fn encoding(&self) -> Seq<Item> {
        be_encoding::<Item>((*self as u16) as nat, 2)
    }

    fn serialize<R: Receiver<Item = Item>>(self, receiver: &mut R) -> (r: Result<(), R::Error>) {
        let pattern: u16 = #[verifier::truncate] (self as u16);
        put_be(receiver, pattern as u128, 2)
    }
}

/// An `i16` is the 2 bytes of its two's complement, most significant first.
impl<Item> Deserialize<Item> for i16 where u8: Deserialize<Item> {
    open spec fn parse(items: Seq<Item>) -> Parsed<i16> {
        be_parse::<Item>(items, 2).map(|value: nat| (value as u16) as i16)
    }

    fn deserialize<S: Sender<Item = Item> + ?Sized>(sender: &mut S) -> (r: Result<
        Self,
        Error<S::Error>,
    >) {
        match take_be(sender, 2) {
            Ok(value) => {
                proof {
                    lemma_radix_values();
                }
                let pattern: u16 = value as u16;
                Ok(#[verifier::truncate] (pattern as i16))
            },
            Err(error) => Err(error),
        }
    }
}

/// An `i32` is the 4 bytes of its two's complement, most significant first.
impl<Item> Serialize<Item> for i32 where u8: Serialize<Item> {
    open spec fn encoding(&self) -> Seq<Item> {
        be_encoding::<Item>((*self as u32) as nat, 4)
    }

    fn serialize<R: Receiver<Item = Item>>(self, receiver: &mut R) -> (r: Result<(), R::Error>) {
        let pattern: u32 = #[verifier::truncate] (self as u32);
        put_be(receiver, pattern as u128, 4)
    }
}

/// An `i32` is the 4 bytes of its two's complement, most significant first.
impl<Item> Deserialize<Item> for i32 where u8: Deserialize<Item> {
    open spec fn parse(items: Seq<Item>) -> Parsed<i32> {
        be_parse::<Item>(items, 4).map(|value: nat| (value as u32) as i32)
    }

    fn deserialize<S: Sender<Item = Item> + ?Sized>(sender: &mut S) -> (r: Result<
        Self,
        Error<S::Error>,
    >) {
        match take_be(sender, 4) {
            Ok(value) => {
                proof {
                    lemma_radix_values();
                }
                let pattern: u32 = value as u32;
                Ok(#[verifier::truncate] (pattern as i32))
            },
            Err(error) => Err(error),
        }
    }
}

/// An `i64` is the 8 bytes of its two's complement, most significant first.
impl<Item> Serialize<Item> for i64 where u8: Serialize<Item> {
    open spec fn encoding(&self) -> Seq<Item> {
        be_encoding::<Item>((*self as u64) as nat, 8)
    }

    fn serialize<R: Receiver<Item = Item>>(self, receiver: &mut R) -> (r: Result<(), R::Error>) {
        let pattern: u64 = #[verifier::truncate] (self as u64);
        put_be(receiver, pattern as u128, 8)
    }
}

/// An `i64` is the 8 bytes of its two's complement, most significant first.
impl<Item> Deserialize<Item> for i64 where u8: Deserialize<Item> {
    open spec fn parse(items: Seq<Item>) -> Parsed<i64> {
        be_parse::<Item>(items, 8).map(|value: nat| (value as u64) as i64)
    }

    fn deserialize<S: Sender<Item = Item> + ?Sized>(sender: &mut S) -> (r: Result<
        Self,
        Error<S::Error>,
    >) {
        match take_be(sender, 8) {
            Ok(value) => {
                proof {
                    lemma_radix_values();
                }
                let pattern: u64 = value as u64;
                Ok(#[verifier::truncate] (pattern as i64))
            },
            Err(error) => Err(error),
        }
    }
}

/// An `i128` is the 16 bytes of its two's complement, most significant first.
impl<Item> Serialize<Item> for i128 where u8: Serialize<Item> {
    open spec fn encoding(&self) -> Seq<Item> {
        be_encoding::<Item>((*self as u128) as nat, 16)
    }

    fn serialize<R: Receiver<Item = Item>>(self, receiver: &mut R) -> (r: Result<(), R::Error>) {
        let pattern: u128 = #[verifier::truncate] (self as u128);
        put_be(receiver, pattern as u128, 16)
    }
}

/// An `i128` is the 16 bytes of its two's complement, most significant first.
impl<Item> Deserialize<Item> for i128 where u8: Deserialize<Item> {
    open spec fn parse(items: Seq<Item>) -> Parsed<i128> {
        be_parse::<Item>(items, 16).map(|value: nat| (value as u128) as i128)
    }

    fn deserialize<S: Sender<Item = Item> + ?Sized>(sender: &mut S) -> (r: Result<
        Self,
        Error<S::Error>,
    >) {
        match take_be(sender, 16) {
            Ok(value) => {
                proof {
                    lemma_radix_values();
                }
                let pattern: u128 = value as u128;
                Ok(#[verifier::truncate] (pattern as i128))
            },
            Err(error) => Err(error),
        }
    }
}

/// A `usize` is always written as a `u64`, whatever the width of the platform.
impl<Item> Serialize<Item> for usize where u64: Serialize<Item> {
    open spec fn encoding(&self) -> Seq<Item> {
        (*self as u64).encoding()
    }

    fn serialize<R: Receiver<Item = Item>>(self, receiver: &mut R) -> (r: Result<(), R::Error>) {
        receiver.auto(self as u64)
    }
}

/// A `usize` is always read as a `u64`, of which the platform keeps the bits that it
/// has room for.
impl<Item> Deserialize<Item> for usize where u64: Deserialize<Item> {
    open spec fn parse(items: Seq<Item>) -> Parsed<usize> {
        <u64 as Deserialize<Item>>::parse(items).map(|value: u64| value as usize)
    }

    fn deserialize<S: Sender<Item = Item> + ?Sized>(sender: &mut S) -> (r: Result<
        Self,
        Error<S::Error>,
    >) {
        match sender.auto::<u64>() {
            Ok(value) => Ok(#[verifier::truncate] (value as usize)),
            Err(error) => Err(error),
        }
    }
}

/// An `isize` is always written as a `i64`, whatever the width of the platform.
impl<Item> Serialize<Item> for isize where i64: Serialize<Item> {
    open spec fn encoding(&self) -> Seq<Item> {
        (*self as i64).encoding()
    }

    fn serialize<R: Receiver<Item = Item>>(self, receiver: &mut R) -> (r: Result<(), R::Error>) {
        receiver.auto(self as i64)
    }
}

/// An `isize` is always read as a `i64`, of which the platform keeps the bits that it
/// has room for.
impl<Item> Deserialize<Item> for isize where i64: Deserialize<Item> {
    open spec fn parse(items: Seq<Item>) -> Parsed<isize> {
        <i64 as Deserialize<Item>>::parse(items).map(|value: i64| value as isize)
    }

    fn deserialize<S: Sender<Item = Item> + ?Sized>(sender: &mut S) -> (r: Result<
        Self,
        Error<S::Error>,
    >) {
        match sender.auto::<i64>() {
            Ok(value) => Ok(#[verifier::truncate] (value as isize)),
            Err(error) => Err(error),
        }
    }
}

/// The byte that stands for a boolean on the wire.
pub open spec fn flag(value: bool) -> u8 {
    if value {
        1
    } else {
        0
    }
}

/// A boolean is one byte: 1 for true, 0 for false.
impl<Item> Serialize<Item> for bool where u8: Serialize<Item> {
    open spec fn encoding(&self) -> Seq<Item> {
        flag(*self).encoding()
    }

    fn serialize<R: Receiver<Item = Item>>(self, receiver: &mut R) -> (r: Result<(), R::Error>) {
        let byte: u8 = if self {
            1
        } else {
            0
        };
        receiver.auto(byte)
    }
}

/// A boolean is one byte: zero reads as false, anything else as true.
impl<Item> Deserialize<Item> for bool where u8: Deserialize<Item> {
    open spec fn parse(items: Seq<Item>) -> Parsed<bool> {
        <u8 as Deserialize<Item>>::parse(items).map(|byte: u8| byte != 0)
    }

    fn deserialize<S: Sender<Item = Item> + ?Sized>(sender: &mut S) -> (r: Result<
        Self,
        Error<S::Error>,
    >) {
        match sender.auto::<u8>() {
            Ok(byte) => Ok(byte != 0),
            Err(error) => Err(error),
        }
    }
}

} // verus!
