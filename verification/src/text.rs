//! The codecs of characters and of text.
use vstd::prelude::*;
use vstd::utf8::{is_scalar, valid_utf8, decode_utf8, encode_utf8};
use vstd::string::StringExecFns;
use crate::de::{Error, Parsed, Sender, Deserialize, Decode};
use crate::es::{Receiver, Serialize, Encode};
use crate::sequence::{counted_encoding, counted_parse};

verus! {

/// The digit that stands for `digit` in base 16, in lower case.
pub open spec fn hex_digit(digit: nat) -> char {
    if digit == 0 {
        '0'
    } else if digit == 1 {
        '1'
    } else if digit == 2 {
        '2'
    } else if digit == 3 {
        '3'
    } else if digit == 4 {
        '4'
    } else if digit == 5 {
        '5'
    } else if digit == 6 {
        '6'
    } else if digit == 7 {
        '7'
    } else if digit == 8 {
        '8'
    } else if digit == 9 {
        '9'
    } else if digit == 10 {
        'a'
    } else if digit == 11 {
        'b'
    } else if digit == 12 {
        'c'
    } else if digit == 13 {
        'd'
    } else if digit == 14 {
        'e'
    } else {
        'f'
    }
}

/// `value` in base 16, in lower case and without leading zeros.
pub open spec fn hex_text(value: nat) -> Seq<char>
    decreases value,
{
    if value < 16 {
        seq![hex_digit(value)]
    } else {
        hex_text(value / 16).push(hex_digit(value % 16))
    }
}

/// The diagnosis of a code that is no Unicode scalar value. It names the code in
/// base 16.
pub open spec fn scalar_diagnosis(code: u32) -> Seq<char> {
    "cannot parse char from u32 0x"@ + hex_text(code as nat)
        + " (not valid unicode character)"@
}

/// The digit that stands for `digit` in base 16, as a text of one character.
fn hex_digit_of(digit: u32) -> (text: &'static str)
    requires
        digit < 16,
    ensures
        text@ == seq![hex_digit(digit as nat)],
{
    proof {
        reveal_strlit("0");
        reveal_strlit("1");
        reveal_strlit("2");
        reveal_strlit("3");
        reveal_strlit("4");
        reveal_strlit("5");
        reveal_strlit("6");
        reveal_strlit("7");
        reveal_strlit("8");
        reveal_strlit("9");
        reveal_strlit("a");
        reveal_strlit("b");
        reveal_strlit("c");
        reveal_strlit("d");
        reveal_strlit("e");
        reveal_strlit("f");
    }
    let text = match digit {
        0 => "0",
        1 => "1",
        2 => "2",
        3 => "3",
        4 => "4",
        5 => "5",
        6 => "6",
        7 => "7",
        8 => "8",
        9 => "9",
        10 => "a",
        11 => "b",
        12 => "c",
        13 => "d",
        14 => "e",
        _ => "f",
    };
    assert(text@ =~= seq![hex_digit(digit as nat)]);
    text
}

/// Writes `value` in base 16, in lower case and without leading zeros.
pub fn hex_of(value: u32) -> (text: String)
    ensures
        text@ == hex_text(value as nat),
    decreases value,
{
    if value < 16 {
        String::from_str(hex_digit_of(value))
    } else {
        let mut text = hex_of(value / 16);
        text.append(hex_digit_of(value % 16));
        assert(text@ =~= hex_text(value as nat));
        text
    }
}

/// `char::from_u32` of the standard library, which gives the character with the code
/// `code` where that code is a Unicode scalar value, and nothing where it is not.
#[verifier::external_body]
fn scalar_from(code: u32) -> (r: Option<char>)
    ensures
        r == (if is_scalar(code) {
            Some(code as char)
        } else {
            None::<char>
        }),
{
    char::from_u32(code)
}

/// The character with the code `code`, or the diagnosis of a code that has none.
pub fn char_of(code: u32) -> (r: Result<char, String>)
    ensures
        match r {
            Ok(character) => is_scalar(code) && character == code as char,
            Err(diagnosis) => !is_scalar(code) && diagnosis@ == scalar_diagnosis(code),
        },
{
    match scalar_from(code) {
        Some(character) => Ok(character),
        None => {
            let mut diagnosis = String::from_str("cannot parse char from u32 0x");
            let digits = hex_of(code);
            diagnosis.append(digits.as_str());
            diagnosis.append(" (not valid unicode character)");
            Err(diagnosis)
        },
    }
}

/// A character is written as its code, a `u32`.
impl<Item> Serialize<Item> for char where u32: Serialize<Item> {
    open spec fn encoding(&self) -> Seq<Item> {
        (*self as u32).encoding()
    }

    fn serialize<R: Receiver<Item = Item>>(self, receiver: &mut R) -> (r: Result<(), R::Error>) {
        receiver.auto(self as u32)
    }
}

/// A character is read as its code, a `u32`. A code that is no Unicode scalar value
/// is invalid.
impl<Item> Deserialize<Item> for char where u32: Deserialize<Item> {
    open spec fn parse(items: Seq<Item>) -> Parsed<char> {
        match <u32 as Deserialize<Item>>::parse(items) {
            Parsed::Value(code, taken) => {
                if is_scalar(code) {
                    Parsed::Value(code as char, taken)
                } else {
                    Parsed::Invalid
                }
            },
            Parsed::Short => Parsed::Short,
            Parsed::Invalid => Parsed::Invalid,
        }
    }

    fn deserialize<S: Sender<Item = Item> + ?Sized>(sender: &mut S) -> (r: Result<
        Self,
        Error<S::Error>,
    >)
        ensures
            old(sender).modelled() ==> (r matches Err(Error::Parse(diagnosis)) ==> (<
                u32 as Deserialize<Item>
            >::parse(old(sender).pending()) matches Parsed::Value(code, _) ==> diagnosis@
                == scalar_diagnosis(code))),
    {
        match sender.auto::<u32>() {
            Ok(code) => match char_of(code) {
                Ok(character) => Ok(character),
                Err(diagnosis) => Err(Error::make_parse(diagnosis)),
            },
            Err(error) => Err(error),
        }
    }
}

/// The error of `String::from_utf8` of the standard library.
#[verifier::external_type_specification]
#[verifier::external_body]
pub struct ExFromUtf8Error(std::string::FromUtf8Error);

/// `String::from_utf8` of the standard library, which makes a text of `bytes` where
/// they are valid UTF-8, the text that they encode, and fails where they are not.
#[verifier::external_body]
fn text_from_utf8(bytes: Vec<u8>) -> (r: Result<String, std::string::FromUtf8Error>)
    ensures
        r is Ok <==> valid_utf8(bytes@),
        r matches Ok(text) ==> text@ == decode_utf8(bytes@),
{
    String::from_utf8(bytes)
}

/// `ToString::to_string` of the standard library on the error of `String::from_utf8`:
/// what the error says of itself. Nothing is claimed of the text.
#[verifier::external_body]
fn fault_text(fault: &std::string::FromUtf8Error) -> (text: String) {
    fault.to_string()
}

/// The text that `bytes` encode in UTF-8, or a diagnosis where they encode none.
pub fn text_of(bytes: Vec<u8>) -> (r: Result<String, String>)
    ensures
        r is Ok <==> valid_utf8(bytes@),
        r matches Ok(text) ==> text@ == decode_utf8(bytes@),
{
    match text_from_utf8(bytes) {
        Ok(text) => Ok(text),
        Err(fault) => Err(fault_text(&fault)),
    }
}

/// A text is written as the bytes of its UTF-8 encoding: their count, then the bytes.
impl<Item> Serialize<Item> for String where u8: Serialize<Item> {
    open spec fn encoding(&self) -> Seq<Item> {
        counted_encoding::<Item, u8>(encode_utf8(self@))
    }

    fn serialize<R: Receiver<Item = Item>>(self, receiver: &mut R) -> (r: Result<(), R::Error>) {
        let bytes: &[u8] = self.as_str().as_bytes();
        receiver.auto(bytes)
    }
}

/// A text is read as a count and that many bytes, which have to be valid UTF-8.
impl<Item> Deserialize<Item> for String where u8: Deserialize<Item> {
    open spec fn parse(items: Seq<Item>) -> Parsed<Seq<char>> {
        match counted_parse::<Item, u8>(items) {
            Parsed::Value(bytes, taken) => {
                if valid_utf8(bytes) {
                    Parsed::Value(decode_utf8(bytes), taken)
                } else {
                    Parsed::Invalid
                }
            },
            Parsed::Short => Parsed::Short,
            Parsed::Invalid => Parsed::Invalid,
        }
    }

    fn deserialize<S: Sender<Item = Item> + ?Sized>(sender: &mut S) -> (r: Result<
        Self,
        Error<S::Error>,
    >) {
        match sender.auto::<Vec<u8>>() {
            Ok(bytes) => {
                assert(bytes.deep_view() =~= bytes@);
                match text_of(bytes) {
                    Ok(text) => Ok(text),
                    Err(diagnosis) => Err(Error::make_parse(diagnosis)),
                }
            },
            Err(error) => Err(error),
        }
    }
}

} // verus!
