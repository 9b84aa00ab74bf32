//! Streams that live in memory: a slice of bytes as a source, a vector of bytes as a
//! sink. Neither can fail on its own, so both are reliable.
use vstd::prelude::*;
use vstd::slice::slice_subrange;
use crate::de::{Error, Sender};
use crate::es::Receiver;

verus! {

/// The error of the standard library's readers and writers. The streams in memory
/// name it as their error type and never make one.
#[verifier::external_type_specification]
#[verifier::external_body]
pub struct ExIoError(std::io::Error);

/// An error of a reader is the error of the source that reads from it.
impl From<std::io::Error> for Error<std::io::Error> {
    fn from(value: std::io::Error) -> (error: Self) {
        Error::Sender(value)
    }
}

impl vstd::std_specs::convert::FromSpecImpl<std::io::Error> for Error<std::io::Error> {
    open spec fn obeys_from_spec() -> bool {
        true
    }

    open spec fn from_spec(value: std::io::Error) -> Self {
        Error::Sender(value)
    }
}

/// A slice of bytes hands out its bytes from the front, and shrinks as it does.
impl<'a> Sender for &'a [u8] {
    type Item = u8;

    type Error = std::io::Error;

    open spec fn modelled(&self) -> bool {
        true
    }

    open spec fn pending(&self) -> Seq<u8> {
        (*self)@
    }

    open spec fn reliable(&self) -> bool {
        true
    }

    fn get(&mut self) -> (r: Result<u8, Error<std::io::Error>>) {
        if self.len() == 0 {
            Err(Error::EOF)
        } else {
            let item = self[0];
            *self = slice_subrange(*self, 1, self.len());
            Ok(item)
        }
    }
}

/// A vector of bytes takes in bytes at its end.
impl Receiver for Vec<u8> {
    type Item = u8;

    type Error = std::io::Error;

    open spec fn modelled(&self) -> bool {
        true
    }

    open spec fn accepted(&self) -> Seq<u8> {
        self@
    }

    open spec fn reliable(&self) -> bool {
        true
    }

    fn accept(&mut self, item: u8) -> (r: Result<(), std::io::Error>) {
        self.push(item);
        Ok(())
    }
}

} // verus!
