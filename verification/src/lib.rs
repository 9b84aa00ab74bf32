//! A type-directed binary codec over abstract streams of items.
//!
//! A [`Sender`] hands out items one by one, a [`Receiver`] takes them in. A type that
//! implements [`Deserialize`] can be read from a sender, one that implements
//! [`Serialize`] can be written to a receiver. Nothing in the stream says which type
//! was written: the reader has to know it.
//!
//! Every codec comes with a mathematical description of its wire format
//! ([`Serialize::encoding`] and [`Deserialize::parse`]), and [`RoundTrip`] states that
//! the two agree.
pub mod de;
pub mod es;
pub mod sequence;
pub mod wire;
pub mod memory;
pub mod primitives;
pub mod text;
pub mod composites;
pub mod laws;

pub use de::{Error, Parsed, Sender, Deserialize, Decode};
pub use es::{Receiver, Serialize, Encode};
pub use laws::RoundTrip;
