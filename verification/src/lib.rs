//! A compact, self-delimiting binary codec.
//!
//! Three codecs live here side by side:
//!
//! * a variable-length encoding of `u64`, one to nine bytes long, whose first
//!   byte tells by its leading one-bits how many bytes follow;
//! * a fixed-width little-endian encoding of `u32` into a width chosen by the
//!   caller;
//! * a frame for byte strings: the payload's length as a variable-length
//!   integer, then the payload.
//!
//! [`wire`] defines the format as mathematics, [`serializer`] and
//! [`deserializer`] hold the executable codecs, each proved against those
//! definitions, and [`laws`] proves what the format promises as a whole.

pub mod error;
pub mod wire;
pub mod endian;
mod bits;
pub mod serializer;
pub mod deserializer;
pub mod laws;
