//! A bidirectional binary codec: typed values to and from an exact sequence
//! of bits on a stream.
//!
//! A value type states its wire format as two functions on mathematical
//! values, an encoding and a decoding, and reads and writes on a bit stream
//! are proved to do what those say. On top of that stand bit-packed fields,
//! lengths that one field holds for another, tagged unions, alignment
//! padding, and pipelines of byte transforms for whole packets.

pub mod aggregate;
pub mod attr;
pub mod bit_field;
pub mod bits;
pub mod discriminant;
pub mod error;
pub mod fields;
pub mod hint;
pub mod number;
pub mod protocol;
pub mod raw;
pub mod settings;
pub mod stream;
pub mod trait_impl;
pub mod types;
pub mod util;
pub mod wire;

pub use crate::bit_field::BitField;
pub use crate::error::Error;
pub use crate::protocol::Protocol;
pub use crate::settings::{ByteOrder, Settings};
pub use crate::stream::{BitReader, BitWriter};
