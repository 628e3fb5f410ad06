//! Configuration threaded through every codec operation.

use vstd::prelude::*;

verus! {

/// The order of the bits within a byte and of the bytes within a number.
#[derive(Clone, Copy, Debug, PartialEq, Eq, Structural)]
pub enum ByteOrder {
    /// Most significant first.
    BigEndian,
    /// Least significant first.
    LittleEndian,
}

/// What every read and write is told by its caller.
#[derive(Clone, Copy, Debug, PartialEq, Eq, Structural)]
pub struct Settings {
    /// The byte order of numbers, and the bit order of a stream made for them.
    pub byte_order: ByteOrder,
}

impl Default for Settings {
    fn default() -> (s: Settings)
        ensures
            s.byte_order == ByteOrder::BigEndian,
    {
        Settings { byte_order: ByteOrder::BigEndian }
    }
}

} // verus!
