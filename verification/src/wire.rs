//! Packets on a transport: byte transforms between the codec and the wire.

pub mod dgram;
pub mod middleware;
pub mod stream;
