//! Packets on a continuous stream of bytes.
//!
//! Where one packet ends and the next begins is for the caller to know: a
//! connection is handed the bytes of one packet at a time.

use crate::error::Error;
use crate::protocol::Protocol;
use crate::settings::Settings;
use crate::wire::dgram::{received, sent, Pipeline};
use crate::wire::middleware::{same_transforms, Middleware};
use vstd::prelude::*;

verus! {

/// A packet pipeline for a transport that delivers a stream of bytes.
pub struct Connection<P: Protocol, M: Middleware> {
    /// The pipeline that each packet goes through.
    pub pipeline: Pipeline<P, M>,
}

impl<P: Protocol, M: Middleware> Connection<P, M> {
    /// A connection with the given middleware and settings.
    pub fn new(middleware: M, settings: Settings) -> (connection: Self)
        ensures
            connection.pipeline.middleware == middleware,
            connection.pipeline.settings == settings,
    {
        Connection { pipeline: Pipeline::new(middleware, settings) }
    }

    /// The packet in the bytes that are there, which are the bytes of one
    /// packet as they came off the wire, or none where no bytes are there yet
    /// and the middleware has nothing to say of that.
    pub fn receive_packet(&mut self, available: Vec<u8>) -> (r: Result<Option<P>, Error>)
        ensures
            final(self).pipeline.settings == old(self).pipeline.settings,
            same_transforms(old(self).pipeline.middleware, final(self).pipeline.middleware),
            available@.len() == 0 ==> (r matches Ok(None)),
            available@.len() > 0 ==> match received::<P, M>(
                old(self).pipeline.middleware,
                old(self).pipeline.settings,
                available@,
            ) {
                Ok(m) => r matches Ok(Some(packet)) && packet.model() == m,
                Err(f) => r matches Err(e) && e@ == f,
            },
    {
        if available.len() == 0 {
            return Ok(None);
        }
        match self.pipeline.receive_from(available) {
            Ok(packet) => Ok(Some(packet)),
            Err(e) => Err(e),
        }
    }

    /// The bytes to put on the stream for a packet.
    pub fn send_packet(&mut self, packet: &P) -> (r: Result<Vec<u8>, Error>)
        ensures
            final(self).pipeline.settings == old(self).pipeline.settings,
            same_transforms(old(self).pipeline.middleware, final(self).pipeline.middleware),
            match sent::<P, M>(
                old(self).pipeline.middleware,
                old(self).pipeline.settings,
                packet.model(),
            ) {
                Ok(bytes) => r matches Ok(v) && v@ == bytes,
                Err(f) => r matches Err(e) && e@ == f,
            },
    {
        self.pipeline.send_to(packet)
    }
}

} // verus!
