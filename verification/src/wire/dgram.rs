//! Packets that each arrive whole, in one buffer.

use crate::bits::bytes_bits;
use crate::error::{Error, Failure};
use crate::protocol::{padded_bytes, Context, Protocol};
use crate::settings::Settings;
use crate::wire::middleware::{same_transforms, Middleware};
use vstd::prelude::*;

verus! {

/// A packet pipeline for a transport that delivers whole packets.
pub struct Pipeline<P: Protocol, M: Middleware> {
    /// The transforms between the bytes of a packet and the bytes on the wire.
    pub middleware: M,
    /// The settings that packets are read and written under.
    pub settings: Settings,
    /// Only holds the type of the packets.
    pub _a: std::marker::PhantomData<P>,
}

/// The packet that bytes off the wire hold, once the middleware has
/// transformed them back.
pub open spec fn received<P: Protocol, M: Middleware>(
    middleware: M,
    settings: Settings,
    buffer: Seq<u8>,
) -> Result<P::Model, Failure> {
    match middleware.decoded(buffer) {
        Ok(bytes) => match P::decoding(
            bytes_bits(bytes, settings.byte_order),
            Context::plain(settings, settings.byte_order),
        ) {
            Ok((m, _)) => Ok(m),
            Err(f) => Err(f),
        },
        Err(f) => Err(f),
    }
}

/// The bytes on the wire for a packet: its bytes, transformed by the
/// middleware.
pub open spec fn sent<P: Protocol, M: Middleware>(
    middleware: M,
    settings: Settings,
    packet: P::Model,
) -> Result<Seq<u8>, Failure> {
    match P::encoding(packet, Context::plain(settings, settings.byte_order)) {
        Ok(bits) => middleware.encoded(padded_bytes(bits, settings.byte_order)),
        Err(f) => Err(f),
    }
}

impl<P: Protocol, M: Middleware> Pipeline<P, M> {
    /// A pipeline with the given middleware and settings.
    pub fn new(middleware: M, settings: Settings) -> (pipeline: Self)
        ensures
            pipeline.middleware == middleware,
            pipeline.settings == settings,
    {
        Pipeline { middleware, settings, _a: std::marker::PhantomData }
    }

    /// Reads a packet from a buffer that holds a single packet as it came
    /// off the wire.
    pub fn receive_from(&mut self, buffer: Vec<u8>) -> (r: Result<P, Error>)
        ensures
            final(self).settings == old(self).settings,
            same_transforms(old(self).middleware, final(self).middleware),
            match received::<P, M>(old(self).middleware, old(self).settings, buffer@) {
                Ok(m) => r matches Ok(packet) && packet.model() == m,
                Err(f) => r matches Err(e) && e@ == f,
            },
    {
        let bytes = match self.middleware.decode_data(buffer) {
            Ok(bytes) => bytes,
            Err(e) => {
                return Err(e);
            },
        };
        P::from_bytes(bytes.as_slice(), &self.settings)
    }

    /// The bytes to put on the wire for a packet.
    pub fn send_to(&mut self, packet: &P) -> (r: Result<Vec<u8>, Error>)
        ensures
            final(self).settings == old(self).settings,
            same_transforms(old(self).middleware, final(self).middleware),
            match sent::<P, M>(old(self).middleware, old(self).settings, packet.model()) {
                Ok(bytes) => r matches Ok(v) && v@ == bytes,
                Err(f) => r matches Err(e) && e@ == f,
            },
    {
        let bytes = match packet.bytes(&self.settings) {
            Ok(bytes) => bytes,
            Err(e) => {
                return Err(e);
            },
        };
        self.middleware.encode_data(bytes)
    }
}

/// A packet sent through a pipeline is received as it was sent where the
/// middleware gives back the bytes that it was given.
pub proof fn lemma_pipeline_round_trip<P: Protocol, M: Middleware>(
    middleware: M,
    settings: Settings,
    packet: P::Model,
)
    requires
        ({
            let cx = Context::plain(settings, settings.byte_order);
            &&& P::encoding(packet, cx) matches Ok(bits) && (middleware.encoded(
                padded_bytes(bits, settings.byte_order),
            ) matches Ok(wire) && middleware.decoded(wire) == Ok::<Seq<u8>, Failure>(
                padded_bytes(bits, settings.byte_order),
            ))
        }),
    ensures
        received::<P, M>(
            middleware,
            settings,
            sent::<P, M>(middleware, settings, packet)->Ok_0,
        ) == Ok::<P::Model, Failure>(packet),
{
    crate::protocol::lemma_bytes_round_trip::<P>(packet, settings);
}

} // verus!
