//! Pairs: the first value, then the second.

use crate::error::{Error, Failure};
use crate::hint::Hints;
use crate::protocol::{Context, Protocol};
use crate::bits::lemma_in_bytes_concat;
use crate::settings::{ByteOrder, Settings};
use crate::stream::{BitReader, BitWriter};
use vstd::prelude::*;

verus! {

/// The bits of a pair: those of its first value, then those of its second.
pub open spec fn tuple_encoding<A: Protocol, B: Protocol>(
    m: (A::Model, B::Model),
    cx: Context,
) -> Result<Seq<bool>, Failure> {
    match A::encoding(m.0, cx.inner()) {
        Ok(first) => match B::encoding(m.1, cx.inner()) {
            Ok(second) => Ok(first + second),
            Err(f) => Err(f),
        },
        Err(f) => Err(f),
    }
}

/// The pair at the front of `bits`.
pub open spec fn tuple_decoding<A: Protocol, B: Protocol>(bits: Seq<bool>, cx: Context) -> Result<
    ((A::Model, B::Model), nat),
    Failure,
> {
    match A::decoding(bits, cx.inner()) {
        Ok((first, n)) => match B::decoding(bits.skip(n as int), cx.inner()) {
            Ok((second, k)) => Ok(((first, second), n + k)),
            Err(f) => Err(f),
        },
        Err(f) => Err(f),
    }
}

impl<A: Protocol, B: Protocol> Protocol for (A, B) {
    type Model = (A::Model, B::Model);

    open spec fn model(&self) -> (A::Model, B::Model) {
        (self.0.model(), self.1.model())
    }

    open spec fn encoding(m: (A::Model, B::Model), cx: Context) -> Result<Seq<bool>, Failure> {
        tuple_encoding::<A, B>(m, cx)
    }

    open spec fn decoding(bits: Seq<bool>, cx: Context) -> Result<
        ((A::Model, B::Model), nat),
        Failure,
    > {
        tuple_decoding::<A, B>(bits, cx)
    }

    open spec fn described(m: (A::Model, B::Model), cx: Context) -> bool {
        A::described(m.0, cx.inner()) && B::described(m.1, cx.inner())
    }

    proof fn lemma_plain(m: (A::Model, B::Model), settings: Settings, order: ByteOrder) {
        let home = Context::plain(settings, settings.byte_order);
        A::lemma_plain(m.0, settings, order);
        B::lemma_plain(m.1, settings, order);
        if let Ok(first) = A::encoding(m.0, home) {
            if let Ok(second) = B::encoding(m.1, home) {
                lemma_in_bytes_concat(first, second, settings.byte_order, order);
            }
        }
    }

    proof fn lemma_decoding_fits(bits: Seq<bool>, cx: Context) {
        A::lemma_decoding_fits(bits, cx.inner());
        if let Ok((first, n)) = A::decoding(bits, cx.inner()) {
            B::lemma_decoding_fits(bits.skip(n as int), cx.inner());
        }
    }

    proof fn lemma_round_trip(m: (A::Model, B::Model), cx: Context, rest: Seq<bool>) {
        let inner = cx.inner();
        let first = A::encoding(m.0, inner)->Ok_0;
        let second = B::encoding(m.1, inner)->Ok_0;
        A::lemma_round_trip(m.0, inner, second + rest);
        assert((first + second) + rest =~= first + (second + rest));
        assert((first + (second + rest)).skip(first.len() as int) =~= second + rest);
        B::lemma_round_trip(m.1, inner, rest);
    }

    fn read_field(read: &mut BitReader, settings: &Settings, hints: &mut Hints) -> (r: Result<
        (A, B),
        Error,
    >) {
        let ghost from = read.remaining();
        let ghost cx = Context::plain(*settings, read.order());
        let first = match A::read(read, settings) {
            Ok(first) => first,
            Err(e) => {
                return Err(e);
            },
        };
        let second = match B::read(read, settings) {
            Ok(second) => second,
            Err(e) => {
                return Err(e);
            },
        };
        proof {
            let n = A::decoding(from, cx)->Ok_0.1;
            let k = B::decoding(from.skip(n as int), cx)->Ok_0.1;
            assert(from.skip(n as int).skip(k as int) =~= from.skip((n + k) as int));
        }
        Ok((first, second))
    }

    fn write_field(&self, write: &mut BitWriter, settings: &Settings, hints: &mut Hints) -> (r:
        Result<(), Error>) {
        let ghost before = write.written();
        let ghost cx = Context::plain(*settings, write.order());
        match self.0.write(write, settings) {
            Ok(()) => {},
            Err(e) => {
                return Err(e);
            },
        }
        let r = self.1.write(write, settings);
        proof {
            if let Ok(second) = B::encoding(self.1.model(), cx) {
                let first = A::encoding(self.0.model(), cx)->Ok_0;
                assert((before + first) + second =~= before + (first + second));
            }
        }
        r
    }
}

} // verus!
