//! Ranges: the start, then the end.

use crate::error::{Error, Failure};
use crate::hint::Hints;
use crate::protocol::{Context, Protocol};
use crate::bits::lemma_in_bytes_concat;
use crate::settings::{ByteOrder, Settings};
use crate::stream::{BitReader, BitWriter};
use std::ops::Range;
use vstd::prelude::*;

verus! {

/// The bits of two values, one after the other.
pub open spec fn pair_encoding<T: Protocol>(m: (T::Model, T::Model), cx: Context) -> Result<
    Seq<bool>,
    Failure,
> {
    match T::encoding(m.0, cx.inner()) {
        Ok(start) => match T::encoding(m.1, cx.inner()) {
            Ok(end) => Ok(start + end),
            Err(f) => Err(f),
        },
        Err(f) => Err(f),
    }
}

/// The two values at the front of `bits`.
pub open spec fn pair_decoding<T: Protocol>(bits: Seq<bool>, cx: Context) -> Result<
    ((T::Model, T::Model), nat),
    Failure,
> {
    match T::decoding(bits, cx.inner()) {
        Ok((start, n)) => match T::decoding(bits.skip(n as int), cx.inner()) {
            Ok((end, k)) => Ok(((start, end), n + k)),
            Err(f) => Err(f),
        },
        Err(f) => Err(f),
    }
}

impl<T: Protocol> Protocol for Range<T> {
    type Model = (T::Model, T::Model);

    open spec fn model(&self) -> (T::Model, T::Model) {
        (self.start.model(), self.end.model())
    }

    open spec fn encoding(m: (T::Model, T::Model), cx: Context) -> Result<Seq<bool>, Failure> {
        pair_encoding::<T>(m, cx)
    }

    open spec fn decoding(bits: Seq<bool>, cx: Context) -> Result<
        ((T::Model, T::Model), nat),
        Failure,
    > {
        pair_decoding::<T>(bits, cx)
    }

    open spec fn described(m: (T::Model, T::Model), cx: Context) -> bool {
        T::described(m.0, cx.inner()) && T::described(m.1, cx.inner())
    }

    proof fn lemma_plain(m: (T::Model, T::Model), settings: Settings, order: ByteOrder) {
        let home = Context::plain(settings, settings.byte_order);
        T::lemma_plain(m.0, settings, order);
        T::lemma_plain(m.1, settings, order);
        if let Ok(first) = T::encoding(m.0, home) {
            if let Ok(second) = T::encoding(m.1, home) {
                lemma_in_bytes_concat(first, second, settings.byte_order, order);
            }
        }
    }

    proof fn lemma_decoding_fits(bits: Seq<bool>, cx: Context) {
        T::lemma_decoding_fits(bits, cx.inner());
        if let Ok((start, n)) = T::decoding(bits, cx.inner()) {
            T::lemma_decoding_fits(bits.skip(n as int), cx.inner());
        }
    }

    proof fn lemma_round_trip(m: (T::Model, T::Model), cx: Context, rest: Seq<bool>) {
        let inner = cx.inner();
        let start = T::encoding(m.0, inner)->Ok_0;
        let end = T::encoding(m.1, inner)->Ok_0;
        T::lemma_round_trip(m.0, inner, end + rest);
        assert((start + end) + rest =~= start + (end + rest));
        assert((start + (end + rest)).skip(start.len() as int) =~= end + rest);
        T::lemma_round_trip(m.1, inner, rest);
    }

    fn read_field(read: &mut BitReader, settings: &Settings, hints: &mut Hints) -> (r: Result<
        Range<T>,
        Error,
    >) {
        let ghost from = read.remaining();
        let ghost cx = Context::plain(*settings, read.order());
        let start = match T::read(read, settings) {
            Ok(start) => start,
            Err(e) => {
                return Err(e);
            },
        };
        let end = match T::read(read, settings) {
            Ok(end) => end,
            Err(e) => {
                return Err(e);
            },
        };
        proof {
            let n = T::decoding(from, cx)->Ok_0.1;
            let k = T::decoding(from.skip(n as int), cx)->Ok_0.1;
            assert(from.skip(n as int).skip(k as int) =~= from.skip((n + k) as int));
        }
        Ok(Range { start, end })
    }

    fn write_field(&self, write: &mut BitWriter, settings: &Settings, hints: &mut Hints) -> (r:
        Result<(), Error>) {
        let ghost before = write.written();
        let ghost cx = Context::plain(*settings, write.order());
        match self.start.write(write, settings) {
            Ok(()) => {},
            Err(e) => {
                return Err(e);
            },
        }
        let r = self.end.write(write, settings);
        proof {
            if let Ok(end) = T::encoding(self.end.model(), cx) {
                let start = T::encoding(self.start.model(), cx)->Ok_0;
                assert((before + start) + end =~= before + (start + end));
            }
        }
        r
    }
}

} // verus!
