//! Optional values: a presence flag, then the value if there is one.

use crate::error::{Error, Failure};
use crate::hint::Hints;
use crate::protocol::{read_outcome, write_outcome, Context, Protocol};
use crate::bits::lemma_in_bytes_concat;
use crate::settings::{ByteOrder, Settings};
use crate::stream::{BitReader, BitWriter};
use crate::types::numerics::{bool_decoding, bool_encoding};
use vstd::prelude::*;

verus! {

/// The bits of an optional value: the flag as a `bool`, then the value.
pub open spec fn option_encoding<T: Protocol>(m: Option<T::Model>, cx: Context) -> Result<
    Seq<bool>,
    Failure,
> {
    match m {
        Some(value) => match bool_encoding(true, cx.inner()) {
            Ok(flag) => match T::encoding(value, cx.inner()) {
                Ok(bits) => Ok(flag + bits),
                Err(f) => Err(f),
            },
            Err(f) => Err(f),
        },
        None => bool_encoding(false, cx.inner()),
    }
}

/// The optional value at the front of `bits`.
pub open spec fn option_decoding<T: Protocol>(bits: Seq<bool>, cx: Context) -> Result<
    (Option<T::Model>, nat),
    Failure,
> {
    match bool_decoding(bits, cx.inner()) {
        Ok((present, n)) => if present {
            match T::decoding(bits.skip(n as int), cx.inner()) {
                Ok((value, k)) => Ok((Some(value), n + k)),
                Err(f) => Err(f),
            }
        } else {
            Ok((None, n))
        },
        Err(f) => Err(f),
    }
}

impl<T: Protocol> Protocol for Option<T> {
    type Model = Option<T::Model>;

    open spec fn model(&self) -> Option<T::Model> {
        match self {
            Some(value) => Some(value.model()),
            None => None,
        }
    }

    open spec fn encoding(m: Option<T::Model>, cx: Context) -> Result<Seq<bool>, Failure> {
        option_encoding::<T>(m, cx)
    }

    open spec fn decoding(bits: Seq<bool>, cx: Context) -> Result<
        (Option<T::Model>, nat),
        Failure,
    > {
        option_decoding::<T>(bits, cx)
    }

    open spec fn described(m: Option<T::Model>, cx: Context) -> bool {
        match m {
            Some(value) => T::described(value, cx.inner()),
            None => true,
        }
    }

    proof fn lemma_plain(m: Option<T::Model>, settings: Settings, order: ByteOrder) {
        let home = Context::plain(settings, settings.byte_order);
        bool::lemma_plain(m is Some, settings, order);
        if let Some(value) = m {
            T::lemma_plain(value, settings, order);
            if let Ok(flag) = bool_encoding(true, home) {
                if let Ok(bits) = T::encoding(value, home) {
                    lemma_in_bytes_concat(flag, bits, settings.byte_order, order);
                }
            }
        }
    }

    proof fn lemma_decoding_fits(bits: Seq<bool>, cx: Context) {
        if let Ok((present, n)) = bool_decoding(bits, cx.inner()) {
            T::lemma_decoding_fits(bits.skip(n as int), cx.inner());
        }
    }

    proof fn lemma_round_trip(m: Option<T::Model>, cx: Context, rest: Seq<bool>) {
        let inner = cx.inner();
        match m {
            Some(value) => {
                let flag = bool_encoding(true, inner)->Ok_0;
                let bits = T::encoding(value, inner)->Ok_0;
                bool::lemma_round_trip(true, inner, bits + rest);
                assert((flag + bits) + rest =~= flag + (bits + rest));
                assert((flag + (bits + rest)).skip(flag.len() as int) =~= bits + rest);
                T::lemma_round_trip(value, inner, rest);
            },
            None => {
                bool::lemma_round_trip(false, inner, rest);
            },
        }
    }

    fn read_field(read: &mut BitReader, settings: &Settings, hints: &mut Hints) -> (r: Result<
        Option<T>,
        Error,
    >) {
        let ghost start = read.remaining();
        let is_some = match bool::read(read, settings) {
            Ok(flag) => flag,
            Err(e) => {
                return Err(e);
            },
        };
        if is_some {
            let ghost n = bool_decoding(start, Context::plain(*settings, read.order()))->Ok_0.1;
            match T::read(read, settings) {
                Ok(value) => {
                    proof {
                        let k = T::decoding(
                            start.skip(n as int),
                            Context::plain(*settings, read.order()),
                        )->Ok_0.1;
                        assert(start.skip(n as int).skip(k as int) =~= start.skip((n + k) as int));
                    }
                    Ok(Some(value))
                },
                Err(e) => Err(e),
            }
        } else {
            Ok(None)
        }
    }

    fn write_field(&self, write: &mut BitWriter, settings: &Settings, hints: &mut Hints) -> (r:
        Result<(), Error>) {
        let ghost start = write.written();
        let ghost cx = Context::plain(*settings, write.order());
        match self.is_some().write(write, settings) {
            Ok(()) => {},
            Err(e) => {
                return Err(e);
            },
        }
        proof {
            crate::number::lemma_spans();
        }
        match self {
            Some(value) => {
                let r = value.write(write, settings);
                proof {
                    if let Ok(bits) = T::encoding(value.model(), cx) {
                        let flag = bool_encoding(true, cx)->Ok_0;
                        assert((start + flag) + bits =~= start + (flag + bits));
                    }
                }
                r
            },
            None => Ok(()),
        }
    }
}

/// The optional value at the front of `bits` where a condition known to both
/// sides, and no flag on the wire, says whether it is there.
pub open spec fn conditional_decoding<T: Protocol>(
    present: bool,
    bits: Seq<bool>,
    cx: Context,
) -> Result<(Option<T::Model>, nat), Failure> {
    if present {
        match T::decoding(bits, cx.inner()) {
            Ok((value, n)) => Ok((Some(value), n)),
            Err(f) => Err(f),
        }
    } else {
        Ok((None, 0))
    }
}

/// The bits of an optional value that has no flag on the wire: those of the
/// value, or none.
pub open spec fn conditional_encoding<T: Protocol>(m: Option<T::Model>, cx: Context) -> Result<
    Seq<bool>,
    Failure,
> {
    match m {
        Some(value) => T::encoding(value, cx.inner()),
        None => Ok(Seq::empty()),
    }
}

/// Reads a value that is there exactly if `condition` holds.
pub fn read_conditional<T: Protocol>(
    condition: bool,
    read: &mut BitReader,
    settings: &Settings,
) -> (r: Result<Option<T>, Error>)
    ensures
        read_outcome(
            match r {
                Ok(v) => Ok(v.model()),
                Err(e) => Err(e@),
            },
            *old(read),
            *final(read),
            conditional_decoding::<T>(
                condition,
                old(read).remaining(),
                Context::plain(*settings, old(read).order()),
            ),
        ),
{
    if condition {
        match T::read(read, settings) {
            Ok(value) => Ok(Some(value)),
            Err(e) => Err(e),
        }
    } else {
        proof {
            assert(read.remaining().skip(0) =~= read.remaining());
        }
        Ok(None)
    }
}

/// Writes a value that is there under a condition known to both sides: the
/// value if there is one, and nothing if there is none.
pub fn write_conditional<T: Protocol>(
    value: &Option<T>,
    write: &mut BitWriter,
    settings: &Settings,
) -> (r: Result<(), Error>)
    ensures
        write_outcome(
            r,
            *old(write),
            *final(write),
            conditional_encoding::<T>(value.model(), Context::plain(*settings, old(write).order())),
        ),
{
    match value {
        Some(value) => value.write(write, settings),
        None => {
            proof {
                assert(write.written() + Seq::<bool>::empty() =~= write.written());
            }
            Ok(())
        },
    }
}

} // verus!
