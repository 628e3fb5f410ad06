//! Fields of a declared width in bits.

use crate::bits::{
    field_bits_decoding, field_bits_encoding, lemma_field_bits_round_trip, lemma_value_bits_len,
};
use crate::error::{Error, Failure};
use crate::hint::Hints;
use crate::protocol::{read_outcome, write_outcome, Context, Protocol};
use crate::settings::Settings;
use crate::stream::{BitReader, BitWriter};
use vstd::arithmetic::power2::{lemma2_to64, lemma_pow2_strictly_increases, pow2};
use vstd::prelude::*;

verus! {

/// Reads a number of `width` bits for a type of `limit` bits.
pub(crate) fn read_width(read: &mut BitReader, width: u32, limit: u32) -> (r: Result<u64, Error>)
    requires
        limit <= 64,
    ensures
        r matches Ok(v) ==> v < pow2(width as nat) && width <= limit,
        width > limit ==> final(read).remaining() == old(read).remaining(),
        read_outcome(
            match r {
                Ok(v) => Ok(v as int),
                Err(e) => Err(e@),
            },
            *old(read),
            *final(read),
            field_bits_decoding(
                old(read).remaining(),
                width as nat,
                limit as nat,
                old(read).order(),
            ),
        ),
{
    if width > limit {
        return Err(Error::Io);
    }
    read.read_bits(width)
}

/// Writes a number in `width` bits for a type of `limit` bits.
pub(crate) fn write_width(write: &mut BitWriter, v: u64, width: u32, limit: u32) -> (r: Result<
    (),
    Error,
>)
    requires
        limit <= 64,
    ensures
        r is Err ==> final(write).written() == old(write).written(),
        write_outcome(
            r,
            *old(write),
            *final(write),
            field_bits_encoding(
                v as int,
                width as nat,
                limit as nat,
                old(write).order(),
            ),
        ),
{
    if width > limit {
        return Err(Error::Io);
    }
    write.write_bits(width, v)
}

/// A type whose values can be sent as a field of a declared width in bits.
pub trait BitField: Protocol {
    /// The bits of `m` sent in `width` bits, or why it cannot be sent so.
    spec fn field_encoding(m: Self::Model, width: nat, cx: Context) -> Result<Seq<bool>, Failure>;

    /// The value at the front of `bits`, sent in `width` bits.
    spec fn field_decoding(bits: Seq<bool>, width: nat, cx: Context) -> Result<
        (Self::Model, nat),
        Failure,
    >;

    /// Whether a reader told the width expects `m` where a writer put it.
    spec fn field_described(m: Self::Model, cx: Context) -> bool;

    /// A field that can be written is read back as written, whatever follows.
    proof fn lemma_field_round_trip(m: Self::Model, width: nat, cx: Context, rest: Seq<bool>)
        requires
            Self::field_encoding(m, width, cx) is Ok,
            Self::field_described(m, cx),
        ensures
            Self::field_decoding(Self::field_encoding(m, width, cx)->Ok_0 + rest, width, cx) == Ok::<
                (Self::Model, nat),
                Failure,
            >((m, Self::field_encoding(m, width, cx)->Ok_0.len())),
    ;

    /// Reads a field of `bits` bits.
    fn read_bit_field(
        read: &mut BitReader,
        settings: &Settings,
        hints: &mut Hints,
        bits: u32,
    ) -> (r: Result<Self, Error>)
        ensures
            final(hints)@ == old(hints)@,
            read_outcome(
                match r {
                    Ok(v) => Ok(v.model()),
                    Err(e) => Err(e@),
                },
                *old(read),
                *final(read),
                Self::field_decoding(
                    old(read).remaining(),
                    bits as nat,
                    Context::plain(*settings, old(read).order()),
                ),
            ),
    ;

    /// Writes a field of `bits` bits.
    fn write_bit_field(
        &self,
        write: &mut BitWriter,
        settings: &Settings,
        hints: &mut Hints,
        bits: u32,
    ) -> (r: Result<(), Error>)
        ensures
            final(hints)@ == old(hints)@,
            write_outcome(
                r,
                *old(write),
                *final(write),
                Self::field_encoding(
                    self.model(),
                    bits as nat,
                    Context::plain(*settings, old(write).order()),
                ),
            ),
    ;
}

impl BitField for bool {
    open spec fn field_encoding(m: bool, width: nat, cx: Context) -> Result<Seq<bool>, Failure> {
        field_bits_encoding(
            if m {
                1
            } else {
                0
            },
            width,
            8,
            cx.order,
        )
    }

    open spec fn field_decoding(bits: Seq<bool>, width: nat, cx: Context) -> Result<
        (bool, nat),
        Failure,
    > {
        match field_bits_decoding(bits, width, 8, cx.order) {
            Ok((v, n)) => Ok((v != 0, n)),
            Err(f) => Err(f),
        }
    }

    open spec fn field_described(m: bool, cx: Context) -> bool {
        true
    }

    proof fn lemma_field_round_trip(m: bool, width: nat, cx: Context, rest: Seq<bool>) {
        let v: int = if m {
            1
        } else {
            0
        };
        lemma_field_bits_round_trip(v, width, 8, cx.order, rest);
        lemma_value_bits_len(v as nat, width, cx.order);
    }

    fn read_bit_field(
        read: &mut BitReader,
        settings: &Settings,
        hints: &mut Hints,
        bits: u32,
    ) -> (r: Result<bool, Error>)
        ensures
            bits > 8 ==> final(read).remaining() == old(read).remaining(),
    {
        match read_width(read, bits, 8) {
            Ok(v) => Ok(v != 0),
            Err(e) => Err(e),
        }
    }

    fn write_bit_field(
        &self,
        write: &mut BitWriter,
        settings: &Settings,
        hints: &mut Hints,
        bits: u32,
    ) -> (r: Result<(), Error>)
        ensures
            r is Err ==> final(write).written() == old(write).written(),
    {
        write_width(
            write,
            if *self {
                1
            } else {
                0
            },
            bits,
            8,
        )
    }
}

impl BitField for u8 {
    open spec fn field_encoding(m: int, width: nat, cx: Context) -> Result<Seq<bool>, Failure> {
        field_bits_encoding(m, width, 8, cx.order)
    }

    open spec fn field_decoding(bits: Seq<bool>, width: nat, cx: Context) -> Result<
        (int, nat),
        Failure,
    > {
        field_bits_decoding(bits, width, 8, cx.order)
    }

    open spec fn field_described(m: int, cx: Context) -> bool {
        true
    }

    proof fn lemma_field_round_trip(m: int, width: nat, cx: Context, rest: Seq<bool>) {
        lemma_field_bits_round_trip(m, width, 8, cx.order, rest);
        lemma_value_bits_len(m as nat, width, cx.order);
    }

    fn read_bit_field(
        read: &mut BitReader,
        settings: &Settings,
        hints: &mut Hints,
        bits: u32,
    ) -> (r: Result<u8, Error>)
        ensures
            bits > 8 ==> final(read).remaining() == old(read).remaining(),
    {
        match read_width(read, bits, 8) {
            Ok(v) => {
                proof {
                    lemma2_to64();
                    if bits < 8 {
                        lemma_pow2_strictly_increases(bits as nat, 8);
                    }
                }
                Ok(v as u8)
            },
            Err(e) => Err(e),
        }
    }

    fn write_bit_field(
        &self,
        write: &mut BitWriter,
        settings: &Settings,
        hints: &mut Hints,
        bits: u32,
    ) -> (r: Result<(), Error>)
        ensures
            r is Err ==> final(write).written() == old(write).written(),
    {
        write_width(write, *self as u64, bits, 8)
    }
}

impl BitField for u16 {
    open spec fn field_encoding(m: int, width: nat, cx: Context) -> Result<Seq<bool>, Failure> {
        field_bits_encoding(m, width, 16, cx.order)
    }

    open spec fn field_decoding(bits: Seq<bool>, width: nat, cx: Context) -> Result<
        (int, nat),
        Failure,
    > {
        field_bits_decoding(bits, width, 16, cx.order)
    }

    open spec fn field_described(m: int, cx: Context) -> bool {
        true
    }

    proof fn lemma_field_round_trip(m: int, width: nat, cx: Context, rest: Seq<bool>) {
        lemma_field_bits_round_trip(m, width, 16, cx.order, rest);
        lemma_value_bits_len(m as nat, width, cx.order);
    }

    fn read_bit_field(
        read: &mut BitReader,
        settings: &Settings,
        hints: &mut Hints,
        bits: u32,
    ) -> (r: Result<u16, Error>)
        ensures
            bits > 16 ==> final(read).remaining() == old(read).remaining(),
    {
        match read_width(read, bits, 16) {
            Ok(v) => {
                proof {
                    lemma2_to64();
                    if bits < 16 {
                        lemma_pow2_strictly_increases(bits as nat, 16);
                    }
                }
                Ok(v as u16)
            },
            Err(e) => Err(e),
        }
    }

    fn write_bit_field(
        &self,
        write: &mut BitWriter,
        settings: &Settings,
        hints: &mut Hints,
        bits: u32,
    ) -> (r: Result<(), Error>)
        ensures
            r is Err ==> final(write).written() == old(write).written(),
    {
        write_width(write, *self as u64, bits, 16)
    }
}

impl BitField for u32 {
    open spec fn field_encoding(m: int, width: nat, cx: Context) -> Result<Seq<bool>, Failure> {
        field_bits_encoding(m, width, 32, cx.order)
    }

    open spec fn field_decoding(bits: Seq<bool>, width: nat, cx: Context) -> Result<
        (int, nat),
        Failure,
    > {
        field_bits_decoding(bits, width, 32, cx.order)
    }

    open spec fn field_described(m: int, cx: Context) -> bool {
        true
    }

    proof fn lemma_field_round_trip(m: int, width: nat, cx: Context, rest: Seq<bool>) {
        lemma_field_bits_round_trip(m, width, 32, cx.order, rest);
        lemma_value_bits_len(m as nat, width, cx.order);
    }

    fn read_bit_field(
        read: &mut BitReader,
        settings: &Settings,
        hints: &mut Hints,
        bits: u32,
    ) -> (r: Result<u32, Error>)
        ensures
            bits > 32 ==> final(read).remaining() == old(read).remaining(),
    {
        match read_width(read, bits, 32) {
            Ok(v) => {
                proof {
                    lemma2_to64();
                    if bits < 32 {
                        lemma_pow2_strictly_increases(bits as nat, 32);
                    }
                }
                Ok(v as u32)
            },
            Err(e) => Err(e),
        }
    }

    fn write_bit_field(
        &self,
        write: &mut BitWriter,
        settings: &Settings,
        hints: &mut Hints,
        bits: u32,
    ) -> (r: Result<(), Error>)
        ensures
            r is Err ==> final(write).written() == old(write).written(),
    {
        write_width(write, *self as u64, bits, 32)
    }
}

impl BitField for u64 {
    open spec fn field_encoding(m: int, width: nat, cx: Context) -> Result<Seq<bool>, Failure> {
        field_bits_encoding(m, width, 64, cx.order)
    }

    open spec fn field_decoding(bits: Seq<bool>, width: nat, cx: Context) -> Result<
        (int, nat),
        Failure,
    > {
        field_bits_decoding(bits, width, 64, cx.order)
    }

    open spec fn field_described(m: int, cx: Context) -> bool {
        true
    }

    proof fn lemma_field_round_trip(m: int, width: nat, cx: Context, rest: Seq<bool>) {
        lemma_field_bits_round_trip(m, width, 64, cx.order, rest);
        lemma_value_bits_len(m as nat, width, cx.order);
    }

    fn read_bit_field(
        read: &mut BitReader,
        settings: &Settings,
        hints: &mut Hints,
        bits: u32,
    ) -> (r: Result<u64, Error>)
        ensures
            bits > 64 ==> final(read).remaining() == old(read).remaining(),
    {
        match read_width(read, bits, 64) {
            Ok(v) => {
                proof {
                    lemma2_to64();
                    if bits < 64 {
                        lemma_pow2_strictly_increases(bits as nat, 64);
                    }
                }
                Ok(v as u64)
            },
            Err(e) => Err(e),
        }
    }

    fn write_bit_field(
        &self,
        write: &mut BitWriter,
        settings: &Settings,
        hints: &mut Hints,
        bits: u32,
    ) -> (r: Result<(), Error>)
        ensures
            r is Err ==> final(write).written() == old(write).written(),
    {
        write_width(write, *self as u64, bits, 64)
    }
}

/// The bits of an optional value whose flag is sent in `width` bits.
pub open spec fn option_field_encoding<T: Protocol>(
    m: Option<T::Model>,
    width: nat,
    cx: Context,
) -> Result<Seq<bool>, Failure> {
    match m {
        Some(value) => match bool::field_encoding(true, width, cx.inner()) {
            Ok(flag) => match T::encoding(value, cx.inner()) {
                Ok(bits) => Ok(flag + bits),
                Err(f) => Err(f),
            },
            Err(f) => Err(f),
        },
        None => bool::field_encoding(false, width, cx.inner()),
    }
}

/// The optional value at the front of `bits`, its flag sent in `width` bits.
pub open spec fn option_field_decoding<T: Protocol>(
    bits: Seq<bool>,
    width: nat,
    cx: Context,
) -> Result<(Option<T::Model>, nat), Failure> {
    match bool::field_decoding(bits, width, cx.inner()) {
        Ok((present, n)) => if present {
            match T::decoding(bits.skip(n as int), cx.inner()) {
                Ok((value, k)) => Ok((Some(value), n + k)),
                Err(f) => Err(f),
            }
        } else {
            Ok((None, n))
        },
        Err(f) => Err(f),
    }
}

impl<T: Protocol> BitField for Option<T> {
    open spec fn field_encoding(m: Option<T::Model>, width: nat, cx: Context) -> Result<
        Seq<bool>,
        Failure,
    > {
        option_field_encoding::<T>(m, width, cx)
    }

    open spec fn field_decoding(bits: Seq<bool>, width: nat, cx: Context) -> Result<
        (Option<T::Model>, nat),
        Failure,
    > {
        option_field_decoding::<T>(bits, width, cx)
    }

    open spec fn field_described(m: Option<T::Model>, cx: Context) -> bool {
        match m {
            Some(value) => T::described(value, cx.inner()),
            None => true,
        }
    }

    proof fn lemma_field_round_trip(
        m: Option<T::Model>,
        width: nat,
        cx: Context,
        rest: Seq<bool>,
    ) {
        let inner = cx.inner();
        match m {
            Some(value) => {
                let flag = bool::field_encoding(true, width, inner)->Ok_0;
                let bits = T::encoding(value, inner)->Ok_0;
                bool::lemma_field_round_trip(true, width, inner, bits + rest);
                assert((flag + bits) + rest =~= flag + (bits + rest));
                assert((flag + (bits + rest)).skip(flag.len() as int) =~= bits + rest);
                T::lemma_round_trip(value, inner, rest);
            },
            None => {
                bool::lemma_field_round_trip(false, width, inner, rest);
            },
        }
    }

    fn read_bit_field(
        read: &mut BitReader,
        settings: &Settings,
        hints: &mut Hints,
        bits: u32,
    ) -> (r: Result<Option<T>, Error>) {
        let ghost start = read.remaining();
        let ghost cx = Context::plain(*settings, read.order());
        let is_some = match bool::read_bit_field(read, settings, hints, bits) {
            Ok(flag) => flag,
            Err(e) => {
                return Err(e);
            },
        };
        if is_some {
            let ghost n = bool::field_decoding(start, bits as nat, cx)->Ok_0.1;
            match T::read(read, settings) {
                Ok(value) => {
                    proof {
                        let k = T::decoding(start.skip(n as int), cx)->Ok_0.1;
                        assert(start.skip(n as int).skip(k as int) =~= start.skip((n + k) as int));
                    }
                    Ok(Some(value))
                },
                Err(e) => Err(e),
            }
        } else {
            Ok(None)
        }
    }

    fn write_bit_field(
        &self,
        write: &mut BitWriter,
        settings: &Settings,
        hints: &mut Hints,
        bits: u32,
    ) -> (r: Result<(), Error>) {
        let ghost start = write.written();
        let ghost cx = Context::plain(*settings, write.order());
        match self.is_some().write_bit_field(write, settings, hints, bits) {
            Ok(()) => {},
            Err(e) => {
                return Err(e);
            },
        }
        match self {
            Some(value) => {
                let r = value.write(write, settings);
                proof {
                    if let Ok(body) = T::encoding(value.model(), cx) {
                        let flag = bool::field_encoding(true, bits as nat, cx)->Ok_0;
                        assert((start + flag) + body =~= start + (flag + body));
                    }
                }
                r
            },
            None => Ok(()),
        }
    }
}

} // verus!
