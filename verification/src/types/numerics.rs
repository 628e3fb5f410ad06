//! Whole numbers of one to eight bytes, and `bool`.

use crate::bits::{bits_bytes, bytes_bits, in_bytes, lemma_bytes_of_bits};
use crate::error::{Error, Failure};
use crate::hint::Hints;
use crate::number::{
    bytes_value, lemma_bytes_value_bound, lemma_spans, lemma_value_bytes_len, lemma_value_of_bytes,
    number_from_bytes, number_to_bytes, span, value_bytes,
};
use crate::protocol::{read_outcome, write_outcome, Context, Protocol};
use crate::settings::{ByteOrder, Settings};
use crate::stream::{BitReader, BitWriter};
use vstd::prelude::*;

verus! {

/// The bits of an unsigned number of `count` bytes: its bytes in the byte
/// order of the settings, each sent as the stream sends a byte.
pub open spec fn unsigned_encoding(v: int, count: nat, cx: Context) -> Result<Seq<bool>, Failure> {
    if 0 <= v < span(count) {
        Ok(bytes_bits(value_bytes(v as nat, count, cx.settings.byte_order), cx.order))
    } else {
        Err(Failure::IntegerConversion)
    }
}

/// The unsigned number of `count` bytes at the front of `bits`.
pub open spec fn unsigned_decoding(bits: Seq<bool>, count: nat, cx: Context) -> Result<
    (int, nat),
    Failure,
> {
    if bits.len() < 8 * count {
        Err(Failure::Io)
    } else {
        let bytes = bits_bytes(bits.take(8 * count as int), cx.order);
        Ok((bytes_value(bytes, cx.settings.byte_order) as int, 8 * count))
    }
}

/// The unsigned number that stands for a signed one in two's complement.
pub open spec fn to_unsigned(v: int, count: nat) -> int {
    if v < 0 {
        v + span(count)
    } else {
        v
    }
}

/// The signed number that an unsigned one stands for in two's complement.
pub open spec fn to_signed(u: int, count: nat) -> int {
    if 2 * u >= span(count) {
        u - span(count)
    } else {
        u
    }
}

/// The bits of a signed number of `count` bytes, in two's complement.
pub open spec fn signed_encoding(v: int, count: nat, cx: Context) -> Result<Seq<bool>, Failure> {
    if -span(count) <= 2 * v < span(count) {
        unsigned_encoding(to_unsigned(v, count), count, cx)
    } else {
        Err(Failure::IntegerConversion)
    }
}

/// The signed number of `count` bytes at the front of `bits`.
pub open spec fn signed_decoding(bits: Seq<bool>, count: nat, cx: Context) -> Result<
    (int, nat),
    Failure,
> {
    match unsigned_decoding(bits, count, cx) {
        Ok((u, n)) => Ok((to_signed(u, count), n)),
        Err(f) => Err(f),
    }
}

/// An unsigned number is written on a stream of any order as its bytes.
pub proof fn lemma_unsigned_in_bytes(v: int, count: nat, settings: Settings, order: ByteOrder)
    ensures
        in_bytes(
            unsigned_encoding(v, count, Context::plain(settings, settings.byte_order)),
            unsigned_encoding(v, count, Context::plain(settings, order)),
            settings.byte_order,
            order,
        ),
{
    if 0 <= v < span(count) {
        let bytes = value_bytes(v as nat, count, settings.byte_order);
        lemma_bytes_of_bits(bytes, settings.byte_order);
    }
}

/// A signed number is written on a stream of any order as its bytes.
pub proof fn lemma_signed_in_bytes(v: int, count: nat, settings: Settings, order: ByteOrder)
    ensures
        in_bytes(
            signed_encoding(v, count, Context::plain(settings, settings.byte_order)),
            signed_encoding(v, count, Context::plain(settings, order)),
            settings.byte_order,
            order,
        ),
{
    lemma_unsigned_in_bytes(to_unsigned(v, count), count, settings, order);
}

/// A number read from `count` bytes is one that `count` bytes hold.
pub proof fn lemma_unsigned_decoding_bound(bits: Seq<bool>, count: nat, cx: Context)
    ensures
        unsigned_decoding(bits, count, cx) matches Ok((v, _)) ==> 0 <= v < span(count),
{
    if bits.len() >= 8 * count {
        let bytes = bits_bytes(bits.take(8 * count as int), cx.order);
        lemma_bytes_value_bound(bytes, cx.settings.byte_order);
    }
}

/// An unsigned number that fits its bytes is read back as written.
pub proof fn lemma_unsigned_round_trip(v: int, count: nat, cx: Context, rest: Seq<bool>)
    requires
        unsigned_encoding(v, count, cx) is Ok,
    ensures
        unsigned_decoding(unsigned_encoding(v, count, cx)->Ok_0 + rest, count, cx) == Ok::<
            (int, nat),
            Failure,
        >((v, unsigned_encoding(v, count, cx)->Ok_0.len())),
{
    let bytes = value_bytes(v as nat, count, cx.settings.byte_order);
    let bits = bytes_bits(bytes, cx.order);
    lemma_value_bytes_len(v as nat, count, cx.settings.byte_order);
    assert((bits + rest).take(8 * count as int) =~= bits);
    lemma_bytes_of_bits(bytes, cx.order);
    lemma_value_of_bytes(v as nat, count, cx.settings.byte_order);
}

/// A signed number that fits its bytes is read back as written.
pub proof fn lemma_signed_round_trip(v: int, count: nat, cx: Context, rest: Seq<bool>)
    requires
        signed_encoding(v, count, cx) is Ok,
    ensures
        signed_decoding(signed_encoding(v, count, cx)->Ok_0 + rest, count, cx) == Ok::<
            (int, nat),
            Failure,
        >((v, signed_encoding(v, count, cx)->Ok_0.len())),
{
    lemma_unsigned_round_trip(to_unsigned(v, count), count, cx, rest);
}

/// Reads an unsigned number of `count` bytes.
pub(crate) fn read_unsigned(read: &mut BitReader, settings: &Settings, count: usize) -> (r: Result<
    u64,
    Error,
>)
    requires
        1 <= count <= 8,
    ensures
        r matches Ok(v) ==> v < span(count as nat),
        read_outcome(
            match r {
                Ok(v) => Ok(v as int),
                Err(e) => Err(e@),
            },
            *old(read),
            *final(read),
            unsigned_decoding(
                old(read).remaining(),
                count as nat,
                Context::plain(*settings, old(read).order()),
            ),
        ),
{
    match read.read_bytes(count) {
        Ok(bytes) => {
            proof {
                lemma_bytes_value_bound(bytes@, settings.byte_order);
            }
            Ok(number_from_bytes(bytes.as_slice(), settings.byte_order))
        },
        Err(e) => Err(e),
    }
}

/// Writes an unsigned number of `count` bytes.
pub(crate) fn write_unsigned(write: &mut BitWriter, settings: &Settings, v: u64, count: usize)
    requires
        1 <= count <= 8,
        v < span(count as nat),
    ensures
        write_outcome(
            Ok(()),
            *old(write),
            *final(write),
            unsigned_encoding(
                v as int,
                count as nat,
                Context::plain(*settings, old(write).order()),
            ),
        ),
{
    let bytes = number_to_bytes(v, count, settings.byte_order);
    write.write_bytes(bytes.as_slice());
}

/// The bits of a `bool`: one byte, 1 for `true` and 0 for `false`.
pub open spec fn bool_encoding(b: bool, cx: Context) -> Result<Seq<bool>, Failure> {
    unsigned_encoding(
        if b {
            1
        } else {
            0
        },
        1,
        cx,
    )
}

/// The `bool` at the front of `bits`: any byte but 0 stands for `true`.
pub open spec fn bool_decoding(bits: Seq<bool>, cx: Context) -> Result<(bool, nat), Failure> {
    match unsigned_decoding(bits, 1, cx) {
        Ok((v, n)) => Ok((v != 0, n)),
        Err(f) => Err(f),
    }
}

impl Protocol for bool {
    type Model = bool;

    open spec fn model(&self) -> bool {
        *self
    }

    open spec fn encoding(m: bool, cx: Context) -> Result<Seq<bool>, Failure> {
        bool_encoding(m, cx)
    }

    open spec fn decoding(bits: Seq<bool>, cx: Context) -> Result<(bool, nat), Failure> {
        bool_decoding(bits, cx)
    }

    open spec fn described(m: bool, cx: Context) -> bool {
        true
    }

    proof fn lemma_plain(m: bool, settings: Settings, order: ByteOrder) {
        lemma_unsigned_in_bytes(
            if m {
                1
            } else {
                0
            },
            1,
            settings,
            order,
        );
    }

    proof fn lemma_decoding_fits(bits: Seq<bool>, cx: Context) {
    }

    proof fn lemma_round_trip(m: bool, cx: Context, rest: Seq<bool>) {
        lemma_spans();
        lemma_unsigned_round_trip(
            if m {
                1
            } else {
                0
            },
            1,
            cx,
            rest,
        );
    }

    fn read_field(read: &mut BitReader, settings: &Settings, hints: &mut Hints) -> (r: Result<
        bool,
        Error,
    >) {
        match read_unsigned(read, settings, 1) {
            Ok(v) => Ok(v != 0),
            Err(e) => Err(e),
        }
    }

    fn write_field(&self, write: &mut BitWriter, settings: &Settings, hints: &mut Hints) -> (r:
        Result<(), Error>) {
        proof {
            lemma_spans();
        }
        write_unsigned(
            write,
            settings,
            if *self {
                1
            } else {
                0
            },
            1,
        );
        Ok(())
    }
}

impl Protocol for u8 {
    type Model = int;

    open spec fn model(&self) -> int {
        *self as int
    }

    open spec fn encoding(m: int, cx: Context) -> Result<Seq<bool>, Failure> {
        unsigned_encoding(m, 1, cx)
    }

    open spec fn decoding(bits: Seq<bool>, cx: Context) -> Result<(int, nat), Failure> {
        unsigned_decoding(bits, 1, cx)
    }

    open spec fn described(m: int, cx: Context) -> bool {
        true
    }

    proof fn lemma_plain(m: int, settings: Settings, order: ByteOrder) {
        lemma_unsigned_in_bytes(m, 1, settings, order);
    }

    proof fn lemma_decoding_fits(bits: Seq<bool>, cx: Context) {
    }

    proof fn lemma_round_trip(m: int, cx: Context, rest: Seq<bool>) {
        lemma_unsigned_round_trip(m, 1, cx, rest);
    }

    fn read_field(read: &mut BitReader, settings: &Settings, hints: &mut Hints) -> (r: Result<
        u8,
        Error,
    >) {
        proof {
            lemma_spans();
        }
        match read_unsigned(read, settings, 1) {
            Ok(v) => Ok(v as u8),
            Err(e) => Err(e),
        }
    }

    fn write_field(&self, write: &mut BitWriter, settings: &Settings, hints: &mut Hints) -> (r:
        Result<(), Error>) {
        proof {
            lemma_spans();
        }
        write_unsigned(write, settings, *self as u64, 1);
        Ok(())
    }
}

impl Protocol for u16 {
    type Model = int;

    open spec fn model(&self) -> int {
        *self as int
    }

    open spec fn encoding(m: int, cx: Context) -> Result<Seq<bool>, Failure> {
        unsigned_encoding(m, 2, cx)
    }

    open spec fn decoding(bits: Seq<bool>, cx: Context) -> Result<(int, nat), Failure> {
        unsigned_decoding(bits, 2, cx)
    }

    open spec fn described(m: int, cx: Context) -> bool {
        true
    }

    proof fn lemma_plain(m: int, settings: Settings, order: ByteOrder) {
        lemma_unsigned_in_bytes(m, 2, settings, order);
    }

    proof fn lemma_decoding_fits(bits: Seq<bool>, cx: Context) {
    }

    proof fn lemma_round_trip(m: int, cx: Context, rest: Seq<bool>) {
        lemma_unsigned_round_trip(m, 2, cx, rest);
    }

    fn read_field(read: &mut BitReader, settings: &Settings, hints: &mut Hints) -> (r: Result<
        u16,
        Error,
    >) {
        proof {
            lemma_spans();
        }
        match read_unsigned(read, settings, 2) {
            Ok(v) => Ok(v as u16),
            Err(e) => Err(e),
        }
    }

    fn write_field(&self, write: &mut BitWriter, settings: &Settings, hints: &mut Hints) -> (r:
        Result<(), Error>) {
        proof {
            lemma_spans();
        }
        write_unsigned(write, settings, *self as u64, 2);
        Ok(())
    }
}

impl Protocol for u32 {
    type Model = int;

    open spec fn model(&self) -> int {
        *self as int
    }

    open spec fn encoding(m: int, cx: Context) -> Result<Seq<bool>, Failure> {
        unsigned_encoding(m, 4, cx)
    }

    open spec fn decoding(bits: Seq<bool>, cx: Context) -> Result<(int, nat), Failure> {
        unsigned_decoding(bits, 4, cx)
    }

    open spec fn described(m: int, cx: Context) -> bool {
        true
    }

    proof fn lemma_plain(m: int, settings: Settings, order: ByteOrder) {
        lemma_unsigned_in_bytes(m, 4, settings, order);
    }

    proof fn lemma_decoding_fits(bits: Seq<bool>, cx: Context) {
    }

    proof fn lemma_round_trip(m: int, cx: Context, rest: Seq<bool>) {
        lemma_unsigned_round_trip(m, 4, cx, rest);
    }

    fn read_field(read: &mut BitReader, settings: &Settings, hints: &mut Hints) -> (r: Result<
        u32,
        Error,
    >) {
        proof {
            lemma_spans();
        }
        match read_unsigned(read, settings, 4) {
            Ok(v) => Ok(v as u32),
            Err(e) => Err(e),
        }
    }

    fn write_field(&self, write: &mut BitWriter, settings: &Settings, hints: &mut Hints) -> (r:
        Result<(), Error>) {
        proof {
            lemma_spans();
        }
        write_unsigned(write, settings, *self as u64, 4);
        Ok(())
    }
}

impl Protocol for u64 {
    type Model = int;

    open spec fn model(&self) -> int {
        *self as int
    }

    open spec fn encoding(m: int, cx: Context) -> Result<Seq<bool>, Failure> {
        unsigned_encoding(m, 8, cx)
    }

    open spec fn decoding(bits: Seq<bool>, cx: Context) -> Result<(int, nat), Failure> {
        unsigned_decoding(bits, 8, cx)
    }

    open spec fn described(m: int, cx: Context) -> bool {
        true
    }

    proof fn lemma_plain(m: int, settings: Settings, order: ByteOrder) {
        lemma_unsigned_in_bytes(m, 8, settings, order);
    }

    proof fn lemma_decoding_fits(bits: Seq<bool>, cx: Context) {
    }

    proof fn lemma_round_trip(m: int, cx: Context, rest: Seq<bool>) {
        lemma_unsigned_round_trip(m, 8, cx, rest);
    }

    fn read_field(read: &mut BitReader, settings: &Settings, hints: &mut Hints) -> (r: Result<
        u64,
        Error,
    >) {
        proof {
            lemma_spans();
        }
        match read_unsigned(read, settings, 8) {
            Ok(v) => Ok(v as u64),
            Err(e) => Err(e),
        }
    }

    fn write_field(&self, write: &mut BitWriter, settings: &Settings, hints: &mut Hints) -> (r:
        Result<(), Error>) {
        proof {
            lemma_spans();
        }
        write_unsigned(write, settings, *self as u64, 8);
        Ok(())
    }
}

impl Protocol for i8 {
    type Model = int;

    open spec fn model(&self) -> int {
        *self as int
    }

    open spec fn encoding(m: int, cx: Context) -> Result<Seq<bool>, Failure> {
        signed_encoding(m, 1, cx)
    }

    open spec fn decoding(bits: Seq<bool>, cx: Context) -> Result<(int, nat), Failure> {
        signed_decoding(bits, 1, cx)
    }

    open spec fn described(m: int, cx: Context) -> bool {
        true
    }

    proof fn lemma_plain(m: int, settings: Settings, order: ByteOrder) {
        lemma_signed_in_bytes(m, 1, settings, order);
    }

    proof fn lemma_decoding_fits(bits: Seq<bool>, cx: Context) {
    }

    proof fn lemma_round_trip(m: int, cx: Context, rest: Seq<bool>) {
        lemma_signed_round_trip(m, 1, cx, rest);
    }

    fn read_field(read: &mut BitReader, settings: &Settings, hints: &mut Hints) -> (r: Result<
        i8,
        Error,
    >) {
        proof {
            lemma_spans();
        }
        match read_unsigned(read, settings, 1) {
            Ok(v) => if v >= 0x80 {
                Ok((v as i64 - 0x100) as i8)
            } else {
                Ok(v as i8)
            },
            Err(e) => Err(e),
        }
    }

    fn write_field(&self, write: &mut BitWriter, settings: &Settings, hints: &mut Hints) -> (r:
        Result<(), Error>) {
        proof {
            lemma_spans();
        }
        let v: u64 = if *self < 0 {
            (*self as i64 + 0x100) as u64
        } else {
            *self as u64
        };
        write_unsigned(write, settings, v, 1);
        Ok(())
    }
}

impl Protocol for i16 {
    type Model = int;

    open spec fn model(&self) -> int {
        *self as int
    }

    open spec fn encoding(m: int, cx: Context) -> Result<Seq<bool>, Failure> {
        signed_encoding(m, 2, cx)
    }

    open spec fn decoding(bits: Seq<bool>, cx: Context) -> Result<(int, nat), Failure> {
        signed_decoding(bits, 2, cx)
    }

    open spec fn described(m: int, cx: Context) -> bool {
        true
    }

    proof fn lemma_plain(m: int, settings: Settings, order: ByteOrder) {
        lemma_signed_in_bytes(m, 2, settings, order);
    }

    proof fn lemma_decoding_fits(bits: Seq<bool>, cx: Context) {
    }

    proof fn lemma_round_trip(m: int, cx: Context, rest: Seq<bool>) {
        lemma_signed_round_trip(m, 2, cx, rest);
    }

    fn read_field(read: &mut BitReader, settings: &Settings, hints: &mut Hints) -> (r: Result<
        i16,
        Error,
    >) {
        proof {
            lemma_spans();
        }
        match read_unsigned(read, settings, 2) {
            Ok(v) => if v >= 0x8000 {
                Ok((v as i64 - 0x10000) as i16)
            } else {
                Ok(v as i16)
            },
            Err(e) => Err(e),
        }
    }

    fn write_field(&self, write: &mut BitWriter, settings: &Settings, hints: &mut Hints) -> (r:
        Result<(), Error>) {
        proof {
            lemma_spans();
        }
        let v: u64 = if *self < 0 {
            (*self as i64 + 0x10000) as u64
        } else {
            *self as u64
        };
        write_unsigned(write, settings, v, 2);
        Ok(())
    }
}

impl Protocol for i32 {
    type Model = int;

    open spec fn model(&self) -> int {
        *self as int
    }

    open spec fn encoding(m: int, cx: Context) -> Result<Seq<bool>, Failure> {
        signed_encoding(m, 4, cx)
    }

    open spec fn decoding(bits: Seq<bool>, cx: Context) -> Result<(int, nat), Failure> {
        signed_decoding(bits, 4, cx)
    }

    open spec fn described(m: int, cx: Context) -> bool {
        true
    }

    proof fn lemma_plain(m: int, settings: Settings, order: ByteOrder) {
        lemma_signed_in_bytes(m, 4, settings, order);
    }

    proof fn lemma_decoding_fits(bits: Seq<bool>, cx: Context) {
    }

    proof fn lemma_round_trip(m: int, cx: Context, rest: Seq<bool>) {
        lemma_signed_round_trip(m, 4, cx, rest);
    }

    fn read_field(read: &mut BitReader, settings: &Settings, hints: &mut Hints) -> (r: Result<
        i32,
        Error,
    >) {
        proof {
            lemma_spans();
        }
        match read_unsigned(read, settings, 4) {
            Ok(v) => if v >= 0x80000000 {
                Ok((v as i64 - 0x100000000) as i32)
            } else {
                Ok(v as i32)
            },
            Err(e) => Err(e),
        }
    }

    fn write_field(&self, write: &mut BitWriter, settings: &Settings, hints: &mut Hints) -> (r:
        Result<(), Error>) {
        proof {
            lemma_spans();
        }
        let v: u64 = if *self < 0 {
            (*self as i64 + 0x100000000) as u64
        } else {
            *self as u64
        };
        write_unsigned(write, settings, v, 4);
        Ok(())
    }
}

impl Protocol for i64 {
    type Model = int;

    open spec fn model(&self) -> int {
        *self as int
    }

    open spec fn encoding(m: int, cx: Context) -> Result<Seq<bool>, Failure> {
        signed_encoding(m, 8, cx)
    }

    open spec fn decoding(bits: Seq<bool>, cx: Context) -> Result<(int, nat), Failure> {
        signed_decoding(bits, 8, cx)
    }

    open spec fn described(m: int, cx: Context) -> bool {
        true
    }

    proof fn lemma_plain(m: int, settings: Settings, order: ByteOrder) {
        lemma_signed_in_bytes(m, 8, settings, order);
    }

    proof fn lemma_decoding_fits(bits: Seq<bool>, cx: Context) {
    }

    proof fn lemma_round_trip(m: int, cx: Context, rest: Seq<bool>) {
        lemma_signed_round_trip(m, 8, cx, rest);
    }

    fn read_field(read: &mut BitReader, settings: &Settings, hints: &mut Hints) -> (r: Result<
        i64,
        Error,
    >) {
        proof {
            lemma_spans();
        }
        match read_unsigned(read, settings, 8) {
            Ok(v) => if v >= 0x8000_0000_0000_0000 {
                Ok((v - 0x8000_0000_0000_0000) as i64 + i64::MIN)
            } else {
                Ok(v as i64)
            },
            Err(e) => Err(e),
        }
    }

    fn write_field(&self, write: &mut BitWriter, settings: &Settings, hints: &mut Hints) -> (r:
        Result<(), Error>) {
        proof {
            lemma_spans();
        }
        let v: u64 = if *self < 0 {
            (*self - i64::MIN) as u64 + 0x8000_0000_0000_0000
        } else {
            *self as u64
        };
        write_unsigned(write, settings, v, 8);
        Ok(())
    }
}

/// A whole number type that can count the elements of a list or tag the
/// variants of a union.
pub trait Integer: Protocol<Model = int> {
    /// Whether the type has the number `v`.
    spec fn holds(v: int) -> bool;

    /// Every number that the type has can be written.
    proof fn lemma_holds_encodes(v: int, cx: Context)
        requires
            Self::holds(v),
        ensures
            Self::encoding(v, cx) is Ok,
    ;

    /// Every number is what a reader expects: a number has no length.
    proof fn lemma_holds_described(v: int, cx: Context)
        ensures
            Self::described(v, cx),
    ;

    /// A number read is one that the type has.
    proof fn lemma_decoding_holds(bits: Seq<bool>, cx: Context)
        ensures
            Self::decoding(bits, cx) matches Ok((v, _)) ==> Self::holds(v),
    ;

    /// Every number that the type has is one that an `i128` has.
    proof fn lemma_holds_bounded(v: int)
        requires
            Self::holds(v),
        ensures
            i128::MIN <= v <= i128::MAX,
    ;

    /// The number `v` in this type, where the type has it.
    fn from_usize(v: usize) -> (r: Option<Self>)
        ensures
            match r {
                Some(x) => Self::holds(v as int) && x.model() == v,
                None => !Self::holds(v as int),
            },
    ;

    /// The number as a `usize`, where that holds it.
    fn to_usize(&self) -> (r: Option<usize>)
        ensures
            match r {
                Some(n) => n == self.model(),
                None => !(0 <= self.model() <= usize::MAX),
            },
    ;

    /// The number `v` in this type, where the type has it.
    fn from_i128(v: i128) -> (r: Option<Self>)
        ensures
            match r {
                Some(x) => Self::holds(v as int) && x.model() == v,
                None => !Self::holds(v as int),
            },
    ;

    /// The number, which an `i128` always holds.
    fn to_i128(&self) -> (v: i128)
        ensures
            v == self.model(),
            Self::holds(v as int),
    ;
}

impl Integer for u8 {
    open spec fn holds(v: int) -> bool {
        u8::MIN <= v <= u8::MAX
    }

    proof fn lemma_holds_encodes(v: int, cx: Context) {
        lemma_spans();
    }

    proof fn lemma_holds_described(v: int, cx: Context) {
    }

    proof fn lemma_holds_bounded(v: int) {
    }

    proof fn lemma_decoding_holds(bits: Seq<bool>, cx: Context) {
        lemma_spans();
        lemma_unsigned_decoding_bound(bits, 1, cx);
    }

    fn from_usize(v: usize) -> (r: Option<u8>) {
        if v <= u8::MAX as usize {
            Some(v as u8)
        } else {
            None
        }
    }

    fn to_usize(&self) -> (r: Option<usize>) {
        Some(*self as usize)
    }

    fn from_i128(v: i128) -> (r: Option<u8>) {
        if 0 <= v && v <= u8::MAX as i128 {
            Some(v as u8)
        } else {
            None
        }
    }

    fn to_i128(&self) -> (v: i128) {
        *self as i128
    }
}

impl Integer for u16 {
    open spec fn holds(v: int) -> bool {
        u16::MIN <= v <= u16::MAX
    }

    proof fn lemma_holds_encodes(v: int, cx: Context) {
        lemma_spans();
    }

    proof fn lemma_holds_described(v: int, cx: Context) {
    }

    proof fn lemma_holds_bounded(v: int) {
    }

    proof fn lemma_decoding_holds(bits: Seq<bool>, cx: Context) {
        lemma_spans();
        lemma_unsigned_decoding_bound(bits, 2, cx);
    }

    fn from_usize(v: usize) -> (r: Option<u16>) {
        if v <= u16::MAX as usize {
            Some(v as u16)
        } else {
            None
        }
    }

    fn to_usize(&self) -> (r: Option<usize>) {
        Some(*self as usize)
    }

    fn from_i128(v: i128) -> (r: Option<u16>) {
        if 0 <= v && v <= u16::MAX as i128 {
            Some(v as u16)
        } else {
            None
        }
    }

    fn to_i128(&self) -> (v: i128) {
        *self as i128
    }
}

impl Integer for u32 {
    open spec fn holds(v: int) -> bool {
        u32::MIN <= v <= u32::MAX
    }

    proof fn lemma_holds_encodes(v: int, cx: Context) {
        lemma_spans();
    }

    proof fn lemma_holds_described(v: int, cx: Context) {
    }

    proof fn lemma_holds_bounded(v: int) {
    }

    proof fn lemma_decoding_holds(bits: Seq<bool>, cx: Context) {
        lemma_spans();
        lemma_unsigned_decoding_bound(bits, 4, cx);
    }

    fn from_usize(v: usize) -> (r: Option<u32>) {
        if v <= u32::MAX as usize {
            Some(v as u32)
        } else {
            None
        }
    }

    fn to_usize(&self) -> (r: Option<usize>) {
        Some(*self as usize)
    }

    fn from_i128(v: i128) -> (r: Option<u32>) {
        if 0 <= v && v <= u32::MAX as i128 {
            Some(v as u32)
        } else {
            None
        }
    }

    fn to_i128(&self) -> (v: i128) {
        *self as i128
    }
}

impl Integer for u64 {
    open spec fn holds(v: int) -> bool {
        u64::MIN <= v <= u64::MAX
    }

    proof fn lemma_holds_encodes(v: int, cx: Context) {
        lemma_spans();
    }

    proof fn lemma_holds_described(v: int, cx: Context) {
    }

    proof fn lemma_holds_bounded(v: int) {
    }

    proof fn lemma_decoding_holds(bits: Seq<bool>, cx: Context) {
        lemma_spans();
        lemma_unsigned_decoding_bound(bits, 8, cx);
    }

    fn from_usize(v: usize) -> (r: Option<u64>) {
        Some(v as u64)
    }

    fn to_usize(&self) -> (r: Option<usize>) {
        if *self <= usize::MAX as u64 {
            Some(*self as usize)
        } else {
            None
        }
    }

    fn from_i128(v: i128) -> (r: Option<u64>) {
        if 0 <= v && v <= u64::MAX as i128 {
            Some(v as u64)
        } else {
            None
        }
    }

    fn to_i128(&self) -> (v: i128) {
        *self as i128
    }
}

impl Integer for i8 {
    open spec fn holds(v: int) -> bool {
        i8::MIN <= v <= i8::MAX
    }

    proof fn lemma_holds_encodes(v: int, cx: Context) {
        lemma_spans();
    }

    proof fn lemma_holds_described(v: int, cx: Context) {
    }

    proof fn lemma_holds_bounded(v: int) {
    }

    proof fn lemma_decoding_holds(bits: Seq<bool>, cx: Context) {
        lemma_spans();
        lemma_unsigned_decoding_bound(bits, 1, cx);
    }

    fn from_usize(v: usize) -> (r: Option<i8>) {
        if v <= i8::MAX as usize {
            Some(v as i8)
        } else {
            None
        }
    }

    fn to_usize(&self) -> (r: Option<usize>) {
        if *self >= 0 {
            Some(*self as usize)
        } else {
            None
        }
    }

    fn from_i128(v: i128) -> (r: Option<i8>) {
        if i8::MIN as i128 <= v && v <= i8::MAX as i128 {
            Some(v as i8)
        } else {
            None
        }
    }

    fn to_i128(&self) -> (v: i128) {
        *self as i128
    }
}

impl Integer for i16 {
    open spec fn holds(v: int) -> bool {
        i16::MIN <= v <= i16::MAX
    }

    proof fn lemma_holds_encodes(v: int, cx: Context) {
        lemma_spans();
    }

    proof fn lemma_holds_described(v: int, cx: Context) {
    }

    proof fn lemma_holds_bounded(v: int) {
    }

    proof fn lemma_decoding_holds(bits: Seq<bool>, cx: Context) {
        lemma_spans();
        lemma_unsigned_decoding_bound(bits, 2, cx);
    }

    fn from_usize(v: usize) -> (r: Option<i16>) {
        if v <= i16::MAX as usize {
            Some(v as i16)
        } else {
            None
        }
    }

    fn to_usize(&self) -> (r: Option<usize>) {
        if *self >= 0 {
            Some(*self as usize)
        } else {
            None
        }
    }

    fn from_i128(v: i128) -> (r: Option<i16>) {
        if i16::MIN as i128 <= v && v <= i16::MAX as i128 {
            Some(v as i16)
        } else {
            None
        }
    }

    fn to_i128(&self) -> (v: i128) {
        *self as i128
    }
}

impl Integer for i32 {
    open spec fn holds(v: int) -> bool {
        i32::MIN <= v <= i32::MAX
    }

    proof fn lemma_holds_encodes(v: int, cx: Context) {
        lemma_spans();
    }

    proof fn lemma_holds_described(v: int, cx: Context) {
    }

    proof fn lemma_holds_bounded(v: int) {
    }

    proof fn lemma_decoding_holds(bits: Seq<bool>, cx: Context) {
        lemma_spans();
        lemma_unsigned_decoding_bound(bits, 4, cx);
    }

    fn from_usize(v: usize) -> (r: Option<i32>) {
        if v <= i32::MAX as usize {
            Some(v as i32)
        } else {
            None
        }
    }

    fn to_usize(&self) -> (r: Option<usize>) {
        if *self >= 0 {
            Some(*self as usize)
        } else {
            None
        }
    }

    fn from_i128(v: i128) -> (r: Option<i32>) {
        if i32::MIN as i128 <= v && v <= i32::MAX as i128 {
            Some(v as i32)
        } else {
            None
        }
    }

    fn to_i128(&self) -> (v: i128) {
        *self as i128
    }
}

impl Integer for i64 {
    open spec fn holds(v: int) -> bool {
        i64::MIN <= v <= i64::MAX
    }

    proof fn lemma_holds_encodes(v: int, cx: Context) {
        lemma_spans();
    }

    proof fn lemma_holds_described(v: int, cx: Context) {
    }

    proof fn lemma_holds_bounded(v: int) {
    }

    proof fn lemma_decoding_holds(bits: Seq<bool>, cx: Context) {
        lemma_spans();
        lemma_unsigned_decoding_bound(bits, 8, cx);
    }

    fn from_usize(v: usize) -> (r: Option<i64>) {
        if v as u64 <= i64::MAX as u64 {
            Some(v as i64)
        } else {
            None
        }
    }

    fn to_usize(&self) -> (r: Option<usize>) {
        if *self >= 0 && *self as u64 <= usize::MAX as u64 {
            Some(*self as usize)
        } else {
            None
        }
    }

    fn from_i128(v: i128) -> (r: Option<i64>) {
        if i64::MIN as i128 <= v && v <= i64::MAX as i128 {
            Some(v as i64)
        } else {
            None
        }
    }

    fn to_i128(&self) -> (v: i128) {
        *self as i128
    }
}

} // verus!
