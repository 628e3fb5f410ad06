//! The bit streams of `bitstream_io` over buffers in memory.
//!
//! Nothing in this file is proved. Each function makes one call into
//! `bitstream_io` and states what that call does, in terms of the bits that a
//! source holds, how many of them were read, and the bits that a sink was
//! given.

use crate::bits::{bits_bytes, bits_to_boundary, bits_value, bytes_bits, value_bits, zero_bits};
use crate::settings::ByteOrder;
use bitstream_io::{BitRead, BitWrite};
use vstd::arithmetic::power2::pow2;
use vstd::prelude::*;

verus! {

/// `std::io::Error`, which the streams report.
#[verifier::external_type_specification]
#[verifier::external_body]
pub struct ExIoError(std::io::Error);

/// A `bitstream_io::BitReader` in big-endian order over a buffer in memory.
#[verifier::external_body]
pub struct BigSource {
    inner: bitstream_io::BitReader<std::io::Cursor<Vec<u8>>, bitstream_io::BigEndian>,
}

/// A `bitstream_io::BitReader` in little-endian order over a buffer in memory.
#[verifier::external_body]
pub struct LittleSource {
    inner: bitstream_io::BitReader<std::io::Cursor<Vec<u8>>, bitstream_io::LittleEndian>,
}

/// A `bitstream_io::BitWriter` in big-endian order into a buffer in memory.
#[verifier::external_body]
pub struct BigSink {
    inner: bitstream_io::BitWriter<Vec<u8>, bitstream_io::BigEndian>,
}

/// A `bitstream_io::BitWriter` in little-endian order into a buffer in memory.
#[verifier::external_body]
pub struct LittleSink {
    inner: bitstream_io::BitWriter<Vec<u8>, bitstream_io::LittleEndian>,
}

/// All the bits of the buffer that a big-endian source reads, in stream order.
pub uninterp spec fn big_source_bits(s: BigSource) -> Seq<bool>;

/// How many bits a big-endian source has handed out.
pub uninterp spec fn big_source_position(s: BigSource) -> nat;

/// All the bits of the buffer that a little-endian source reads, in stream order.
pub uninterp spec fn little_source_bits(s: LittleSource) -> Seq<bool>;

/// How many bits a little-endian source has handed out.
pub uninterp spec fn little_source_position(s: LittleSource) -> nat;

/// The bits that a big-endian sink was given, in stream order.
pub uninterp spec fn big_sink_bits(s: BigSink) -> Seq<bool>;

/// The bits that a little-endian sink was given, in stream order.
pub uninterp spec fn little_sink_bits(s: LittleSink) -> Seq<bool>;

/// `BitReader::endian` with `BigEndian` over a cursor on `bytes`: the source
/// holds the bits of those bytes, most significant bit of each byte first, and
/// none is read yet.
#[verifier::external_body]
pub(crate) fn big_source_new(bytes: Vec<u8>) -> (s: BigSource)
    ensures
        big_source_bits(s) == bytes_bits(bytes@, ByteOrder::BigEndian),
        big_source_position(s) == 0,
{
    BigSource {
        inner: bitstream_io::BitReader::endian(std::io::Cursor::new(bytes), bitstream_io::BigEndian),
    }
}

/// `BitReader::endian` with `LittleEndian` over a cursor on `bytes`: the source
/// holds the bits of those bytes, least significant bit of each byte first,
/// and none is read yet.
#[verifier::external_body]
pub(crate) fn little_source_new(bytes: Vec<u8>) -> (s: LittleSource)
    ensures
        little_source_bits(s) == bytes_bits(bytes@, ByteOrder::LittleEndian),
        little_source_position(s) == 0,
{
    LittleSource {
        inner: bitstream_io::BitReader::endian(
            std::io::Cursor::new(bytes),
            bitstream_io::LittleEndian,
        ),
    }
}

/// `BitRead::read::<u64>` on a big-endian reader. Where `count` more bits are
/// there, it hands out the number that they spell, first bit most
/// significant, and has moved on by `count`. Where fewer are left it fails.
/// The buffer itself never changes, and the call does not panic.
#[verifier::external_body]
pub(crate) fn big_source_read(s: &mut BigSource, count: u32) -> (r: Result<u64, std::io::Error>)
    requires
        1 <= count <= 64,
    ensures
        big_source_bits(*final(s)) == big_source_bits(*old(s)),
        match r {
            Ok(v) => {
                &&& big_source_position(*old(s)) + count <= big_source_bits(*old(s)).len()
                &&& v == bits_value(
                    big_source_bits(*old(s)).subrange(
                        big_source_position(*old(s)) as int,
                        big_source_position(*old(s)) + count,
                    ),
                    ByteOrder::BigEndian,
                )
                &&& big_source_position(*final(s)) == big_source_position(*old(s)) + count
            },
            Err(_) => big_source_position(*old(s)) + count > big_source_bits(*old(s)).len(),
        },
    no_unwind
{
    s.inner.read::<u64>(count)
}

/// `BitRead::read::<u64>` on a little-endian reader. Where `count` more bits
/// are there, it hands out the number that they spell, first bit least
/// significant, and has moved on by `count`. Where fewer are left it fails.
/// The buffer itself never changes, and the call does not panic.
#[verifier::external_body]
pub(crate) fn little_source_read(s: &mut LittleSource, count: u32) -> (r: Result<
    u64,
    std::io::Error,
>)
    requires
        1 <= count <= 64,
    ensures
        little_source_bits(*final(s)) == little_source_bits(*old(s)),
        match r {
            Ok(v) => {
                &&& little_source_position(*old(s)) + count <= little_source_bits(*old(s)).len()
                &&& v == bits_value(
                    little_source_bits(*old(s)).subrange(
                        little_source_position(*old(s)) as int,
                        little_source_position(*old(s)) + count,
                    ),
                    ByteOrder::LittleEndian,
                )
                &&& little_source_position(*final(s)) == little_source_position(*old(s)) + count
            },
            Err(_) => little_source_position(*old(s)) + count > little_source_bits(*old(s)).len(),
        },
    no_unwind
{
    s.inner.read::<u64>(count)
}

/// `BitWriter::endian` with `BigEndian` into an empty `Vec`: nothing is
/// written yet.
#[verifier::external_body]
pub(crate) fn big_sink_new() -> (s: BigSink)
    ensures
        big_sink_bits(s) == Seq::<bool>::empty(),
{
    BigSink { inner: bitstream_io::BitWriter::endian(Vec::new(), bitstream_io::BigEndian) }
}

/// `BitWriter::endian` with `LittleEndian` into an empty `Vec`: nothing is
/// written yet.
#[verifier::external_body]
pub(crate) fn little_sink_new() -> (s: LittleSink)
    ensures
        little_sink_bits(s) == Seq::<bool>::empty(),
{
    LittleSink { inner: bitstream_io::BitWriter::endian(Vec::new(), bitstream_io::LittleEndian) }
}

/// `BitWrite::write::<u64>` on a big-endian writer into a `Vec`: a value that
/// fits `count` bits is appended as those bits, most significant first. A
/// `Vec` takes every write, so the call succeeds.
#[verifier::external_body]
pub(crate) fn big_sink_write(s: &mut BigSink, count: u32, value: u64) -> (r: Result<
    (),
    std::io::Error,
>)
    requires
        1 <= count <= 64,
        value < pow2(count as nat),
    ensures
        r is Ok,
        big_sink_bits(*final(s)) == big_sink_bits(*old(s)) + value_bits(
            value as nat,
            count as nat,
            ByteOrder::BigEndian,
        ),
{
    s.inner.write::<u64>(count, value)
}

/// `BitWrite::write::<u64>` on a little-endian writer into a `Vec`: a value
/// that fits `count` bits is appended as those bits, least significant first.
/// A `Vec` takes every write, so the call succeeds.
#[verifier::external_body]
pub(crate) fn little_sink_write(s: &mut LittleSink, count: u32, value: u64) -> (r: Result<
    (),
    std::io::Error,
>)
    requires
        1 <= count <= 64,
        value < pow2(count as nat),
    ensures
        r is Ok,
        little_sink_bits(*final(s)) == little_sink_bits(*old(s)) + value_bits(
            value as nat,
            count as nat,
            ByteOrder::LittleEndian,
        ),
{
    s.inner.write::<u64>(count, value)
}

/// `BitWrite::byte_align` on a big-endian writer into a `Vec`: zero bits are
/// appended up to the next byte boundary, none where the stream stands on one.
#[verifier::external_body]
pub(crate) fn big_sink_align(s: &mut BigSink) -> (r: Result<(), std::io::Error>)
    ensures
        r is Ok,
        big_sink_bits(*final(s)) == big_sink_bits(*old(s)) + zero_bits(
            bits_to_boundary(big_sink_bits(*old(s)).len()),
        ),
{
    s.inner.byte_align()
}

/// `BitWrite::byte_align` on a little-endian writer into a `Vec`: zero bits
/// are appended up to the next byte boundary, none where the stream stands on
/// one.
#[verifier::external_body]
pub(crate) fn little_sink_align(s: &mut LittleSink) -> (r: Result<(), std::io::Error>)
    ensures
        r is Ok,
        little_sink_bits(*final(s)) == little_sink_bits(*old(s)) + zero_bits(
            bits_to_boundary(little_sink_bits(*old(s)).len()),
        ),
{
    s.inner.byte_align()
}

/// `BitWriter::into_writer` on a big-endian writer: the `Vec` with every
/// whole byte that was written; bits of an unfinished byte are dropped.
#[verifier::external_body]
pub(crate) fn big_sink_finish(s: BigSink) -> (bytes: Vec<u8>)
    ensures
        bytes@ == bits_bytes(big_sink_bits(s), ByteOrder::BigEndian),
{
    s.inner.into_writer()
}

/// `BitWriter::into_writer` on a little-endian writer: the `Vec` with every
/// whole byte that was written; bits of an unfinished byte are dropped.
#[verifier::external_body]
pub(crate) fn little_sink_finish(s: LittleSink) -> (bytes: Vec<u8>)
    ensures
        bytes@ == bits_bytes(little_sink_bits(s), ByteOrder::LittleEndian),
{
    s.inner.into_writer()
}

} // verus!
