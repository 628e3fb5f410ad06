//! Bit streams: a reader over a buffer and a writer into one, each in either
//! byte order.

use crate::bits::{
    bits_bytes, bits_to_boundary, bits_value, bytes_bits, field_bits_decoding, field_bits_encoding,
    lemma_bits_value_bound, lemma_value_bits_len, value_bits, zero_bits,
};
use crate::error::{Error, Failure};
use crate::raw::{
    big_sink_align, big_sink_bits, big_sink_finish, big_sink_new, big_sink_write, big_source_bits,
    big_source_new, big_source_position, big_source_read, little_sink_align,
    little_sink_bits, little_sink_finish, little_sink_new, little_sink_write, little_source_bits,
    little_source_new, little_source_position, little_source_read, BigSink, BigSource,
    LittleSink, LittleSource,
};
use crate::settings::ByteOrder;
use vstd::arithmetic::power2::{lemma2_to64, pow2};
use vstd::bits::{lemma_u64_pow2_no_overflow, lemma_u64_shl_is_mul};
use vstd::prelude::*;

verus! {

enum Source {
    Big(BigSource),
    Little(LittleSource),
}

enum Sink {
    Big(BigSink),
    Little(LittleSink),
}

/// A source with what the reader keeps beside it.
struct Reading {
    source: Source,
    /// How many bits are still to be read.
    left: u128,
    /// Whether a read has failed.
    failed: bool,
}

/// Reads numbers of any width from a buffer of bytes, bit by bit.
///
/// A read that fails is the last: from then on the reader has no bits left.
pub struct BitReader {
    state: Reading,
}

/// Writes numbers of any width into a growing buffer of bytes, bit by bit.
pub struct BitWriter {
    sink: Sink,
}

impl Reading {
    spec fn order(&self) -> ByteOrder {
        match self.source {
            Source::Big(_) => ByteOrder::BigEndian,
            Source::Little(_) => ByteOrder::LittleEndian,
        }
    }

    /// Every bit of the buffer, read or not, in stream order.
    spec fn bits(&self) -> Seq<bool> {
        match self.source {
            Source::Big(s) => big_source_bits(s),
            Source::Little(s) => little_source_bits(s),
        }
    }

    /// How many bits were read.
    spec fn position(&self) -> nat {
        match self.source {
            Source::Big(s) => big_source_position(s),
            Source::Little(s) => little_source_position(s),
        }
    }

    /// The reading stands within its buffer and knows how many bits that
    /// holds, unless a read has failed.
    spec fn sound(&self) -> bool {
        self.failed || (self.position() <= self.bits().len() && self.bits().len()
            - self.position() == self.left)
    }

    spec fn remaining(&self) -> Seq<bool> {
        if self.failed {
            Seq::empty()
        } else {
            self.bits().skip(self.position() as int)
        }
    }

    fn read(&mut self, count: u32) -> (r: Result<u64, Error>)
        requires
            old(self).sound(),
            1 <= count <= 64,
        ensures
            final(self).sound(),
            final(self).order() == old(self).order(),
            match r {
                Ok(v) => {
                    &&& count <= old(self).remaining().len()
                    &&& v == bits_value(
                        old(self).remaining().subrange(0, count as int),
                        old(self).order(),
                    )
                    &&& final(self).remaining() == old(self).remaining().skip(count as int)
                },
                Err(e) => {
                    &&& e@ == Failure::Io
                    &&& count > old(self).remaining().len()
                    &&& final(self).remaining().len() == 0
                },
            },
        no_unwind
    {
        if self.failed {
            return Err(Error::Io);
        }
        let ghost before = *self;
        let ghost taken = before.remaining().subrange(0, count as int);
        let raw = match &mut self.source {
            Source::Big(s) => big_source_read(s, count),
            Source::Little(s) => little_source_read(s, count),
        };
        match raw {
            Ok(v) => {
                self.left = self.left - count as u128;
                proof {
                    let p = before.position() as int;
                    assert(before.bits().subrange(p, p + count) =~= taken);
                    assert(self.remaining() =~= before.remaining().skip(count as int));
                }
                Ok(v)
            },
            Err(_) => {
                self.failed = true;
                Err(Error::Io)
            },
        }
    }

    fn count(&self) -> (n: u128)
        requires
            self.sound(),
        ensures
            n == self.remaining().len(),
    {
        if self.failed {
            0
        } else {
            self.left
        }
    }
}

impl BitReader {
    #[verifier::type_invariant]
    spec fn inv(self) -> bool {
        self.state.sound()
    }

    /// The order in which the reader takes bits out of a byte.
    pub closed spec fn order(&self) -> ByteOrder {
        self.state.order()
    }

    /// The bits still to be read, in stream order.
    pub closed spec fn remaining(&self) -> Seq<bool> {
        self.state.remaining()
    }

    /// A reader at the start of `bytes`.
    pub fn new(bytes: Vec<u8>, order: ByteOrder) -> (reader: BitReader)
        ensures
            reader.order() == order,
            reader.remaining() == bytes_bits(bytes@, order),
    {
        let left: u128 = 8 * (bytes.len() as u128);
        let source = match order {
            ByteOrder::BigEndian => Source::Big(big_source_new(bytes)),
            ByteOrder::LittleEndian => Source::Little(little_source_new(bytes)),
        };
        let state = Reading { source, left, failed: false };
        assert(state.bits().skip(0) =~= state.bits());
        BitReader { state }
    }

    /// Reads a number of `count` bits. Fails with `Io` where fewer are left,
    /// and where `count` is more than the 64 bits that the result holds.
    pub fn read_bits(&mut self, count: u32) -> (r: Result<u64, Error>)
        ensures
            final(self).order() == old(self).order(),
            r matches Ok(v) ==> v < pow2(count as nat),
            r is Err && count <= 64 ==> final(self).remaining().len() == 0,
            count > 64 ==> final(self).remaining() == old(self).remaining(),
            match field_bits_decoding(old(self).remaining(), count as nat, 64, old(self).order()) {
                Ok((v, n)) => r matches Ok(out) && out == v && final(self).remaining() == old(
                    self,
                ).remaining().skip(n as int),
                Err(f) => r matches Err(e) && e@ == f,
            },
    {
        if count > 64 {
            return Err(Error::Io);
        }
        if count == 0 {
            proof {
                lemma2_to64();
                assert(self.remaining().take(0) =~= Seq::<bool>::empty());
                assert(self.remaining().skip(0) =~= self.remaining());
            }
            return Ok(0);
        }
        proof {
            use_type_invariant(&*self);
            lemma_bits_value_bound(self.remaining().subrange(0, count as int), self.order());
        }
        self.state.read(count)
    }

    /// Reads one byte.
    pub fn read_u8(&mut self) -> (r: Result<u8, Error>)
        ensures
            final(self).order() == old(self).order(),
            match r {
                Ok(v) => {
                    &&& 8 <= old(self).remaining().len()
                    &&& v == bits_value(old(self).remaining().subrange(0, 8), old(self).order())
                    &&& final(self).remaining() == old(self).remaining().skip(8)
                },
                Err(e) => {
                    &&& e@ == Failure::Io
                    &&& 8 > old(self).remaining().len()
                    &&& final(self).remaining().len() == 0
                },
            },
    {
        proof {
            lemma2_to64();
        }
        match self.read_bits(8) {
            Ok(v) => Ok(v as u8),
            Err(e) => Err(e),
        }
    }

    /// Reads `count` whole bytes, aligned or not.
    pub fn read_bytes(&mut self, count: usize) -> (r: Result<Vec<u8>, Error>)
        ensures
            final(self).order() == old(self).order(),
            match r {
                Ok(bytes) => {
                    &&& 8 * count <= old(self).remaining().len()
                    &&& bytes@ == bits_bytes(
                        old(self).remaining().take(8 * count),
                        old(self).order(),
                    )
                    &&& bytes@.len() == count
                    &&& final(self).remaining() == old(self).remaining().skip(8 * count)
                },
                Err(e) => {
                    &&& e@ == Failure::Io
                    &&& 8 * count > old(self).remaining().len()
                    &&& final(self).remaining().len() == 0
                },
            },
    {
        let ghost start = old(self).remaining();
        let ghost order = old(self).order();
        let mut bytes: Vec<u8> = Vec::new();
        let mut i: usize = 0;
        proof {
            assert(start.skip(0) =~= start);
            assert(bits_bytes(start.take(0), order) =~= bytes@);
        }
        while i < count
            invariant
                i <= count,
                self.order() == order,
                order == old(self).order(),
                start == old(self).remaining(),
                8 * i <= start.len(),
                self.remaining() == start.skip(8 * i),
                bytes@.len() == i,
                bytes@ == bits_bytes(start.take(8 * i), order),
            decreases count - i,
        {
            match self.read_u8() {
                Ok(b) => {
                    proof {
                        let next = bits_bytes(start.take(8 * (i + 1)), order);
                        assert(start.skip(8 * i).subrange(0, 8) =~= start.take(
                            8 * (i + 1),
                        ).subrange(8 * i, 8 * i + 8));
                        assert forall|j: int| 0 <= j < i implies next[j] == bytes@[j] by {
                            assert(start.take(8 * (i + 1)).subrange(8 * j, 8 * j + 8)
                                =~= start.take(8 * i).subrange(8 * j, 8 * j + 8));
                        }
                        assert(bytes@.push(b) =~= next);
                        assert(self.remaining() =~= start.skip(8 * (i + 1)));
                    }
                    bytes.push(b);
                    i = i + 1;
                },
                Err(e) => {
                    return Err(e);
                },
            }
        }
        Ok(bytes)
    }

    /// Whether the reader stands on a byte boundary: the bits still to be
    /// read are whole bytes.
    pub fn byte_aligned(&self) -> (aligned: bool)
        ensures
            aligned == (self.remaining().len() % 8 == 0),
    {
        self.remaining_bits() % 8 == 0
    }

    /// How many bits are still to be read.
    pub fn remaining_bits(&self) -> (n: u128)
        ensures
            n == self.remaining().len(),
    {
        proof {
            use_type_invariant(self);
        }
        self.state.count()
    }
}

impl BitWriter {
    /// The order in which the writer fills a byte with bits.
    pub closed spec fn order(&self) -> ByteOrder {
        match self.sink {
            Sink::Big(_) => ByteOrder::BigEndian,
            Sink::Little(_) => ByteOrder::LittleEndian,
        }
    }

    /// Every bit written so far, in stream order.
    pub closed spec fn written(&self) -> Seq<bool> {
        match self.sink {
            Sink::Big(s) => big_sink_bits(s),
            Sink::Little(s) => little_sink_bits(s),
        }
    }

    /// A writer that has written nothing.
    pub fn new(order: ByteOrder) -> (writer: BitWriter)
        ensures
            writer.order() == order,
            writer.written() == Seq::<bool>::empty(),
    {
        match order {
            ByteOrder::BigEndian => BitWriter { sink: Sink::Big(big_sink_new()) },
            ByteOrder::LittleEndian => BitWriter { sink: Sink::Little(little_sink_new()) },
        }
    }

    /// Appends the low `count` bits of a value that has no more.
    fn put(&mut self, count: u32, value: u64)
        requires
            1 <= count <= 64,
            value < pow2(count as nat),
        ensures
            final(self).order() == old(self).order(),
            final(self).written() == old(self).written() + value_bits(
                value as nat,
                count as nat,
                old(self).order(),
            ),
    {
        let _ = match &mut self.sink {
            Sink::Big(s) => big_sink_write(s, count, value),
            Sink::Little(s) => little_sink_write(s, count, value),
        };
    }

    /// Appends `value` as `count` bits. Fails with `Io`, and writes nothing,
    /// where the value does not fit that many bits, and where `count` is
    /// more than the 64 bits that a value has.
    pub fn write_bits(&mut self, count: u32, value: u64) -> (r: Result<(), Error>)
        ensures
            final(self).order() == old(self).order(),
            match field_bits_encoding(value as int, count as nat, 64, old(self).order()) {
                Ok(bits) => r is Ok && final(self).written() == old(self).written() + bits,
                Err(f) => r matches Err(e) && e@ == f && final(self).written() == old(
                    self,
                ).written(),
            },
    {
        if count > 64 {
            return Err(Error::Io);
        }
        if count < 64 {
            proof {
                lemma_u64_pow2_no_overflow(count as nat);
                lemma_u64_shl_is_mul(1, count as u64);
            }
            let bound: u64 = 1u64 << (count as u64);
            if value >= bound {
                return Err(Error::Io);
            }
        } else {
            proof {
                lemma2_to64();
            }
        }
        if count == 0 {
            proof {
                assert(self.written() + value_bits(0, 0, self.order()) =~= self.written());
            }
            return Ok(());
        }
        self.put(count, value);
        Ok(())
    }

    /// Appends one byte.
    pub fn write_u8(&mut self, value: u8)
        ensures
            final(self).order() == old(self).order(),
            final(self).written() == old(self).written() + value_bits(
                value as nat,
                8,
                old(self).order(),
            ),
    {
        proof {
            lemma2_to64();
        }
        self.put(8, value as u64);
    }

    /// Appends whole bytes, aligned or not.
    pub fn write_bytes(&mut self, bytes: &[u8])
        ensures
            final(self).order() == old(self).order(),
            final(self).written() == old(self).written() + bytes_bits(bytes@, old(self).order()),
    {
        let ghost order = old(self).order();
        let mut i: usize = 0;
        proof {
            assert(old(self).written() + bytes_bits(bytes@.take(0), order) =~= old(
                self,
            ).written());
        }
        while i < bytes.len()
            invariant
                i <= bytes@.len(),
                self.order() == order,
                order == old(self).order(),
                self.written() == old(self).written() + bytes_bits(bytes@.take(i as int), order),
            decreases bytes@.len() - i,
        {
            proof {
                lemma_value_bits_len(bytes@[i as int] as nat, 8, order);
                assert(bytes_bits(bytes@.take(i + 1), order) =~= bytes_bits(
                    bytes@.take(i as int),
                    order,
                ) + value_bits(bytes@[i as int] as nat, 8, order));
            }
            self.write_u8(bytes[i]);
            i = i + 1;
        }
        proof {
            assert(bytes@.take(bytes@.len() as int) =~= bytes@);
        }
    }

    /// Appends zero bits up to the next byte boundary.
    pub fn byte_align(&mut self)
        ensures
            final(self).order() == old(self).order(),
            final(self).written() == old(self).written() + zero_bits(
                bits_to_boundary(old(self).written().len()),
            ),
            final(self).written().len() % 8 == 0,
    {
        let _ = match &mut self.sink {
            Sink::Big(s) => big_sink_align(s),
            Sink::Little(s) => little_sink_align(s),
        };
    }

    /// The bytes written. Bits of an unfinished last byte are left out.
    pub fn into_bytes(self) -> (bytes: Vec<u8>)
        ensures
            bytes@ == bits_bytes(self.written(), self.order()),
    {
        match self.sink {
            Sink::Big(s) => big_sink_finish(s),
            Sink::Little(s) => little_sink_finish(s),
        }
    }
}

} // verus!
