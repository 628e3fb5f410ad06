//! The contract that every value type of the codec meets.

use crate::bits::{
    bits_bytes, bits_to_boundary, bytes_bits, in_bytes, lemma_bits_of_bytes, zero_bits,
};
use crate::error::{Error, Failure};
use crate::hint::{FieldLength, Hints};
use crate::settings::{ByteOrder, Settings};
use crate::stream::{BitReader, BitWriter};
use vstd::prelude::*;
use vstd::slice::slice_to_vec;

verus! {

/// All that the bits of a value depend on besides the value.
pub struct Context {
    /// The settings handed to the operation.
    pub settings: Settings,
    /// The order of the stream.
    pub order: ByteOrder,
    /// The length announced for the field being processed, if any.
    pub length: Option<FieldLength>,
}

impl Context {
    /// A value on its own: no field before it has announced a length.
    pub open spec fn plain(settings: Settings, order: ByteOrder) -> Context {
        Context { settings, order, length: None }
    }

    /// A field of an aggregate, as a pass with `hints` sees it.
    pub open spec fn field(settings: Settings, order: ByteOrder, hints: Hints) -> Context {
        Context { settings, order, length: hints@.current_field_length() }
    }

    /// The same settings and stream for a value inside this one.
    pub open spec fn inner(self) -> Context {
        Context { length: None, ..self }
    }

    /// A stream of its own, made for the settings, for a value inside this one.
    pub open spec fn detached(self) -> Context {
        Context { settings: self.settings, order: self.settings.byte_order, length: None }
    }

    /// A stream of its own, made for the settings, for the same field: what
    /// is announced for the field still holds there.
    pub open spec fn apart(self) -> Context {
        Context { order: self.settings.byte_order, ..self }
    }
}

/// What a read must have done, given what the bits before it decode to.
pub open spec fn read_outcome<M>(
    got: Result<M, Failure>,
    before: BitReader,
    after: BitReader,
    expected: Result<(M, nat), Failure>,
) -> bool {
    match expected {
        Ok((m, n)) => {
            &&& got == Ok::<M, Failure>(m)
            &&& after.order() == before.order()
            &&& n <= before.remaining().len()
            &&& after.remaining() == before.remaining().skip(n as int)
        },
        Err(f) => got == Err::<M, Failure>(f),
    }
}

/// What a write must have done, given what the value encodes to.
pub open spec fn write_outcome(
    r: Result<(), Error>,
    before: BitWriter,
    after: BitWriter,
    expected: Result<Seq<bool>, Failure>,
) -> bool {
    &&& after.order() == before.order()
    &&& match expected {
        Ok(bits) => r is Ok && after.written() == before.written() + bits,
        Err(f) => r matches Err(e) && e@ == f,
    }
}

/// The bytes that hold `bits`, the last byte filled up with zero bits.
pub open spec fn padded_bytes(bits: Seq<bool>, order: ByteOrder) -> Seq<u8> {
    bits_bytes(bits + zero_bits(bits_to_boundary(bits.len())), order)
}

/// A type of values that can be read from and written to a bit stream.
///
/// The wire format of the type is given by two functions on mathematical
/// values, `encoding` and `decoding`; `read_field` and `write_field` do on a
/// stream what those say, and `lemma_round_trip` states that the two fit
/// together.
pub trait Protocol: Sized {
    /// The mathematical value that a value of the type stands for.
    type Model;

    /// The mathematical value of `self`.
    spec fn model(&self) -> Self::Model;

    /// The bits that `m` is written as, or why it cannot be written.
    spec fn encoding(m: Self::Model, cx: Context) -> Result<Seq<bool>, Failure>;

    /// The value at the front of `bits` with the number of bits that it
    /// takes, or why no value can be read there.
    spec fn decoding(bits: Seq<bool>, cx: Context) -> Result<(Self::Model, nat), Failure>;

    /// Whether a reader in the context `cx` expects `m` where a writer in
    /// that context has put it: the length that `cx` announces, if any, is the
    /// length of `m`, and `m` ends where the reader will take it to end.
    spec fn described(m: Self::Model, cx: Context) -> bool;

    /// A value on its own is written on a stream of any order as the bytes
    /// that it is written as on a stream in the byte order of the settings,
    /// and where it can be written it is one that a reader expects.
    proof fn lemma_plain(m: Self::Model, settings: Settings, order: ByteOrder)
        ensures
            in_bytes(
                Self::encoding(m, Context::plain(settings, settings.byte_order)),
                Self::encoding(m, Context::plain(settings, order)),
                settings.byte_order,
                order,
            ),
            Self::encoding(m, Context::plain(settings, order)) is Ok ==> Self::described(
                m,
                Context::plain(settings, order),
            ),
    ;

    /// A value takes no more bits than there are.
    proof fn lemma_decoding_fits(bits: Seq<bool>, cx: Context)
        ensures
            Self::decoding(bits, cx) matches Ok((_, n)) ==> n <= bits.len(),
    ;

    /// Decoding what was encoded gives the value back and stops right after
    /// it, whatever follows.
    proof fn lemma_round_trip(m: Self::Model, cx: Context, rest: Seq<bool>)
        requires
            Self::encoding(m, cx) is Ok,
            Self::described(m, cx),
        ensures
            Self::decoding(Self::encoding(m, cx)->Ok_0 + rest, cx) == Ok::<
                (Self::Model, nat),
                Failure,
            >((m, Self::encoding(m, cx)->Ok_0.len())),
    ;

    /// Reads a value that is a field of an aggregate.
    fn read_field(read: &mut BitReader, settings: &Settings, hints: &mut Hints) -> (r: Result<
        Self,
        Error,
    >)
        ensures
            final(hints)@ == old(hints)@,
            read_outcome(
                match r {
                    Ok(v) => Ok(v.model()),
                    Err(e) => Err(e@),
                },
                *old(read),
                *final(read),
                Self::decoding(
                    old(read).remaining(),
                    Context::field(*settings, old(read).order(), *old(hints)),
                ),
            ),
    ;

    /// Writes a value that is a field of an aggregate.
    fn write_field(&self, write: &mut BitWriter, settings: &Settings, hints: &mut Hints) -> (r:
        Result<(), Error>)
        ensures
            final(hints)@ == old(hints)@,
            write_outcome(
                r,
                *old(write),
                *final(write),
                Self::encoding(
                    self.model(),
                    Context::field(*settings, old(write).order(), *old(hints)),
                ),
            ),
    ;

    /// Reads a value on its own.
    fn read(read: &mut BitReader, settings: &Settings) -> (r: Result<Self, Error>)
        ensures
            read_outcome(
                match r {
                    Ok(v) => Ok(v.model()),
                    Err(e) => Err(e@),
                },
                *old(read),
                *final(read),
                Self::decoding(old(read).remaining(), Context::plain(*settings, old(read).order())),
            ),
    {
        let mut hints = Hints::default();
        Self::read_field(read, settings, &mut hints)
    }

    /// Writes a value on its own.
    fn write(&self, write: &mut BitWriter, settings: &Settings) -> (r: Result<(), Error>)
        ensures
            write_outcome(
                r,
                *old(write),
                *final(write),
                Self::encoding(self.model(), Context::plain(*settings, old(write).order())),
            ),
    {
        let mut hints = Hints::default();
        self.write_field(write, settings, &mut hints)
    }

    /// Parses a value from the bytes that hold it, in the byte order of the
    /// settings. Bytes after the value are ignored.
    fn from_bytes(bytes: &[u8], settings: &Settings) -> (r: Result<Self, Error>)
        ensures
            match Self::decoding(
                bytes_bits(bytes@, settings.byte_order),
                Context::plain(*settings, settings.byte_order),
            ) {
                Ok((m, _)) => r matches Ok(v) && v.model() == m,
                Err(f) => r matches Err(e) && e@ == f,
            },
    {
        let mut reader = BitReader::new(slice_to_vec(bytes), settings.byte_order);
        Self::read(&mut reader, settings)
    }

    /// The bytes of a value, in the byte order of the settings, the last
    /// byte filled up with zero bits.
    fn bytes(&self, settings: &Settings) -> (r: Result<Vec<u8>, Error>)
        ensures
            match Self::encoding(self.model(), Context::plain(*settings, settings.byte_order)) {
                Ok(bits) => r matches Ok(v) && v@ == padded_bytes(bits, settings.byte_order),
                Err(f) => r matches Err(e) && e@ == f,
            },
    {
        let mut writer = BitWriter::new(settings.byte_order);
        match self.write(&mut writer, settings) {
            Ok(()) => {
                writer.byte_align();
                proof {
                    let bits = Self::encoding(
                        self.model(),
                        Context::plain(*settings, settings.byte_order),
                    )->Ok_0;
                    assert(Seq::<bool>::empty() + bits =~= bits);
                }
                Ok(writer.into_bytes())
            },
            Err(e) => Err(e),
        }
    }
}

/// The bytes of a field written on a stream of its own, in the byte order of
/// the settings, the last byte filled up with zero bits. What the hints
/// announce for the field holds on that stream too.
pub fn field_bytes<T: Protocol>(value: &T, settings: &Settings, hints: &mut Hints) -> (r: Result<
    Vec<u8>,
    Error,
>)
    ensures
        final(hints)@ == old(hints)@,
        match T::encoding(
            value.model(),
            Context::field(*settings, settings.byte_order, *old(hints)),
        ) {
            Ok(bits) => r matches Ok(v) && v@ == padded_bytes(bits, settings.byte_order),
            Err(f) => r matches Err(e) && e@ == f,
        },
{
    let mut writer = BitWriter::new(settings.byte_order);
    match value.write_field(&mut writer, settings, hints) {
        Ok(()) => {
            writer.byte_align();
            proof {
                let bits = T::encoding(
                    value.model(),
                    Context::field(*settings, settings.byte_order, *old(hints)),
                )->Ok_0;
                assert(Seq::<bool>::empty() + bits =~= bits);
            }
            Ok(writer.into_bytes())
        },
        Err(e) => Err(e),
    }
}

/// A value written on its own is read back as written, on a stream of either
/// order, and what follows it is left unread. This holds of every type.
pub proof fn lemma_stream_round_trip<T: Protocol>(
    m: T::Model,
    settings: Settings,
    order: ByteOrder,
    rest: Seq<bool>,
)
    requires
        T::encoding(m, Context::plain(settings, order)) is Ok,
    ensures
        ({
            let cx = Context::plain(settings, order);
            T::decoding(T::encoding(m, cx)->Ok_0 + rest, cx) == Ok::<(T::Model, nat), Failure>(
                (m, T::encoding(m, cx)->Ok_0.len()),
            )
        }),
{
    T::lemma_plain(m, settings, order);
    T::lemma_round_trip(m, Context::plain(settings, order), rest);
}

/// Bytes made by `bytes` parse back, by `from_bytes` under the same settings,
/// to the value that they were made from. This holds of every type, in either
/// byte order.
pub proof fn lemma_bytes_round_trip<T: Protocol>(m: T::Model, settings: Settings)
    requires
        T::encoding(m, Context::plain(settings, settings.byte_order)) is Ok,
    ensures
        ({
            let cx = Context::plain(settings, settings.byte_order);
            let bits = T::encoding(m, cx)->Ok_0;
            T::decoding(bytes_bits(padded_bytes(bits, settings.byte_order), settings.byte_order), cx)
                == Ok::<(T::Model, nat), Failure>((m, bits.len()))
        }),
{
    let cx = Context::plain(settings, settings.byte_order);
    let bits = T::encoding(m, cx)->Ok_0;
    let pad = zero_bits(bits_to_boundary(bits.len()));
    T::lemma_plain(m, settings, settings.byte_order);
    lemma_bits_of_bytes(bits + pad, settings.byte_order);
    T::lemma_round_trip(m, cx, pad);
}

} // verus!
