//! Values padded with zero bytes to a multiple of a unit.

use crate::bits::{
    bits_bytes, bits_to_boundary, bits_value, bytes_bits, in_bytes, lemma_bytes_bits_at,
    lemma_bytes_bits_concat, lemma_bytes_of_bits, lemma_value_bits_len, lemma_value_of_bits,
    zero_bits,
};
use crate::error::{Error, Failure};
use crate::hint::Hints;
use crate::protocol::{field_bytes, padded_bytes, Context, Protocol};
use crate::settings::{ByteOrder, Settings};
use crate::stream::{BitReader, BitWriter};
use vstd::arithmetic::div_mod::{
    lemma_fundamental_div_mod, lemma_mod_multiples_basic, lemma_small_mod,
};
use vstd::arithmetic::power2::lemma2_to64;
use vstd::layout::size_of;
use vstd::prelude::*;
use vstd::std_specs::convert::FromSpecImpl;

verus! {

/// How many bytes bring `size` bytes to a multiple of `unit`.
pub open spec fn padding(unit: nat, size: nat) -> nat {
    ((unit - size % unit) % (unit as int)) as nat
}

/// `count` bytes of the same value.
pub open spec fn fill(count: nat, byte: u8) -> Seq<u8> {
    Seq::new(count, |i: int| byte)
}

/// The padding makes the size a multiple of the unit, and is the least
/// that does.
pub proof fn lemma_padding_aligns(unit: nat, size: nat)
    requires
        unit > 0,
    ensures
        padding(unit, size) < unit,
        (size + padding(unit, size)) % unit == 0,
        size % unit == 0 ==> padding(unit, size) == 0,
{
    let r = size % unit;
    lemma_fundamental_div_mod(size as int, unit as int);
    if r == 0 {
        assert((unit as int) % (unit as int) == 0) by {
            lemma_mod_multiples_basic(1, unit as int);
        }
    } else {
        lemma_small_mod((unit - r) as nat, unit);
        let q = size as int / unit as int;
        assert(size + (unit - r) == (q + 1) * unit) by (nonlinear_arith)
            requires
                size == unit * q + r,
        ;
        lemma_mod_multiples_basic(q + 1, unit as int);
    }
}

/// The number of bytes that bring `unaligned_size` bytes to a multiple of
/// `align_to`.
pub fn calculate_padding(align_to: usize, unaligned_size: usize) -> (p: usize)
    requires
        align_to > 0,
    ensures
        p == padding(align_to as nat, unaligned_size as nat),
        p < align_to,
        (unaligned_size + p) % (align_to as int) == 0,
{
    proof {
        lemma_padding_aligns(align_to as nat, unaligned_size as nat);
    }
    (align_to - (unaligned_size % align_to)) % align_to
}

/// The bytes followed by as few padding bytes as make their number a
/// multiple of `align_to`.
pub fn align_to(alignment: usize, padding_byte: u8, bytes: Vec<u8>) -> (aligned: Vec<u8>)
    requires
        alignment > 0,
    ensures
        aligned@ == bytes@ + fill(padding(alignment as nat, bytes@.len()), padding_byte),
        aligned@.len() as int % (alignment as int) == 0,
{
    let extra_padding_needed = calculate_padding(alignment, bytes.len());
    let ghost start = bytes@;
    let mut bytes = bytes;
    let mut i: usize = 0;
    proof {
        assert(start + fill(0, padding_byte) =~= start);
    }
    while i < extra_padding_needed
        invariant
            i <= extra_padding_needed,
            bytes@ == start + fill(i as nat, padding_byte),
        decreases extra_padding_needed - i,
    {
        bytes.push(padding_byte);
        proof {
            assert(bytes@ =~= start + fill((i + 1) as nat, padding_byte));
        }
        i = i + 1;
    }
    bytes
}

/// The bits that `count` padding bytes at the front of `bits` take. It is
/// `Io` where the bits end before the padding does, and `NonZeroPadding`
/// at the first byte of it that is not zero.
pub open spec fn padding_decoding(bits: Seq<bool>, count: nat, order: ByteOrder) -> Result<
    nat,
    Failure,
>
    decreases count,
{
    if count == 0 {
        Ok(0)
    } else if bits.len() < 8 {
        Err(Failure::Io)
    } else if bits_value(bits.subrange(0, 8), order) != 0 {
        Err(Failure::NonZeroPadding)
    } else {
        match padding_decoding(bits.skip(8), (count - 1) as nat, order) {
            Ok(n) => Ok(8 + n),
            Err(f) => Err(f),
        }
    }
}

/// Bits already passed, added to what the rest of the padding takes.
pub open spec fn after_padding(used: nat, rest: Result<nat, Failure>) -> Result<nat, Failure> {
    match rest {
        Ok(n) => Ok(used + n),
        Err(f) => Err(f),
    }
}

/// Zero bytes are accepted as padding, whatever follows them.
pub proof fn lemma_padding_round_trip(count: nat, order: ByteOrder, rest: Seq<bool>)
    ensures
        padding_decoding(bytes_bits(fill(count, 0), order) + rest, count, order) == Ok::<
            nat,
            Failure,
        >(8 * count),
    decreases count,
{
    if count > 0 {
        let less = (count - 1) as nat;
        let first = bytes_bits(fill(1, 0), order);
        let others = bytes_bits(fill(less, 0), order);
        let bits = bytes_bits(fill(count, 0), order) + rest;
        assert(fill(count, 0) =~= fill(1, 0) + fill(less, 0));
        lemma_bytes_bits_concat(fill(1, 0), fill(less, 0), order);
        lemma_bytes_bits_at(fill(1, 0), order, 0);
        lemma_value_bits_len(0, 8, order);
        assert(first =~= first.subrange(0, 8));
        assert(bits =~= first + (others + rest));
        assert(bits.subrange(0, 8) =~= first);
        assert(bits.skip(8) =~= others + rest);
        lemma2_to64();
        lemma_value_of_bits(0, 8, order);
        lemma_padding_round_trip(less, order, rest);
    }
}

/// A byte of the padding that is not zero, all of the padding being there,
/// makes the padding `NonZeroPadding`.
pub proof fn lemma_padding_rejects_nonzero(bits: Seq<bool>, count: nat, order: ByteOrder, at: nat)
    requires
        8 * count <= bits.len(),
        at < count,
        bits_value(bits.subrange(8 * at as int, 8 * at as int + 8), order) != 0,
    ensures
        padding_decoding(bits, count, order) == Err::<nat, Failure>(Failure::NonZeroPadding),
    decreases count,
{
    if bits_value(bits.subrange(0, 8), order) == 0 {
        assert(at > 0);
        assert(bits.skip(8).subrange(8 * (at - 1), 8 * (at - 1) + 8) =~= bits.subrange(
            8 * at as int,
            8 * at as int + 8,
        ));
        lemma_padding_rejects_nonzero(bits.skip(8), (count - 1) as nat, order, (at - 1) as nat);
    }
}

/// The number of whole bytes that `bits` fill, the last one filled up.
pub open spec fn byte_size(bits: Seq<bool>) -> nat {
    ((bits.len() + bits_to_boundary(bits.len())) / 8) as nat
}

/// The bits of a value aligned to `unit` bytes: its bytes as written on a
/// stream of their own under the settings, with the length that is announced
/// for the field if one is, then zero bytes up to a multiple of the unit.
pub open spec fn aligned_encoding<T: Protocol>(m: T::Model, unit: nat, cx: Context) -> Result<
    Seq<bool>,
    Failure,
> {
    if unit == 0 {
        Err(Failure::InvalidConfiguration)
    } else {
        match T::encoding(m, cx.apart()) {
            Ok(bits) => Ok(
                bytes_bits(
                    padded_bytes(bits, cx.settings.byte_order) + fill(
                        padding(unit, byte_size(bits)),
                        0,
                    ),
                    cx.order,
                ),
            ),
            Err(f) => Err(f),
        }
    }
}

/// The aligned value at the front of `bits`: the value, read with the length
/// that is announced for the field if one is, then the padding that its size
/// as written asks for.
pub open spec fn aligned_decoding<T: Protocol>(bits: Seq<bool>, unit: nat, cx: Context) -> Result<
    (T::Model, nat),
    Failure,
> {
    if unit == 0 {
        Err(Failure::InvalidConfiguration)
    } else {
        match T::decoding(bits, cx) {
            Ok((m, n)) => match T::encoding(m, cx.apart()) {
                Ok(again) => match padding_decoding(
                    bits.skip(n as int),
                    padding(unit, byte_size(again)),
                    cx.order,
                ) {
                    Ok(k) => Ok((m, n + k)),
                    Err(f) => Err(f),
                },
                Err(f) => Err(f),
            },
            Err(f) => Err(f),
        }
    }
}

/// A value that is sent in a multiple of the size of `ToSizeOfType` bytes.
///
/// Written, the value is followed by as few zero bytes as bring its size to
/// such a multiple. Read, those bytes are taken off and must be zero.
pub struct Aligned<T: Protocol, ToSizeOfType: Sized> {
    /// The inner value.
    pub value: T,
    /// Only holds the type that gives the unit.
    pub _phantom: std::marker::PhantomData<ToSizeOfType>,
}

impl<T: Protocol, ToSizeOfType: Sized> Aligned<T, ToSizeOfType> {
    /// An aligned value.
    pub fn new(value: T) -> (aligned: Self)
        ensures
            aligned.value == value,
    {
        Aligned { value, _phantom: std::marker::PhantomData }
    }

    /// The number of bytes of the unit.
    pub fn alignment_bytes() -> (unit: usize)
        ensures
            unit == size_of::<ToSizeOfType>(),
    {
        core::mem::size_of::<ToSizeOfType>()
    }
}

impl<T: Protocol, ToSizeOfType: Sized> From<T> for Aligned<T, ToSizeOfType> {
    fn from(value: T) -> (aligned: Self) {
        Aligned { value, _phantom: std::marker::PhantomData }
    }
}

impl<T: Protocol, ToSizeOfType: Sized> FromSpecImpl<T> for Aligned<T, ToSizeOfType> {
    open spec fn obeys_from_spec() -> bool {
        true
    }

    open spec fn from_spec(value: T) -> Self {
        Aligned { value, _phantom: std::marker::PhantomData }
    }
}

impl<T: Protocol, ToSizeOfType: Sized> Protocol for Aligned<T, ToSizeOfType> {
    type Model = T::Model;

    open spec fn model(&self) -> T::Model {
        self.value.model()
    }

    open spec fn encoding(m: T::Model, cx: Context) -> Result<Seq<bool>, Failure> {
        aligned_encoding::<T>(m, size_of::<ToSizeOfType>(), cx)
    }

    open spec fn decoding(bits: Seq<bool>, cx: Context) -> Result<(T::Model, nat), Failure> {
        aligned_decoding::<T>(bits, size_of::<ToSizeOfType>(), cx)
    }

    /// A reader expects the value alone, which is written on the stream as
    /// the whole bytes that it is written as on a stream of its own.
    open spec fn described(m: T::Model, cx: Context) -> bool {
        &&& T::described(m, cx)
        &&& T::encoding(m, cx.apart()) is Ok
        &&& in_bytes(
            T::encoding(m, cx.apart()),
            T::encoding(m, cx),
            cx.settings.byte_order,
            cx.order,
        )
    }

    proof fn lemma_plain(m: T::Model, settings: Settings, order: ByteOrder) {
        let home = Context::plain(settings, settings.byte_order);
        T::lemma_plain(m, settings, order);
        if size_of::<ToSizeOfType>() > 0 {
            if let Ok(bits) = T::encoding(m, home) {
                let bytes = padded_bytes(bits, settings.byte_order) + fill(
                    padding(size_of::<ToSizeOfType>(), byte_size(bits)),
                    0,
                );
                lemma_bytes_of_bits(bytes, settings.byte_order);
            }
        }
    }

    proof fn lemma_decoding_fits(bits: Seq<bool>, cx: Context) {
        let unit = size_of::<ToSizeOfType>();
        T::lemma_decoding_fits(bits, cx);
        if unit > 0 {
            if let Ok((m, n)) = T::decoding(bits, cx) {
                if let Ok(again) = T::encoding(m, cx.apart()) {
                    lemma_padding_decoding_fits(
                        bits.skip(n as int),
                        padding(unit, byte_size(again)),
                        cx.order,
                    );
                }
            }
        }
    }

    proof fn lemma_round_trip(m: T::Model, cx: Context, rest: Seq<bool>) {
        let unit = size_of::<ToSizeOfType>();
        let home = cx.settings.byte_order;
        let own = T::encoding(m, cx.apart())->Ok_0;
        let bytes = bits_bytes(own, home);
        let there = T::encoding(m, cx)->Ok_0;
        let count = padding(unit, byte_size(own));
        let zeros = bytes_bits(fill(count, 0), cx.order);
        assert(own + zero_bits(bits_to_boundary(own.len())) =~= own);
        assert(padded_bytes(own, home) == bytes);
        lemma_bytes_bits_concat(bytes, fill(count, 0), cx.order);
        T::lemma_round_trip(m, cx, zeros + rest);
        assert((there + zeros) + rest =~= there + (zeros + rest));
        assert((there + (zeros + rest)).skip(there.len() as int) =~= zeros + rest);
        lemma_padding_round_trip(count, cx.order, rest);
    }

    #[verifier::loop_isolation(false)]
    fn read_field(read: &mut BitReader, settings: &Settings, hints: &mut Hints) -> (r: Result<
        Self,
        Error,
    >)
        ensures
            size_of::<ToSizeOfType>() == 0 ==> final(read).remaining() == old(read).remaining(),
    {
        let unit = Self::alignment_bytes();
        if unit == 0 {
            return Err(Error::InvalidConfiguration);
        }
        let ghost start = read.remaining();
        let ghost order = read.order();
        let inner_value = match T::read_field(read, settings, hints) {
            Ok(value) => value,
            Err(e) => {
                return Err(e);
            },
        };
        let value_size: usize = match field_bytes(&inner_value, settings, hints) {
            Ok(bytes) => bytes.len(),
            Err(e) => {
                return Err(e);
            },
        };
        let padding_size = calculate_padding(unit, value_size);
        let ghost taken = T::decoding(start, Context::field(*settings, order, *hints))->Ok_0.1;
        let ghost tail = read.remaining();
        let ghost whole = padding_decoding(tail, padding_size as nat, order);
        let mut i: usize = 0;
        proof {
            assert(tail.skip(0) =~= tail);
        }
        while i < padding_size
            invariant
                i <= padding_size,
                read.order() == order,
                8 * i <= tail.len(),
                read.remaining() == tail.skip(8 * i),
                whole == padding_decoding(tail, padding_size as nat, order),
                whole == after_padding(
                    (8 * i) as nat,
                    padding_decoding(read.remaining(), (padding_size - i) as nat, order),
                ),
            decreases padding_size - i,
        {
            let padding_byte = match read.read_u8() {
                Ok(byte) => byte,
                Err(e) => {
                    return Err(e);
                },
            };
            if padding_byte != 0x00 {
                return Err(Error::NonZeroPadding);
            }
            proof {
                assert(tail.skip(8 * i).skip(8) =~= tail.skip(8 * (i + 1)));
            }
            i = i + 1;
        }
        proof {
            assert(start.skip(taken as int).skip(8 * padding_size) =~= start.skip(
                (taken + 8 * padding_size) as int,
            ));
        }
        Ok(Aligned { value: inner_value, _phantom: std::marker::PhantomData })
    }

    fn write_field(&self, write: &mut BitWriter, settings: &Settings, hints: &mut Hints) -> (r:
        Result<(), Error>)
        ensures
            r is Err ==> final(write).written() == old(write).written(),
    {
        let unit = Self::alignment_bytes();
        if unit == 0 {
            return Err(Error::InvalidConfiguration);
        }
        let unaligned_bytes = match field_bytes(&self.value, settings, hints) {
            Ok(bytes) => bytes,
            Err(e) => {
                return Err(e);
            },
        };
        let aligned_bytes = align_to(unit, 0x00, unaligned_bytes);
        write.write_bytes(aligned_bytes.as_slice());
        Ok(())
    }
}

/// Padding takes no more bits than there are.
pub proof fn lemma_padding_decoding_fits(bits: Seq<bool>, count: nat, order: ByteOrder)
    ensures
        padding_decoding(bits, count, order) matches Ok(n) ==> n == 8 * count && n <= bits.len(),
    decreases count,
{
    if count > 0 && bits.len() >= 8 {
        lemma_padding_decoding_fits(bits.skip(8), (count - 1) as nat, order);
    }
}

/// An aligned value is written in a multiple of the unit: its own bytes and
/// then as few zero bytes as bring them to one.
pub proof fn lemma_aligned_size<T: Protocol>(m: T::Model, unit: nat, cx: Context)
    requires
        unit > 0,
        T::encoding(m, cx.apart()) is Ok,
    ensures
        ({
            let size = byte_size(T::encoding(m, cx.apart())->Ok_0);
            &&& aligned_encoding::<T>(m, unit, cx) matches Ok(bits) && bits.len() == 8 * (size
                + padding(unit, size))
            &&& padding(unit, size) == ((unit - size % unit) % (unit as int)) as nat
            &&& (size + padding(unit, size)) % unit == 0
        }),
{
    let size = byte_size(T::encoding(m, cx.apart())->Ok_0);
    lemma_padding_aligns(unit, size);
}

/// A byte of the padding after an aligned value that is not zero, all of
/// the padding being there, makes the read fail with `NonZeroPadding`.
pub proof fn lemma_aligned_rejects_nonzero_padding<T: Protocol>(
    bits: Seq<bool>,
    unit: nat,
    cx: Context,
    at: nat,
)
    requires
        unit > 0,
        T::decoding(bits, cx) matches Ok((m, n)) && (T::encoding(m, cx.apart())
            matches Ok(again) && {
            let count = padding(unit, byte_size(again));
            &&& n + 8 * count <= bits.len()
            &&& at < count
            &&& bits_value(bits.subrange(n + 8 * at as int, n + 8 * at as int + 8), cx.order) != 0
        }),
    ensures
        aligned_decoding::<T>(bits, unit, cx) == Err::<(T::Model, nat), Failure>(
            Failure::NonZeroPadding,
        ),
{
    let (m, n) = T::decoding(bits, cx)->Ok_0;
    let again = T::encoding(m, cx.apart())->Ok_0;
    let count = padding(unit, byte_size(again));
    let tail = bits.skip(n as int);
    assert(tail.subrange(8 * at as int, 8 * at as int + 8) =~= bits.subrange(
        n + 8 * at as int,
        n + 8 * at as int + 8,
    ));
    lemma_padding_rejects_nonzero(tail, count, cx.order, at);
}

} // verus!
