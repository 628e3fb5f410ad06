//! Numbers as sequences of bits, and bytes as groups of eight of them.
//!
//! A stream is modelled as a `Seq<bool>` in the order in which the bits travel.
//! A big-endian stream sends the most significant bit of a number first, a
//! little-endian stream the least significant one.

use crate::error::Failure;
use crate::settings::ByteOrder;
use vstd::arithmetic::power2::{lemma2_to64, lemma_pow2_unfold, pow2};
use vstd::prelude::*;

verus! {

/// One bit as a number.
pub open spec fn bit(b: bool) -> nat {
    if b {
        1
    } else {
        0
    }
}

/// The number spelled by `bits`, the first bit being the most significant.
pub open spec fn big_value(bits: Seq<bool>) -> nat
    decreases bits.len(),
{
    if bits.len() == 0 {
        0
    } else {
        2 * big_value(bits.drop_last()) + bit(bits.last())
    }
}

/// The number spelled by `bits`, the first bit being the least significant.
pub open spec fn little_value(bits: Seq<bool>) -> nat
    decreases bits.len(),
{
    if bits.len() == 0 {
        0
    } else {
        bit(bits.first()) + 2 * little_value(bits.drop_first())
    }
}

/// The number spelled by `bits` on a stream of the given order.
pub open spec fn bits_value(bits: Seq<bool>, order: ByteOrder) -> nat {
    match order {
        ByteOrder::BigEndian => big_value(bits),
        ByteOrder::LittleEndian => little_value(bits),
    }
}

/// The low `n` bits of `v`, most significant first.
pub open spec fn big_bits(v: nat, n: nat) -> Seq<bool>
    decreases n,
{
    if n == 0 {
        Seq::empty()
    } else {
        big_bits(v / 2, (n - 1) as nat).push(v % 2 == 1)
    }
}

/// The low `n` bits of `v`, least significant first.
pub open spec fn little_bits(v: nat, n: nat) -> Seq<bool>
    decreases n,
{
    if n == 0 {
        Seq::empty()
    } else {
        seq![v % 2 == 1] + little_bits(v / 2, (n - 1) as nat)
    }
}

/// The low `n` bits of `v` as a stream of the given order sends them.
pub open spec fn value_bits(v: nat, n: nat, order: ByteOrder) -> Seq<bool> {
    match order {
        ByteOrder::BigEndian => big_bits(v, n),
        ByteOrder::LittleEndian => little_bits(v, n),
    }
}

/// `n` zero bits.
pub open spec fn zero_bits(n: nat) -> Seq<bool> {
    Seq::new(n, |i: int| false)
}

/// The bits of whole bytes, eight for each, as a stream of the given order
/// sends them.
pub open spec fn bytes_bits(bytes: Seq<u8>, order: ByteOrder) -> Seq<bool> {
    Seq::new(8 * bytes.len(), |i: int| value_bits(bytes[i / 8] as nat, 8, order)[i % 8])
}

/// The whole bytes that `bits` hold, a trailing group of fewer than eight
/// bits left out.
pub open spec fn bits_bytes(bits: Seq<bool>, order: ByteOrder) -> Seq<u8> {
    Seq::new(
        (bits.len() / 8) as nat,
        |j: int| bits_value(bits.subrange(8 * j, 8 * j + 8), order) as u8,
    )
}

/// How many zero bits bring a stream of `len` bits to a byte boundary.
pub open spec fn bits_to_boundary(len: nat) -> nat {
    ((8 - len % 8) % 8) as nat
}

pub proof fn lemma_value_bits_len(v: nat, n: nat, order: ByteOrder)
    ensures
        value_bits(v, n, order).len() == n,
    decreases n,
{
    if n > 0 {
        lemma_value_bits_len(v / 2, (n - 1) as nat, order);
    }
}

pub proof fn lemma_bits_value_bound(bits: Seq<bool>, order: ByteOrder)
    ensures
        bits_value(bits, order) < pow2(bits.len()),
    decreases bits.len(),
{
    if bits.len() == 0 {
        lemma2_to64();
    } else {
        lemma_pow2_unfold(bits.len());
        match order {
            ByteOrder::BigEndian => lemma_bits_value_bound(bits.drop_last(), order),
            ByteOrder::LittleEndian => lemma_bits_value_bound(bits.drop_first(), order),
        }
    }
}

/// Writing a number that fits and reading the bits back gives the number.
pub proof fn lemma_value_of_bits(v: nat, n: nat, order: ByteOrder)
    requires
        v < pow2(n),
    ensures
        bits_value(value_bits(v, n, order), order) == v,
    decreases n,
{
    if n == 0 {
        lemma2_to64();
    } else {
        lemma_pow2_unfold(n);
        let m = (n - 1) as nat;
        lemma_value_of_bits(v / 2, m, order);
        lemma_value_bits_len(v / 2, m, order);
        match order {
            ByteOrder::BigEndian => {
                let s = big_bits(v, n);
                assert(s.drop_last() =~= big_bits(v / 2, m));
            },
            ByteOrder::LittleEndian => {
                let s = little_bits(v, n);
                assert(s.drop_first() =~= little_bits(v / 2, m));
            },
        }
    }
}

/// Reading bits as a number and writing it in as many bits gives the bits.
pub proof fn lemma_bits_of_value(bits: Seq<bool>, order: ByteOrder)
    ensures
        value_bits(bits_value(bits, order), bits.len(), order) == bits,
    decreases bits.len(),
{
    if bits.len() > 0 {
        match order {
            ByteOrder::BigEndian => {
                let rest = bits.drop_last();
                lemma_bits_of_value(rest, order);
                assert(big_value(bits) / 2 == big_value(rest));
                assert(big_bits(big_value(bits), bits.len()) =~= bits);
            },
            ByteOrder::LittleEndian => {
                let rest = bits.drop_first();
                lemma_bits_of_value(rest, order);
                assert(little_value(bits) / 2 == little_value(rest));
                assert(little_bits(little_value(bits), bits.len()) =~= bits);
            },
        }
    } else {
        assert(value_bits(0, 0, order) =~= bits);
    }
}

/// The eight bits of byte `j` stand at `8 * j` in the bits of the bytes.
pub proof fn lemma_bytes_bits_at(bytes: Seq<u8>, order: ByteOrder, j: int)
    requires
        0 <= j < bytes.len(),
    ensures
        bytes_bits(bytes, order).subrange(8 * j, 8 * j + 8) == value_bits(
            bytes[j] as nat,
            8,
            order,
        ),
{
    lemma_value_bits_len(bytes[j] as nat, 8, order);
    assert(bytes_bits(bytes, order).subrange(8 * j, 8 * j + 8) =~= value_bits(
        bytes[j] as nat,
        8,
        order,
    ));
}

/// Whole bytes come back out of their bits.
pub proof fn lemma_bytes_of_bits(bytes: Seq<u8>, order: ByteOrder)
    ensures
        bits_bytes(bytes_bits(bytes, order), order) == bytes,
{
    let bits = bytes_bits(bytes, order);
    assert forall|j: int| 0 <= j < bytes.len() implies bits_bytes(bits, order)[j] == bytes[j] by {
        lemma_bytes_bits_at(bytes, order, j);
        lemma2_to64();
        lemma_value_of_bits(bytes[j] as nat, 8, order);
    }
    assert(bits_bytes(bits, order) =~= bytes);
}

/// A whole number of bytes' worth of bits comes back out of its bytes.
pub proof fn lemma_bits_of_bytes(bits: Seq<bool>, order: ByteOrder)
    requires
        bits.len() % 8 == 0,
    ensures
        bytes_bits(bits_bytes(bits, order), order) == bits,
{
    let bytes = bits_bytes(bits, order);
    assert forall|i: int| 0 <= i < bits.len() implies bytes_bits(bytes, order)[i] == bits[i] by {
        let j = i / 8;
        let group = bits.subrange(8 * j, 8 * j + 8);
        lemma_bits_value_bound(group, order);
        lemma2_to64();
        lemma_bits_of_value(group, order);
    }
    assert(bytes_bits(bytes, order) =~= bits);
}

/// The bits of two runs of bytes, one after the other.
pub proof fn lemma_bytes_bits_concat(a: Seq<u8>, b: Seq<u8>, order: ByteOrder)
    ensures
        bytes_bits(a + b, order) == bytes_bits(a, order) + bytes_bits(b, order),
{
    assert(bytes_bits(a + b, order) =~= bytes_bits(a, order) + bytes_bits(b, order));
}

/// The bits of a number sent in `width` bits by a type of `limit` bits. It
/// is `Io` where the width is more than the type has, or the number does not
/// fit the width.
pub open spec fn field_bits_encoding(v: int, width: nat, limit: nat, order: ByteOrder) -> Result<
    Seq<bool>,
    Failure,
> {
    if width <= limit && 0 <= v < pow2(width) {
        Ok(value_bits(v as nat, width, order))
    } else {
        Err(Failure::Io)
    }
}

/// The number in the next `width` bits, for a type of `limit` bits.
pub open spec fn field_bits_decoding(
    bits: Seq<bool>,
    width: nat,
    limit: nat,
    order: ByteOrder,
) -> Result<(int, nat), Failure> {
    if width <= limit && width <= bits.len() {
        Ok((bits_value(bits.take(width as int), order) as int, width))
    } else {
        Err(Failure::Io)
    }
}

/// A number that fits its width is read back as written.
pub proof fn lemma_field_bits_round_trip(
    v: int,
    width: nat,
    limit: nat,
    order: ByteOrder,
    rest: Seq<bool>,
)
    requires
        field_bits_encoding(v, width, limit, order) is Ok,
    ensures
        field_bits_decoding(
            field_bits_encoding(v, width, limit, order)->Ok_0 + rest,
            width,
            limit,
            order,
        ) == Ok::<(int, nat), Failure>((v, width)),
{
    let bits = value_bits(v as nat, width, order);
    lemma_value_bits_len(v as nat, width, order);
    assert((bits + rest).take(width as int) =~= bits);
    lemma_value_of_bits(v as nat, width, order);
}

/// Whether bits written on a stream of one order are the bytes that `own`
/// holds in another order: `own` is whole bytes in the order `home`, and
/// `there` is those bytes in the order `order`. Where nothing could be
/// written, nothing could be written there either, for the same reason.
pub open spec fn in_bytes(
    own: Result<Seq<bool>, Failure>,
    there: Result<Seq<bool>, Failure>,
    home: ByteOrder,
    order: ByteOrder,
) -> bool {
    match own {
        Ok(bits) => bits.len() % 8 == 0 && there == Ok::<Seq<bool>, Failure>(
            bytes_bits(bits_bytes(bits, home), order),
        ),
        Err(f) => there == Err::<Seq<bool>, Failure>(f),
    }
}

/// The bytes of two runs of whole bytes, one after the other.
pub proof fn lemma_bits_bytes_concat(a: Seq<bool>, b: Seq<bool>, order: ByteOrder)
    requires
        a.len() % 8 == 0,
        b.len() % 8 == 0,
    ensures
        (a + b).len() % 8 == 0,
        bits_bytes(a + b, order) == bits_bytes(a, order) + bits_bytes(b, order),
{
    let whole = bits_bytes(a + b, order);
    let parts = bits_bytes(a, order) + bits_bytes(b, order);
    let k = a.len() as int / 8;
    assert(whole.len() == parts.len());
    assert forall|j: int| 0 <= j < whole.len() implies whole[j] == parts[j] by {
        if j < k {
            assert((a + b).subrange(8 * j, 8 * j + 8) =~= a.subrange(8 * j, 8 * j + 8));
        } else {
            assert((a + b).subrange(8 * j, 8 * j + 8) =~= b.subrange(
                8 * (j - k),
                8 * (j - k) + 8,
            ));
        }
    }
    assert(whole =~= parts);
}

/// Two runs that are each the bytes of their own are together the bytes of
/// their own.
pub proof fn lemma_in_bytes_concat(
    a: Seq<bool>,
    b: Seq<bool>,
    home: ByteOrder,
    order: ByteOrder,
)
    requires
        a.len() % 8 == 0,
        b.len() % 8 == 0,
    ensures
        in_bytes(
            Ok(a + b),
            Ok(bytes_bits(bits_bytes(a, home), order) + bytes_bits(bits_bytes(b, home), order)),
            home,
            order,
        ),
{
    lemma_bits_bytes_concat(a, b, home);
    lemma_bytes_bits_concat(bits_bytes(a, home), bits_bytes(b, home), order);
}

} // verus!
