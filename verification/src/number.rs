//! Whole numbers as runs of bytes in either byte order.

use crate::settings::ByteOrder;
use vstd::arithmetic::power2::{lemma2_to64, lemma_pow2_adds, lemma_pow2_pos, pow2};
use vstd::prelude::*;

verus! {

/// The number spelled by `bytes`, the first byte being the least significant.
pub open spec fn little_bytes_value(bytes: Seq<u8>) -> nat
    decreases bytes.len(),
{
    if bytes.len() == 0 {
        0
    } else {
        bytes.first() as nat + 256 * little_bytes_value(bytes.drop_first())
    }
}

/// The number spelled by `bytes` in the given byte order.
pub open spec fn bytes_value(bytes: Seq<u8>, order: ByteOrder) -> nat {
    match order {
        ByteOrder::BigEndian => little_bytes_value(bytes.reverse()),
        ByteOrder::LittleEndian => little_bytes_value(bytes),
    }
}

/// The low `count` bytes of `v`, least significant first.
pub open spec fn little_bytes(v: nat, count: nat) -> Seq<u8>
    decreases count,
{
    if count == 0 {
        Seq::empty()
    } else {
        seq![(v % 256) as u8] + little_bytes(v / 256, (count - 1) as nat)
    }
}

/// The low `count` bytes of `v` in the given byte order.
pub open spec fn value_bytes(v: nat, count: nat, order: ByteOrder) -> Seq<u8> {
    match order {
        ByteOrder::BigEndian => little_bytes(v, count).reverse(),
        ByteOrder::LittleEndian => little_bytes(v, count),
    }
}

/// The number of values that `count` bytes can hold.
pub open spec fn span(count: nat) -> nat {
    pow2(8 * count)
}

pub proof fn lemma_span_step(count: nat)
    ensures
        span(count + 1) == 256 * span(count),
        span(count) > 0,
        span(0) == 1,
{
    lemma2_to64();
    lemma_pow2_adds(8 * count, 8);
    lemma_pow2_pos(8 * count);
}

/// The spans of one to eight bytes.
pub proof fn lemma_spans()
    ensures
        span(1) == 0x100,
        span(2) == 0x10000,
        span(3) == 0x1000000,
        span(4) == 0x100000000,
        span(5) == 0x10000000000,
        span(6) == 0x1000000000000,
        span(7) == 0x100000000000000,
        span(8) == 0x10000000000000000,
{
    lemma2_to64();
    lemma_span_step(4);
    lemma_span_step(5);
    lemma_span_step(6);
    lemma_span_step(7);
}

pub proof fn lemma_little_bytes_len(v: nat, count: nat)
    ensures
        little_bytes(v, count).len() == count,
    decreases count,
{
    if count > 0 {
        lemma_little_bytes_len(v / 256, (count - 1) as nat);
    }
}

pub proof fn lemma_value_bytes_len(v: nat, count: nat, order: ByteOrder)
    ensures
        value_bytes(v, count, order).len() == count,
{
    lemma_little_bytes_len(v, count);
}

pub proof fn lemma_little_bytes_value_bound(bytes: Seq<u8>)
    ensures
        little_bytes_value(bytes) < span(bytes.len()),
    decreases bytes.len(),
{
    if bytes.len() == 0 {
        lemma_span_step(0);
    } else {
        lemma_little_bytes_value_bound(bytes.drop_first());
        lemma_span_step((bytes.len() - 1) as nat);
    }
}

pub proof fn lemma_bytes_value_bound(bytes: Seq<u8>, order: ByteOrder)
    ensures
        bytes_value(bytes, order) < span(bytes.len()),
{
    lemma_little_bytes_value_bound(bytes);
    lemma_little_bytes_value_bound(bytes.reverse());
}

proof fn lemma_little_value_of_bytes(v: nat, count: nat)
    requires
        v < span(count),
    ensures
        little_bytes_value(little_bytes(v, count)) == v,
    decreases count,
{
    if count == 0 {
        lemma_span_step(0);
    } else {
        let rest = (count - 1) as nat;
        lemma_span_step(rest);
        lemma_little_value_of_bytes(v / 256, rest);
        assert(little_bytes(v, count).drop_first() =~= little_bytes(v / 256, rest));
    }
}

/// A number that fits comes back out of its bytes.
pub proof fn lemma_value_of_bytes(v: nat, count: nat, order: ByteOrder)
    requires
        v < span(count),
    ensures
        bytes_value(value_bytes(v, count, order), order) == v,
{
    lemma_little_value_of_bytes(v, count);
    assert(little_bytes(v, count).reverse().reverse() =~= little_bytes(v, count));
}

/// The number that up to eight bytes spell.
pub fn number_from_bytes(bytes: &[u8], order: ByteOrder) -> (v: u64)
    requires
        bytes@.len() <= 8,
    ensures
        v == bytes_value(bytes@, order),
{
    let count: usize = bytes.len();
    let ghost digits = match order {
        ByteOrder::BigEndian => bytes@.reverse(),
        ByteOrder::LittleEndian => bytes@,
    };
    let mut acc: u64 = 0;
    let mut left: usize = count;
    proof {
        assert(digits.skip(count as int) =~= Seq::<u8>::empty());
    }
    while left > 0
        invariant
            count == bytes@.len(),
            count <= 8,
            left <= count,
            digits.len() == count,
            order == ByteOrder::BigEndian ==> digits == bytes@.reverse(),
            order == ByteOrder::LittleEndian ==> digits == bytes@,
            acc == little_bytes_value(digits.skip(left as int)),
        decreases left,
    {
        left = left - 1;
        let digit: u8 = match order {
            ByteOrder::BigEndian => bytes[count - 1 - left],
            ByteOrder::LittleEndian => bytes[left],
        };
        proof {
            let tail = digits.skip(left as int);
            assert(tail.drop_first() =~= digits.skip(left + 1));
            assert(tail.first() == digit);
            lemma_little_bytes_value_bound(tail);
            lemma_spans();
            lemma_span_step(0);
            let n = tail.len();
            assert(n <= 8);
            assert(span(n) <= span(8)) by {
                if n < 8 {
                    vstd::arithmetic::power2::lemma_pow2_strictly_increases(8 * n, 64);
                }
            }
        }
        acc = acc * 256 + digit as u64;
    }
    proof {
        assert(digits.skip(0) =~= digits);
    }
    acc
}

/// The low `count` bytes of `v`.
pub fn number_to_bytes(v: u64, count: usize, order: ByteOrder) -> (bytes: Vec<u8>)
    requires
        count <= 8,
    ensures
        bytes@ == value_bytes(v as nat, count as nat, order),
{
    let mut digits: Vec<u8> = Vec::new();
    let mut left: u64 = v;
    let mut i: usize = 0;
    while i < count
        invariant
            i <= count,
            digits@.len() == i,
            little_bytes(v as nat, count as nat) == digits@ + little_bytes(
                left as nat,
                (count - i) as nat,
            ),
        decreases count - i,
    {
        proof {
            let tail = little_bytes(left as nat, (count - i) as nat);
            assert(tail == seq![(left % 256) as u8] + little_bytes(
                (left / 256) as nat,
                (count - i - 1) as nat,
            ));
            assert(digits@.push((left % 256) as u8) + little_bytes(
                (left / 256) as nat,
                (count - i - 1) as nat,
            ) =~= digits@ + tail);
        }
        digits.push((left % 256) as u8);
        left = left / 256;
        i = i + 1;
    }
    proof {
        assert(digits@ + little_bytes(left as nat, 0) =~= digits@);
    }
    match order {
        ByteOrder::LittleEndian => digits,
        ByteOrder::BigEndian => {
            let mut bytes: Vec<u8> = Vec::new();
            let mut j: usize = 0;
            while j < count
                invariant
                    j <= count,
                    digits@.len() == count,
                    bytes@ == digits@.reverse().take(j as int),
                decreases count - j,
            {
                bytes.push(digits[count - 1 - j]);
                proof {
                    assert(bytes@ =~= digits@.reverse().take(j + 1));
                }
                j = j + 1;
            }
            proof {
                assert(digits@.reverse().take(count as int) =~= digits@.reverse());
            }
            bytes
        },
    }
}

} // verus!
