//! Byte-order strategies for loading and storing integer fields of 1 to 32
//! bits at bit granularity.

use crate::bit_types::BitVec;
use crate::bitmath::{
    be_bits, be_value, bits_of_bytes, byte_bits, le_bits, le_value, lemma_be_bits_low_byte,
    lemma_be_bits_split_top, lemma_be_round_trip, lemma_be_value_bound, lemma_be_value_concat_byte,
    lemma_be_value_step, lemma_bits_of_bytes_push, lemma_byte_bits_value, lemma_le_bits_len,
    lemma_le_round_trip, lemma_le_value_bound,
};
use vstd::arithmetic::power2::pow2;
use vstd::prelude::*;

verus! {

/// Loading and storing an integer field into and out of a run of bits,
/// parameterized by byte order. `field_value` is what a bit run means as a
/// number; `field_bits` is how a number is laid out as bits of a given width.
pub trait ByteOrder {
    spec fn field_value(s: Seq<bool>) -> nat;

    spec fn field_bits(v: u32, n: nat) -> Seq<bool>;

    proof fn lemma_field_bits_len(v: u32, n: nat)
        ensures
            Self::field_bits(v, n).len() == n,
    ;

    proof fn lemma_field_value_bound(s: Seq<bool>)
        ensures
            Self::field_value(s) < pow2(s.len()),
    ;

    /// Round trip: for any width up to 32 and any representable value,
    /// loading a stored field gives the value back.
    proof fn lemma_field_round_trip(v: u32, n: nat)
        requires
            n <= 32,
            v < pow2(n),
        ensures
            Self::field_value(Self::field_bits(v, n)) == v,
    ;

    /// Reads the whole bit vector as one field.
    fn load(src: &BitVec) -> (r: u32)
        requires
            src.wf(),
            src@.len() <= 32,
        ensures
            r as nat == Self::field_value(src@),
    ;

    /// Overwrites the whole bit vector with the field's bits; the vector's
    /// length picks the field width.
    fn store(dest: &mut BitVec, value: u32)
        requires
            old(dest).wf(),
            old(dest)@.len() <= 32,
        ensures
            final(dest).wf(),
            final(dest)@ == Self::field_bits(value, old(dest)@.len()),
    ;

    /// Byte-aligned accelerated load of a 16-bit field; bit-identical to the
    /// generic path by the shared `field_value` contract.
    fn load_u16(src: &[u8]) -> (r: u16)
        requires
            src@.len() == 2,
        ensures
            r as nat == Self::field_value(bits_of_bytes(src@)),
    ;

    /// Byte-aligned accelerated load of a 24-bit field.
    fn load_u24(src: &[u8]) -> (r: u32)
        requires
            src@.len() == 3,
        ensures
            r as nat == Self::field_value(bits_of_bytes(src@)),
    ;

    /// Byte-aligned accelerated load of a 32-bit field.
    fn load_u32(src: &[u8]) -> (r: u32)
        requires
            src@.len() == 4,
        ensures
            r as nat == Self::field_value(bits_of_bytes(src@)),
    ;

    /// Byte-aligned accelerated store of a 16-bit field into the front of
    /// `dest`; the bytes beyond it keep their values.
    fn store_u16(dest: &mut Vec<u8>, value: u16)
        requires
            old(dest)@.len() >= 2,
        ensures
            final(dest)@.len() == old(dest)@.len(),
            bits_of_bytes(final(dest)@.take(2)) == Self::field_bits(value as u32, 16),
            final(dest)@.skip(2) == old(dest)@.skip(2),
    ;

    /// Byte-aligned accelerated store of a 24-bit field into the front of
    /// `dest`; the bytes beyond it keep their values.
    fn store_u24(dest: &mut Vec<u8>, value: u32)
        requires
            old(dest)@.len() >= 3,
            value < 0x1000000,
        ensures
            final(dest)@.len() == old(dest)@.len(),
            bits_of_bytes(final(dest)@.take(3)) == Self::field_bits(value, 24),
            final(dest)@.skip(3) == old(dest)@.skip(3),
    ;

    /// Byte-aligned accelerated store of a 32-bit field into the front of
    /// `dest`; the bytes beyond it keep their values.
    fn store_u32(dest: &mut Vec<u8>, value: u32)
        requires
            old(dest)@.len() >= 4,
        ensures
            final(dest)@.len() == old(dest)@.len(),
            bits_of_bytes(final(dest)@.take(4)) == Self::field_bits(value, 32),
            final(dest)@.skip(4) == old(dest)@.skip(4),
    ;
}

/// Bit 0 of the field is the most significant bit of the value.
pub struct BigEndian {}

/// The field splits into its bytes in little-endian order; within each byte
/// (and a left-aligned partial final byte) bits stay most significant first.
pub struct LittleEndian {}

/// Network byte order is big-endian.
pub type NetworkOrder = BigEndian;

/// Reads `n` bits starting at `start` as a big-endian field.
pub(crate) fn load_be_span(src: &BitVec, start: usize, n: usize) -> (r: u32)
    requires
        src.wf(),
        n <= 32,
        start + n <= src@.len(),
    ensures
        r as nat == be_value(src@.subrange(start as int, (start + n) as int)),
{
    proof {
        src.lemma_len_ok();
    }
    let ghost s = src@.subrange(start as int, (start + n) as int);
    let mut acc: u32 = 0;
    let mut i: usize = 0;
    while i < n
        invariant
            src.wf(),
            n <= 32,
            start + n <= src@.len(),
            src@.len() <= usize::MAX,
            s == src@.subrange(start as int, (start + n) as int),
            i <= n,
            acc as nat == be_value(s.take(i as int)),
        decreases n - i,
    {
        proof {
            lemma_be_value_bound(s.take(i as int));
            if (i as nat) < 31 {
                vstd::arithmetic::power2::lemma_pow2_strictly_increases(i as nat, 31);
            }
            vstd::arithmetic::power2::lemma2_to64();
            lemma_be_value_step(s, i as int);
        }
        let b = src.at(start + i);
        acc = acc * 2 + (if b {
            1
        } else {
            0
        });
        i = i + 1;
    }
    proof {
        assert(s.take(n as int) =~= s);
    }
    acc
}

/// Overwrites `n` bits starting at `start` with the big-endian bits of
/// `value`; everything outside that range keeps its value.
pub(crate) fn store_be_span(dest: &mut BitVec, start: usize, n: usize, value: u32)
    requires
        old(dest).wf(),
        n <= 32,
        start + n <= old(dest)@.len(),
    ensures
        final(dest).wf(),
        final(dest)@ =~= old(dest)@.take(start as int) + be_bits(value, n as nat) + old(
            dest,
        )@.skip((start + n) as int),
{
    proof {
        dest.lemma_len_ok();
    }
    let mut i: usize = 0;
    while i < n
        invariant
            dest.wf(),
            n <= 32,
            start + n <= dest@.len(),
            dest@.len() <= usize::MAX,
            dest@.len() == old(dest)@.len(),
            i <= n,
            forall|m: int|
                0 <= m < dest@.len() && !(start <= m < start + i) ==> dest@[m] == old(dest)@[m],
            forall|m: int| start <= m < start + i ==> dest@[m] == be_bits(value, n as nat)[m - start],
        decreases n - i,
    {
        let shift = (n - 1 - i) as u32;
        let b = (value >> shift) & 1 == 1;
        dest.set(start + i, b);
        i = i + 1;
    }
}

/// Reads the bits from `start` to the end as a little-endian field.
pub(crate) fn load_le_span(src: &BitVec, start: usize) -> (r: u32)
    requires
        src.wf(),
        start <= src@.len(),
        src@.len() - start <= 32,
    ensures
        r as nat == le_value(src@.skip(start as int)),
    decreases src@.len() - start,
{
    let len = src.len();
    let n = len - start;
    let ghost sk = src@.skip(start as int);
    if n <= 8 {
        let r = load_be_span(src, start, n);
        proof {
            assert(sk =~= src@.subrange(start as int, (start + n) as int));
        }
        r
    } else {
        let low = load_be_span(src, start, 8);
        let high = load_le_span(src, start + 8);
        proof {
            assert(sk.take(8) =~= src@.subrange(start as int, start as int + 8));
            assert(sk.skip(8) =~= src@.skip((start + 8) as int));
            lemma_le_value_bound(sk.skip(8));
            if ((n - 8) as nat) < 24 {
                vstd::arithmetic::power2::lemma_pow2_strictly_increases((n - 8) as nat, 24);
            }
            vstd::arithmetic::power2::lemma2_to64();
            lemma_be_value_bound(sk.take(8));
        }
        low + high * 256
    }
}

/// Overwrites the bits from `start` to the end with the little-endian bits
/// of `value`; everything before `start` keeps its value.
pub(crate) fn store_le_span(dest: &mut BitVec, start: usize, value: u32)
    requires
        old(dest).wf(),
        start <= old(dest)@.len(),
        old(dest)@.len() - start <= 32,
    ensures
        final(dest).wf(),
        final(dest)@ =~= old(dest)@.take(start as int) + le_bits(
            value,
            (old(dest)@.len() - start) as nat,
        ),
    decreases old(dest)@.len() - start,
{
    let len = dest.len();
    let n = len - start;
    if n <= 8 {
        store_be_span(dest, start, n, value);
        proof {
            assert(dest@.skip((start + n) as int) =~= Seq::<bool>::empty());
            assert(dest@ =~= old(dest)@.take(start as int) + le_bits(value, n as nat));
        }
    } else {
        let ghost mid = dest@;
        store_be_span(dest, start, 8, value & 0xff);
        let ghost d1 = dest@;
        store_le_span(dest, start + 8, value >> 8);
        proof {
            lemma_le_bits_len(value >> 8, (n - 8) as nat);
            assert(d1.take((start + 8) as int) =~= old(dest)@.take(start as int) + be_bits(
                value & 0xff,
                8,
            ));
            assert(dest@ =~= old(dest)@.take(start as int) + le_bits(value, n as nat));
        }
    }
}

impl ByteOrder for BigEndian {
    open spec fn field_value(s: Seq<bool>) -> nat {
        be_value(s)
    }

    open spec fn field_bits(v: u32, n: nat) -> Seq<bool> {
        be_bits(v, n)
    }

    proof fn lemma_field_bits_len(v: u32, n: nat) {
    }

    proof fn lemma_field_value_bound(s: Seq<bool>) {
        lemma_be_value_bound(s);
    }

    proof fn lemma_field_round_trip(v: u32, n: nat) {
        lemma_be_round_trip(v, n);
    }

    fn load(src: &BitVec) -> (r: u32) {
        let n = src.len();
        let r = load_be_span(src, 0, n);
        proof {
            assert(src@.subrange(0, n as int) =~= src@);
        }
        r
    }

    fn store(dest: &mut BitVec, value: u32) {
        let n = dest.len();
        store_be_span(dest, 0, n, value);
        proof {
            assert(dest@ =~= be_bits(value, n as nat));
        }
    }

    fn load_u16(src: &[u8]) -> (r: u16) {
        let b0 = src[0];
        let b1 = src[1];
        proof {
            lemma_two_bytes(src@);
            lemma_be_value_concat_byte(byte_bits(b0), byte_bits(b1));
            lemma_byte_bits_value(b0);
            lemma_byte_bits_value(b1);
        }
        (b0 as u16) * 256 + (b1 as u16)
    }

    fn load_u24(src: &[u8]) -> (r: u32) {
        let b0 = src[0];
        let b1 = src[1];
        let b2 = src[2];
        proof {
            lemma_three_bytes(src@);
            lemma_be_value_concat_byte(byte_bits(b0) + byte_bits(b1), byte_bits(b2));
            lemma_be_value_concat_byte(byte_bits(b0), byte_bits(b1));
            lemma_byte_bits_value(b0);
            lemma_byte_bits_value(b1);
            lemma_byte_bits_value(b2);
        }
        (b0 as u32) * 0x10000 + (b1 as u32) * 0x100 + (b2 as u32)
    }

    fn load_u32(src: &[u8]) -> (r: u32) {
        let b0 = src[0];
        let b1 = src[1];
        let b2 = src[2];
        let b3 = src[3];
        proof {
            lemma_four_bytes(src@);
            lemma_be_value_concat_byte(byte_bits(b0) + byte_bits(b1) + byte_bits(b2), byte_bits(b3));
            lemma_be_value_concat_byte(byte_bits(b0) + byte_bits(b1), byte_bits(b2));
            lemma_be_value_concat_byte(byte_bits(b0), byte_bits(b1));
            lemma_byte_bits_value(b0);
            lemma_byte_bits_value(b1);
            lemma_byte_bits_value(b2);
            lemma_byte_bits_value(b3);
        }
        (b0 as u32) * 0x1000000 + (b1 as u32) * 0x10000 + (b2 as u32) * 0x100 + (b3 as u32)
    }

    fn store_u16(dest: &mut Vec<u8>, value: u16) {
        let v = value as u32;
        dest.set(0, (v >> 8) as u8);
        dest.set(1, v as u8);
        proof {
            lemma_two_bytes(dest@.take(2));
            lemma_be_bits_split_top(v, 16);
            lemma_be_bits_low_byte(v);
            assert(dest@.skip(2) =~= old(dest)@.skip(2));
        }
    }

    fn store_u24(dest: &mut Vec<u8>, value: u32) {
        dest.set(0, (value >> 16) as u8);
        dest.set(1, (value >> 8) as u8);
        dest.set(2, value as u8);
        proof {
            lemma_three_bytes(dest@.take(3));
            lemma_be_bits_split_top(value, 24);
            lemma_be_bits_split_top(value, 16);
            lemma_be_bits_low_byte(value);
            assert(dest@.skip(3) =~= old(dest)@.skip(3));
        }
    }

    fn store_u32(dest: &mut Vec<u8>, value: u32) {
        dest.set(0, (value >> 24) as u8);
        dest.set(1, (value >> 16) as u8);
        dest.set(2, (value >> 8) as u8);
        dest.set(3, value as u8);
        proof {
            lemma_four_bytes(dest@.take(4));
            lemma_be_bits_split_top(value, 32);
            lemma_be_bits_split_top(value, 24);
            lemma_be_bits_split_top(value, 16);
            lemma_be_bits_low_byte(value);
            assert(dest@.skip(4) =~= old(dest)@.skip(4));
        }
    }
}

impl ByteOrder for LittleEndian {
    open spec fn field_value(s: Seq<bool>) -> nat {
        le_value(s)
    }

    open spec fn field_bits(v: u32, n: nat) -> Seq<bool> {
        le_bits(v, n)
    }

    proof fn lemma_field_bits_len(v: u32, n: nat) {
        lemma_le_bits_len(v, n);
    }

    proof fn lemma_field_value_bound(s: Seq<bool>) {
        lemma_le_value_bound(s);
    }

    proof fn lemma_field_round_trip(v: u32, n: nat) {
        lemma_le_round_trip(v, n);
    }

    fn load(src: &BitVec) -> (r: u32) {
        let r = load_le_span(src, 0);
        proof {
            assert(src@.skip(0) =~= src@);
        }
        r
    }

    fn store(dest: &mut BitVec, value: u32) {
        store_le_span(dest, 0, value);
        proof {
            assert(old(dest)@.take(0) =~= Seq::<bool>::empty());
            assert(dest@ =~= le_bits(value, old(dest)@.len()));
        }
    }

    fn load_u16(src: &[u8]) -> (r: u16) {
        let b0 = src[0];
        let b1 = src[1];
        proof {
            lemma_two_bytes(src@);
            let s = bits_of_bytes(src@);
            assert(s.take(8) =~= byte_bits(b0));
            assert(s.skip(8) =~= byte_bits(b1));
            assert(le_value(s) == be_value(s.take(8)) + 256 * le_value(s.skip(8)));
            assert(le_value(byte_bits(b1)) == be_value(byte_bits(b1)));
            lemma_byte_bits_value(b0);
            lemma_byte_bits_value(b1);
        }
        (b0 as u16) + (b1 as u16) * 256
    }

    fn load_u24(src: &[u8]) -> (r: u32) {
        let b0 = src[0];
        let b1 = src[1];
        let b2 = src[2];
        proof {
            lemma_three_bytes(src@);
            let s = bits_of_bytes(src@);
            assert(s.take(8) =~= byte_bits(b0));
            assert(s.skip(8).take(8) =~= byte_bits(b1));
            assert(s.skip(8).skip(8) =~= byte_bits(b2));
            assert(le_value(s) == be_value(s.take(8)) + 256 * le_value(s.skip(8)));
            assert(le_value(s.skip(8)) == be_value(s.skip(8).take(8)) + 256 * le_value(
                s.skip(8).skip(8),
            ));
            assert(le_value(byte_bits(b2)) == be_value(byte_bits(b2)));
            lemma_byte_bits_value(b0);
            lemma_byte_bits_value(b1);
            lemma_byte_bits_value(b2);
        }
        (b0 as u32) + (b1 as u32) * 0x100 + (b2 as u32) * 0x10000
    }

    fn load_u32(src: &[u8]) -> (r: u32) {
        let b0 = src[0];
        let b1 = src[1];
        let b2 = src[2];
        let b3 = src[3];
        proof {
            lemma_four_bytes(src@);
            let s = bits_of_bytes(src@);
            assert(s.take(8) =~= byte_bits(b0));
            assert(s.skip(8).take(8) =~= byte_bits(b1));
            assert(s.skip(8).skip(8).take(8) =~= byte_bits(b2));
            assert(s.skip(8).skip(8).skip(8) =~= byte_bits(b3));
            assert(le_value(s) == be_value(s.take(8)) + 256 * le_value(s.skip(8)));
            assert(le_value(s.skip(8)) == be_value(s.skip(8).take(8)) + 256 * le_value(
                s.skip(8).skip(8),
            ));
            assert(le_value(s.skip(8).skip(8)) == be_value(s.skip(8).skip(8).take(8)) + 256
                * le_value(s.skip(8).skip(8).skip(8)));
            assert(le_value(byte_bits(b3)) == be_value(byte_bits(b3)));
            lemma_byte_bits_value(b0);
            lemma_byte_bits_value(b1);
            lemma_byte_bits_value(b2);
            lemma_byte_bits_value(b3);
        }
        (b0 as u32) + (b1 as u32) * 0x100 + (b2 as u32) * 0x10000 + (b3 as u32) * 0x1000000
    }

    fn store_u16(dest: &mut Vec<u8>, value: u16) {
        let v = value as u32;
        dest.set(0, v as u8);
        dest.set(1, (v >> 8) as u8);
        proof {
            lemma_two_bytes(dest@.take(2));
            lemma_le_low_byte(v);
            lemma_le_bits_small(v >> 8, 8);
            assert(dest@.skip(2) =~= old(dest)@.skip(2));
        }
    }

    fn store_u24(dest: &mut Vec<u8>, value: u32) {
        dest.set(0, value as u8);
        dest.set(1, (value >> 8) as u8);
        dest.set(2, (value >> 16) as u8);
        proof {
            lemma_three_bytes(dest@.take(3));
            lemma_le_low_byte(value);
            lemma_le_low_byte(value >> 8);
            assert(value >> 8 >> 8 == value >> 16) by (bit_vector);
            lemma_le_bits_small(value >> 16, 8);
            assert(dest@.skip(3) =~= old(dest)@.skip(3));
        }
    }

    fn store_u32(dest: &mut Vec<u8>, value: u32) {
        dest.set(0, value as u8);
        dest.set(1, (value >> 8) as u8);
        dest.set(2, (value >> 16) as u8);
        dest.set(3, (value >> 24) as u8);
        proof {
            lemma_four_bytes(dest@.take(4));
            lemma_le_low_byte(value);
            lemma_le_low_byte(value >> 8);
            assert(value >> 8 >> 8 == value >> 16) by (bit_vector);
            lemma_le_low_byte(value >> 16);
            assert(value >> 16 >> 8 == value >> 24) by (bit_vector);
            lemma_le_bits_small(value >> 24, 8);
            assert(dest@.skip(4) =~= old(dest)@.skip(4));
        }
    }
}

/// A two-byte sequence's bits are its bytes' bits in order.
proof fn lemma_two_bytes(s: Seq<u8>)
    requires
        s.len() == 2,
    ensures
        bits_of_bytes(s) =~= byte_bits(s[0]) + byte_bits(s[1]),
{
    assert(s =~= Seq::<u8>::empty().push(s[0]).push(s[1]));
    lemma_bits_of_bytes_push(Seq::<u8>::empty().push(s[0]), s[1]);
    lemma_bits_of_bytes_push(Seq::<u8>::empty(), s[0]);
    assert(bits_of_bytes(Seq::<u8>::empty()) =~= Seq::<bool>::empty());
}

/// A three-byte sequence's bits are its bytes' bits in order.
proof fn lemma_three_bytes(s: Seq<u8>)
    requires
        s.len() == 3,
    ensures
        bits_of_bytes(s) =~= byte_bits(s[0]) + byte_bits(s[1]) + byte_bits(s[2]),
{
    assert(s =~= Seq::<u8>::empty().push(s[0]).push(s[1]).push(s[2]));
    lemma_bits_of_bytes_push(Seq::<u8>::empty().push(s[0]).push(s[1]), s[2]);
    lemma_two_bytes(Seq::<u8>::empty().push(s[0]).push(s[1]));
}

/// A four-byte sequence's bits are its bytes' bits in order.
proof fn lemma_four_bytes(s: Seq<u8>)
    requires
        s.len() == 4,
    ensures
        bits_of_bytes(s) =~= byte_bits(s[0]) + byte_bits(s[1]) + byte_bits(s[2]) + byte_bits(s[3]),
{
    assert(s =~= Seq::<u8>::empty().push(s[0]).push(s[1]).push(s[2]).push(s[3]));
    lemma_bits_of_bytes_push(Seq::<u8>::empty().push(s[0]).push(s[1]).push(s[2]), s[3]);
    lemma_three_bytes(Seq::<u8>::empty().push(s[0]).push(s[1]).push(s[2]));
}

/// A little-endian field of more than a byte starts with the value's low
/// byte.
proof fn lemma_le_low_byte(v: u32)
    ensures
        forall|n: nat|
            8 < n <= 32 ==> #[trigger] le_bits(v, n) =~= byte_bits(v as u8) + le_bits(
                v >> 8,
                (n - 8) as nat,
            ),
{
    lemma_be_bits_low_byte(v);
}

/// An at-most-byte-wide little-endian field is the big-endian field, which
/// for a whole byte is the byte's bits.
proof fn lemma_le_bits_small(v: u32, n: nat)
    requires
        n <= 8,
    ensures
        le_bits(v, n) == be_bits(v, n),
        n == 8 ==> le_bits(v, n) =~= byte_bits(v as u8),
{
    lemma_be_bits_low_byte(v);
}

} // verus!
