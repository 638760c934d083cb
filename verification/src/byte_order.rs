//! The cursor stack's byte-order strategies: writing and reading a register
//! of up to 32 bits into a run of bits. Here little-endian means the bits
//! are laid out least significant first.

use crate::bit_types::BitVec;
use crate::bitmath::{
    be_bits, be_value, bit_nat, lemma_be_round_trip, lemma_be_value_bound,
};
use crate::buf::byte_order::{load_be_span, store_be_span};
use vstd::arithmetic::power2::pow2;
use vstd::prelude::*;

verus! {

/// The value of a bit sequence folded least-significant bit first.
pub open spec fn lsb_value(s: Seq<bool>) -> nat
    decreases s.len(),
{
    if s.len() == 0 {
        0
    } else {
        bit_nat(s[0]) + 2 * lsb_value(s.skip(1))
    }
}

/// The `n` low bits of `v`, least significant first.
pub open spec fn lsb_bits(v: u32, n: nat) -> Seq<bool> {
    Seq::new(n, |i: int| v >> (i as u32) & 1 == 1)
}

pub proof fn lemma_lsb_value_bound(s: Seq<bool>)
    ensures
        lsb_value(s) < pow2(s.len()),
    decreases s.len(),
{
    vstd::arithmetic::power2::lemma_pow2_pos(s.len());
    if s.len() > 0 {
        lemma_lsb_value_bound(s.skip(1));
        vstd::arithmetic::power2::lemma_pow2_unfold(s.len());
    }
}

/// Reading back least-significant-first bits stored from `v` gives `v`.
pub proof fn lemma_lsb_round_trip(v: u32, n: nat)
    requires
        n <= 32,
        v < pow2(n),
    ensures
        lsb_value(lsb_bits(v, n)) == v,
    decreases n,
{
    if n == 0 {
        vstd::arithmetic::power2::lemma2_to64();
    } else {
        let s = lsb_bits(v, n);
        let v1 = v >> 1u32;
        assert(s.skip(1) =~= lsb_bits(v1, (n - 1) as nat)) by {
            assert forall|i: int| 0 <= i < n - 1 implies s.skip(1)[i] == (v1 >> (i as u32) & 1
                == 1) by {
                let k = (i + 1) as u32;
                assert(k >= 1 && k < 32 ==> (v >> k) & 1 == ((v >> 1u32) >> ((k - 1) as u32))
                    & 1) by (bit_vector);
            }
        }
        assert(v1 < pow2((n - 1) as nat)) by {
            vstd::arithmetic::power2::lemma_pow2_unfold(n);
            assert(v >> 1u32 == v / 2) by (bit_vector);
        }
        lemma_lsb_round_trip(v1, (n - 1) as nat);
        assert(bit_nat(s[0]) == (v & 1)) by {
            assert((v >> 0u32) & 1 == v & 1) by (bit_vector);
            assert(v & 1 == 1 || v & 1 == 0) by (bit_vector);
        }
        assert((v & 1) + 2 * (v >> 1u32) == v) by (bit_vector);
    }
}

/// Writing and reading a register of up to 32 bits at bit granularity, the
/// order of the bits chosen by the implementation.
pub trait ByteOrder {
    spec fn reg_value(s: Seq<bool>) -> nat;

    spec fn reg_bits(v: u32, n: nat) -> Seq<bool>;

    proof fn lemma_reg_bits_len(v: u32, n: nat)
        ensures
            Self::reg_bits(v, n).len() == n,
    ;

    proof fn lemma_reg_value_bound(s: Seq<bool>)
        ensures
            Self::reg_value(s) < pow2(s.len()),
    ;

    /// Round trip: for any width up to 32 and any representable value,
    /// reading written bits gives the value back.
    proof fn lemma_reg_round_trip(v: u32, n: nat)
        requires
            n <= 32,
            v < pow2(n),
        ensures
            Self::reg_value(Self::reg_bits(v, n)) == v,
    ;

    /// Overwrites the whole bit vector with the register's bits; the
    /// vector's length picks the width.
    fn write_u32_to_bits(bits: &mut BitVec, value: u32)
        requires
            old(bits).wf(),
            old(bits)@.len() <= 32,
        ensures
            final(bits).wf(),
            final(bits)@ == Self::reg_bits(value, old(bits)@.len()),
    ;

    /// Reads the whole bit vector as one register.
    fn read_u32_from_bits(bits: &BitVec) -> (r: u32)
        requires
            bits.wf(),
            bits@.len() <= 32,
        ensures
            r as nat == Self::reg_value(bits@),
    ;
}

/// Bit 0 is the register's most significant bit.
pub struct BigEndian {}

/// Bit 0 is the register's least significant bit.
pub struct LittleEndian {}

/// Network byte order is big-endian.
pub type NetworkOrder = BigEndian;

impl ByteOrder for BigEndian {
    open spec fn reg_value(s: Seq<bool>) -> nat {
        be_value(s)
    }

    open spec fn reg_bits(v: u32, n: nat) -> Seq<bool> {
        be_bits(v, n)
    }

    proof fn lemma_reg_bits_len(v: u32, n: nat) {
    }

    proof fn lemma_reg_value_bound(s: Seq<bool>) {
        lemma_be_value_bound(s);
    }

    proof fn lemma_reg_round_trip(v: u32, n: nat) {
        lemma_be_round_trip(v, n);
    }

    fn write_u32_to_bits(bits: &mut BitVec, value: u32) {
        let n = bits.len();
        store_be_span(bits, 0, n, value);
        proof {
            assert(bits@ =~= be_bits(value, n as nat));
        }
    }

    fn read_u32_from_bits(bits: &BitVec) -> (r: u32) {
        let n = bits.len();
        let r = load_be_span(bits, 0, n);
        proof {
            assert(bits@.subrange(0, n as int) =~= bits@);
        }
        r
    }
}

impl ByteOrder for LittleEndian {
    open spec fn reg_value(s: Seq<bool>) -> nat {
        lsb_value(s)
    }

    open spec fn reg_bits(v: u32, n: nat) -> Seq<bool> {
        lsb_bits(v, n)
    }

    proof fn lemma_reg_bits_len(v: u32, n: nat) {
    }

    proof fn lemma_reg_value_bound(s: Seq<bool>) {
        lemma_lsb_value_bound(s);
    }

    proof fn lemma_reg_round_trip(v: u32, n: nat) {
        lemma_lsb_round_trip(v, n);
    }

    fn write_u32_to_bits(bits: &mut BitVec, value: u32) {
        let n = bits.len();
        let mut i: usize = 0;
        while i < n
            invariant
                bits.wf(),
                n == bits@.len() <= 32,
                i <= n,
                bits@.len() == old(bits)@.len(),
                forall|m: int| 0 <= m < i ==> bits@[m] == lsb_bits(value, n as nat)[m],
            decreases n - i,
        {
            let b = (value >> (i as u32)) & 1 == 1;
            bits.set(i, b);
            i = i + 1;
        }
        proof {
            assert(bits@ =~= lsb_bits(value, n as nat));
        }
    }

    fn read_u32_from_bits(bits: &BitVec) -> (r: u32) {
        let n = bits.len();
        let mut acc: u32 = 0;
        let mut i: usize = n;
        while i > 0
            invariant
                bits.wf(),
                n == bits@.len() <= 32,
                i <= n,
                acc as nat == lsb_value(bits@.skip(i as int)),
            decreases i,
        {
            proof {
                lemma_lsb_value_bound(bits@.skip(i as int));
                if ((n - i) as nat) < 31 {
                    vstd::arithmetic::power2::lemma_pow2_strictly_increases((n - i) as nat, 31);
                }
                vstd::arithmetic::power2::lemma2_to64();
            }
            i = i - 1;
            let b = bits.at(i);
            acc = acc * 2 + (if b {
                1
            } else {
                0
            });
            proof {
                assert(bits@.skip(i as int).skip(1) =~= bits@.skip(i + 1));
                assert(bits@.skip(i as int)[0] == bits@[i as int]);
            }
        }
        proof {
            assert(bits@.skip(0) =~= bits@);
        }
        acc
    }
}

} // verus!
