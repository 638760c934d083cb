//! The crate's owned bit container, and the sealed family of storage element
//! types.

use crate::bitmath::{
    bit_of_byte, bits_of_bytes, bytes_for_bits, get_bit_in_byte, set_bit_in_byte,
};
use vstd::prelude::*;

verus! {

/// Sealing marker: only the storage element types sanctioned by this crate
/// can implement the traversal contracts' element role.
pub trait Sealed {

}

/// The closed family of storage element types. Byte (`u8`) storage is the
/// only sanctioned element.
pub trait BitStore: Sealed {

}

impl Sealed for u8 {

}

impl BitStore for u8 {

}

/// An owned, growable vector of bits, stored in bytes most-significant bit
/// first.
pub struct BitVec {
    bytes: Vec<u8>,
    bit_len: usize,
}

impl View for BitVec {
    type V = Seq<bool>;

    /// The bits held, in order.
    closed spec fn view(&self) -> Seq<bool> {
        bits_of_bytes(self.bytes@).take(self.bit_len as int)
    }
}

impl BitVec {
    /// The container is exactly as many bytes as its bits need, and its bit
    /// count is addressable.
    pub closed spec fn wf(&self) -> bool {
        &&& self.bytes@.len() == bytes_for_bits(self.bit_len as nat)
        &&& self.bytes@.len() * 8 <= usize::MAX
    }

    /// A well-formed bit vector's view length fits in `usize`.
    pub proof fn lemma_len_ok(&self)
        requires
            self.wf(),
        ensures
            self@.len() <= usize::MAX,
    {
        self.lemma_len_internal();
    }

    proof fn lemma_len_internal(&self)
        requires
            self.wf(),
        ensures
            self@.len() == self.bit_len,
            self.bit_len <= self.bytes@.len() * 8,
    {
        assert(self.bit_len <= self.bytes@.len() * 8) by (nonlinear_arith)
            requires
                self.bytes@.len() == bytes_for_bits(self.bit_len as nat),
        ;
    }

    pub fn new() -> (r: BitVec)
        ensures
            r.wf(),
            r@ == Seq::<bool>::empty(),
    {
        let r = BitVec { bytes: Vec::new(), bit_len: 0 };
        proof {
            assert(r@ =~= Seq::<bool>::empty());
        }
        r
    }

    pub fn len(&self) -> (r: usize)
        requires
            self.wf(),
        ensures
            r == self@.len(),
    {
        proof {
            self.lemma_len_internal();
        }
        self.bit_len
    }

    pub fn is_empty(&self) -> (r: bool)
        requires
            self.wf(),
        ensures
            r == (self@.len() == 0),
    {
        self.len() == 0
    }

    /// The bit at the given index.
    pub fn at(&self, i: usize) -> (r: bool)
        requires
            self.wf(),
            i < self@.len(),
        ensures
            r == self@[i as int],
    {
        proof {
            self.lemma_len_internal();
            assert(i / 8 < self.bytes@.len() && i % 8 < 8 && 8 * (i / 8) + i % 8 == i)
                by (nonlinear_arith)
                requires
                    i < self.bit_len && self.bit_len <= self.bytes@.len() * 8,
            ;
        }
        let byte = self.bytes[i / 8];
        get_bit_in_byte(byte, i % 8)
    }

    /// Writes the bit at the given index; all other bits keep their values.
    pub fn set(&mut self, i: usize, v: bool)
        requires
            old(self).wf(),
            i < old(self)@.len(),
        ensures
            final(self).wf(),
            final(self)@ == old(self)@.update(i as int, v),
    {
        proof {
            self.lemma_len_internal();
            assert(i / 8 < self.bytes@.len() && i % 8 < 8 && 8 * (i / 8) + i % 8 == i)
                by (nonlinear_arith)
                requires
                    i < self.bit_len && self.bit_len <= self.bytes@.len() * 8,
            ;
        }
        let j = i / 8;
        let k = i % 8;
        let nb = set_bit_in_byte(self.bytes[j], k, v);
        self.bytes.set(j, nb);
        proof {
            let oldv = old(self)@;
            assert forall|m: int| 0 <= m < self.bit_len implies self@[m] == oldv.update(
                i as int,
                v,
            )[m] by {
                assert(8 * (m / 8) + m % 8 == m && m % 8 < 8 && m / 8 < self.bytes@.len())
                    by (nonlinear_arith)
                    requires
                        0 <= m < self.bit_len && self.bit_len <= self.bytes@.len() * 8,
                ;
                if m / 8 == j && m % 8 == k {
                    assert(m == i);
                }
            }
            assert(self@ =~= oldv.update(i as int, v));
        }
    }

    /// Appends one bit.
    pub fn push(&mut self, v: bool)
        requires
            old(self).wf(),
            old(self)@.len() < usize::MAX - 8,
        ensures
            final(self).wf(),
            final(self)@ == old(self)@.push(v),
    {
        proof {
            self.lemma_len_internal();
        }
        let i = self.bit_len;
        if i % 8 == 0 {
            proof {
                assert(bytes_for_bits((i + 1) as nat) == self.bytes@.len() + 1 && i / 8
                    == self.bytes@.len()) by (nonlinear_arith)
                    requires
                        self.bytes@.len() == bytes_for_bits(i as nat) && i % 8 == 0,
                ;
            }
            self.bytes.push(if v {
                0x80
            } else {
                0
            });
            self.bit_len = i + 1;
            proof {
                crate::bitmath::lemma_bits_of_bytes_push(old(self).bytes@, self.bytes@.last());
                assert((0x80u8 >> 7u8) & 1 == 1) by (bit_vector);
                assert((0u8 >> 7u8) & 1 == 0) by (bit_vector);
                assert(bit_of_byte(0x80u8, 0));
                assert(!bit_of_byte(0u8, 0));
                assert(self@ =~= old(self)@.push(v));
            }
        } else {
            proof {
                assert(bytes_for_bits((i + 1) as nat) == bytes_for_bits(i as nat) && i / 8
                    < bytes_for_bits(i as nat) && 8 * (i / 8) + i % 8 == i) by (nonlinear_arith)
                    requires
                        i % 8 != 0 && i < usize::MAX - 8,
                ;
            }
            let j = i / 8;
            let k = i % 8;
            let nb = set_bit_in_byte(self.bytes[j], k, v);
            self.bytes.set(j, nb);
            self.bit_len = i + 1;
            proof {
                assert forall|m: int| 0 <= m <= i implies self@[m] == old(self)@.push(v)[m] by {
                    assert(8 * (m / 8) + m % 8 == m && m % 8 < 8 && m / 8 < self.bytes@.len())
                        by (nonlinear_arith)
                        requires
                            0 <= m <= i && i < self.bytes@.len() * 8,
                    ;
                    if m / 8 == j && m % 8 == k {
                        assert(m == i);
                    }
                }
                assert(self@ =~= old(self)@.push(v));
            }
        }
    }

    /// A bit vector holding the given bits.
    pub fn from_bools(bools: Vec<bool>) -> (r: BitVec)
        requires
            bools@.len() < usize::MAX - 8,
        ensures
            r.wf(),
            r@ == bools@,
    {
        let mut r = BitVec::new();
        let n = bools.len();
        let mut i: usize = 0;
        while i < n
            invariant
                r.wf(),
                i <= n,
                n == bools@.len() < usize::MAX - 8,
                r@ =~= bools@.take(i as int),
            decreases n - i,
        {
            r.push(bools[i]);
            i = i + 1;
            proof {
                assert(r@ =~= bools@.take(i as int));
            }
        }
        proof {
            assert(bools@.take(n as int) =~= bools@);
        }
        r
    }

    /// `n` copies of the same bit.
    pub fn repeat(v: bool, n: usize) -> (r: BitVec)
        requires
            n < usize::MAX - 8,
        ensures
            r.wf(),
            r@ == Seq::new(n as nat, |i: int| v),
    {
        let mut r = BitVec::new();
        let mut i: usize = 0;
        while i < n
            invariant
                r.wf(),
                i <= n,
                n < usize::MAX - 8,
                r@ =~= Seq::new(i as nat, |j: int| v),
            decreases n - i,
        {
            r.push(v);
            i = i + 1;
            proof {
                assert(r@ =~= Seq::new(i as nat, |j: int| v));
            }
        }
        r
    }

    /// A borrowed bit-slice view of the whole vector.
    pub(crate) fn as_raw_slice(&self) -> (r: crate::bit_slice::BitSlice<'_>)
        requires
            self.wf(),
        ensures
            r.wf(),
            r@ == self@,
    {
        proof {
            self.lemma_len_internal();
        }
        let r = crate::bit_slice::BitSlice::new(self.bytes.as_slice(), 0, self.bit_len as u64);
        proof {
            assert(r@ =~= self@);
        }
        r
    }

    /// A copy of the backing bytes; the bits beyond the length are whatever
    /// the last partial byte holds.
    pub(crate) fn clone_bytes(&self) -> (r: Vec<u8>)
        requires
            self.wf(),
        ensures
            r@.len() == bytes_for_bits(self@.len()),
            bits_of_bytes(r@).take(self@.len() as int) == self@,
    {
        proof {
            self.lemma_len_internal();
        }
        self.bytes.clone()
    }

    /// A bit vector over a whole byte vector.
    pub fn from_bytes(bytes: Vec<u8>) -> (r: BitVec)
        requires
            bytes@.len() * 8 <= usize::MAX,
        ensures
            r.wf(),
            r@ == bits_of_bytes(bytes@),
    {
        proof {
            assert(bytes@.len() * 8 % 8 == 0 && bytes_for_bits((bytes@.len() * 8) as nat)
                == bytes@.len()) by (nonlinear_arith);
        }
        let n = bytes.len();
        let r = BitVec { bytes, bit_len: n * 8 };
        proof {
            assert(r@ =~= bits_of_bytes(r.bytes@));
        }
        r
    }
}

impl BitVec {
    /// Bit-content equality.
    pub fn eq_bits(&self, other: &BitVec) -> (r: bool)
        requires
            self.wf(),
            other.wf(),
        ensures
            r == (self@ == other@),
    {
        proof {
            self.lemma_len_internal();
            other.lemma_len_internal();
        }
        if self.len() != other.len() {
            return false;
        }
        let n = self.len();
        let mut i: usize = 0;
        while i < n
            invariant
                self.wf(),
                other.wf(),
                n == self@.len() == other@.len(),
                i <= n,
                forall|m: int| 0 <= m < i ==> self@[m] == other@[m],
            decreases n - i,
        {
            if self.at(i) != other.at(i) {
                return false;
            }
            i = i + 1;
        }
        proof {
            assert(self@ =~= other@);
        }
        true
    }
}

impl Clone for BitVec {
    /// The copy holds the same bits.
    fn clone(&self) -> (r: Self)
        ensures
            r@ == self@,
            r.wf() == self.wf(),
    {
        BitVec { bytes: self.bytes.clone(), bit_len: self.bit_len }
    }
}

} // verus!
