//! Borrowing storage as a run of bits: the capability the generic cursor is
//! built over.

use crate::bit_slice::BitSlice;
use crate::bit_types::BitVec;
use crate::bitmath::{bits_of_bytes, get_bit_in_byte, set_bit_in_byte};
use vstd::prelude::*;

verus! {

/// Read access to some storage as a run of bits.
pub trait BorrowBits {
    /// Structural well-formedness of the storage.
    spec fn borrow_wf(&self) -> bool;

    /// The bits borrowed.
    spec fn bits(&self) -> Seq<bool>;

    /// The borrowed bits always fit the machine's addressing.
    proof fn lemma_bits_fit(&self)
        requires
            self.borrow_wf(),
        ensures
            self.bits().len() <= usize::MAX,
    ;

    /// The number of bits borrowed.
    fn bit_count(&self) -> (r: usize)
        requires
            self.borrow_wf(),
        ensures
            r == self.bits().len(),
    ;

    /// One borrowed bit.
    fn bit_at(&self, i: usize) -> (b: bool)
        requires
            self.borrow_wf(),
            i < self.bits().len(),
        ensures
            b == self.bits()[i as int],
    ;
}

/// Write access to some storage as a run of bits.
pub trait BorrowBitsMut: BorrowBits {
    /// Writes one borrowed bit in place; every other bit keeps its value.
    fn set_bit(&mut self, i: usize, v: bool)
        requires
            old(self).borrow_wf(),
            i < old(self).bits().len(),
        ensures
            final(self).borrow_wf(),
            final(self).bits() == old(self).bits().update(i as int, v),
    ;
}

impl BorrowBits for Vec<u8> {
    open spec fn borrow_wf(&self) -> bool {
        self@.len() * 8 <= usize::MAX
    }

    open spec fn bits(&self) -> Seq<bool> {
        bits_of_bytes(self@)
    }

    proof fn lemma_bits_fit(&self) {
    }

    fn bit_count(&self) -> (r: usize) {
        self.len() * 8
    }

    fn bit_at(&self, i: usize) -> (b: bool) {
        proof {
            assert(i / 8 < self@.len() && i % 8 < 8 && 8 * (i / 8) + i % 8 == i)
                by (nonlinear_arith)
                requires
                    i < self@.len() * 8,
            ;
        }
        let byte = self[i / 8];
        let r = get_bit_in_byte(byte, i % 8);
        proof {
            crate::bitmath::lemma_bits_of_bytes_index(self@, i as int);
        }
        r
    }
}

impl BorrowBitsMut for Vec<u8> {
    fn set_bit(&mut self, i: usize, v: bool)
    {
        proof {
            assert(i / 8 < self@.len() && i % 8 < 8 && 8 * (i / 8) + i % 8 == i)
                by (nonlinear_arith)
                requires
                    i < self@.len() * 8,
            ;
        }
        let j = i / 8;
        let nb = set_bit_in_byte(self[j], i % 8, v);
        self.set(j, nb);
        proof {
            crate::bitmath::lemma_bits_of_bytes_update(old(self)@, j as int, nb);
            assert forall|m: int| 0 <= m < self@.len() * 8 implies bits_of_bytes(self@)[m] == old(
                self,
            ).bits().update(i as int, v)[m] by {
                assert(0 <= m / 8 < self@.len() && 0 <= m % 8 < 8 && 8 * (m / 8) + m % 8 == m)
                    by (nonlinear_arith)
                    requires
                        0 <= m < self@.len() * 8,
                ;
                if m / 8 == j {
                    crate::bitmath::lemma_bits_of_bytes_index(self@, m);
                    crate::bitmath::lemma_bits_of_bytes_index(old(self)@, m);
                    if m % 8 == i % 8 {
                        assert(m == i);
                    }
                }
            }
            assert(bits_of_bytes(self@) =~= old(self).bits().update(i as int, v));
        }
    }
}

impl<'s> BorrowBits for BitSlice<'s> {
    open spec fn borrow_wf(&self) -> bool {
        self.wf()
    }

    open spec fn bits(&self) -> Seq<bool> {
        self@
    }

    proof fn lemma_bits_fit(&self) {
        self.lemma_len_fits();
    }

    fn bit_count(&self) -> (r: usize) {
        self.len()
    }

    fn bit_at(&self, i: usize) -> (b: bool) {
        proof {
            self.lemma_len_fits();
        }
        self.at(i as u64) == 1
    }
}

impl BorrowBits for BitVec {
    open spec fn borrow_wf(&self) -> bool {
        self.wf()
    }

    open spec fn bits(&self) -> Seq<bool> {
        self@
    }

    proof fn lemma_bits_fit(&self) {
        self.lemma_len_ok();
    }

    fn bit_count(&self) -> (r: usize) {
        self.len()
    }

    fn bit_at(&self, i: usize) -> (b: bool) {
        self.at(i)
    }
}

impl BorrowBitsMut for BitVec {
    fn set_bit(&mut self, i: usize, v: bool)
    {
        self.set(i, v);
    }
}

} // verus!
