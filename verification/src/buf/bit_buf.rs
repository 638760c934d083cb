//! The readable traversal contract: anything that can hand out its remaining
//! bits, bit by bit or (when byte-aligned) byte by byte.

use crate::bit_types::BitVec;
use crate::bitmath::{be_value, byte_bits, lemma_be_bits_inverse, lemma_bits_of_bytes_slice};
use crate::error::BufError;
use vstd::prelude::*;

verus! {

/// A readable bit buffer: a view over some storage with a cursor that only
/// moves forward. `rem()` is the run of bits still ahead of the cursor.
pub trait BitBuf: Sized {
    /// Structural well-formedness; constructors establish it and every
    /// operation preserves it.
    spec fn wf(&self) -> bool;

    /// The bits between the cursor and the end of the view.
    spec fn rem(&self) -> Seq<bool>;

    /// Whether the view's current position and end both fall on byte
    /// boundaries of the underlying storage.
    spec fn aligned(&self) -> bool;

    /// A byte-aligned view holds a whole number of bytes.
    proof fn lemma_aligned_rem(&self)
        requires
            self.wf(),
            self.aligned(),
        ensures
            self.rem().len() % 8 == 0,
    ;

    /// What remains always fits the machine's addressing.
    proof fn lemma_rem_fits(&self)
        requires
            self.wf(),
        ensures
            self.rem().len() <= usize::MAX,
    ;

    /// The number of bits between the cursor and the end.
    fn remaining_bits(&self) -> (r: usize)
        requires
            self.wf(),
        ensures
            r == self.rem().len(),
    ;

    /// Whether the view is byte-aligned at both ends.
    fn byte_aligned(&self) -> (r: bool)
        requires
            self.wf(),
        ensures
            r == self.aligned(),
    ;

    /// Reads one remaining bit without moving the cursor.
    fn bit_at(&self, i: usize) -> (b: bool)
        requires
            self.wf(),
            i < self.rem().len(),
        ensures
            b == self.rem()[i as int],
    ;

    /// Reads one remaining byte without moving the cursor; the accelerated
    /// byte path, available only on byte-aligned views, and bit-identical to
    /// reading the eight bits one by one.
    fn byte_at(&self, j: usize) -> (b: u8)
        requires
            self.wf(),
            self.aligned(),
            8 * j + 8 <= self.rem().len(),
        ensures
            b as nat == be_value(self.rem().subrange(8 * j as int, 8 * j as int + 8)),
    ;

    /// Moves the cursor forward by `count` bits.
    fn advance_bits(&mut self, count: usize)
        requires
            old(self).wf(),
            count <= old(self).rem().len(),
        ensures
            final(self).wf(),
            final(self).rem() == old(self).rem().skip(count as int),
    ;

    /// Moves the cursor forward by `count` bytes.
    fn advance_bytes(&mut self, count: usize)
        requires
            old(self).wf(),
            8 * count <= old(self).rem().len(),
        ensures
            final(self).wf(),
            final(self).rem() == old(self).rem().skip(8 * count as int),
    {
        proof {
            self.lemma_rem_fits();
        }
        self.advance_bits(count * 8);
    }

    /// The number of whole bytes between the cursor and the end.
    fn remaining_bytes(&self) -> (r: usize)
        requires
            self.wf(),
        ensures
            r == self.rem().len() / 8,
    {
        self.remaining_bits() / 8
    }

    /// Whether any bits remain.
    fn has_remaining_bits(&self) -> (r: bool)
        requires
            self.wf(),
        ensures
            r == (self.rem().len() > 0),
    {
        self.remaining_bits() > 0
    }

    /// Whether any whole byte remains.
    fn has_remaining_bytes(&self) -> (r: bool)
        requires
            self.wf(),
        ensures
            r == (self.rem().len() / 8 > 0),
    {
        self.remaining_bytes() > 0
    }

    /// Copies bits from the front of `self` into `dest`, filling it
    /// completely and advancing the cursor past them; fails without moving
    /// the cursor or touching `dest` when fewer bits remain than `dest`
    /// holds.
    fn try_copy_to_bit_slice(&mut self, dest: &mut BitVec) -> (r: Result<(), BufError>)
        requires
            old(self).wf(),
            old(dest).wf(),
        ensures
            final(self).wf(),
            final(dest).wf(),
            final(dest)@.len() == old(dest)@.len(),
            if old(self).rem().len() >= old(dest)@.len() {
                r == Ok::<(), BufError>(()) && final(dest)@ == old(self).rem().take(
                    old(dest)@.len() as int,
                ) && final(self).rem() == old(self).rem().skip(old(dest)@.len() as int)
            } else {
                r == Err::<(), BufError>(BufError::EndOfData) && final(self).rem() == old(
                    self,
                ).rem() && final(dest)@ == old(dest)@
            },
    {
        proof {
            dest.lemma_len_ok();
        }
        let n = dest.len();
        if self.remaining_bits() < n {
            return Err(BufError::EndOfData);
        }
        let mut i: usize = 0;
        while i < n
            invariant
                self.wf(),
                dest.wf(),
                self.rem() == old(self).rem(),
                n == old(dest)@.len() <= self.rem().len(),
                i <= n,
                dest@.len() == n,
                dest@ =~= old(self).rem().take(i as int) + old(dest)@.skip(i as int),
            decreases n - i,
        {
            let b = self.bit_at(i);
            dest.set(i, b);
            i = i + 1;
            proof {
                assert(dest@ =~= old(self).rem().take(i as int) + old(dest)@.skip(i as int));
            }
        }
        proof {
            assert(dest@ =~= old(self).rem().take(n as int));
        }
        self.advance_bits(n);
        Ok(())
    }

    /// Like `try_copy_to_bit_slice`, but any shortfall is a caller bug.
    fn copy_to_bit_slice(&mut self, dest: &mut BitVec)
        requires
            old(self).wf(),
            old(dest).wf(),
            old(self).rem().len() >= old(dest)@.len(),
        ensures
            final(self).wf(),
            final(dest).wf(),
            final(dest)@ == old(self).rem().take(old(dest)@.len() as int),
            final(self).rem() == old(self).rem().skip(old(dest)@.len() as int),
    {
        let _ = self.try_copy_to_bit_slice(dest);
    }

    /// Copies whole bytes from the front of `self` into `dest`, filling it
    /// completely and advancing the cursor past them. Fails without moving
    /// the cursor or touching `dest` when the view is not byte-aligned, or
    /// when fewer whole bytes remain than `dest` holds.
    fn try_copy_to_slice_bytes(&mut self, dest: &mut Vec<u8>) -> (r: Result<(), BufError>)
        requires
            old(self).wf(),
        ensures
            final(self).wf(),
            final(dest)@.len() == old(dest)@.len(),
            if !old(self).aligned() {
                r == Err::<(), BufError>(BufError::Misaligned) && final(self).rem() == old(
                    self,
                ).rem() && final(dest)@ == old(dest)@
            } else if old(self).rem().len() / 8 < old(dest)@.len() {
                r == Err::<(), BufError>(BufError::EndOfData) && final(self).rem() == old(
                    self,
                ).rem() && final(dest)@ == old(dest)@
            } else {
                r == Ok::<(), BufError>(()) && crate::bitmath::bits_of_bytes(final(dest)@) == old(
                    self,
                ).rem().take(8 * old(dest)@.len() as int) && final(self).rem() == old(
                    self,
                ).rem().skip(8 * old(dest)@.len() as int)
            },
    {
        if !self.byte_aligned() {
            return Err(BufError::Misaligned);
        }
        let n = dest.len();
        if self.remaining_bytes() < n {
            return Err(BufError::EndOfData);
        }
        proof {
            self.lemma_rem_fits();
            let ghost len = old(self).rem().len();
            assert(8 * n <= len) by (nonlinear_arith)
                requires
                    n <= len / 8,
            ;
        }
        let mut j: usize = 0;
        while j < n
            invariant
                self.wf(),
                self.aligned(),
                self.rem() == old(self).rem(),
                8 * n <= self.rem().len(),
                n == old(dest)@.len(),
                j <= n,
                dest@.len() == n,
                forall|m: int| j <= m < n ==> dest@[m] == old(dest)@[m],
                forall|m: int|
                    0 <= m < j ==> byte_bits(#[trigger] dest@[m]) == old(self).rem().subrange(
                        8 * m,
                        8 * m + 8,
                    ),
            decreases n - j,
        {
            let b = self.byte_at(j);
            proof {
                lemma_be_bits_inverse(self.rem().subrange(8 * j as int, 8 * j as int + 8));
                crate::bitmath::lemma_be_bits_low_byte(b as u32);
                assert((b as u32) as u8 == b) by (bit_vector);
            }
            dest.set(j, b);
            j = j + 1;
        }
        self.advance_bits(8 * n);
        proof {
            assert forall|i: int| 0 <= i < 8 * n implies crate::bitmath::bits_of_bytes(dest@)[i]
                == old(self).rem().take(8 * n as int)[i] by {
                let m = i / 8;
                assert(0 <= m < n && 8 * m <= i < 8 * m + 8 && i - 8 * m == i % 8)
                    by (nonlinear_arith)
                    requires
                        0 <= i < 8 * n && m == i / 8,
                ;
                lemma_bits_of_bytes_slice(dest@, m);
                assert(byte_bits(dest@[m])[i - 8 * m] == old(self).rem().subrange(8 * m, 8 * m + 8)[
                    i - 8 * m]);
            }
            assert(crate::bitmath::bits_of_bytes(dest@) =~= old(self).rem().take(8 * n as int));
        }
        Ok(())
    }

    /// Like `try_copy_to_slice_bytes`, but misalignment or shortfall is a
    /// caller bug.
    fn copy_to_slice_bytes(&mut self, dest: &mut Vec<u8>)
        requires
            old(self).wf(),
            old(self).aligned(),
            old(self).rem().len() / 8 >= old(dest)@.len(),
        ensures
            final(self).wf(),
            final(dest)@.len() == old(dest)@.len(),
            crate::bitmath::bits_of_bytes(final(dest)@) == old(self).rem().take(
                8 * old(dest)@.len() as int,
            ),
            final(self).rem() == old(self).rem().skip(8 * old(dest)@.len() as int),
    {
        let _ = self.try_copy_to_slice_bytes(dest);
    }

}

} // verus!
