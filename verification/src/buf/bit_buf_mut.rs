//! The writable traversal contract: anything that accepts bits at a forward
//! moving write cursor, bit by bit or (when byte-aligned) byte by byte.

use crate::bit_types::BitVec;
use crate::bitmath::{bits_of_bytes, byte_bits, lemma_bits_of_bytes_push};
use crate::error::BufError;
use vstd::prelude::*;

verus! {

/// A count of available bits, capped at what one machine word can state.
pub open spec fn capped(n: nat) -> nat {
    if n > usize::MAX {
        usize::MAX as nat
    } else {
        n
    }
}

/// A writable bit buffer. `wrote()` is the run of bits visible as written so
/// far; `avail()` is how many more bits can still be written (growable
/// buffers report what the machine could ever address).
pub trait BitBufMut: Sized {
    /// Structural well-formedness; constructors establish it and every
    /// operation preserves it.
    spec fn wf_mut(&self) -> bool;

    /// The bits written (or otherwise made visible) so far.
    spec fn wrote(&self) -> Seq<bool>;

    /// How many bits can still be written.
    spec fn avail(&self) -> nat;

    /// Whether the write cursor and the writable end both fall on byte
    /// boundaries of the underlying storage.
    spec fn aligned_mut(&self) -> bool;

    /// On a byte-aligned writer, whole bytes have been written and whole
    /// bytes remain.
    proof fn lemma_aligned_avail_mut(&self)
        requires
            self.wf_mut(),
            self.aligned_mut(),
        ensures
            self.avail() % 8 == 0,
            self.wrote().len() % 8 == 0,
    ;

    /// What was written always fits the machine's addressing.
    proof fn lemma_wrote_fits(&self)
        requires
            self.wf_mut(),
        ensures
            self.wrote().len() <= usize::MAX,
    ;

    /// The number of bits that can still be written, as far as one machine
    /// word can report it.
    fn remaining_mut_bits(&self) -> (r: usize)
        requires
            self.wf_mut(),
        ensures
            r as nat == capped(self.avail()),
    ;

    /// Whether the writer is byte-aligned at both ends.
    fn byte_aligned_mut(&self) -> (r: bool)
        requires
            self.wf_mut(),
        ensures
            r == self.aligned_mut(),
    ;

    /// Writes one bit at the cursor and moves past it.
    fn put_bit(&mut self, b: bool)
        requires
            old(self).wf_mut(),
            old(self).avail() > 0,
        ensures
            final(self).wf_mut(),
            final(self).wrote() == old(self).wrote().push(b),
            final(self).avail() == old(self).avail() - 1,
    ;

    /// Writes one byte at the cursor and moves past it; the accelerated byte
    /// path, available only on byte-aligned writers, and bit-identical to
    /// writing the eight bits one by one, most significant first.
    fn put_byte(&mut self, byte: u8)
        requires
            old(self).wf_mut(),
            old(self).aligned_mut(),
            old(self).avail() >= 8,
        ensures
            final(self).wf_mut(),
            final(self).wrote() == old(self).wrote() + byte_bits(byte),
            final(self).avail() == old(self).avail() - 8,
            final(self).aligned_mut(),
    ;

    /// Moves the write cursor forward by `count` bits without writing; the
    /// skipped bits become visible with whatever values the storage held.
    fn advance_mut_bits(&mut self, count: usize)
        requires
            old(self).wf_mut(),
            count <= old(self).avail(),
        ensures
            final(self).wf_mut(),
            final(self).avail() == old(self).avail() - count,
            final(self).wrote().len() == old(self).wrote().len() + count,
            final(self).wrote().take(old(self).wrote().len() as int) == old(self).wrote(),
    ;

    /// Moves the write cursor forward by `count` bytes without writing.
    fn advance_mut_bytes(&mut self, count: usize)
        requires
            old(self).wf_mut(),
            count * 8 <= old(self).avail(),
            count * 8 <= usize::MAX,
        ensures
            final(self).wf_mut(),
            final(self).avail() == old(self).avail() - 8 * count,
            final(self).wrote().len() == old(self).wrote().len() + 8 * count,
            final(self).wrote().take(old(self).wrote().len() as int) == old(self).wrote(),
    {
        self.advance_mut_bits(count * 8);
    }

    /// The number of whole bytes that can still be written, as far as one
    /// machine word can report it.
    fn remaining_mut_bytes(&self) -> (r: usize)
        requires
            self.wf_mut(),
        ensures
            r as nat == capped(self.avail()) / 8,
    {
        self.remaining_mut_bits() / 8
    }

    /// Whether any bits can still be written.
    fn has_remaining_mut_bits(&self) -> (r: bool)
        requires
            self.wf_mut(),
        ensures
            r == (self.avail() > 0),
    {
        self.remaining_mut_bits() > 0
    }

    /// Whether any whole byte can still be written.
    fn has_remaining_mut_bytes(&self) -> (r: bool)
        requires
            self.wf_mut(),
        ensures
            r == (capped(self.avail()) / 8 > 0),
    {
        self.remaining_mut_bytes() > 0
    }

    /// Writes all of `src` at the cursor; fails without writing anything
    /// when less room remains than `src` holds.
    fn try_put_bit_slice(&mut self, src: &BitVec) -> (r: Result<(), BufError>)
        requires
            old(self).wf_mut(),
            src.wf(),
        ensures
            final(self).wf_mut(),
            if src@.len() <= old(self).avail() {
                r == Ok::<(), BufError>(()) && final(self).wrote() == old(self).wrote() + src@
                    && final(self).avail() == old(self).avail() - src@.len()
            } else {
                r == Err::<(), BufError>(BufError::EndOfData) && final(self).wrote() == old(
                    self,
                ).wrote() && final(self).avail() == old(self).avail()
            },
    {
        proof {
            src.lemma_len_ok();
        }
        let n = src.len();
        if self.remaining_mut_bits() < n {
            return Err(BufError::EndOfData);
        }
        let mut i: usize = 0;
        while i < n
            invariant
                self.wf_mut(),
                src.wf(),
                n == src@.len(),
                i <= n,
                n <= old(self).avail(),
                self.avail() == old(self).avail() - i,
                self.wrote() =~= old(self).wrote() + src@.take(i as int),
            decreases n - i,
        {
            let b = src.at(i);
            self.put_bit(b);
            i = i + 1;
            proof {
                assert(self.wrote() =~= old(self).wrote() + src@.take(i as int));
            }
        }
        proof {
            assert(old(self).wrote() + src@.take(n as int) =~= old(self).wrote() + src@);
        }
        Ok(())
    }

    /// Like `try_put_bit_slice`, but a shortfall is a caller bug.
    fn put_bit_slice(&mut self, src: &BitVec)
        requires
            old(self).wf_mut(),
            src.wf(),
            src@.len() <= old(self).avail(),
        ensures
            final(self).wf_mut(),
            final(self).wrote() == old(self).wrote() + src@,
            final(self).avail() == old(self).avail() - src@.len(),
    {
        let _ = self.try_put_bit_slice(src);
    }

    /// Writes all of `src` byte-wise at the cursor; fails without writing
    /// anything when the writer is not byte-aligned or less room remains
    /// than `src` holds.
    fn try_put_slice_bytes(&mut self, src: &[u8]) -> (r: Result<(), BufError>)
        requires
            old(self).wf_mut(),
        ensures
            final(self).wf_mut(),
            if !old(self).aligned_mut() {
                r == Err::<(), BufError>(BufError::Misaligned) && final(self).wrote() == old(
                    self,
                ).wrote() && final(self).avail() == old(self).avail()
            } else if capped(old(self).avail()) / 8 < src@.len() {
                r == Err::<(), BufError>(BufError::EndOfData) && final(self).wrote() == old(
                    self,
                ).wrote() && final(self).avail() == old(self).avail()
            } else {
                r == Ok::<(), BufError>(()) && final(self).wrote() == old(self).wrote()
                    + bits_of_bytes(src@) && final(self).avail() == old(self).avail() - 8
                    * src@.len() && final(self).aligned_mut()
            },
    {
        if !self.byte_aligned_mut() {
            return Err(BufError::Misaligned);
        }
        let n = src.len();
        if self.remaining_mut_bytes() < n {
            return Err(BufError::EndOfData);
        }
        proof {
            let av = old(self).avail();
            assert(8 * n <= capped(av)) by (nonlinear_arith)
                requires
                    n <= capped(av) / 8,
            ;
            assert(bits_of_bytes(src@.take(0)) =~= Seq::<bool>::empty());
            assert(old(self).wrote() + bits_of_bytes(src@.take(0)) =~= old(self).wrote());
        }
        let mut j: usize = 0;
        while j < n
            invariant
                self.wf_mut(),
                self.aligned_mut(),
                n == src@.len(),
                j <= n,
                8 * n <= old(self).avail(),
                self.avail() == old(self).avail() - 8 * j,
                self.wrote() =~= old(self).wrote() + bits_of_bytes(src@.take(j as int)),
            decreases n - j,
        {
            let b = src[j];
            self.put_byte(b);
            j = j + 1;
            proof {
                lemma_bits_of_bytes_push(src@.take(j - 1), b);
                assert(src@.take(j as int) =~= src@.take(j - 1).push(b));
                assert(self.wrote() =~= old(self).wrote() + bits_of_bytes(src@.take(j as int)));
            }
        }
        proof {
            assert(old(self).wrote() + bits_of_bytes(src@.take(n as int)) =~= old(self).wrote()
                + bits_of_bytes(src@));
        }
        Ok(())
    }

    /// Like `try_put_slice_bytes`, but misalignment or shortfall is a caller
    /// bug.
    fn put_slice_bytes(&mut self, src: &[u8])
        requires
            old(self).wf_mut(),
            old(self).aligned_mut(),
            8 * src@.len() <= old(self).avail(),
            src@.len() <= usize::MAX / 8,
        ensures
            final(self).wf_mut(),
            final(self).wrote() == old(self).wrote() + bits_of_bytes(src@),
            final(self).avail() == old(self).avail() - 8 * src@.len(),
    {
        proof {
            let av = old(self).avail();
            let n = src@.len();
            assert(n <= capped(av) / 8) by (nonlinear_arith)
                requires
                    8 * n <= av && n <= usize::MAX / 8,
            ;
        }
        let _ = self.try_put_slice_bytes(src);
    }
}

} // verus!
