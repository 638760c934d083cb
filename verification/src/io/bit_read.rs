//! The bit-oriented source contract: pulling bits out of a stream into a bit
//! vector.

use crate::bit_types::BitVec;
use crate::error::BufError;
use vstd::prelude::*;

verus! {

/// A source of bits. `readable()` is the run of bits still ahead.
pub trait BitRead: Sized {
    /// Structural well-formedness of the source.
    spec fn read_wf(&self) -> bool;

    /// The bits still ahead of the read position.
    spec fn readable(&self) -> Seq<bool>;

    /// Pulls bits into the front of `dest`: as many as `dest` holds, or as
    /// many as remain, whichever is fewer; the count pulled is returned.
    fn read_bits(&mut self, dest: &mut BitVec) -> (r: Result<usize, BufError>)
        requires
            old(self).read_wf(),
            old(dest).wf(),
        ensures
            final(self).read_wf(),
            final(dest).wf(),
            final(dest)@.len() == old(dest)@.len(),
            ({
                let n = if old(dest)@.len() <= old(self).readable().len() {
                    old(dest)@.len() as int
                } else {
                    old(self).readable().len() as int
                };
                &&& r == Ok::<usize, BufError>(n as usize)
                &&& final(dest)@ == old(self).readable().take(n) + old(dest)@.skip(n)
                &&& final(self).readable() == old(self).readable().skip(n)
            }),
    ;

    /// Reads exactly enough bits to fill `dest`, or fails after consuming
    /// (and storing) whatever remained.
    fn read_bits_exact(&mut self, dest: &mut BitVec) -> (r: Result<(), BufError>)
        requires
            old(self).read_wf(),
            old(dest).wf(),
        ensures
            final(self).read_wf(),
            final(dest).wf(),
            final(dest)@.len() == old(dest)@.len(),
            if old(self).readable().len() >= old(dest)@.len() {
                r == Ok::<(), BufError>(()) && final(dest)@ == old(self).readable().take(
                    old(dest)@.len() as int,
                ) && final(self).readable() == old(self).readable().skip(old(dest)@.len() as int)
            } else {
                r == Err::<(), BufError>(BufError::EndOfData)
            },
    {
        proof {
            dest.lemma_len_ok();
        }
        let want = dest.len();
        let n = match self.read_bits(dest) {
            Ok(n) => n,
            Err(e) => 0,
        };
        if n < want {
            Err(BufError::EndOfData)
        } else {
            proof {
                assert(old(self).readable().take(want as int) + old(dest)@.skip(want as int)
                    =~= old(self).readable().take(want as int));
            }
            Ok(())
        }
    }
}

} // verus!
