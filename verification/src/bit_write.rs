//! The bit-oriented sink contract: pushing bits from a bit vector into a
//! stream.

use crate::bit_types::BitVec;
use crate::error::BufError;
use vstd::prelude::*;

verus! {

/// A sink of bits. `sink()` is the whole writable area's contents and
/// `wpos()` the write position inside it.
pub trait BitWrite: Sized {
    /// Structural well-formedness of the sink.
    spec fn write_wf(&self) -> bool;

    /// The contents of the whole writable area.
    spec fn sink(&self) -> Seq<bool>;

    /// The write position, in bits from the start of the writable area.
    spec fn wpos(&self) -> nat;

    /// The position stays inside the area, which the machine can address.
    proof fn lemma_wpos_fits(&self)
        requires
            self.write_wf(),
        ensures
            self.wpos() <= self.sink().len(),
            self.sink().len() <= usize::MAX,
    ;

    /// Pushes bits from `source` at the write position: as many as `source`
    /// holds, or as many as still fit, whichever is fewer; the count written
    /// is returned and every other bit of the area keeps its value.
    fn write_bits(&mut self, source: &BitVec) -> (r: Result<usize, BufError>)
        requires
            old(self).write_wf(),
            source.wf(),
        ensures
            final(self).write_wf(),
            ({
                let n = if source@.len() <= old(self).sink().len() - old(self).wpos() {
                    source@.len() as int
                } else {
                    old(self).sink().len() - old(self).wpos()
                };
                &&& r == Ok::<usize, BufError>(n as usize)
                &&& final(self).sink() == old(self).sink().take(old(self).wpos() as int)
                    + source@.take(n) + old(self).sink().skip(old(self).wpos() + n)
                &&& final(self).wpos() == old(self).wpos() + n
            }),
    ;

    /// Writes all of `source`, or fails after writing the prefix that fit.
    fn write_all_bits(&mut self, source: &BitVec) -> (r: Result<(), BufError>)
        requires
            old(self).write_wf(),
            source.wf(),
        ensures
            final(self).write_wf(),
            if source@.len() <= old(self).sink().len() - old(self).wpos() {
                r == Ok::<(), BufError>(()) && final(self).sink() == old(self).sink().take(
                    old(self).wpos() as int,
                ) + source@ + old(self).sink().skip(old(self).wpos() + source@.len() as int) && final(self).wpos() == old(self).wpos() + source@.len()
            } else {
                r == Err::<(), BufError>(BufError::EndOfData)
            },
    {
        proof {
            source.lemma_len_ok();
            self.lemma_wpos_fits();
        }
        let want = source.len();
        let n = match self.write_bits(source) {
            Ok(n) => n,
            Err(e) => 0,
        };
        if n < want {
            Err(BufError::EndOfData)
        } else {
            proof {
                assert(source@.take(want as int) =~= source@);
                assert(final(self).sink() == old(self).sink().take(old(self).wpos() as int)
                    + source@ + old(self).sink().skip(old(self).wpos() + want));
            }
            Ok(())
        }
    }
}

} // verus!
