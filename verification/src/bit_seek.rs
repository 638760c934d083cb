//! Seeking a bit stream to an absolute or relative position.

use crate::error::BufError;
use vstd::prelude::*;

verus! {

/// A seek target in bits: from the start, from the end, or from the current
/// position.
#[derive(Debug, PartialEq, Eq, Clone, Copy)]
pub enum SeekFrom {
    Start(u64),
    End(i64),
    Current(i64),
}

/// Seeking at bit granularity. Seeking from the start may land past the end
/// of the stream; seeking from the end or the current position must stay
/// representable.
pub trait BitSeek: Sized {
    /// Structural well-formedness of the seekable stream.
    spec fn seek_wf(&self) -> bool;

    /// The whole stream of bits sought over.
    spec fn stream(&self) -> Seq<bool>;

    /// The position, in bits from the start of the stream.
    spec fn cursor_pos(&self) -> nat;

    /// Moves to the given bit position and returns it.
    fn bit_seek(&mut self, pos: SeekFrom) -> (r: Result<u64, BufError>)
        requires
            old(self).seek_wf(),
        ensures
            final(self).seek_wf(),
            final(self).stream() == old(self).stream(),
            match pos {
                SeekFrom::Start(n) => r == Ok::<u64, BufError>(n) && final(self).cursor_pos() == n,
                SeekFrom::End(ofs) => if 0 <= old(self).stream().len() + ofs <= u64::MAX {
                    r == Ok::<u64, BufError>(((old(self).stream().len() + ofs) as u64)) && final(self).cursor_pos() == old(self).stream().len() + ofs
                } else {
                    r == Err::<u64, BufError>(BufError::InvalidSeek) && final(self).cursor_pos()
                        == old(self).cursor_pos()
                },
                SeekFrom::Current(ofs) => if 0 <= old(self).cursor_pos() + ofs <= u64::MAX {
                    r == Ok::<u64, BufError>(((old(self).cursor_pos() + ofs) as u64)) && final(self).cursor_pos() == old(self).cursor_pos() + ofs
                } else {
                    r == Err::<u64, BufError>(BufError::InvalidSeek) && final(self).cursor_pos()
                        == old(self).cursor_pos()
                },
            },
    ;
}

} // verus!
