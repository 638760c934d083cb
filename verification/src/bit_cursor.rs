//! The position-tracking cursor over any storage that lends its bits: reads,
//! writes, and seeks at bit granularity.

use crate::bit_seek::{BitSeek, SeekFrom};
use crate::bit_slice::{AsBitSlice, BitSlice};
use crate::bit_types::BitVec;
use crate::bit_write::BitWrite;
use crate::bitmath::{be_value, lemma_be_value_step};
use crate::error::BufError;
use crate::io::bit_read::BitRead;
use crate::io::borrow_bits::{BorrowBits, BorrowBitsMut};
use vstd::prelude::*;

verus! {

/// A cursor wrapping a borrowed-bits storage; its position starts at 0 and
/// is tracked in bits. Seeking may park it past the end, where nothing can
/// be read.
pub struct BitCursor<T> {
    inner: T,
    pos: u64,
}

impl<T> BitCursor<T> {
    /// The wrapped storage.
    pub closed spec fn inner_spec(&self) -> T {
        self.inner
    }

    /// The position in bits from the start.
    pub closed spec fn pos_spec(&self) -> u64 {
        self.pos
    }

    /// Creates a new cursor wrapping the provided buffer, at position 0.
    pub fn new(inner: T) -> (r: BitCursor<T>)
        ensures
            r.inner_spec() == inner,
            r.pos_spec() == 0,
    {
        BitCursor { inner, pos: 0 }
    }

    /// A mutable reference to the inner value.
    pub fn get_mut(&mut self) -> (r: &mut T)
        ensures
            *r == old(self).inner_spec(),
            final(self).inner_spec() == *final(r),
            final(self).pos_spec() == old(self).pos_spec(),
    {
        &mut self.inner
    }

    /// A reference to the inner value.
    pub fn get_ref(&self) -> (r: &T)
        ensures
            *r == self.inner_spec(),
    {
        &self.inner
    }

    /// Consumes the cursor, returning the inner value.
    pub fn into_inner(self) -> (r: T)
        ensures
            r == self.inner_spec(),
    {
        self.inner
    }

    /// The position, in bits since the start.
    pub fn position(&self) -> (r: u64)
        ensures
            r == self.pos_spec(),
    {
        self.pos
    }

    /// Sets the position, in bits since the start; it may exceed the
    /// storage.
    pub fn set_position(&mut self, pos: u64)
        ensures
            final(self).pos_spec() == pos,
            final(self).inner_spec() == old(self).inner_spec(),
    {
        self.pos = pos;
    }
}

impl<T: AsBitSlice> BitCursor<T> {
    /// Borrows the storage's bits split at the position: everything before
    /// it and everything from it on.
    pub fn split(&self) -> (r: (BitSlice<'_>, BitSlice<'_>))
        requires
            self.inner_spec().as_bits_wf(),
            self.pos_spec() <= self.inner_spec().as_bits().len(),
        ensures
            r.0.wf(),
            r.1.wf(),
            r.0@ == self.inner_spec().as_bits().take(self.pos_spec() as int),
            r.1@ == self.inner_spec().as_bits().skip(self.pos_spec() as int),
    {
        let bits = self.inner.as_bit_slice();
        proof {
            crate::bit_slice::BitSlice::lemma_len_fits(&bits);
        }
        bits.split_at(self.pos as usize)
    }
}

impl<T: BorrowBits> BitCursor<T> {
    /// The position clamped to the storage's end.
    pub open spec fn clamped_pos(&self) -> nat {
        if self.pos_spec() <= self.inner_spec().bits().len() {
            self.pos_spec() as nat
        } else {
            self.inner_spec().bits().len()
        }
    }

    /// Seeks to a whole-byte position; the target, given in bytes, must stay
    /// representable in bits.
    pub fn seek(&mut self, pos: SeekFrom) -> (r: Result<u64, BufError>)
        requires
            old(self).inner_spec().borrow_wf(),
            match pos {
                SeekFrom::Start(n) => 8 * n <= u64::MAX,
                SeekFrom::End(ofs) => 8 * ofs <= i64::MAX && -(i64::MAX as int) <= 8 * ofs,
                SeekFrom::Current(ofs) => 8 * ofs <= i64::MAX && -(i64::MAX as int) <= 8 * ofs,
            },
        ensures
            final(self).inner_spec().borrow_wf(),
            final(self).inner_spec().bits() == old(self).inner_spec().bits(),
            match pos {
                SeekFrom::Start(n) => r == Ok::<u64, BufError>((8 * n) as u64) && final(self).pos_spec() == 8 * n,
                SeekFrom::End(ofs) => if 0 <= old(self).inner_spec().bits().len() + 8 * ofs
                    <= u64::MAX {
                    r == Ok::<u64, BufError>(
                        ((old(self).inner_spec().bits().len() + 8 * ofs) as u64),
                    ) && final(self).pos_spec() == old(self).inner_spec().bits().len() + 8 * ofs
                } else {
                    r == Err::<u64, BufError>(BufError::InvalidSeek) && final(self).pos_spec()
                        == old(self).pos_spec()
                },
                SeekFrom::Current(ofs) => if 0 <= old(self).pos_spec() + 8 * ofs <= u64::MAX {
                    r == Ok::<u64, BufError>(((old(self).pos_spec() + 8 * ofs) as u64)) && final(self).pos_spec() == old(self).pos_spec() + 8 * ofs
                } else {
                    r == Err::<u64, BufError>(BufError::InvalidSeek) && final(self).pos_spec()
                        == old(self).pos_spec()
                },
            },
    {
        match pos {
            SeekFrom::Start(n) => self.bit_seek(SeekFrom::Start(n * 8)),
            SeekFrom::End(ofs) => self.bit_seek(SeekFrom::End(ofs * 8)),
            SeekFrom::Current(ofs) => self.bit_seek(SeekFrom::Current(ofs * 8)),
        }
    }

    /// Reads whole bytes into `buf`, one for each run of up to eight bits
    /// still ahead; a final short run is left-aligned and zero-padded. The
    /// count of bytes produced is returned and the cursor moves past the
    /// bits consumed.
    pub fn read(&mut self, buf: &mut Vec<u8>) -> (r: Result<usize, BufError>)
        requires
            old(self).inner_spec().borrow_wf(),
            old(self).inner_spec().bits().len() + 7 <= u64::MAX,
        ensures
            final(self).inner_spec().borrow_wf(),
            final(self).inner_spec().bits() == old(self).inner_spec().bits(),
            final(buf)@.len() == old(buf)@.len(),
            ({
                let rem = old(self).inner_spec().bits().skip(old(self).clamped_pos() as int);
                let n = if old(buf)@.len() <= (rem.len() + 7) / 8 {
                    old(buf)@.len() as int
                } else {
                    ((rem.len() + 7) / 8) as int
                };
                &&& r == Ok::<usize, BufError>(n as usize)
                &&& forall|k: int|
                    0 <= k < n ==> final(buf)@[k] as nat == be_value(padded_chunk(rem, k))
                &&& forall|k: int| n <= k < old(buf)@.len() ==> final(buf)@[k] == old(buf)@[k]
                &&& final(self).pos_spec() == old(self).pos_spec() + 8 * n
            }),
    {
        proof {
            self.inner.lemma_bits_fit();
        }
        let len = self.inner.bit_count();
        let p = if self.pos >= len as u64 {
            len
        } else {
            self.pos as usize
        };
        let rem_bits = len - p;
        let ghost rem = self.inner_spec().bits().skip(self.clamped_pos() as int);
        let avail_chunks = crate::bytes_needed(rem_bits);
        let want = buf.len();
        let n = if want <= avail_chunks {
            want
        } else {
            avail_chunks
        };
        proof {
            assert((rem.len() + 7) / 8 == crate::bitmath::bytes_for_bits(rem.len()))
                by (nonlinear_arith);
            let ghost rl = rem.len();
            assert(8 * crate::bitmath::bytes_for_bits(rl) <= rl + 7 && 8 * n <= 8
                * crate::bitmath::bytes_for_bits(rl)) by (nonlinear_arith)
                requires
                    n <= crate::bitmath::bytes_for_bits(rl),
            ;
            if old(self).pos_spec() <= old(self).inner_spec().bits().len() {
                assert(rl + old(self).clamped_pos() == old(self).inner_spec().bits().len());
            } else {
                assert(rl == 0);
                assert(crate::bitmath::bytes_for_bits(0) == 0);
            }
            assert(8 * n + old(self).pos_spec() <= u64::MAX);
        }
        let mut k: usize = 0;
        while k < n
            invariant
                self.inner_spec().borrow_wf(),
                self == old(self),
                p == old(self).clamped_pos(),
                p + rem_bits == self.inner_spec().bits().len(),
                self.inner_spec().bits().len() <= usize::MAX,
                rem == self.inner_spec().bits().skip(p as int),
                n <= buf@.len(),
                8 * n <= 8 * crate::bitmath::bytes_for_bits(rem_bits as nat),
                n > 0 ==> 8 * (n - 1) < rem_bits,
                k <= n,
                buf@.len() == old(buf)@.len(),
                forall|j: int| 0 <= j < k ==> buf@[j] as nat == be_value(padded_chunk(rem, j)),
                forall|j: int| k <= j < buf@.len() ==> buf@[j] == old(buf)@[j],
            decreases n - k,
        {
            let mut byte: u8 = 0;
            let mut j: usize = 0;
            proof {
                assert(8 * k < rem_bits) by (nonlinear_arith)
                    requires
                        k < n,
                        n > 0 ==> 8 * (n - 1) < rem_bits,
                        8 * k <= 8 * (n - 1),
                ;
                assert(padded_chunk(rem, k as int).take(0) =~= Seq::<bool>::empty());
            }
            while j < 8
                invariant
                    self.inner_spec().borrow_wf(),
                    self == old(self),
                    p + rem_bits == self.inner_spec().bits().len(),
                    self.inner_spec().bits().len() <= usize::MAX,
                    rem == self.inner_spec().bits().skip(p as int),
                    8 * k < rem_bits,
                    j <= 8,
                    byte as nat == be_value(padded_chunk(rem, k as int).take(j as int)),
                decreases 8 - j,
            {
                proof {
                    crate::bitmath::lemma_be_value_bound(padded_chunk(rem, k as int).take(j as int));
                    vstd::arithmetic::power2::lemma2_to64();
                    if (j as nat) < 8 {
                        vstd::arithmetic::power2::lemma_pow2_strictly_increases(j as nat, 8);
                    }
                    lemma_be_value_step(padded_chunk(rem, k as int), j as int);
                }
                let bitpos = 8 * k + j;
                let b = if bitpos < rem_bits {
                    self.inner.bit_at(p + bitpos)
                } else {
                    false
                };
                proof {
                    assert(padded_chunk(rem, k as int)[j as int] == b);
                }
                byte = byte * 2 + (if b {
                    1
                } else {
                    0
                });
                j = j + 1;
            }
            proof {
                assert(padded_chunk(rem, k as int).take(8) =~= padded_chunk(rem, k as int));
            }
            buf.set(k, byte);
            k = k + 1;
        }
        self.pos = self.pos + 8 * (n as u64);
        Ok(n)
    }
}

/// The bits of chunk `k` of a bit run, read eight at a time; a final short
/// chunk is padded on the right with zeros.
pub open spec fn padded_chunk(s: Seq<bool>, k: int) -> Seq<bool> {
    Seq::new(
        8,
        |j: int|
            if 8 * k + j < s.len() {
                s[8 * k + j]
            } else {
                false
            },
    )
}

impl<T: BorrowBits> BitRead for BitCursor<T> {
    open spec fn read_wf(&self) -> bool {
        self.inner_spec().borrow_wf()
    }

    open spec fn readable(&self) -> Seq<bool> {
        self.inner_spec().bits().skip(self.clamped_pos() as int)
    }

    fn read_bits(&mut self, dest: &mut BitVec) -> (r: Result<usize, BufError>) {
        proof {
            self.inner.lemma_bits_fit();
            dest.lemma_len_ok();
        }
        let len = self.inner.bit_count();
        let p = if self.pos >= len as u64 {
            len
        } else {
            self.pos as usize
        };
        let rem = len - p;
        let want = dest.len();
        let n = if want <= rem {
            want
        } else {
            rem
        };
        let mut i: usize = 0;
        while i < n
            invariant
                self.inner_spec().borrow_wf(),
                dest.wf(),
                self == old(self),
                p == old(self).clamped_pos(),
                p + n <= self.inner_spec().bits().len(),
                self.inner_spec().bits().len() <= usize::MAX,
                n <= old(dest)@.len(),
                i <= n,
                dest@.len() == old(dest)@.len(),
                dest@ =~= old(self).readable().take(i as int) + old(dest)@.skip(i as int),
            decreases n - i,
        {
            let b = self.inner.bit_at(p + i);
            dest.set(i, b);
            i = i + 1;
            proof {
                assert(dest@ =~= old(self).readable().take(i as int) + old(dest)@.skip(i as int));
            }
        }
        self.pos = self.pos + n as u64;
        proof {
            assert(self.readable() =~= old(self).readable().skip(n as int));
        }
        Ok(n)
    }
}

impl<T: BorrowBitsMut> BitWrite for BitCursor<T> {
    open spec fn write_wf(&self) -> bool {
        self.inner_spec().borrow_wf()
    }

    open spec fn sink(&self) -> Seq<bool> {
        self.inner_spec().bits()
    }

    open spec fn wpos(&self) -> nat {
        self.clamped_pos()
    }

    proof fn lemma_wpos_fits(&self) {
        self.inner_spec().lemma_bits_fit();
    }

    fn write_bits(&mut self, source: &BitVec) -> (r: Result<usize, BufError>) {
        proof {
            self.inner.lemma_bits_fit();
            source.lemma_len_ok();
        }
        let len = self.inner.bit_count();
        let p = if self.pos >= len as u64 {
            len
        } else {
            self.pos as usize
        };
        let space = len - p;
        let want = source.len();
        let n = if want <= space {
            want
        } else {
            space
        };
        let ghost pp = p as int;
        proof {
            assert(self.sink() =~= old(self).sink().take(pp) + source@.take(0) + old(self).sink().skip(pp));
        }
        let mut i: usize = 0;
        while i < n
            invariant
                self.inner_spec().borrow_wf(),
                source.wf(),
                self.pos_spec() == old(self).pos_spec(),
                pp == old(self).clamped_pos(),
                p == pp,
                pp + n <= self.sink().len(),
                self.sink().len() == old(self).sink().len(),
                self.sink().len() <= usize::MAX,
                n <= source@.len(),
                i <= n,
                self.sink() == old(self).sink().take(pp) + source@.take(i as int) + old(self).sink().skip(pp + i),
            decreases n - i,
        {
            let b = source.at(i);
            self.inner.set_bit(p + i, b);
            i = i + 1;
            proof {
                assert(self.sink() =~= old(self).sink().take(pp) + source@.take(i as int) + old(self).sink().skip(pp + i));
            }
        }
        self.pos = self.pos + n as u64;
        Ok(n)
    }
}

impl<T: BorrowBits> BitSeek for BitCursor<T> {
    open spec fn seek_wf(&self) -> bool {
        self.inner_spec().borrow_wf()
    }

    open spec fn stream(&self) -> Seq<bool> {
        self.inner_spec().bits()
    }

    open spec fn cursor_pos(&self) -> nat {
        self.pos_spec() as nat
    }

    fn bit_seek(&mut self, pos: SeekFrom) -> (r: Result<u64, BufError>) {
        proof {
            self.inner.lemma_bits_fit();
        }
        match pos {
            SeekFrom::Start(n) => {
                self.pos = n;
                Ok(n)
            },
            SeekFrom::End(ofs) => {
                let len = self.inner.bit_count();
                let target: i128 = (len as i128) + (ofs as i128);
                if target < 0 || target > u64::MAX as i128 {
                    return Err(BufError::InvalidSeek);
                }
                self.pos = target as u64;
                Ok(self.pos)
            },
            SeekFrom::Current(ofs) => {
                let target: i128 = (self.pos as i128) + (ofs as i128);
                if target < 0 || target > u64::MAX as i128 {
                    return Err(BufError::InvalidSeek);
                }
                self.pos = target as u64;
                Ok(self.pos)
            },
        }
    }
}

} // verus!
