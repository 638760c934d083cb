//! A borrowed slice of bits over a byte buffer, addressed by inclusive start
//! and exclusive end bit indices.

use crate::bitmath::{bits_of_bytes, get_bit_in_byte};
use crate::error::Error;
use vstd::prelude::*;

verus! {

/// A slice of bits; `start_bit_index` is inclusive, `end_bit_index` is
/// exclusive, both counted from the start of the borrowed bytes.
pub struct BitSlice<'a> {
    buf: &'a [u8],
    start_bit_index: u64,
    end_bit_index: u64,
}

impl<'a> View for BitSlice<'a> {
    type V = Seq<bool>;

    /// The bits in view.
    closed spec fn view(&self) -> Seq<bool> {
        bits_of_bytes(self.buf@).subrange(self.start_bit_index as int, self.end_bit_index as int)
    }
}

impl<'a> BitSlice<'a> {
    /// The borrowed bytes.
    pub closed spec fn buf_spec(&self) -> Seq<u8> {
        self.buf@
    }

    /// Where the view starts in the borrowed bytes, in bits.
    pub closed spec fn start_spec(&self) -> nat {
        self.start_bit_index as nat
    }

    /// The view's indices are ordered and fall inside the borrowed bytes,
    /// whose bit count is addressable.
    pub closed spec fn wf(&self) -> bool {
        &&& self.start_bit_index <= self.end_bit_index
        &&& self.end_bit_index <= self.buf@.len() * 8
        &&& self.buf@.len() * 8 <= usize::MAX
    }

    /// A well-formed slice's bit count fits the machine's addressing.
    pub proof fn lemma_len_fits(&self)
        requires
            self.wf(),
        ensures
            self@.len() <= usize::MAX,
    {
    }

    pub(crate) fn new(buf: &'a [u8], start_bit_index: u64, end_bit_index: u64) -> (r: BitSlice<'a>)
        requires
            start_bit_index <= end_bit_index,
            end_bit_index <= buf@.len() * 8,
            buf@.len() * 8 <= usize::MAX,
        ensures
            r.wf(),
            r.buf_spec() == buf@,
            r.start_spec() == start_bit_index,
            r@ == bits_of_bytes(buf@).subrange(start_bit_index as int, end_bit_index as int),
    {
        BitSlice { buf, start_bit_index, end_bit_index }
    }

    /// The number of bits in view.
    pub fn len(&self) -> (r: usize)
        requires
            self.wf(),
        ensures
            r == self@.len(),
    {
        (self.end_bit_index - self.start_bit_index) as usize
    }

    /// The bit at the given index, as 0 or 1.
    pub fn at(&self, index: u64) -> (r: u8)
        requires
            self.wf(),
            index < self@.len(),
        ensures
            r <= 1,
            (r == 1) == self@[index as int],
    {
        let bit_pos = self.start_bit_index + index;
        proof {
            assert((bit_pos as int) / 8 < self.buf@.len() && (bit_pos as int) % 8 < 8 && 8 * ((
            bit_pos as int) / 8) + (bit_pos as int) % 8 == bit_pos) by (nonlinear_arith)
                requires
                    bit_pos < self.buf@.len() * 8,
            ;
        }
        let byte_pos = (bit_pos / 8) as usize;
        let byte = self.buf[byte_pos];
        let b = get_bit_in_byte(byte, (bit_pos % 8) as usize);
        proof {
            crate::bitmath::lemma_bits_of_bytes_index(self.buf@, bit_pos as int);
        }
        if b {
            1
        } else {
            0
        }
    }

    /// A slice of this slice over the bit range `[start, end)`, counted from
    /// this view's start. The new slice borrows exactly the bytes its bits
    /// touch; a range whose last byte lies beyond the borrowed bytes is
    /// rejected.
    pub fn get_slice(&self, start: u64, end: u64) -> (r: Result<BitSlice<'a>, Error>)
        requires
            self.wf(),
            start < end,
            self.start_spec() + end <= u64::MAX,
        ensures
            ({
                let abs_start = self.start_spec() + start;
                let abs_end = self.start_spec() + end;
                let start_byte = abs_start / 8;
                let end_byte = (abs_end - 1) as nat / 8;
                match r {
                    Ok(s) => {
                        &&& end_byte < self.buf_spec().len()
                        &&& s.wf()
                        &&& s@ == bits_of_bytes(self.buf_spec()).subrange(
                            abs_start as int,
                            abs_start + (end - start),
                        )
                        &&& end <= self@.len() ==> s@ == self@.subrange(start as int, end as int)
                    },
                    Err(e) => end_byte >= self.buf_spec().len() && e == (Error::SliceOutOfRange {
                        len: self.buf_spec().len() as usize,
                        slice_start: start_byte as u64,
                        slice_end: end_byte as u64,
                    }),
                }
            }),
    {
        let bit_len = end - start;
        let abs_start = start + self.start_bit_index;
        let abs_end = abs_start + bit_len;
        let start_byte = abs_start / 8;
        let end_byte = (abs_end - 1) / 8;
        proof {
            assert(self.buf@.len() * 8 <= usize::MAX ==> self.buf@.len() <= usize::MAX)
                by (nonlinear_arith);
        }
        if end_byte >= self.buf.len() as u64 {
            return Err(
                Error::SliceOutOfRange {
                    len: self.buf.len(),
                    slice_start: start_byte,
                    slice_end: end_byte,
                },
            );
        }
        proof {
            let ab = abs_start as int;
            let ae = abs_end as int;
            assert(8 * (ab / 8) + ab % 8 == ab && 0 <= ab % 8 < 8 && 8 * ((ae - 1) / 8) + (ae - 1)
                % 8 == ae - 1 && 0 <= (ae - 1) % 8 < 8 && ab / 8 <= (ae - 1) / 8)
                by (nonlinear_arith)
                requires
                    0 <= ab < ae,
            ;
            assert((ae - 1) / 8 < self.buf@.len() ==> ae <= self.buf@.len() * 8)
                by (nonlinear_arith);
        }
        let sub_start = abs_start - start_byte * 8;
        let new_buf = vstd::slice::slice_subrange(
            self.buf,
            start_byte as usize,
            end_byte as usize + 1,
        );
        proof {
            assert(new_buf@.len() * 8 <= self.buf@.len() * 8) by (nonlinear_arith)
                requires
                    new_buf@.len() <= self.buf@.len(),
            ;
            assert(sub_start + bit_len <= new_buf@.len() * 8) by (nonlinear_arith)
                requires
                    sub_start == abs_start - 8 * (abs_start as int / 8),
                    abs_end - 1 <= 8 * ((abs_end - 1) as int / 8) + 7,
                    new_buf@.len() == (abs_end - 1) as int / 8 + 1 - abs_start as int / 8,
                    bit_len == abs_end - abs_start,
                    0 <= abs_start < abs_end,
            ;
        }
        let r = BitSlice::new(new_buf, sub_start, sub_start + bit_len);
        proof {
            crate::bitmath::lemma_bits_of_bytes_subrange(
                self.buf@,
                abs_start as int / 8,
                (abs_end - 1) as int / 8 + 1,
            );
            assert(r@ =~= bits_of_bytes(self.buf@).subrange(
                abs_start as int,
                abs_start + bit_len,
            ));
            if end <= self@.len() {
                assert(r@ =~= self@.subrange(start as int, end as int));
            }
        }
        Ok(r)
    }
}

impl<'a> BitSlice<'a> {
    /// Splits the view at bit `at`: the first slice holds the bits before
    /// it, the second the bits from it on, both over the same borrowed
    /// bytes.
    pub fn split_at(&self, at: usize) -> (r: (BitSlice<'a>, BitSlice<'a>))
        requires
            self.wf(),
            at <= self@.len(),
        ensures
            r.0.wf(),
            r.1.wf(),
            r.0@ == self@.take(at as int),
            r.1@ == self@.skip(at as int),
    {
        let mid = self.start_bit_index + at as u64;
        let left = BitSlice { buf: self.buf, start_bit_index: self.start_bit_index, end_bit_index: mid };
        let right = BitSlice { buf: self.buf, start_bit_index: mid, end_bit_index: self.end_bit_index };
        proof {
            assert(left@ =~= self@.take(at as int));
            assert(right@ =~= self@.skip(at as int));
        }
        (left, right)
    }
}

impl<'a> Clone for BitSlice<'a> {
    /// The copy views the same bits of the same bytes.
    fn clone(&self) -> (r: Self)
        ensures
            r == *self,
    {
        BitSlice {
            buf: self.buf,
            start_bit_index: self.start_bit_index,
            end_bit_index: self.end_bit_index,
        }
    }
}

/// Borrowing a value as a slice of bits.
pub trait AsBitSlice {
    /// The bits the value lends out.
    spec fn as_bits(&self) -> Seq<bool>;

    /// Whether the value is fit to lend its bits.
    spec fn as_bits_wf(&self) -> bool;

    /// Lends the value's bits as a `BitSlice`.
    fn as_bit_slice<'a>(&'a self) -> (r: BitSlice<'a>)
        requires
            self.as_bits_wf(),
        ensures
            r.wf(),
            r@ == self.as_bits(),
    ;
}

impl<'a> AsBitSlice for BitSlice<'a> {
    open spec fn as_bits(&self) -> Seq<bool> {
        self@
    }

    open spec fn as_bits_wf(&self) -> bool {
        self.wf()
    }

    fn as_bit_slice<'b>(&'b self) -> (r: BitSlice<'b>) {
        self.clone()
    }
}

impl AsBitSlice for crate::bit_types::BitVec {
    open spec fn as_bits(&self) -> Seq<bool> {
        self@
    }

    open spec fn as_bits_wf(&self) -> bool {
        self.wf()
    }

    fn as_bit_slice<'a>(&'a self) -> (r: BitSlice<'a>) {
        self.as_raw_slice()
    }
}

impl AsBitSlice for Vec<u8> {
    open spec fn as_bits(&self) -> Seq<bool> {
        bits_of_bytes(self@)
    }

    open spec fn as_bits_wf(&self) -> bool {
        self@.len() * 8 <= usize::MAX
    }

    fn as_bit_slice<'a>(&'a self) -> (r: BitSlice<'a>) {
        let n = self.len();
        proof {
            assert(bits_of_bytes(self@) =~= bits_of_bytes(self@).subrange(
                0,
                self@.len() * 8 as int,
            ));
        }
        BitSlice::new(self.as_slice(), 0, (n * 8) as u64)
    }
}

} // verus!
