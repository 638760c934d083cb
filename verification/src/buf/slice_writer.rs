//! A writable buffer over a fixed run of bytes: writes overwrite the bytes
//! in place, front to back, and stop at the end.

use crate::bitmath::{bits_of_bytes, byte_bits, set_bit_in_byte};
use crate::bit_types::BitVec;
use crate::bit_write::BitWrite;
use crate::buf::bit_buf_mut::BitBufMut;
use crate::error::BufError;
use crate::io::borrow_bits::BorrowBitsMut;
use vstd::prelude::*;

verus! {

/// A fixed-size byte buffer written through the `BitBufMut` contract; the
/// write cursor starts at the front and the capacity is exactly the buffer.
pub struct SliceWriter {
    data: Vec<u8>,
    pos: usize,
}

impl SliceWriter {
    /// The bytes held.
    pub closed spec fn data_spec(&self) -> Seq<u8> {
        self.data@
    }

    /// How many bits have been written.
    pub closed spec fn pos_spec(&self) -> nat {
        self.pos as nat
    }

    /// The cursor is inside the buffer, whose bit count is addressable.
    pub closed spec fn wf(&self) -> bool {
        &&& self.pos <= self.data@.len() * 8
        &&& self.data@.len() * 8 <= usize::MAX
    }

    /// A writer over the given bytes, with the cursor at the front.
    pub fn new(data: Vec<u8>) -> (r: SliceWriter)
        requires
            data@.len() * 8 <= usize::MAX,
        ensures
            r.wf(),
            r.data_spec() == data@,
            r.pos_spec() == 0,
    {
        SliceWriter { data, pos: 0 }
    }

    /// Takes the bytes back out.
    pub fn into_vec(self) -> (r: Vec<u8>)
        ensures
            r@ == self.data_spec(),
    {
        self.data
    }
}

impl BitBufMut for SliceWriter {
    open spec fn wf_mut(&self) -> bool {
        self.wf()
    }

    open spec fn wrote(&self) -> Seq<bool> {
        bits_of_bytes(self.data_spec()).take(self.pos_spec() as int)
    }

    open spec fn avail(&self) -> nat {
        (self.data_spec().len() * 8 - self.pos_spec()) as nat
    }

    open spec fn aligned_mut(&self) -> bool {
        self.pos_spec() % 8 == 0
    }

    proof fn lemma_aligned_avail_mut(&self) {
    }

    proof fn lemma_wrote_fits(&self) {
    }

    fn remaining_mut_bits(&self) -> (r: usize) {
        proof {
            assert(self.data@.len() * 8 >= self.pos);
        }
        self.data.len() * 8 - self.pos
    }

    fn byte_aligned_mut(&self) -> (r: bool) {
        self.pos % 8 == 0
    }

    fn put_bit(&mut self, b: bool) {
        proof {
            assert(self.pos / 8 < self.data@.len() && self.pos % 8 < 8 && 8 * (self.pos / 8)
                + self.pos % 8 == self.pos) by (nonlinear_arith)
                requires
                    self.pos < self.data@.len() * 8,
            ;
        }
        let j = self.pos / 8;
        let nb = set_bit_in_byte(self.data[j], self.pos % 8, b);
        self.data.set(j, nb);
        self.pos = self.pos + 1;
        proof {
            let ghost olds = old(self).data_spec();
            let ghost news = self.data_spec();
            assert forall|m: int| 0 <= m < self.pos implies bits_of_bytes(news)[m] == old(
                self,
            ).wrote().push(b)[m] by {
                assert(0 <= m / 8 < news.len() && 0 <= m % 8 < 8 && 8 * (m / 8) + m % 8 == m)
                    by (nonlinear_arith)
                    requires
                        0 <= m < news.len() * 8,
                ;
                if m / 8 == j && m % 8 == old(self).pos_spec() % 8 {
                    assert(m == old(self).pos_spec());
                }
            }
            assert(self.wrote() =~= old(self).wrote().push(b));
        }
    }

    fn put_byte(&mut self, byte: u8) {
        proof {
            assert(self.pos / 8 < self.data@.len() && 8 * (self.pos / 8) == self.pos)
                by (nonlinear_arith)
                requires
                    self.pos % 8 == 0 && self.pos + 8 <= self.data@.len() * 8,
            ;
        }
        let j = self.pos / 8;
        self.data.set(j, byte);
        self.pos = self.pos + 8;
        proof {
            crate::bitmath::lemma_bits_of_bytes_update(old(self).data_spec(), j as int, byte);
            let ghost news = self.data_spec();
            assert forall|m: int| 0 <= m < self.pos implies bits_of_bytes(news)[m] == (old(
                self,
            ).wrote() + byte_bits(byte))[m] by {
                assert(0 <= m / 8 < news.len() && 0 <= m % 8 < 8 && 8 * (m / 8) + m % 8 == m && (m
                    < 8 * j ==> m / 8 < j) && (8 * j <= m < 8 * j + 8 ==> m / 8 == j && m - 8 * j
                    == m % 8)) by (nonlinear_arith)
                    requires
                        0 <= m < news.len() * 8,
                ;
            }
            assert(self.wrote() =~= old(self).wrote() + byte_bits(byte));
        }
    }

    fn advance_mut_bits(&mut self, count: usize) {
        self.pos = self.pos + count;
        proof {
            assert(self.wrote().take(old(self).wrote().len() as int) =~= old(self).wrote());
        }
    }
}

impl BitWrite for SliceWriter {
    open spec fn write_wf(&self) -> bool {
        self.wf()
    }

    open spec fn sink(&self) -> Seq<bool> {
        bits_of_bytes(self.data_spec())
    }

    open spec fn wpos(&self) -> nat {
        self.pos_spec()
    }

    proof fn lemma_wpos_fits(&self) {
    }

    fn write_bits(&mut self, source: &BitVec) -> (r: Result<usize, BufError>) {
        proof {
            source.lemma_len_ok();
        }
        let space = self.data.len() * 8 - self.pos;
        let want = source.len();
        let n = if want <= space {
            want
        } else {
            space
        };
        let ghost p = self.pos_spec() as int;
        proof {
            assert(self.sink() =~= old(self).sink().take(p) + source@.take(0) + old(
                self,
            ).sink().skip(p));
        }
        let mut i: usize = 0;
        while i < n
            invariant
                self.wf(),
                source.wf(),
                p == self.pos_spec(),
                self.pos_spec() == old(self).pos_spec(),
                self.data_spec().len() == old(self).data_spec().len(),
                self.pos_spec() + n <= self.data_spec().len() * 8,
                n <= source@.len(),
                i <= n,
                self.sink() == old(self).sink().take(p) + source@.take(i as int) + old(
                    self,
                ).sink().skip(p + i),
            decreases n - i,
        {
            let b = source.at(i);
            let ghost prev = self.data_spec();
            self.data.set_bit(self.pos + i, b);
            i = i + 1;
            proof {
                let l1 = self.data_spec().len();
                let l2 = prev.len();
                assert(bits_of_bytes(self.data_spec()).len() == l1 * 8);
                assert(bits_of_bytes(prev).len() == l2 * 8);
                assert(l1 * 8 == l2 * 8 ==> l1 == l2) by (nonlinear_arith);
                assert(self.sink() == bits_of_bytes(prev).update(p + (i - 1), b));
                assert(self.sink() =~= old(self).sink().take(p) + source@.take(i as int) + old(
                    self,
                ).sink().skip(p + i));
            }
        }
        self.pos = self.pos + n;
        proof {
            assert(self.sink() =~= old(self).sink().take(old(self).wpos() as int) + source@.take(
                n as int,
            ) + old(self).sink().skip(old(self).wpos() + n));
        }
        Ok(n)
    }
}

} // verus!
