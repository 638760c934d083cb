//! The shareable, immutable bit buffer: a bit-precise view over
//! reference-counted byte storage, cheaply cloned and sliced without copying.

use crate::bit_types::BitVec;
use crate::bitmath::{
    bits_of_bytes, bytes_for_bits, get_bit_in_byte, lemma_bits_of_bytes_slice,
    lemma_bits_of_bytes_subrange, lemma_byte_bits_value,
};
use crate::buf::bit_buf::BitBuf;
use crate::error::BufError;
use crate::io::bit_read::BitRead;
use crate::storage::{bytes_as_slice, bytes_clone, bytes_from_static, bytes_from_vec, bytes_len};
use vstd::prelude::*;

verus! {

/// A cheaply cloneable run of bits over shared, immutable byte storage.
/// Multiple handles may view the same storage; the storage is never written
/// once it is held this way.
pub struct Bits {
    pub(crate) inner: bytes::Bytes,
    /// The start of this instance's view of the underlying storage, in bits.
    pub(crate) bit_start: usize,
    /// How many bits, from `bit_start`, are part of this view.
    pub(crate) bit_len: usize,
}

impl View for Bits {
    type V = Seq<bool>;

    /// The bits in view.
    closed spec fn view(&self) -> Seq<bool> {
        bits_of_bytes(crate::storage::bytes_view(self.inner)).subrange(
            self.bit_start as int,
            self.bit_start + self.bit_len,
        )
    }
}

impl Bits {
    /// The bytes of the underlying storage.
    pub closed spec fn storage(&self) -> Seq<u8> {
        crate::storage::bytes_view(self.inner)
    }

    /// Where this view starts in the storage, in bits.
    pub closed spec fn start_spec(&self) -> nat {
        self.bit_start as nat
    }

    /// The view fits inside the storage, whose bit count is addressable.
    pub closed spec fn wf(&self) -> bool {
        &&& self.bit_start + self.bit_len <= self.storage().len() * 8
        &&& self.storage().len() * 8 <= usize::MAX
    }

    pub(crate) proof fn lemma_view_len(&self)
        requires
            self.wf(),
        ensures
            self@.len() == self.bit_len,
            self@.len() <= usize::MAX,
    {
    }

    /// A view over the given shared storage with an explicit span.
    pub(crate) fn from_raw(inner: bytes::Bytes, bit_start: usize, bit_len: usize) -> (r: Bits)
        requires
            bit_start + bit_len <= crate::storage::bytes_view(inner).len() * 8,
            crate::storage::bytes_view(inner).len() * 8 <= usize::MAX,
        ensures
            r.wf(),
            r.storage() == crate::storage::bytes_view(inner),
            r.start_spec() == bit_start,
            r@ == bits_of_bytes(crate::storage::bytes_view(inner)).subrange(
                bit_start as int,
                bit_start + bit_len,
            ),
    {
        Bits { inner, bit_start, bit_len }
    }

    /// A view of all the bits of the given shared storage; nothing is
    /// copied.
    pub fn from_bytes(bytes: bytes::Bytes) -> (r: Bits)
        requires
            crate::storage::bytes_view(bytes).len() * 8 <= usize::MAX,
        ensures
            r.wf(),
            r@ == bits_of_bytes(crate::storage::bytes_view(bytes)),
            r.storage() == crate::storage::bytes_view(bytes),
            r.start_spec() == 0,
    {
        let n = bytes_len(&bytes);
        proof {
            assert(n * 8 <= usize::MAX);
        }
        let r = Bits { inner: bytes, bit_start: 0, bit_len: n * 8 };
        proof {
            assert(r@ =~= bits_of_bytes(r.storage()));
        }
        r
    }

    /// A view of all the bits of a static byte slice; nothing is allocated
    /// or copied.
    pub fn from_static_bytes(bytes: &'static [u8]) -> (r: Bits)
        requires
            bytes@.len() * 8 <= usize::MAX,
        ensures
            r.wf(),
            r@ == bits_of_bytes(bytes@),
            r.start_spec() == 0,
    {
        Bits::from_bytes(bytes_from_static(bytes))
    }

    /// A new buffer holding a copy of the given bytes.
    pub fn copy_from_bytes(bytes: &[u8]) -> (r: Bits)
        requires
            bytes@.len() * 8 <= usize::MAX,
        ensures
            r.wf(),
            r@ == bits_of_bytes(bytes@),
            r.start_spec() == 0,
    {
        let v = vstd::slice::slice_to_vec(bytes);
        Bits::from_bytes(bytes_from_vec(v))
    }

    /// A new buffer holding a copy of the given bits.
    pub fn copy_from_bit_slice(bits: &BitVec) -> (r: Bits)
        requires
            bits.wf(),
            bits@.len() <= usize::MAX - 7,
        ensures
            r.wf(),
            r@ == bits@,
            r.start_spec() == 0,
    {
        proof {
            bits.lemma_len_ok();
            assert(bytes_for_bits(bits@.len()) * 8 <= bits@.len() + 7) by (nonlinear_arith);
        }
        let n = bits.len();
        let bytes = bits.clone_bytes();
        let r = Bits { inner: bytes_from_vec(bytes), bit_start: 0, bit_len: n };
        proof {
            assert(r@ =~= bits_of_bytes(r.storage()).take(n as int));
        }
        r
    }

    /// A new view of the bit range `[start, end)` of this view, over the
    /// same storage; nothing is copied and nothing is written.
    pub fn slice_bits(&self, start: usize, end: usize) -> (r: Bits)
        requires
            self.wf(),
            start <= end <= self@.len(),
        ensures
            r.wf(),
            r@ == self@.subrange(start as int, end as int),
            r.storage() == self.storage(),
            r.start_spec() == self.start_spec() + start,
    {
        let r = Bits {
            inner: bytes_clone(&self.inner),
            bit_start: self.bit_start + start,
            bit_len: end - start,
        };
        proof {
            assert(r@ =~= self@.subrange(start as int, end as int));
        }
        r
    }

    /// A new view of the byte range `[start, end)` of this view, over the
    /// same storage. The range is counted from the start of this view, which
    /// itself may sit anywhere in the storage.
    pub fn slice_bytes(&self, start: usize, end: usize) -> (r: Bits)
        requires
            self.wf(),
            start <= end,
            end * 8 <= self@.len(),
        ensures
            r.wf(),
            r@ == self@.subrange(8 * start as int, 8 * end as int),
            r.storage() == self.storage(),
            r.start_spec() == self.start_spec() + 8 * start,
    {
        proof {
            self.lemma_view_len();
            assert(start * 8 <= end * 8) by (nonlinear_arith)
                requires
                    start <= end,
            ;
        }
        self.slice_bits(start * 8, end * 8)
    }

    /// Splits off the first `at` bits into the returned buffer; this view
    /// keeps the rest. The storage is shared, not copied, and never written.
    pub fn split_to_bits(&mut self, at: usize) -> (r: Bits)
        requires
            old(self).wf(),
            at <= old(self)@.len(),
        ensures
            final(self).wf(),
            r.wf(),
            r@ == old(self)@.take(at as int),
            final(self)@ == old(self)@.skip(at as int),
            r.storage() == old(self).storage(),
            final(self).storage() == old(self).storage(),
            r.start_spec() == old(self).start_spec(),
            final(self).start_spec() == old(self).start_spec() + at,
    {
        let r = Bits { inner: bytes_clone(&self.inner), bit_start: self.bit_start, bit_len: at };
        self.bit_start = self.bit_start + at;
        self.bit_len = self.bit_len - at;
        proof {
            assert(r@ =~= old(self)@.take(at as int));
            assert(self@ =~= old(self)@.skip(at as int));
        }
        r
    }

    /// Splits off the first `at` bytes (of this view) into the returned
    /// buffer.
    pub fn split_to_bytes(&mut self, at: usize) -> (r: Bits)
        requires
            old(self).wf(),
            at * 8 <= old(self)@.len(),
        ensures
            final(self).wf(),
            r.wf(),
            r@ == old(self)@.take(8 * at as int),
            final(self)@ == old(self)@.skip(8 * at as int),
            r.storage() == old(self).storage(),
            final(self).storage() == old(self).storage(),
            r.start_spec() == old(self).start_spec(),
            final(self).start_spec() == old(self).start_spec() + 8 * at,
    {
        proof {
            self.lemma_view_len();
        }
        self.split_to_bits(at * 8)
    }

    /// Splits off everything from bit `at` on into the returned buffer; this
    /// view keeps the first `at` bits.
    pub fn split_off_bits(&mut self, at: usize) -> (r: Bits)
        requires
            old(self).wf(),
            at <= old(self)@.len(),
        ensures
            final(self).wf(),
            r.wf(),
            final(self)@ == old(self)@.take(at as int),
            r@ == old(self)@.skip(at as int),
            r.storage() == old(self).storage(),
            final(self).storage() == old(self).storage(),
            r.start_spec() == old(self).start_spec() + at,
            final(self).start_spec() == old(self).start_spec(),
    {
        let r = Bits {
            inner: bytes_clone(&self.inner),
            bit_start: self.bit_start + at,
            bit_len: self.bit_len - at,
        };
        self.bit_len = at;
        proof {
            assert(r@ =~= old(self)@.skip(at as int));
            assert(self@ =~= old(self)@.take(at as int));
        }
        r
    }

    /// Splits off everything from byte `at` (of this view) on into the
    /// returned buffer.
    pub fn split_off_bytes(&mut self, at: usize) -> (r: Bits)
        requires
            old(self).wf(),
            at * 8 <= old(self)@.len(),
        ensures
            final(self).wf(),
            r.wf(),
            final(self)@ == old(self)@.take(8 * at as int),
            r@ == old(self)@.skip(8 * at as int),
            r.storage() == old(self).storage(),
            final(self).storage() == old(self).storage(),
            r.start_spec() == old(self).start_spec() + 8 * at,
            final(self).start_spec() == old(self).start_spec(),
    {
        proof {
            self.lemma_view_len();
        }
        self.split_off_bits(at * 8)
    }

    /// Shortens the buffer to its first `len` bits; longer `len` has no
    /// effect.
    pub fn truncate_bits(&mut self, len: usize)
        requires
            old(self).wf(),
        ensures
            final(self).wf(),
            final(self)@ == if len < old(self)@.len() {
                old(self)@.take(len as int)
            } else {
                old(self)@
            },
            final(self).storage() == old(self).storage(),
            final(self).start_spec() == old(self).start_spec(),
    {
        if len < self.bit_len {
            self.bit_len = len;
            proof {
                assert(self@ =~= old(self)@.take(len as int));
            }
        }
    }

    /// Shortens the buffer to its first `len` bytes; longer `len` has no
    /// effect.
    pub fn truncate_bytes(&mut self, len: usize)
        requires
            old(self).wf(),
        ensures
            final(self).wf(),
            final(self)@ == if 8 * len < old(self)@.len() {
                old(self)@.take(8 * len as int)
            } else {
                old(self)@
            },
            final(self).storage() == old(self).storage(),
            final(self).start_spec() == old(self).start_spec(),
    {
        if len <= self.bit_len / 8 {
            proof {
                self.lemma_view_len();
            }
            self.truncate_bits(len * 8);
        } else {
            proof {
                assert(8 * len >= 8 * (self.bit_len / 8 + 1)) by (nonlinear_arith)
                    requires
                        len > self.bit_len / 8,
                ;
            }
        }
    }

    /// Empties the buffer.
    pub fn clear(&mut self)
        requires
            old(self).wf(),
        ensures
            final(self).wf(),
            final(self)@.len() == 0,
            final(self).storage() == old(self).storage(),
            final(self).start_spec() == old(self).start_spec(),
    {
        self.truncate_bits(0);
        proof {
            assert(old(self)@.take(0).len() == 0);
        }
    }

    /// The number of bits in view.
    pub fn len_bits(&self) -> (r: usize)
        requires
            self.wf(),
        ensures
            r == self@.len(),
    {
        proof {
            self.lemma_view_len();
        }
        self.bit_len
    }

    /// The number of complete bytes in view (a truncating divide of the bit
    /// count).
    pub fn len_bytes(&self) -> (r: usize)
        requires
            self.wf(),
        ensures
            r == self@.len() / 8,
    {
        proof {
            self.lemma_view_len();
        }
        self.bit_len / 8
    }

    /// Whether no bits are in view.
    pub fn is_empty(&self) -> (r: bool)
        requires
            self.wf(),
        ensures
            r == (self@.len() == 0),
    {
        proof {
            self.lemma_view_len();
        }
        self.bit_len == 0
    }

    /// The bytes in view, borrowed straight from the storage; only valid on
    /// a byte-aligned view.
    pub fn chunk_bytes(&self) -> (r: &[u8])
        requires
            self.wf(),
            self.aligned(),
        ensures
            r@ == self.storage().subrange(
                (self.start_spec() / 8) as int,
                (self.start_spec() / 8 + self@.len() / 8) as int,
            ),
            bits_of_bytes(r@) == self@,
    {
        proof {
            self.lemma_view_len();
            assert(self.bit_start / 8 + self.bit_len / 8 <= self.storage().len() && 8 * (
            self.bit_start / 8) == self.bit_start && 8 * (self.bit_start / 8 + self.bit_len / 8)
                == self.bit_start + self.bit_len) by (nonlinear_arith)
                requires
                    self.bit_start % 8 == 0 && self.bit_len % 8 == 0 && self.bit_start
                        + self.bit_len <= self.storage().len() * 8,
            ;
        }
        let s = bytes_as_slice(&self.inner);
        let r = vstd::slice::slice_subrange(s, self.bit_start / 8, self.bit_start / 8 + self.bit_len
            / 8);
        proof {
            lemma_bits_of_bytes_subrange(
                self.storage(),
                (self.bit_start / 8) as int,
                (self.bit_start / 8 + self.bit_len / 8) as int,
            );
        }
        r
    }
}

impl BitBuf for Bits {
    open spec fn wf(&self) -> bool {
        Bits::wf(self)
    }

    open spec fn rem(&self) -> Seq<bool> {
        self@
    }

    open spec fn aligned(&self) -> bool {
        self.start_spec() % 8 == 0 && self@.len() % 8 == 0
    }

    proof fn lemma_aligned_rem(&self) {
    }

    proof fn lemma_rem_fits(&self) {
        self.lemma_view_len();
    }

    fn remaining_bits(&self) -> (r: usize) {
        self.len_bits()
    }

    fn byte_aligned(&self) -> (r: bool) {
        proof {
            self.lemma_view_len();
        }
        self.bit_start % 8 == 0 && self.bit_len % 8 == 0
    }

    fn bit_at(&self, i: usize) -> (b: bool) {
        proof {
            self.lemma_view_len();
            assert((self.bit_start + i) / 8 < self.storage().len() && (self.bit_start + i) % 8 < 8
                && 8 * ((self.bit_start + i) / 8) + (self.bit_start + i) % 8 == self.bit_start
                + i) by (nonlinear_arith)
                requires
                    self.bit_start + i < self.storage().len() * 8,
            ;
        }
        let s = bytes_as_slice(&self.inner);
        let pos = self.bit_start + i;
        let byte = s[pos / 8];
        let r = get_bit_in_byte(byte, pos % 8);
        proof {
            crate::bitmath::lemma_bits_of_bytes_index(self.storage(), pos as int);
        }
        r
    }

    fn byte_at(&self, j: usize) -> (b: u8) {
        proof {
            self.lemma_view_len();
            assert(self.bit_start % 8 == 0 ==> (self.bit_start / 8 + j) < self.storage().len() && 8
                * (self.bit_start / 8 + j) == self.bit_start + 8 * j) by (nonlinear_arith)
                requires
                    self.bit_start + self.bit_len <= self.storage().len() * 8 && 8 * j + 8
                        <= self.bit_len,
            ;
        }
        let s = bytes_as_slice(&self.inner);
        let b = s[self.bit_start / 8 + j];
        proof {
            lemma_bits_of_bytes_slice(self.storage(), self.bit_start / 8 + j as int);
            lemma_byte_bits_value(b);
            assert(self.rem().subrange(8 * j as int, 8 * j as int + 8) =~= bits_of_bytes(
                self.storage(),
            ).subrange(8 * (self.bit_start / 8 + j as int), 8 * (self.bit_start / 8 + j as int) + 8));
        }
        b
    }

    fn advance_bits(&mut self, count: usize)
        ensures
            final(self).storage() == old(self).storage(),
            final(self).start_spec() == old(self).start_spec() + count,
    {
        proof {
            self.lemma_view_len();
        }
        self.bit_start = self.bit_start + count;
        self.bit_len = self.bit_len - count;
        proof {
            assert(self@ =~= old(self)@.skip(count as int));
        }
    }
}

impl BitRead for Bits {
    open spec fn read_wf(&self) -> bool {
        self.wf()
    }

    open spec fn readable(&self) -> Seq<bool> {
        self@
    }

    fn read_bits(&mut self, dest: &mut BitVec) -> (r: Result<usize, BufError>) {
        proof {
            self.lemma_view_len();
            dest.lemma_len_ok();
        }
        let rem = self.len_bits();
        let want = dest.len();
        let n = if want <= rem {
            want
        } else {
            rem
        };
        let mut i: usize = 0;
        while i < n
            invariant
                self.wf(),
                dest.wf(),
                self@ == old(self)@,
                n <= self@.len(),
                n <= old(dest)@.len(),
                i <= n,
                dest@.len() == old(dest)@.len(),
                dest@ =~= old(self)@.take(i as int) + old(dest)@.skip(i as int),
            decreases n - i,
        {
            let b = self.bit_at(i);
            dest.set(i, b);
            i = i + 1;
            proof {
                assert(dest@ =~= old(self)@.take(i as int) + old(dest)@.skip(i as int));
            }
        }
        self.advance_bits(n);
        Ok(n)
    }
}

impl Bits {
    /// Bit-content equality: two buffers are equal exactly when they view
    /// the same bits, whatever storage each of them views and wherever in it
    /// the view sits. Two overlapping-content slices carved from different
    /// parent buffers therefore compare equal.
    pub fn eq_bits(&self, other: &Bits) -> (r: bool)
        requires
            self.wf(),
            other.wf(),
        ensures
            r == (self@ == other@),
    {
        proof {
            self.lemma_view_len();
            other.lemma_view_len();
        }
        if self.bit_len != other.bit_len {
            proof {
                assert(self@.len() != other@.len());
            }
            return false;
        }
        let n = self.bit_len;
        let mut i: usize = 0;
        while i < n
            invariant
                self.wf(),
                other.wf(),
                n == self@.len() == other@.len(),
                i <= n,
                forall|m: int| 0 <= m < i ==> self@[m] == other@[m],
            decreases n - i,
        {
            if self.bit_at(i) != other.bit_at(i) {
                return false;
            }
            i = i + 1;
        }
        proof {
            assert(self@ =~= other@);
        }
        true
    }
}

impl Clone for Bits {
    /// The copy views the same bits of the same storage; the storage is
    /// shared, not copied.
    fn clone(&self) -> (r: Self)
        ensures
            r@ == self@,
            r.storage() == self.storage(),
            r.wf() == self.wf(),
            r.start_spec() == self.start_spec(),
    {
        Bits {
            inner: bytes_clone(&self.inner),
            bit_start: self.bit_start,
            bit_len: self.bit_len,
        }
    }
}

} // verus!
