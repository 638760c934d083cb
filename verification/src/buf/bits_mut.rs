//! The growable, exclusively owned bit buffer: a bit-precise writable span
//! over resizable byte storage, convertible without copying into the shared
//! immutable buffer.

use crate::bit_types::BitVec;
use crate::bitmath::{
    bits_of_bytes, byte_bits, bytes_for_bits, get_bit_in_byte, lemma_bits_of_bytes_slice,
    lemma_bits_of_bytes_update, lemma_byte_bits_value, set_bit_in_byte,
};
use crate::buf::bit_buf::BitBuf;
use crate::buf::bit_buf_mut::BitBufMut;
use crate::bit_write::BitWrite;
use crate::buf::bits::Bits;
use crate::error::BufError;
use crate::storage::{
    bytes_mut_byte, bytes_mut_clone, bytes_mut_freeze, bytes_mut_from_slice, bytes_mut_len,
    bytes_mut_resize, bytes_mut_set_byte, bytes_mut_zeroed,
};
use vstd::prelude::*;

verus! {

/// The highest bit index any byte storage can reach on this machine.
pub open spec fn max_bits() -> nat {
    (usize::MAX - 7) as nat
}

/// An exclusively owned, growable run of bits. Writing appends after the
/// last written bit; growth reallocates the storage but never changes the
/// value or position of a written bit.
pub struct BitsMut {
    inner: bytes::BytesMut,
    /// The start of this instance's view of the underlying storage, in bits.
    bit_start: usize,
    /// How many bits, from `bit_start`, are written.
    bit_len: usize,
    /// How many bits, from `bit_start`, the view may use before the storage
    /// must grow.
    capacity: usize,
}

impl View for BitsMut {
    type V = Seq<bool>;

    /// The written bits.
    closed spec fn view(&self) -> Seq<bool> {
        bits_of_bytes(crate::storage::bytes_mut_view(self.inner)).subrange(
            self.bit_start as int,
            self.bit_start + self.bit_len,
        )
    }
}

impl BitsMut {
    /// The bytes of the underlying storage.
    pub closed spec fn storage(&self) -> Seq<u8> {
        crate::storage::bytes_mut_view(self.inner)
    }

    /// Where this view starts in the storage, in bits.
    pub closed spec fn start_spec(&self) -> nat {
        self.bit_start as nat
    }

    /// How many bits may be written before the storage must grow.
    pub closed spec fn capacity_spec(&self) -> nat {
        self.capacity as nat
    }

    /// The bits between the written end and the capacity end, with whatever
    /// values the storage holds there.
    pub closed spec fn spare_bits(&self) -> Seq<bool> {
        bits_of_bytes(self.storage()).subrange(
            self.bit_start + self.bit_len,
            self.bit_start + self.capacity,
        )
    }

    /// The view and its capacity fit inside the storage, whose bit count is
    /// addressable; the written length never exceeds the capacity.
    pub closed spec fn wf(&self) -> bool {
        &&& self.bit_start + self.capacity <= self.storage().len() * 8
        &&& self.storage().len() * 8 <= usize::MAX
        &&& self.bit_len <= self.capacity
    }

    pub(crate) proof fn lemma_view_len(&self)
        requires
            self.wf(),
        ensures
            self@.len() + self.spare_bits().len() == self.capacity_spec(),
            self.start_spec() + self.capacity_spec() <= usize::MAX,
            self@.len() <= usize::MAX,
    {
    }

    /// A new empty buffer with no particular capacity.
    pub fn new() -> (r: BitsMut)
        ensures
            r.wf(),
            r@ == Seq::<bool>::empty(),
            r.capacity_spec() == 0,
            r.spare_bits().len() == 0,
            r.start_spec() == 0,
    {
        BitsMut::with_capacity(0)
    }

    /// A new empty buffer able to hold at least `capacity` bits before its
    /// storage grows.
    pub fn with_capacity(capacity: usize) -> (r: BitsMut)
        requires
            capacity <= max_bits(),
        ensures
            r.wf(),
            r@ == Seq::<bool>::empty(),
            r.capacity_spec() == capacity,
            r.spare_bits() == Seq::new(capacity as nat, |i: int| false),
            r.start_spec() == 0,
    {
        let nbytes = crate::bytes_needed(capacity);
        proof {
            assert(bytes_for_bits(capacity as nat) * 8 <= capacity + 7) by (nonlinear_arith);
            assert(capacity <= bytes_for_bits(capacity as nat) * 8) by (nonlinear_arith);
        }
        let r = BitsMut { inner: bytes_mut_zeroed(nbytes), bit_start: 0, bit_len: 0, capacity };
        proof {
            r.lemma_view_len();
            assert(r@ =~= Seq::<bool>::empty());
            assert(r.spare_bits() =~= Seq::new(capacity as nat, |i: int| false)) by {
                assert forall|i: int| 0 <= i < capacity implies r.spare_bits()[i] == false by {
                    assert(r.storage()[i / 8] == 0 && 0 <= i / 8 && i % 8 < 8) by (nonlinear_arith)
                        requires
                            0 <= i < capacity && capacity <= r.storage().len() * 8 && forall|j: int|
                                0 <= j < r.storage().len() ==> r.storage()[j] == 0u8,
                    ;
                    let k8 = (i % 8) as u8;
                    assert(k8 < 8 ==> (0u8 >> ((7u8 - k8) as u8)) & 1 == 0) by (bit_vector);
                    assert((7 - (i % 8)) as u8 == (7u8 - k8) as u8);
                }
            }
        }
        r
    }

    /// A new empty buffer able to hold at least `capacity` bytes.
    pub fn with_capacity_bytes(capacity: usize) -> (r: BitsMut)
        requires
            capacity * 8 <= max_bits(),
        ensures
            r.wf(),
            r@ == Seq::<bool>::empty(),
            r.capacity_spec() == 8 * capacity,
            r.start_spec() == 0,
    {
        BitsMut::with_capacity(capacity * 8)
    }

    /// A new buffer of `len` zero bits, fully written.
    pub fn zeroed(len: usize) -> (r: BitsMut)
        requires
            len <= max_bits(),
        ensures
            r.wf(),
            r@ == Seq::new(len as nat, |i: int| false),
            r.capacity_spec() == len,
            r.start_spec() == 0,
    {
        let mut r = BitsMut::with_capacity(len);
        r.set_len(len);
        proof {
            assert(r@ =~= Seq::new(len as nat, |i: int| false));
        }
        r
    }

    /// A new buffer of `len` zero bytes, fully written.
    pub fn zeroed_bytes(len: usize) -> (r: BitsMut)
        requires
            len * 8 <= max_bits(),
        ensures
            r.wf(),
            r@ == Seq::new(8 * len as nat, |i: int| false),
            r.capacity_spec() == 8 * len,
    {
        BitsMut::zeroed(len * 8)
    }

    /// A buffer over all the bytes of the given exclusive storage, fully
    /// written.
    pub fn from_bytes_mut(bytes_mut: bytes::BytesMut) -> (r: BitsMut)
        requires
            crate::storage::bytes_mut_view(bytes_mut).len() * 8 <= max_bits(),
        ensures
            r.wf(),
            r@ == bits_of_bytes(crate::storage::bytes_mut_view(bytes_mut)),
            r.start_spec() == 0,
    {
        let n = bytes_mut_len(&bytes_mut);
        let r = BitsMut { inner: bytes_mut, bit_start: 0, bit_len: n * 8, capacity: n * 8 };
        proof {
            assert(r@ =~= bits_of_bytes(r.storage()));
        }
        r
    }

    /// A new buffer holding a copy of the given bytes, fully written.
    pub fn from_vec(vec: Vec<u8>) -> (r: BitsMut)
        requires
            vec@.len() * 8 <= max_bits(),
        ensures
            r.wf(),
            r@ == bits_of_bytes(vec@),
            r.start_spec() == 0,
    {
        BitsMut::from_bytes_mut(bytes_mut_from_slice(vec.as_slice()))
    }

    /// A new buffer holding a copy of the given bits, fully written.
    pub fn copy_from_bit_slice(bits: &BitVec) -> (r: BitsMut)
        requires
            bits.wf(),
            bits@.len() <= usize::MAX - 8,
        ensures
            r.wf(),
            r@ == bits@,
            r.start_spec() == 0,
    {
        proof {
            bits.lemma_len_ok();
            assert(bytes_for_bits(bits@.len()) * 8 <= bits@.len() + 7) by (nonlinear_arith);
        }
        let n = bits.len();
        let bytes = bits.clone_bytes();
        let r = BitsMut {
            inner: bytes_mut_from_slice(bytes.as_slice()),
            bit_start: 0,
            bit_len: n,
            capacity: n,
        };
        proof {
            assert(r@ =~= bits_of_bytes(r.storage()).take(n as int));
        }
        r
    }

    /// Converts this buffer into an immutable shared one holding the same
    /// bits, without copying; this handle is consumed.
    pub fn freeze(self) -> (r: Bits)
        requires
            self.wf(),
        ensures
            r.wf(),
            r@ == self@,
            r.storage() == self.storage(),
            r.start_spec() == self.start_spec(),
    {
        proof {
            self.lemma_view_len();
        }
        let ghost v = self@;
        let ghost st = self.storage();
        let BitsMut { inner, bit_start, bit_len, capacity } = self;
        proof {
            assert(crate::storage::bytes_mut_view(inner) == st);
        }
        let fr = bytes_mut_freeze(inner);
        proof {
            assert(crate::storage::bytes_view(fr) == st);
        }
        let r = Bits::from_raw(fr, bit_start, bit_len);
        proof {
            assert(r@ =~= v);
        }
        r
    }

    /// The number of written bits.
    pub fn len(&self) -> (r: usize)
        requires
            self.wf(),
        ensures
            r == self@.len(),
    {
        proof {
            self.lemma_view_len();
        }
        self.bit_len
    }

    /// The number of complete written bytes (a truncating divide of the bit
    /// count).
    pub fn len_bytes(&self) -> (r: usize)
        requires
            self.wf(),
        ensures
            r == self@.len() / 8,
    {
        proof {
            self.lemma_view_len();
        }
        self.bit_len / 8
    }

    /// Whether nothing has been written.
    pub fn is_empty(&self) -> (r: bool)
        requires
            self.wf(),
        ensures
            r == (self@.len() == 0),
    {
        proof {
            self.lemma_view_len();
        }
        self.bit_len == 0
    }

    /// Writes the already-written bit at index `i`; every other bit of the
    /// view, and all spare bits, keep their values.
    pub fn set(&mut self, i: usize, v: bool)
        requires
            old(self).wf(),
            i < old(self)@.len(),
        ensures
            final(self).wf(),
            final(self)@ == old(self)@.update(i as int, v),
            final(self).spare_bits() == old(self).spare_bits(),
            final(self).capacity_spec() == old(self).capacity_spec(),
            final(self).start_spec() == old(self).start_spec(),
    {
        proof {
            self.lemma_view_len();
            assert((self.bit_start + i) / 8 < self.storage().len() && (self.bit_start + i) % 8 < 8
                && 8 * ((self.bit_start + i) / 8) + (self.bit_start + i) % 8 == self.bit_start
                + i) by (nonlinear_arith)
                requires
                    self.bit_start + i < self.storage().len() * 8,
            ;
        }
        let pos = self.bit_start + i;
        let j = pos / 8;
        let nb = set_bit_in_byte(bytes_mut_byte(&self.inner, j), pos % 8, v);
        bytes_mut_set_byte(&mut self.inner, j, nb);
        proof {
            lemma_update_one_bit(old(self).storage(), self.storage(), pos as int);
            assert(self@ =~= old(self)@.update(i as int, v));
            assert(self.spare_bits() =~= old(self).spare_bits());
        }
    }

    /// Writes the spare bit at index `i` (counted from the written end);
    /// the written bits and every other spare bit keep their values.
    pub fn set_spare_bit(&mut self, i: usize, v: bool)
        requires
            old(self).wf(),
            i < old(self).spare_bits().len(),
        ensures
            final(self).wf(),
            final(self)@ == old(self)@,
            final(self).spare_bits() == old(self).spare_bits().update(i as int, v),
            final(self).capacity_spec() == old(self).capacity_spec(),
            final(self).start_spec() == old(self).start_spec(),
    {
        proof {
            self.lemma_view_len();
            assert((self.bit_start + self.bit_len + i) / 8 < self.storage().len() && (self.bit_start
                + self.bit_len + i) % 8 < 8 && 8 * ((self.bit_start + self.bit_len + i) / 8) + (
            self.bit_start + self.bit_len + i) % 8 == self.bit_start + self.bit_len + i)
                by (nonlinear_arith)
                requires
                    self.bit_start + self.bit_len + i < self.storage().len() * 8,
            ;
        }
        let pos = self.bit_start + self.bit_len + i;
        let j = pos / 8;
        let nb = set_bit_in_byte(bytes_mut_byte(&self.inner, j), pos % 8, v);
        bytes_mut_set_byte(&mut self.inner, j, nb);
        proof {
            lemma_update_one_bit(old(self).storage(), self.storage(), pos as int);
            assert(self@ =~= old(self)@);
            assert(self.spare_bits() =~= old(self).spare_bits().update(i as int, v));
        }
    }

    /// Sets the written length within the current capacity; growing exposes
    /// spare bits with the values they hold.
    pub fn set_len(&mut self, len: usize)
        requires
            old(self).wf(),
            len <= old(self).capacity_spec(),
        ensures
            final(self).wf(),
            final(self)@ == if len <= old(self)@.len() {
                old(self)@.take(len as int)
            } else {
                old(self)@ + old(self).spare_bits().take(len - old(self)@.len())
            },
            final(self)@ + final(self).spare_bits() == old(self)@ + old(self).spare_bits(),
            final(self).capacity_spec() == old(self).capacity_spec(),
            final(self).start_spec() == old(self).start_spec(),
    {
        proof {
            self.lemma_view_len();
        }
        self.bit_len = len;
        proof {
            if len <= old(self)@.len() {
                assert(self@ =~= old(self)@.take(len as int));
            } else {
                assert(self@ =~= old(self)@ + old(self).spare_bits().take(len - old(self)@.len()));
            }
            assert(self@ + self.spare_bits() =~= old(self)@ + old(self).spare_bits());
        }
    }

    /// Makes room for at least `additional` more bits: a no-op while the
    /// spare capacity suffices, otherwise the storage grows (amortized) and
    /// the capacity rises. Written bits keep their values and positions, and
    /// the spare bits that existed keep theirs.
    pub fn reserve(&mut self, additional: usize)
        requires
            old(self).wf(),
            old(self).start_spec() + old(self)@.len() + additional <= max_bits(),
        ensures
            final(self).wf(),
            final(self)@ == old(self)@,
            final(self).capacity_spec() >= old(self).capacity_spec(),
            final(self).capacity_spec() - final(self)@.len() >= additional,
            final(self).spare_bits().take(old(self).spare_bits().len() as int) == old(
                self,
            ).spare_bits(),
            final(self).start_spec() == old(self).start_spec(),
    {
        proof {
            self.lemma_view_len();
        }
        let remainder = self.capacity - self.bit_len;
        if additional <= remainder {
            return ;
        }
        let needed_bits = self.bit_start + self.bit_len + additional;
        let needed_bytes = crate::bytes_needed(needed_bits);
        let cur_bytes = bytes_mut_len(&self.inner);
        proof {
            assert(bytes_for_bits(needed_bits as nat) * 8 <= needed_bits + 7 && needed_bits
                <= bytes_for_bits(needed_bits as nat) * 8) by (nonlinear_arith);
        }
        let doubled = if cur_bytes <= usize::MAX / 16 {
            cur_bytes * 2
        } else {
            cur_bytes
        };
        let new_bytes = if doubled > needed_bytes && doubled <= usize::MAX / 8 {
            doubled
        } else {
            needed_bytes
        };
        proof {
            assert(new_bytes * 8 <= usize::MAX && needed_bits <= new_bytes * 8) by (nonlinear_arith)
                requires
                    new_bytes == needed_bytes || (new_bytes == doubled && doubled <= usize::MAX / 8
                        && new_bytes >= needed_bytes),
                    needed_bytes * 8 <= needed_bits + 7,
                    needed_bits <= needed_bytes * 8,
                    needed_bits <= usize::MAX - 7,
            ;
        }
        bytes_mut_resize(&mut self.inner, new_bytes, 0);
        let new_capacity = new_bytes * 8 - self.bit_start;
        self.capacity = new_capacity;
        proof {
            let ghost oldstore = old(self).storage();
            let ghost newstore = self.storage();
            assert forall|m: int|
                self.bit_start <= m < self.bit_start + old(self).capacity implies bits_of_bytes(
                newstore,
            )[m] == bits_of_bytes(oldstore)[m] by {
                assert(0 <= m / 8 < oldstore.len() && 0 <= m / 8 < newstore.len() && m % 8 < 8)
                    by (nonlinear_arith)
                    requires
                        0 <= m < oldstore.len() * 8 && 0 <= m < newstore.len() * 8,
                ;
                assert(m < needed_bits && needed_bits <= newstore.len() * 8 && m < oldstore.len()
                    * 8);
            }
            assert(self@ =~= old(self)@);
            assert(self.spare_bits().take(old(self).spare_bits().len() as int) =~= old(
                self,
            ).spare_bits());
        }
    }
}

impl BitsMut {
    /// Splits off the first `at` written bits into a new buffer with its own
    /// storage; this buffer keeps the rest and all its spare room. The two
    /// handles share nothing: writes through one are never observable
    /// through the other.
    pub fn split_to(&mut self, at: usize) -> (r: BitsMut)
        requires
            old(self).wf(),
            at <= old(self)@.len(),
        ensures
            final(self).wf(),
            r.wf(),
            r@ == old(self)@.take(at as int),
            final(self)@ == old(self)@.skip(at as int),
            final(self).spare_bits() == old(self).spare_bits(),
            r.capacity_spec() == at,
            final(self).capacity_spec() == old(self).capacity_spec() - at,
    {
        proof {
            self.lemma_view_len();
        }
        let r = BitsMut {
            inner: bytes_mut_clone(&self.inner),
            bit_start: self.bit_start,
            bit_len: at,
            capacity: at,
        };
        self.bit_start = self.bit_start + at;
        self.bit_len = self.bit_len - at;
        self.capacity = self.capacity - at;
        proof {
            assert(r@ =~= old(self)@.take(at as int));
            assert(self@ =~= old(self)@.skip(at as int));
            assert(self.spare_bits() =~= old(self).spare_bits());
        }
        r
    }

    /// Splits off the first `at` written bytes (of this view) into a new
    /// buffer with its own storage.
    pub fn split_to_bytes(&mut self, at: usize) -> (r: BitsMut)
        requires
            old(self).wf(),
            at * 8 <= old(self)@.len(),
        ensures
            final(self).wf(),
            r.wf(),
            r@ == old(self)@.take(8 * at as int),
            final(self)@ == old(self)@.skip(8 * at as int),
            final(self).spare_bits() == old(self).spare_bits(),
    {
        proof {
            self.lemma_view_len();
        }
        self.split_to(at * 8)
    }

    /// Removes all written bits into a new buffer with its own storage; this
    /// buffer becomes empty but keeps its spare room.
    pub fn split(&mut self) -> (r: BitsMut)
        requires
            old(self).wf(),
        ensures
            final(self).wf(),
            r.wf(),
            r@ == old(self)@,
            final(self)@.len() == 0,
            final(self).spare_bits() == old(self).spare_bits(),
    {
        proof {
            self.lemma_view_len();
        }
        let n = self.len();
        let r = self.split_to(n);
        proof {
            assert(r@ =~= old(self)@);
        }
        r
    }

    /// Splits the span at `at`: this buffer keeps the first `at` bits of its
    /// span (written or spare) as its whole capacity; the returned buffer,
    /// over its own storage, gets everything from `at` to the old capacity.
    /// The two handles share nothing.
    pub fn split_off(&mut self, at: usize) -> (r: BitsMut)
        requires
            old(self).wf(),
            at <= old(self).capacity_spec(),
        ensures
            final(self).wf(),
            r.wf(),
            final(self).capacity_spec() == at,
            r.capacity_spec() == old(self).capacity_spec() - at,
            if at <= old(self)@.len() {
                final(self)@ == old(self)@.take(at as int) && r@ == old(self)@.skip(at as int)
            } else {
                final(self)@ == old(self)@ && r@.len() == 0
            },
    {
        proof {
            self.lemma_view_len();
        }
        let r = BitsMut {
            inner: bytes_mut_clone(&self.inner),
            bit_start: self.bit_start + at,
            bit_len: if self.bit_len >= at {
                self.bit_len - at
            } else {
                0
            },
            capacity: self.capacity - at,
        };
        self.capacity = at;
        if self.bit_len > at {
            self.bit_len = at;
        }
        proof {
            if at <= old(self)@.len() {
                assert(self@ =~= old(self)@.take(at as int));
                assert(r@ =~= old(self)@.skip(at as int));
            } else {
                assert(self@ =~= old(self)@);
            }
        }
        r
    }

    /// Splits the span at byte `at` (of this view).
    pub fn split_off_bytes(&mut self, at: usize) -> (r: BitsMut)
        requires
            old(self).wf(),
            at * 8 <= old(self).capacity_spec(),
        ensures
            final(self).wf(),
            r.wf(),
            final(self).capacity_spec() == 8 * at,
            r.capacity_spec() == old(self).capacity_spec() - 8 * at,
            if 8 * at <= old(self)@.len() {
                final(self)@ == old(self)@.take(8 * at as int) && r@ == old(self)@.skip(
                    8 * at as int,
                )
            } else {
                final(self)@ == old(self)@ && r@.len() == 0
            },
    {
        proof {
            self.lemma_view_len();
        }
        self.split_off(at * 8)
    }

    /// Appends the given bits, growing the storage as needed; everything
    /// already written keeps its value and position.
    pub fn extend_from_slice(&mut self, slice: &BitVec)
        requires
            old(self).wf(),
            slice.wf(),
            old(self).start_spec() + old(self)@.len() + slice@.len() <= max_bits(),
        ensures
            final(self).wf(),
            final(self)@ == old(self)@ + slice@,
    {
        proof {
            self.lemma_view_len();
            slice.lemma_len_ok();
        }
        self.put_bit_slice(slice);
    }
}

impl Default for BitsMut {
    /// The default buffer is empty.
    fn default() -> (r: Self)
        ensures
            r.wf(),
            r@ == Seq::<bool>::empty(),
            r.capacity_spec() == 0,
            r.spare_bits().len() == 0,
            r.start_spec() == 0,
    {
        BitsMut::new()
    }
}

impl BitBuf for BitsMut {
    open spec fn wf(&self) -> bool {
        BitsMut::wf(self)
    }

    open spec fn rem(&self) -> Seq<bool> {
        self@
    }

    open spec fn aligned(&self) -> bool {
        self.start_spec() % 8 == 0 && self@.len() % 8 == 0
    }

    proof fn lemma_aligned_rem(&self) {
    }

    proof fn lemma_rem_fits(&self) {
        self.lemma_view_len();
    }

    fn remaining_bits(&self) -> (r: usize) {
        self.len()
    }

    fn byte_aligned(&self) -> (r: bool) {
        proof {
            self.lemma_view_len();
        }
        self.bit_start % 8 == 0 && self.bit_len % 8 == 0
    }

    fn bit_at(&self, i: usize) -> (b: bool) {
        proof {
            self.lemma_view_len();
            assert((self.bit_start + i) / 8 < self.storage().len() && (self.bit_start + i) % 8 < 8
                && 8 * ((self.bit_start + i) / 8) + (self.bit_start + i) % 8 == self.bit_start
                + i) by (nonlinear_arith)
                requires
                    self.bit_start + i < self.storage().len() * 8,
            ;
        }
        let pos = self.bit_start + i;
        let byte = bytes_mut_byte(&self.inner, pos / 8);
        let r = get_bit_in_byte(byte, pos % 8);
        proof {
            crate::bitmath::lemma_bits_of_bytes_index(self.storage(), pos as int);
        }
        r
    }

    fn byte_at(&self, j: usize) -> (b: u8) {
        proof {
            self.lemma_view_len();
            assert(self.bit_start % 8 == 0 ==> (self.bit_start / 8 + j) < self.storage().len() && 8
                * (self.bit_start / 8 + j) == self.bit_start + 8 * j) by (nonlinear_arith)
                requires
                    self.bit_start + self.capacity <= self.storage().len() * 8 && self.bit_len
                        <= self.capacity && 8 * j + 8 <= self.bit_len,
            ;
        }
        let b = bytes_mut_byte(&self.inner, self.bit_start / 8 + j);
        proof {
            lemma_bits_of_bytes_slice(self.storage(), self.bit_start / 8 + j as int);
            lemma_byte_bits_value(b);
            assert(self@.subrange(8 * j as int, 8 * j as int + 8) =~= bits_of_bytes(
                self.storage(),
            ).subrange(8 * (self.bit_start / 8 + j as int), 8 * (self.bit_start / 8 + j as int) + 8));
        }
        b
    }

    fn advance_bits(&mut self, count: usize)
        ensures
            final(self).storage() == old(self).storage(),
            final(self).start_spec() == old(self).start_spec() + count,
            final(self).capacity_spec() == old(self).capacity_spec() - count,
            final(self).spare_bits() == old(self).spare_bits(),
    {
        proof {
            self.lemma_view_len();
        }
        self.bit_start = self.bit_start + count;
        self.bit_len = self.bit_len - count;
        self.capacity = self.capacity - count;
        proof {
            assert(self@ =~= old(self)@.skip(count as int));
            assert(self.spare_bits() =~= old(self).spare_bits());
        }
    }
}

impl BitBufMut for BitsMut {
    open spec fn wf_mut(&self) -> bool {
        BitsMut::wf(self)
    }

    open spec fn wrote(&self) -> Seq<bool> {
        self@
    }

    open spec fn avail(&self) -> nat {
        if self.start_spec() + self@.len() <= max_bits() {
            (max_bits() - self.start_spec() - self@.len()) as nat
        } else {
            0
        }
    }

    open spec fn aligned_mut(&self) -> bool {
        self.start_spec() % 8 == 0 && self@.len() % 8 == 0
    }

    proof fn lemma_aligned_avail_mut(&self) {
        self.lemma_view_len();
    }

    proof fn lemma_wrote_fits(&self) {
        self.lemma_view_len();
    }

    fn remaining_mut_bits(&self) -> (r: usize) {
        proof {
            self.lemma_view_len();
        }
        let used = self.bit_start + self.bit_len;
        if used > usize::MAX - 7 {
            0
        } else {
            usize::MAX - 7 - used
        }
    }

    fn byte_aligned_mut(&self) -> (r: bool) {
        proof {
            self.lemma_view_len();
        }
        self.bit_start % 8 == 0 && self.bit_len % 8 == 0
    }

    fn put_bit(&mut self, b: bool) {
        proof {
            self.lemma_view_len();
        }
        if self.bit_len == self.capacity {
            self.reserve(1);
        }
        proof {
            self.lemma_view_len();
        }
        self.set_spare_bit(0, b);
        let n = self.bit_len + 1;
        self.set_len(n);
        proof {
            assert(self@ =~= old(self)@.push(b));
        }
    }

    fn put_byte(&mut self, byte: u8) {
        proof {
            self.lemma_view_len();
        }
        if self.capacity - self.bit_len < 8 {
            self.reserve(8);
        }
        proof {
            self.lemma_view_len();
            assert((self.bit_start + self.bit_len) / 8 < self.storage().len() && 8 * ((
            self.bit_start + self.bit_len) / 8) == self.bit_start + self.bit_len)
                by (nonlinear_arith)
                requires
                    self.bit_start % 8 == 0 && self.bit_len % 8 == 0 && self.bit_start
                        + self.bit_len + 8 <= self.bit_start + self.capacity && self.bit_start
                        + self.capacity <= self.storage().len() * 8,
            ;
        }
        let idx = (self.bit_start + self.bit_len) / 8;
        let ghost pre = *self;
        bytes_mut_set_byte(&mut self.inner, idx, byte);
        self.bit_len = self.bit_len + 8;
        proof {
            let ghost mid = old(self)@;
            assert(pre@ == mid);
            crate::bitmath::lemma_bits_of_bytes_update(pre.storage(), idx as int, byte);
            assert forall|m: int| 0 <= m < self@.len() implies self@[m] == (mid + byte_bits(byte))[
                m] by {
                let pos = self.bit_start + m;
                assert(0 <= pos / 8 && 8 * (pos / 8) + pos % 8 == pos && (m < mid.len() ==> pos / 8
                    < idx) && (mid.len() <= m < mid.len() + 8 ==> pos / 8 == idx && pos - 8 * idx
                    == pos % 8)) by (nonlinear_arith)
                    requires
                        0 <= m < mid.len() + 8 && pos == self.bit_start + m && 8 * idx
                            == self.bit_start + mid.len(),
                ;
            }
            assert(self@ =~= old(self)@ + byte_bits(byte));
        }
    }

    fn advance_mut_bits(&mut self, count: usize) {
        proof {
            self.lemma_view_len();
        }
        if count > self.capacity - self.bit_len {
            self.reserve(count);
        }
        let n = self.bit_len + count;
        self.set_len(n);
    }
}

impl BitWrite for BitsMut {
    open spec fn write_wf(&self) -> bool {
        self.wf()
    }

    open spec fn sink(&self) -> Seq<bool> {
        self@ + self.spare_bits()
    }

    open spec fn wpos(&self) -> nat {
        self@.len()
    }

    proof fn lemma_wpos_fits(&self) {
        self.lemma_view_len();
    }

    fn write_bits(&mut self, source: &BitVec) -> (r: Result<usize, BufError>) {
        proof {
            self.lemma_view_len();
            source.lemma_len_ok();
        }
        let spare = self.capacity - self.bit_len;
        let want = source.len();
        let n = if want <= spare {
            want
        } else {
            spare
        };
        let mut i: usize = 0;
        while i < n
            invariant
                self.wf(),
                source.wf(),
                self@ == old(self)@,
                self.capacity_spec() == old(self).capacity_spec(),
                self.start_spec() == old(self).start_spec(),
                n <= self.spare_bits().len(),
                n <= source@.len(),
                i <= n,
                self.spare_bits().len() == old(self).spare_bits().len(),
                self.spare_bits() =~= source@.take(i as int) + old(self).spare_bits().skip(
                    i as int,
                ),
            decreases n - i,
        {
            let b = source.at(i);
            self.set_spare_bit(i, b);
            i = i + 1;
            proof {
                assert(self.spare_bits() =~= source@.take(i as int) + old(self).spare_bits().skip(
                    i as int,
                ));
            }
        }
        let ghost mid = *self;
        let newlen = self.bit_len + n;
        self.set_len(newlen);
        proof {
            assert(mid.spare_bits() =~= source@.take(n as int) + old(self).spare_bits().skip(
                n as int,
            ));
            assert(self@ =~= old(self)@ + source@.take(n as int));
            assert(self@ + self.spare_bits() =~= mid@ + mid.spare_bits());
            assert forall|m: int| 0 <= m < self.spare_bits().len() implies self.spare_bits()[m]
                == old(self).spare_bits().skip(n as int)[m] by {
                assert(self.spare_bits()[m] == (self@ + self.spare_bits())[self@.len() + m]);
                assert((mid@ + mid.spare_bits())[mid@.len() + n + m] == mid.spare_bits()[n + m]);
            }
            assert(self.spare_bits() =~= old(self).spare_bits().skip(n as int));
            assert(self.sink() =~= old(self).sink().take(old(self).wpos() as int) + source@.take(
                n as int,
            ) + old(self).sink().skip(old(self).wpos() + n));
        }
        Ok(n)
    }
}

/// Changing one bit's worth of a byte in storage changes only that bit of
/// the storage's bits.
proof fn lemma_update_one_bit(olds: Seq<u8>, news: Seq<u8>, pos: int)
    requires
        olds.len() == news.len(),
        0 <= pos < olds.len() * 8,
        news =~= olds.update(pos / 8, news[pos / 8]),
        forall|k: int|
            0 <= k < 8 && k != pos % 8 ==> #[trigger] crate::bitmath::bit_of_byte(news[pos / 8], k)
                == crate::bitmath::bit_of_byte(olds[pos / 8], k),
    ensures
        forall|m: int|
            0 <= m < olds.len() * 8 && m != pos ==> bits_of_bytes(news)[m] == bits_of_bytes(
                olds,
            )[m],
{
    assert forall|m: int| 0 <= m < olds.len() * 8 && m != pos implies bits_of_bytes(news)[m]
        == bits_of_bytes(olds)[m] by {
        assert(0 <= m / 8 < olds.len() && 0 <= m % 8 < 8 && 8 * (m / 8) + m % 8 == m && 8 * (pos / 8)
            + pos % 8 == pos) by (nonlinear_arith)
            requires
                0 <= m < olds.len() * 8 && 0 <= pos < olds.len() * 8,
        ;
        if m / 8 == pos / 8 {
            assert(m % 8 != pos % 8);
        }
    }
}

} // verus!
