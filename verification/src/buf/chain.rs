//! An adaptor that presents two buffers as one logical stream: the first
//! until it is spent, then the second.

use crate::buf::bit_buf::BitBuf;
use crate::buf::bit_buf_mut::BitBufMut;
use vstd::prelude::*;

verus! {

/// A `Chain` sequences two buffers into one continuous view: all of the
/// first, then all of the second.
pub struct Chain<T, U> {
    a: T,
    b: U,
}

impl<T, U> Chain<T, U> {
    pub closed spec fn first_spec(&self) -> T {
        self.a
    }

    pub closed spec fn last_spec(&self) -> U {
        self.b
    }

    pub fn new(a: T, b: U) -> (r: Chain<T, U>)
        ensures
            r.first_spec() == a,
            r.last_spec() == b,
    {
        Self { a, b }
    }

    pub fn first_ref(&self) -> (r: &T)
        ensures
            *r == self.first_spec(),
    {
        &self.a
    }

    pub fn last_ref(&self) -> (r: &U)
        ensures
            *r == self.last_spec(),
    {
        &self.b
    }

    pub fn first_mut(&mut self) -> (r: &mut T)
        ensures
            *r == old(self).first_spec(),
            final(self).first_spec() == *final(r),
            final(self).last_spec() == old(self).last_spec(),
    {
        &mut self.a
    }

    pub fn last_mut(&mut self) -> (r: &mut U)
        ensures
            *r == old(self).last_spec(),
            final(self).last_spec() == *final(r),
            final(self).first_spec() == old(self).first_spec(),
    {
        &mut self.b
    }

    pub fn into_inner(self) -> (r: (T, U))
        ensures
            r.0 == self.first_spec(),
            r.1 == self.last_spec(),
    {
        (self.a, self.b)
    }
}

impl<T: BitBuf, U: BitBuf> BitBuf for Chain<T, U> {
    open spec fn wf(&self) -> bool {
        &&& self.first_spec().wf()
        &&& self.last_spec().wf()
        &&& self.first_spec().rem().len() + self.last_spec().rem().len() <= usize::MAX
    }

    open spec fn rem(&self) -> Seq<bool> {
        self.first_spec().rem() + self.last_spec().rem()
    }

    open spec fn aligned(&self) -> bool {
        self.first_spec().aligned() && self.last_spec().aligned()
    }

    proof fn lemma_aligned_rem(&self) {
        self.first_spec().lemma_aligned_rem();
        self.last_spec().lemma_aligned_rem();
    }

    proof fn lemma_rem_fits(&self) {
    }

    fn remaining_bits(&self) -> (r: usize) {
        self.a.remaining_bits() + self.b.remaining_bits()
    }

    fn byte_aligned(&self) -> (r: bool) {
        self.a.byte_aligned() && self.b.byte_aligned()
    }

    fn bit_at(&self, i: usize) -> (r: bool) {
        let a_rem = self.a.remaining_bits();
        if i < a_rem {
            self.a.bit_at(i)
        } else {
            self.b.bit_at(i - a_rem)
        }
    }

    fn byte_at(&self, j: usize) -> (r: u8) {
        let a_rem = self.a.remaining_bits();
        proof {
            self.a.lemma_aligned_rem();
        }
        if 8 * j + 8 <= a_rem {
            let r = self.a.byte_at(j);
            proof {
                assert(self.rem().subrange(8 * j as int, 8 * j as int + 8)
                    =~= self.first_spec().rem().subrange(8 * j as int, 8 * j as int + 8));
            }
            r
        } else {
            proof {
                assert(8 * (j - a_rem / 8) == 8 * j - a_rem && 8 * j >= a_rem) by (nonlinear_arith)
                    requires
                        a_rem % 8 == 0 && 8 * j + 8 > a_rem && 8 * j + 8 <= a_rem
                            + self.last_spec().rem().len(),
                ;
            }
            let r = self.b.byte_at(j - a_rem / 8);
            proof {
                assert(self.rem().subrange(8 * j as int, 8 * j as int + 8)
                    =~= self.last_spec().rem().subrange(
                    8 * (j - a_rem / 8) as int,
                    8 * (j - a_rem / 8) as int + 8,
                ));
            }
            r
        }
    }

    fn advance_bits(&mut self, count: usize)
        ensures
            final(self).first_spec().wf(),
            final(self).last_spec().wf(),
            ({
                let alen = old(self).first_spec().rem().len();
                if count <= alen {
                    final(self).first_spec().rem() == old(self).first_spec().rem().skip(
                        count as int,
                    ) && final(self).last_spec().rem() == old(self).last_spec().rem()
                } else {
                    final(self).first_spec().rem().len() == 0 && final(self).last_spec().rem()
                        == old(self).last_spec().rem().skip(count - alen)
                }
            }),
    {
        let a_rem = self.a.remaining_bits();
        if a_rem != 0 {
            if a_rem >= count {
                self.a.advance_bits(count);
                proof {
                    assert(self.rem() =~= old(self).rem().skip(count as int));
                }
                return ;
            }
            self.a.advance_bits(a_rem);
            self.b.advance_bits(count - a_rem);
            proof {
                assert(self.first_spec().rem() =~= Seq::<bool>::empty());
                assert(self.rem() =~= old(self).rem().skip(count as int));
            }
        } else {
            self.b.advance_bits(count);
            proof {
                if count == 0 {
                    assert(self.first_spec().rem() =~= old(self).first_spec().rem().skip(0));
                    assert(self.last_spec().rem() =~= old(self).last_spec().rem());
                }
                assert(self.rem() =~= old(self).rem().skip(count as int));
            }
        }
    }
}

impl<T: BitBufMut, U: BitBufMut> BitBufMut for Chain<T, U> {
    open spec fn wf_mut(&self) -> bool {
        &&& self.first_spec().wf_mut()
        &&& self.last_spec().wf_mut()
        &&& self.first_spec().avail() > 0 ==> self.last_spec().wrote() == Seq::<bool>::empty()
        &&& self.first_spec().wrote().len() + self.first_spec().avail()
            + self.last_spec().wrote().len() + self.last_spec().avail() <= usize::MAX
    }

    open spec fn wrote(&self) -> Seq<bool> {
        self.first_spec().wrote() + self.last_spec().wrote()
    }

    open spec fn avail(&self) -> nat {
        self.first_spec().avail() + self.last_spec().avail()
    }

    open spec fn aligned_mut(&self) -> bool {
        self.first_spec().aligned_mut() && self.last_spec().aligned_mut()
    }

    proof fn lemma_aligned_avail_mut(&self) {
        self.first_spec().lemma_aligned_avail_mut();
        self.last_spec().lemma_aligned_avail_mut();
    }

    proof fn lemma_wrote_fits(&self) {
    }

    fn remaining_mut_bits(&self) -> (r: usize) {
        self.a.remaining_mut_bits() + self.b.remaining_mut_bits()
    }

    fn byte_aligned_mut(&self) -> (r: bool) {
        self.a.byte_aligned_mut() && self.b.byte_aligned_mut()
    }

    fn put_bit(&mut self, b: bool)
        ensures
            final(self).first_spec().wf_mut(),
            final(self).last_spec().wf_mut(),
            if old(self).first_spec().avail() > 0 {
                final(self).first_spec().wrote() == old(self).first_spec().wrote().push(b) && final(self).first_spec().avail() == old(self).first_spec().avail() - 1 && final(self).last_spec() == old(self).last_spec()
            } else {
                final(self).first_spec() == old(self).first_spec() && final(self).last_spec().wrote() == old(self).last_spec().wrote().push(b) && final(self).last_spec().avail() == old(self).last_spec().avail() - 1
            },
    {
        if self.a.has_remaining_mut_bits() {
            self.a.put_bit(b);
            proof {
                assert(self.wrote() =~= old(self).wrote().push(b));
            }
        } else {
            self.b.put_bit(b);
            proof {
                assert(self.wrote() =~= old(self).wrote().push(b));
            }
        }
    }

    fn put_byte(&mut self, byte: u8)
        ensures
            final(self).first_spec().wf_mut(),
            final(self).last_spec().wf_mut(),
            if old(self).first_spec().avail() > 0 {
                final(self).first_spec().wrote() == old(self).first_spec().wrote()
                    + crate::bitmath::byte_bits(byte) && final(self).first_spec().avail() == old(self).first_spec().avail() - 8 && final(self).last_spec() == old(self).last_spec()
            } else {
                final(self).first_spec() == old(self).first_spec() && final(self).last_spec().wrote() == old(self).last_spec().wrote()
                    + crate::bitmath::byte_bits(byte) && final(self).last_spec().avail() == old(self).last_spec().avail() - 8
            },
    {
        if self.a.has_remaining_mut_bits() {
            proof {
                self.a.lemma_aligned_avail_mut();
            }
            self.a.put_byte(byte);
            proof {
                assert(self.wrote() =~= old(self).wrote() + crate::bitmath::byte_bits(byte));
            }
        } else {
            self.b.put_byte(byte);
            proof {
                assert(self.wrote() =~= old(self).wrote() + crate::bitmath::byte_bits(byte));
            }
        }
    }

    fn advance_mut_bits(&mut self, count: usize)
        ensures
            final(self).first_spec().wf_mut(),
            final(self).last_spec().wf_mut(),
            ({
                let aav = old(self).first_spec().avail();
                let aw = old(self).first_spec().wrote();
                let bw = old(self).last_spec().wrote();
                if count <= aav {
                    &&& final(self).first_spec().avail() == aav - count
                    &&& final(self).first_spec().wrote().len() == aw.len() + count
                    &&& final(self).first_spec().wrote().take(aw.len() as int) == aw
                    &&& final(self).last_spec().wrote() == bw
                    &&& final(self).last_spec().avail() == old(self).last_spec().avail()
                } else {
                    &&& final(self).first_spec().avail() == 0
                    &&& final(self).first_spec().wrote().len() == aw.len() + aav
                    &&& final(self).first_spec().wrote().take(aw.len() as int) == aw
                    &&& final(self).last_spec().avail() == old(self).last_spec().avail() - (count
                        - aav)
                    &&& final(self).last_spec().wrote().len() == bw.len() + (count - aav)
                    &&& final(self).last_spec().wrote().take(bw.len() as int) == bw
                }
            }),
    {
        let a_rem = self.a.remaining_mut_bits();
        if a_rem != 0 {
            if a_rem >= count {
                self.a.advance_mut_bits(count);
                proof {
                    assert(self.wrote().take(old(self).wrote().len() as int) =~= old(self).wrote());
                }
                return ;
            }
            self.a.advance_mut_bits(a_rem);
            self.b.advance_mut_bits(count - a_rem);
            proof {
                assert(self.wrote().take(old(self).wrote().len() as int) =~= old(self).wrote());
            }
        } else {
            self.b.advance_mut_bits(count);
            proof {
                if count == 0 {
                    let aw = old(self).first_spec().wrote();
                    let bw = old(self).last_spec().wrote();
                    assert(self.first_spec().wrote().take(aw.len() as int) =~= aw);
                    assert(self.last_spec().wrote().take(self.last_spec().wrote().len() as int)
                        =~= self.last_spec().wrote());
                    assert(self.last_spec().wrote() == bw);
                }
                assert(self.wrote().take(old(self).wrote().len() as int) =~= old(self).wrote());
            }
        }
    }
}

/// Chains `self` and `next` into one logical readable stream.
pub fn chain<T: BitBuf, U: BitBuf>(first: T, last: U) -> (r: Chain<T, U>)
    requires
        first.wf(),
        last.wf(),
        first.rem().len() + last.rem().len() <= usize::MAX,
    ensures
        r.wf(),
        r.first_spec() == first,
        r.last_spec() == last,
        r.rem() == first.rem() + last.rem(),
{
    Chain::new(first, last)
}

/// Chains `self` and `next` into one logical writable stream; the second is
/// written only once the first is full, so it must not hold writes already.
pub fn chain_mut<T: BitBufMut, U: BitBufMut>(first: T, last: U) -> (r: Chain<T, U>)
    requires
        first.wf_mut(),
        last.wf_mut(),
        first.avail() > 0 ==> last.wrote() == Seq::<bool>::empty(),
        first.wrote().len() + first.avail() + last.wrote().len() + last.avail() <= usize::MAX,
    ensures
        r.wf_mut(),
        r.first_spec() == first,
        r.last_spec() == last,
        r.wrote() == first.wrote() + last.wrote(),
        r.avail() == first.avail() + last.avail(),
{
    Chain::new(first, last)
}

} // verus!
