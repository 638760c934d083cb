//! An adaptor that caps the bits readable from an underlying buffer.

use crate::buf::bit_buf::BitBuf;
use vstd::prelude::*;

verus! {

/// A `BitBuf` adaptor which limits the bits read from an underlying buffer.
pub struct Take<T> {
    inner: T,
    limit: usize,
}

impl<T> Take<T> {
    pub closed spec fn inner_spec(&self) -> T {
        self.inner
    }

    pub closed spec fn limit_spec(&self) -> usize {
        self.limit
    }

    pub fn new(inner: T, limit: usize) -> (r: Take<T>)
        ensures
            r.inner_spec() == inner,
            r.limit_spec() == limit,
    {
        Self { inner, limit }
    }

    pub fn into_inner(self) -> (r: T)
        ensures
            r == self.inner_spec(),
    {
        self.inner
    }

    pub fn get_ref(&self) -> (r: &T)
        ensures
            *r == self.inner_spec(),
    {
        &self.inner
    }

    pub fn get_mut(&mut self) -> (r: &mut T)
        ensures
            *r == old(self).inner_spec(),
            final(self).inner_spec() == *final(r),
            final(self).limit_spec() == old(self).limit_spec(),
    {
        &mut self.inner
    }

    pub fn limit(&self) -> (r: usize)
        ensures
            r == self.limit_spec(),
    {
        self.limit
    }

    pub fn set_limit(&mut self, limit: usize)
        ensures
            final(self).limit_spec() == limit,
            final(self).inner_spec() == old(self).inner_spec(),
    {
        self.limit = limit;
    }
}

impl<T: BitBuf> BitBuf for Take<T> {
    open spec fn wf(&self) -> bool {
        self.inner_spec().wf()
    }

    open spec fn rem(&self) -> Seq<bool> {
        if self.limit_spec() <= self.inner_spec().rem().len() {
            self.inner_spec().rem().take(self.limit_spec() as int)
        } else {
            self.inner_spec().rem()
        }
    }

    open spec fn aligned(&self) -> bool {
        self.inner_spec().aligned() && self.limit_spec() % 8 == 0
    }

    proof fn lemma_aligned_rem(&self) {
        self.inner.lemma_aligned_rem();
    }

    proof fn lemma_rem_fits(&self) {
        self.inner.lemma_rem_fits();
    }

    fn remaining_bits(&self) -> (r: usize) {
        let ir = self.inner.remaining_bits();
        if ir < self.limit {
            ir
        } else {
            self.limit
        }
    }

    fn byte_aligned(&self) -> (r: bool) {
        self.inner.byte_aligned() && self.limit % 8 == 0
    }

    fn bit_at(&self, i: usize) -> (b: bool) {
        self.inner.bit_at(i)
    }

    fn byte_at(&self, j: usize) -> (b: u8) {
        let b = self.inner.byte_at(j);
        proof {
            assert(self.rem().subrange(8 * j as int, 8 * j as int + 8) =~= self.inner.rem().subrange(
                8 * j as int,
                8 * j as int + 8,
            ));
        }
        b
    }

    fn advance_bits(&mut self, count: usize)
        ensures
            final(self).limit_spec() == old(self).limit_spec() - count,
            final(self).inner_spec().wf(),
            final(self).inner_spec().rem() == old(self).inner_spec().rem().skip(count as int),
    {
        self.inner.advance_bits(count);
        self.limit = self.limit - count;
        proof {
            assert(self.rem() =~= old(self).rem().skip(count as int));
        }
    }
}

/// Caps the buffer at `limit` bits.
pub fn take_bits<B: BitBuf>(buf: B, limit: usize) -> (r: Take<B>)
    requires
        buf.wf(),
    ensures
        r.wf(),
        r.inner_spec() == buf,
        r.limit_spec() == limit,
{
    Take::new(buf, limit)
}

/// Caps the buffer at `limit` bytes.
pub fn take_bytes<B: BitBuf>(buf: B, limit: usize) -> (r: Take<B>)
    requires
        buf.wf(),
        limit * 8 <= usize::MAX,
    ensures
        r.wf(),
        r.inner_spec() == buf,
        r.limit_spec() == 8 * limit,
{
    Take::new(buf, limit * 8)
}

} // verus!
