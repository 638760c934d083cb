//! An adaptor that caps the bits writable into an underlying buffer.

use crate::buf::bit_buf_mut::BitBufMut;
use vstd::prelude::*;

verus! {

/// A `BitBufMut` adaptor which limits the bits written into an underlying
/// buffer.
pub struct Limit<T> {
    inner: T,
    limit: usize,
}

impl<T> Limit<T> {
    pub closed spec fn inner_spec(&self) -> T {
        self.inner
    }

    pub closed spec fn limit_spec(&self) -> usize {
        self.limit
    }

    pub fn new(inner: T, limit: usize) -> (r: Limit<T>)
        ensures
            r.inner_spec() == inner,
            r.limit_spec() == limit,
    {
        Self { inner, limit }
    }

    pub fn into_inner(self) -> (r: T)
        ensures
            r == self.inner_spec(),
    {
        self.inner
    }

    pub fn get_ref(&self) -> (r: &T)
        ensures
            *r == self.inner_spec(),
    {
        &self.inner
    }

    pub fn get_mut(&mut self) -> (r: &mut T)
        ensures
            *r == old(self).inner_spec(),
            final(self).inner_spec() == *final(r),
            final(self).limit_spec() == old(self).limit_spec(),
    {
        &mut self.inner
    }

    pub fn limit(&self) -> (r: usize)
        ensures
            r == self.limit_spec(),
    {
        self.limit
    }

    pub fn set_limit(&mut self, limit: usize)
        ensures
            final(self).limit_spec() == limit,
            final(self).inner_spec() == old(self).inner_spec(),
    {
        self.limit = limit;
    }
}

impl<T: BitBufMut> BitBufMut for Limit<T> {
    open spec fn wf_mut(&self) -> bool {
        self.inner_spec().wf_mut()
    }

    open spec fn wrote(&self) -> Seq<bool> {
        self.inner_spec().wrote()
    }

    open spec fn avail(&self) -> nat {
        if self.limit_spec() <= self.inner_spec().avail() {
            self.limit_spec() as nat
        } else {
            self.inner_spec().avail()
        }
    }

    open spec fn aligned_mut(&self) -> bool {
        self.inner_spec().aligned_mut() && self.limit_spec() % 8 == 0
    }

    proof fn lemma_aligned_avail_mut(&self) {
        self.inner_spec().lemma_aligned_avail_mut();
    }

    proof fn lemma_wrote_fits(&self) {
        self.inner_spec().lemma_wrote_fits();
    }

    fn remaining_mut_bits(&self) -> (r: usize) {
        let ir = self.inner.remaining_mut_bits();
        if ir < self.limit {
            ir
        } else {
            self.limit
        }
    }

    fn byte_aligned_mut(&self) -> (r: bool) {
        self.inner.byte_aligned_mut() && self.limit % 8 == 0
    }

    fn put_bit(&mut self, b: bool)
        ensures
            final(self).limit_spec() == old(self).limit_spec() - 1,
            final(self).inner_spec().wf_mut(),
            final(self).inner_spec().wrote() == old(self).inner_spec().wrote().push(b),
            final(self).inner_spec().avail() == old(self).inner_spec().avail() - 1,
    {
        self.inner.put_bit(b);
        self.limit = self.limit - 1;
    }

    fn put_byte(&mut self, byte: u8)
        ensures
            final(self).limit_spec() == old(self).limit_spec() - 8,
            final(self).inner_spec().wf_mut(),
            final(self).inner_spec().wrote() == old(self).inner_spec().wrote()
                + crate::bitmath::byte_bits(byte),
            final(self).inner_spec().avail() == old(self).inner_spec().avail() - 8,
            final(self).inner_spec().aligned_mut(),
    {
        self.inner.put_byte(byte);
        self.limit = self.limit - 8;
    }

    fn advance_mut_bits(&mut self, count: usize)
        ensures
            final(self).limit_spec() == old(self).limit_spec() - count,
            final(self).inner_spec().wf_mut(),
            final(self).inner_spec().avail() == old(self).inner_spec().avail() - count,
            final(self).inner_spec().wrote().len() == old(self).inner_spec().wrote().len() + count,
            final(self).inner_spec().wrote().take(old(self).inner_spec().wrote().len() as int)
                == old(self).inner_spec().wrote(),
    {
        self.inner.advance_mut_bits(count);
        self.limit = self.limit - count;
    }
}

/// Caps the buffer at `limit` writable bits.
pub fn limit_bits<B: BitBufMut>(buf: B, limit: usize) -> (r: Limit<B>)
    requires
        buf.wf_mut(),
    ensures
        r.wf_mut(),
        r.inner_spec() == buf,
        r.limit_spec() == limit,
{
    Limit::new(buf, limit)
}

/// Caps the buffer at `limit` writable bytes.
pub fn limit_bytes<B: BitBufMut>(buf: B, limit: usize) -> (r: Limit<B>)
    requires
        buf.wf_mut(),
        limit * 8 <= usize::MAX,
    ensures
        r.wf_mut(),
        r.inner_spec() == buf,
        r.limit_spec() == 8 * limit,
{
    Limit::new(buf, limit * 8)
}

} // verus!
