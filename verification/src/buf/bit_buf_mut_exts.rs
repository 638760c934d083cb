//! Numeric writes over any writable bit buffer: fields of 1 to 32 bits,
//! parameterized by byte order for widths above 8.

use crate::bit_types::BitVec;
use crate::buf::bit_buf_mut::BitBufMut;
use crate::buf::byte_order::{BigEndian, ByteOrder};
use crate::error::BufError;
use vstd::arithmetic::power2::pow2;
use vstd::prelude::*;

verus! {

pub trait BitBufMutExts: BitBufMut {
    /// Writes the low `n` bits of `value` as an `n`-bit field in the given
    /// byte order; on too little room it fails without writing anything.
    #[allow(non_snake_case)]
    fn put_uN<O: ByteOrder>(&mut self, value: u32, n: usize) -> (r: Result<(), BufError>)
        requires
            old(self).wf_mut(),
            1 <= n <= 32,
            (value as nat) < pow2(n as nat),
        ensures
            final(self).wf_mut(),
            if n <= old(self).avail() {
                r == Ok::<(), BufError>(()) && final(self).wrote() == old(self).wrote()
                    + O::field_bits(value, n as nat) && final(self).avail() == old(self).avail()
                    - n
            } else {
                r == Err::<(), BufError>(BufError::EndOfData) && final(self).wrote() == old(
                    self,
                ).wrote() && final(self).avail() == old(self).avail()
            },
    {
        let mut bits = BitVec::repeat(false, n);
        O::store(&mut bits, value);
        proof {
            O::lemma_field_bits_len(value, n as nat);
        }
        self.try_put_bit_slice(&bits)
    }

    /// Writes one bit.
    fn put_bool(&mut self, value: bool) -> (r: Result<(), BufError>)
        requires
            old(self).wf_mut(),
        ensures
            final(self).wf_mut(),
            if 1 <= old(self).avail() {
                r == Ok::<(), BufError>(()) && final(self).wrote() == old(self).wrote().push(value)
                    && final(self).avail() == old(self).avail() - 1
            } else {
                r == Err::<(), BufError>(BufError::EndOfData) && final(self).wrote() == old(
                    self,
                ).wrote() && final(self).avail() == old(self).avail()
            },
    {
        let v: u32 = if value {
            1
        } else {
            0
        };
        proof {
            vstd::arithmetic::power2::lemma2_to64();
        }
        let r = self.put_uN::<BigEndian>(v, 1);
        proof {
            assert((1u32 >> 0u32) & 1 == 1 && (0u32 >> 0u32) & 1 == 0) by (bit_vector);
            assert(crate::bitmath::be_bits(v, 1) =~= Seq::<bool>::empty().push(value));
            assert(old(self).wrote() + Seq::<bool>::empty().push(value) =~= old(
                self,
            ).wrote().push(value));
        }
        r
    }

    /// Writes a 1-bit big-endian field.
    fn put_u1(&mut self, value: u8) -> (r: Result<(), BufError>)
        requires
            old(self).wf_mut(),
            value < 2,
        ensures
            final(self).wf_mut(),
            if 1 <= old(self).avail() {
                r == Ok::<(), BufError>(()) && final(self).wrote() == old(self).wrote()
                    + BigEndian::field_bits(value as u32, 1) && final(self).avail() == old(
                    self,
                ).avail() - 1
            } else {
                r == Err::<(), BufError>(BufError::EndOfData) && final(self).wrote() == old(
                    self,
                ).wrote() && final(self).avail() == old(self).avail()
            },
    {
        proof {
            vstd::arithmetic::power2::lemma2_to64();
        }
        self.put_uN::<BigEndian>(value as u32, 1)
    }

    /// Writes a 2-bit big-endian field.
    fn put_u2(&mut self, value: u8) -> (r: Result<(), BufError>)
        requires
            old(self).wf_mut(),
            value < 4,
        ensures
            final(self).wf_mut(),
            if 2 <= old(self).avail() {
                r == Ok::<(), BufError>(()) && final(self).wrote() == old(self).wrote()
                    + BigEndian::field_bits(value as u32, 2) && final(self).avail() == old(
                    self,
                ).avail() - 2
            } else {
                r == Err::<(), BufError>(BufError::EndOfData) && final(self).wrote() == old(
                    self,
                ).wrote() && final(self).avail() == old(self).avail()
            },
    {
        proof {
            vstd::arithmetic::power2::lemma2_to64();
        }
        self.put_uN::<BigEndian>(value as u32, 2)
    }

    /// Writes a 3-bit big-endian field.
    fn put_u3(&mut self, value: u8) -> (r: Result<(), BufError>)
        requires
            old(self).wf_mut(),
            value < 8,
        ensures
            final(self).wf_mut(),
            if 3 <= old(self).avail() {
                r == Ok::<(), BufError>(()) && final(self).wrote() == old(self).wrote()
                    + BigEndian::field_bits(value as u32, 3) && final(self).avail() == old(
                    self,
                ).avail() - 3
            } else {
                r == Err::<(), BufError>(BufError::EndOfData) && final(self).wrote() == old(
                    self,
                ).wrote() && final(self).avail() == old(self).avail()
            },
    {
        proof {
            vstd::arithmetic::power2::lemma2_to64();
        }
        self.put_uN::<BigEndian>(value as u32, 3)
    }

    /// Writes a 4-bit big-endian field.
    fn put_u4(&mut self, value: u8) -> (r: Result<(), BufError>)
        requires
            old(self).wf_mut(),
            value < 16,
        ensures
            final(self).wf_mut(),
            if 4 <= old(self).avail() {
                r == Ok::<(), BufError>(()) && final(self).wrote() == old(self).wrote()
                    + BigEndian::field_bits(value as u32, 4) && final(self).avail() == old(
                    self,
                ).avail() - 4
            } else {
                r == Err::<(), BufError>(BufError::EndOfData) && final(self).wrote() == old(
                    self,
                ).wrote() && final(self).avail() == old(self).avail()
            },
    {
        proof {
            vstd::arithmetic::power2::lemma2_to64();
        }
        self.put_uN::<BigEndian>(value as u32, 4)
    }

    /// Writes a 5-bit big-endian field.
    fn put_u5(&mut self, value: u8) -> (r: Result<(), BufError>)
        requires
            old(self).wf_mut(),
            value < 32,
        ensures
            final(self).wf_mut(),
            if 5 <= old(self).avail() {
                r == Ok::<(), BufError>(()) && final(self).wrote() == old(self).wrote()
                    + BigEndian::field_bits(value as u32, 5) && final(self).avail() == old(
                    self,
                ).avail() - 5
            } else {
                r == Err::<(), BufError>(BufError::EndOfData) && final(self).wrote() == old(
                    self,
                ).wrote() && final(self).avail() == old(self).avail()
            },
    {
        proof {
            vstd::arithmetic::power2::lemma2_to64();
        }
        self.put_uN::<BigEndian>(value as u32, 5)
    }

    /// Writes a 6-bit big-endian field.
    fn put_u6(&mut self, value: u8) -> (r: Result<(), BufError>)
        requires
            old(self).wf_mut(),
            value < 64,
        ensures
            final(self).wf_mut(),
            if 6 <= old(self).avail() {
                r == Ok::<(), BufError>(()) && final(self).wrote() == old(self).wrote()
                    + BigEndian::field_bits(value as u32, 6) && final(self).avail() == old(
                    self,
                ).avail() - 6
            } else {
                r == Err::<(), BufError>(BufError::EndOfData) && final(self).wrote() == old(
                    self,
                ).wrote() && final(self).avail() == old(self).avail()
            },
    {
        proof {
            vstd::arithmetic::power2::lemma2_to64();
        }
        self.put_uN::<BigEndian>(value as u32, 6)
    }

    /// Writes a 7-bit big-endian field.
    fn put_u7(&mut self, value: u8) -> (r: Result<(), BufError>)
        requires
            old(self).wf_mut(),
            value < 128,
        ensures
            final(self).wf_mut(),
            if 7 <= old(self).avail() {
                r == Ok::<(), BufError>(()) && final(self).wrote() == old(self).wrote()
                    + BigEndian::field_bits(value as u32, 7) && final(self).avail() == old(
                    self,
                ).avail() - 7
            } else {
                r == Err::<(), BufError>(BufError::EndOfData) && final(self).wrote() == old(
                    self,
                ).wrote() && final(self).avail() == old(self).avail()
            },
    {
        proof {
            vstd::arithmetic::power2::lemma2_to64();
        }
        self.put_uN::<BigEndian>(value as u32, 7)
    }

    /// Writes a 8-bit field in the big-endian byte order.
    fn put_u8(&mut self, value: u8) -> (r: Result<(), BufError>)
        requires
            old(self).wf_mut(),
        ensures
            final(self).wf_mut(),
            if 8 <= old(self).avail() {
                r == Ok::<(), BufError>(()) && final(self).wrote() == old(self).wrote()
                    + BigEndian::field_bits(value as u32, 8) && final(self).avail() == old(
                    self,
                ).avail() - 8
            } else {
                r == Err::<(), BufError>(BufError::EndOfData) && final(self).wrote() == old(
                    self,
                ).wrote() && final(self).avail() == old(self).avail()
            },
    {
        proof {
            vstd::arithmetic::power2::lemma2_to64();
        }
        self.put_uN::<BigEndian>(value as u32, 8)
    }

    /// Writes a 9-bit field in the given byte order.
    fn put_u9<O: ByteOrder>(&mut self, value: u16) -> (r: Result<(), BufError>)
        requires
            old(self).wf_mut(),
            (value as nat) < pow2(9),
        ensures
            final(self).wf_mut(),
            if 9 <= old(self).avail() {
                r == Ok::<(), BufError>(()) && final(self).wrote() == old(self).wrote()
                    + O::field_bits(value as u32, 9) && final(self).avail() == old(
                    self,
                ).avail() - 9
            } else {
                r == Err::<(), BufError>(BufError::EndOfData) && final(self).wrote() == old(
                    self,
                ).wrote() && final(self).avail() == old(self).avail()
            },
    {
        self.put_uN::<O>(value as u32, 9)
    }

    /// Writes a 10-bit field in the given byte order.
    fn put_u10<O: ByteOrder>(&mut self, value: u16) -> (r: Result<(), BufError>)
        requires
            old(self).wf_mut(),
            (value as nat) < pow2(10),
        ensures
            final(self).wf_mut(),
            if 10 <= old(self).avail() {
                r == Ok::<(), BufError>(()) && final(self).wrote() == old(self).wrote()
                    + O::field_bits(value as u32, 10) && final(self).avail() == old(
                    self,
                ).avail() - 10
            } else {
                r == Err::<(), BufError>(BufError::EndOfData) && final(self).wrote() == old(
                    self,
                ).wrote() && final(self).avail() == old(self).avail()
            },
    {
        self.put_uN::<O>(value as u32, 10)
    }

    /// Writes a 11-bit field in the given byte order.
    fn put_u11<O: ByteOrder>(&mut self, value: u16) -> (r: Result<(), BufError>)
        requires
            old(self).wf_mut(),
            (value as nat) < pow2(11),
        ensures
            final(self).wf_mut(),
            if 11 <= old(self).avail() {
                r == Ok::<(), BufError>(()) && final(self).wrote() == old(self).wrote()
                    + O::field_bits(value as u32, 11) && final(self).avail() == old(
                    self,
                ).avail() - 11
            } else {
                r == Err::<(), BufError>(BufError::EndOfData) && final(self).wrote() == old(
                    self,
                ).wrote() && final(self).avail() == old(self).avail()
            },
    {
        self.put_uN::<O>(value as u32, 11)
    }

    /// Writes a 12-bit field in the given byte order.
    fn put_u12<O: ByteOrder>(&mut self, value: u16) -> (r: Result<(), BufError>)
        requires
            old(self).wf_mut(),
            (value as nat) < pow2(12),
        ensures
            final(self).wf_mut(),
            if 12 <= old(self).avail() {
                r == Ok::<(), BufError>(()) && final(self).wrote() == old(self).wrote()
                    + O::field_bits(value as u32, 12) && final(self).avail() == old(
                    self,
                ).avail() - 12
            } else {
                r == Err::<(), BufError>(BufError::EndOfData) && final(self).wrote() == old(
                    self,
                ).wrote() && final(self).avail() == old(self).avail()
            },
    {
        self.put_uN::<O>(value as u32, 12)
    }

    /// Writes a 13-bit field in the given byte order.
    fn put_u13<O: ByteOrder>(&mut self, value: u16) -> (r: Result<(), BufError>)
        requires
            old(self).wf_mut(),
            (value as nat) < pow2(13),
        ensures
            final(self).wf_mut(),
            if 13 <= old(self).avail() {
                r == Ok::<(), BufError>(()) && final(self).wrote() == old(self).wrote()
                    + O::field_bits(value as u32, 13) && final(self).avail() == old(
                    self,
                ).avail() - 13
            } else {
                r == Err::<(), BufError>(BufError::EndOfData) && final(self).wrote() == old(
                    self,
                ).wrote() && final(self).avail() == old(self).avail()
            },
    {
        self.put_uN::<O>(value as u32, 13)
    }

    /// Writes a 14-bit field in the given byte order.
    fn put_u14<O: ByteOrder>(&mut self, value: u16) -> (r: Result<(), BufError>)
        requires
            old(self).wf_mut(),
            (value as nat) < pow2(14),
        ensures
            final(self).wf_mut(),
            if 14 <= old(self).avail() {
                r == Ok::<(), BufError>(()) && final(self).wrote() == old(self).wrote()
                    + O::field_bits(value as u32, 14) && final(self).avail() == old(
                    self,
                ).avail() - 14
            } else {
                r == Err::<(), BufError>(BufError::EndOfData) && final(self).wrote() == old(
                    self,
                ).wrote() && final(self).avail() == old(self).avail()
            },
    {
        self.put_uN::<O>(value as u32, 14)
    }

    /// Writes a 15-bit field in the given byte order.
    fn put_u15<O: ByteOrder>(&mut self, value: u16) -> (r: Result<(), BufError>)
        requires
            old(self).wf_mut(),
            (value as nat) < pow2(15),
        ensures
            final(self).wf_mut(),
            if 15 <= old(self).avail() {
                r == Ok::<(), BufError>(()) && final(self).wrote() == old(self).wrote()
                    + O::field_bits(value as u32, 15) && final(self).avail() == old(
                    self,
                ).avail() - 15
            } else {
                r == Err::<(), BufError>(BufError::EndOfData) && final(self).wrote() == old(
                    self,
                ).wrote() && final(self).avail() == old(self).avail()
            },
    {
        self.put_uN::<O>(value as u32, 15)
    }

    /// Writes a 16-bit field in the given byte order.
    fn put_u16<O: ByteOrder>(&mut self, value: u16) -> (r: Result<(), BufError>)
        requires
            old(self).wf_mut(),
        ensures
            final(self).wf_mut(),
            if 16 <= old(self).avail() {
                r == Ok::<(), BufError>(()) && final(self).wrote() == old(self).wrote()
                    + O::field_bits(value as u32, 16) && final(self).avail() == old(
                    self,
                ).avail() - 16
            } else {
                r == Err::<(), BufError>(BufError::EndOfData) && final(self).wrote() == old(
                    self,
                ).wrote() && final(self).avail() == old(self).avail()
            },
    {
        proof {
            vstd::arithmetic::power2::lemma2_to64();
        }
        self.put_uN::<O>(value as u32, 16)
    }

    /// Writes a 17-bit field in the given byte order.
    fn put_u17<O: ByteOrder>(&mut self, value: u32) -> (r: Result<(), BufError>)
        requires
            old(self).wf_mut(),
            (value as nat) < pow2(17),
        ensures
            final(self).wf_mut(),
            if 17 <= old(self).avail() {
                r == Ok::<(), BufError>(()) && final(self).wrote() == old(self).wrote()
                    + O::field_bits(value as u32, 17) && final(self).avail() == old(
                    self,
                ).avail() - 17
            } else {
                r == Err::<(), BufError>(BufError::EndOfData) && final(self).wrote() == old(
                    self,
                ).wrote() && final(self).avail() == old(self).avail()
            },
    {
        self.put_uN::<O>(value as u32, 17)
    }

    /// Writes a 18-bit field in the given byte order.
    fn put_u18<O: ByteOrder>(&mut self, value: u32) -> (r: Result<(), BufError>)
        requires
            old(self).wf_mut(),
            (value as nat) < pow2(18),
        ensures
            final(self).wf_mut(),
            if 18 <= old(self).avail() {
                r == Ok::<(), BufError>(()) && final(self).wrote() == old(self).wrote()
                    + O::field_bits(value as u32, 18) && final(self).avail() == old(
                    self,
                ).avail() - 18
            } else {
                r == Err::<(), BufError>(BufError::EndOfData) && final(self).wrote() == old(
                    self,
                ).wrote() && final(self).avail() == old(self).avail()
            },
    {
        self.put_uN::<O>(value as u32, 18)
    }

    /// Writes a 19-bit field in the given byte order.
    fn put_u19<O: ByteOrder>(&mut self, value: u32) -> (r: Result<(), BufError>)
        requires
            old(self).wf_mut(),
            (value as nat) < pow2(19),
        ensures
            final(self).wf_mut(),
            if 19 <= old(self).avail() {
                r == Ok::<(), BufError>(()) && final(self).wrote() == old(self).wrote()
                    + O::field_bits(value as u32, 19) && final(self).avail() == old(
                    self,
                ).avail() - 19
            } else {
                r == Err::<(), BufError>(BufError::EndOfData) && final(self).wrote() == old(
                    self,
                ).wrote() && final(self).avail() == old(self).avail()
            },
    {
        self.put_uN::<O>(value as u32, 19)
    }

    /// Writes a 20-bit field in the given byte order.
    fn put_u20<O: ByteOrder>(&mut self, value: u32) -> (r: Result<(), BufError>)
        requires
            old(self).wf_mut(),
            (value as nat) < pow2(20),
        ensures
            final(self).wf_mut(),
            if 20 <= old(self).avail() {
                r == Ok::<(), BufError>(()) && final(self).wrote() == old(self).wrote()
                    + O::field_bits(value as u32, 20) && final(self).avail() == old(
                    self,
                ).avail() - 20
            } else {
                r == Err::<(), BufError>(BufError::EndOfData) && final(self).wrote() == old(
                    self,
                ).wrote() && final(self).avail() == old(self).avail()
            },
    {
        self.put_uN::<O>(value as u32, 20)
    }

    /// Writes a 21-bit field in the given byte order.
    fn put_u21<O: ByteOrder>(&mut self, value: u32) -> (r: Result<(), BufError>)
        requires
            old(self).wf_mut(),
            (value as nat) < pow2(21),
        ensures
            final(self).wf_mut(),
            if 21 <= old(self).avail() {
                r == Ok::<(), BufError>(()) && final(self).wrote() == old(self).wrote()
                    + O::field_bits(value as u32, 21) && final(self).avail() == old(
                    self,
                ).avail() - 21
            } else {
                r == Err::<(), BufError>(BufError::EndOfData) && final(self).wrote() == old(
                    self,
                ).wrote() && final(self).avail() == old(self).avail()
            },
    {
        self.put_uN::<O>(value as u32, 21)
    }

    /// Writes a 22-bit field in the given byte order.
    fn put_u22<O: ByteOrder>(&mut self, value: u32) -> (r: Result<(), BufError>)
        requires
            old(self).wf_mut(),
            (value as nat) < pow2(22),
        ensures
            final(self).wf_mut(),
            if 22 <= old(self).avail() {
                r == Ok::<(), BufError>(()) && final(self).wrote() == old(self).wrote()
                    + O::field_bits(value as u32, 22) && final(self).avail() == old(
                    self,
                ).avail() - 22
            } else {
                r == Err::<(), BufError>(BufError::EndOfData) && final(self).wrote() == old(
                    self,
                ).wrote() && final(self).avail() == old(self).avail()
            },
    {
        self.put_uN::<O>(value as u32, 22)
    }

    /// Writes a 23-bit field in the given byte order.
    fn put_u23<O: ByteOrder>(&mut self, value: u32) -> (r: Result<(), BufError>)
        requires
            old(self).wf_mut(),
            (value as nat) < pow2(23),
        ensures
            final(self).wf_mut(),
            if 23 <= old(self).avail() {
                r == Ok::<(), BufError>(()) && final(self).wrote() == old(self).wrote()
                    + O::field_bits(value as u32, 23) && final(self).avail() == old(
                    self,
                ).avail() - 23
            } else {
                r == Err::<(), BufError>(BufError::EndOfData) && final(self).wrote() == old(
                    self,
                ).wrote() && final(self).avail() == old(self).avail()
            },
    {
        self.put_uN::<O>(value as u32, 23)
    }

    /// Writes a 24-bit field in the given byte order.
    fn put_u24<O: ByteOrder>(&mut self, value: u32) -> (r: Result<(), BufError>)
        requires
            old(self).wf_mut(),
            (value as nat) < pow2(24),
        ensures
            final(self).wf_mut(),
            if 24 <= old(self).avail() {
                r == Ok::<(), BufError>(()) && final(self).wrote() == old(self).wrote()
                    + O::field_bits(value as u32, 24) && final(self).avail() == old(
                    self,
                ).avail() - 24
            } else {
                r == Err::<(), BufError>(BufError::EndOfData) && final(self).wrote() == old(
                    self,
                ).wrote() && final(self).avail() == old(self).avail()
            },
    {
        self.put_uN::<O>(value as u32, 24)
    }

    /// Writes a 25-bit field in the given byte order.
    fn put_u25<O: ByteOrder>(&mut self, value: u32) -> (r: Result<(), BufError>)
        requires
            old(self).wf_mut(),
            (value as nat) < pow2(25),
        ensures
            final(self).wf_mut(),
            if 25 <= old(self).avail() {
                r == Ok::<(), BufError>(()) && final(self).wrote() == old(self).wrote()
                    + O::field_bits(value as u32, 25) && final(self).avail() == old(
                    self,
                ).avail() - 25
            } else {
                r == Err::<(), BufError>(BufError::EndOfData) && final(self).wrote() == old(
                    self,
                ).wrote() && final(self).avail() == old(self).avail()
            },
    {
        self.put_uN::<O>(value as u32, 25)
    }

    /// Writes a 26-bit field in the given byte order.
    fn put_u26<O: ByteOrder>(&mut self, value: u32) -> (r: Result<(), BufError>)
        requires
            old(self).wf_mut(),
            (value as nat) < pow2(26),
        ensures
            final(self).wf_mut(),
            if 26 <= old(self).avail() {
                r == Ok::<(), BufError>(()) && final(self).wrote() == old(self).wrote()
                    + O::field_bits(value as u32, 26) && final(self).avail() == old(
                    self,
                ).avail() - 26
            } else {
                r == Err::<(), BufError>(BufError::EndOfData) && final(self).wrote() == old(
                    self,
                ).wrote() && final(self).avail() == old(self).avail()
            },
    {
        self.put_uN::<O>(value as u32, 26)
    }

    /// Writes a 27-bit field in the given byte order.
    fn put_u27<O: ByteOrder>(&mut self, value: u32) -> (r: Result<(), BufError>)
        requires
            old(self).wf_mut(),
            (value as nat) < pow2(27),
        ensures
            final(self).wf_mut(),
            if 27 <= old(self).avail() {
                r == Ok::<(), BufError>(()) && final(self).wrote() == old(self).wrote()
                    + O::field_bits(value as u32, 27) && final(self).avail() == old(
                    self,
                ).avail() - 27
            } else {
                r == Err::<(), BufError>(BufError::EndOfData) && final(self).wrote() == old(
                    self,
                ).wrote() && final(self).avail() == old(self).avail()
            },
    {
        self.put_uN::<O>(value as u32, 27)
    }

    /// Writes a 28-bit field in the given byte order.
    fn put_u28<O: ByteOrder>(&mut self, value: u32) -> (r: Result<(), BufError>)
        requires
            old(self).wf_mut(),
            (value as nat) < pow2(28),
        ensures
            final(self).wf_mut(),
            if 28 <= old(self).avail() {
                r == Ok::<(), BufError>(()) && final(self).wrote() == old(self).wrote()
                    + O::field_bits(value as u32, 28) && final(self).avail() == old(
                    self,
                ).avail() - 28
            } else {
                r == Err::<(), BufError>(BufError::EndOfData) && final(self).wrote() == old(
                    self,
                ).wrote() && final(self).avail() == old(self).avail()
            },
    {
        self.put_uN::<O>(value as u32, 28)
    }

    /// Writes a 29-bit field in the given byte order.
    fn put_u29<O: ByteOrder>(&mut self, value: u32) -> (r: Result<(), BufError>)
        requires
            old(self).wf_mut(),
            (value as nat) < pow2(29),
        ensures
            final(self).wf_mut(),
            if 29 <= old(self).avail() {
                r == Ok::<(), BufError>(()) && final(self).wrote() == old(self).wrote()
                    + O::field_bits(value as u32, 29) && final(self).avail() == old(
                    self,
                ).avail() - 29
            } else {
                r == Err::<(), BufError>(BufError::EndOfData) && final(self).wrote() == old(
                    self,
                ).wrote() && final(self).avail() == old(self).avail()
            },
    {
        self.put_uN::<O>(value as u32, 29)
    }

    /// Writes a 30-bit field in the given byte order.
    fn put_u30<O: ByteOrder>(&mut self, value: u32) -> (r: Result<(), BufError>)
        requires
            old(self).wf_mut(),
            (value as nat) < pow2(30),
        ensures
            final(self).wf_mut(),
            if 30 <= old(self).avail() {
                r == Ok::<(), BufError>(()) && final(self).wrote() == old(self).wrote()
                    + O::field_bits(value as u32, 30) && final(self).avail() == old(
                    self,
                ).avail() - 30
            } else {
                r == Err::<(), BufError>(BufError::EndOfData) && final(self).wrote() == old(
                    self,
                ).wrote() && final(self).avail() == old(self).avail()
            },
    {
        self.put_uN::<O>(value as u32, 30)
    }

    /// Writes a 31-bit field in the given byte order.
    fn put_u31<O: ByteOrder>(&mut self, value: u32) -> (r: Result<(), BufError>)
        requires
            old(self).wf_mut(),
            (value as nat) < pow2(31),
        ensures
            final(self).wf_mut(),
            if 31 <= old(self).avail() {
                r == Ok::<(), BufError>(()) && final(self).wrote() == old(self).wrote()
                    + O::field_bits(value as u32, 31) && final(self).avail() == old(
                    self,
                ).avail() - 31
            } else {
                r == Err::<(), BufError>(BufError::EndOfData) && final(self).wrote() == old(
                    self,
                ).wrote() && final(self).avail() == old(self).avail()
            },
    {
        self.put_uN::<O>(value as u32, 31)
    }

    /// Writes a 32-bit field in the given byte order.
    fn put_u32<O: ByteOrder>(&mut self, value: u32) -> (r: Result<(), BufError>)
        requires
            old(self).wf_mut(),
        ensures
            final(self).wf_mut(),
            if 32 <= old(self).avail() {
                r == Ok::<(), BufError>(()) && final(self).wrote() == old(self).wrote()
                    + O::field_bits(value as u32, 32) && final(self).avail() == old(
                    self,
                ).avail() - 32
            } else {
                r == Err::<(), BufError>(BufError::EndOfData) && final(self).wrote() == old(
                    self,
                ).wrote() && final(self).avail() == old(self).avail()
            },
    {
        proof {
            vstd::arithmetic::power2::lemma2_to64();
        }
        self.put_uN::<O>(value as u32, 32)
    }
}

impl<T: BitBufMut> BitBufMutExts for T {

}

} // verus!
