//! Numeric reads over any readable bit buffer: fields of 1 to 32 bits,
//! parameterized by byte order for widths above 8, with accelerated paths at
//! byte alignment that are bit-identical to the generic path.

use crate::bit_types::BitVec;
use crate::buf::bit_buf::BitBuf;
use crate::buf::byte_order::{BigEndian, ByteOrder};
use crate::error::BufError;
use vstd::prelude::*;

verus! {

pub trait BitBufExts: BitBuf {
    /// Reads an `n`-bit field in the given byte order; on too little data it
    /// fails without moving the cursor.
    #[allow(non_snake_case)]
    fn get_uN<O: ByteOrder>(&mut self, n: usize) -> (r: Result<u32, BufError>)
        requires
            old(self).wf(),
            1 <= n <= 32,
        ensures
            final(self).wf(),
            match r {
                Ok(v) => old(self).rem().len() >= n && v as nat == O::field_value(
                    old(self).rem().take(n as int),
                ) && final(self).rem() == old(self).rem().skip(n as int),
                Err(e) => e == BufError::EndOfData && old(self).rem().len() < n && final(self).rem()
                    == old(self).rem(),
            },
    {
        if self.remaining_bits() < n {
            return Err(BufError::EndOfData);
        }
        let mut tmp = BitVec::new();
        let mut i: usize = 0;
        while i < n
            invariant
                self.wf(),
                tmp.wf(),
                self.rem() == old(self).rem(),
                n <= self.rem().len(),
                n <= 32,
                i <= n,
                tmp@ =~= old(self).rem().take(i as int),
            decreases n - i,
        {
            let b = self.bit_at(i);
            tmp.push(b);
            i = i + 1;
            proof {
                assert(tmp@ =~= old(self).rem().take(i as int));
            }
        }
        self.advance_bits(n);
        Ok(O::load(&tmp))
    }

    /// Reads one bit as a boolean.
    fn get_bool(&mut self) -> (r: Result<bool, BufError>)
        requires
            old(self).wf(),
        ensures
            final(self).wf(),
            match r {
                Ok(v) => old(self).rem().len() >= 1 && v == old(self).rem()[0] && final(self).rem()
                    == old(self).rem().skip(1),
                Err(e) => e == BufError::EndOfData && old(self).rem().len() < 1 && final(self).rem()
                    == old(self).rem(),
            },
    {
        match self.get_uN::<BigEndian>(1) {
            Ok(v) => {
                proof {
                    crate::bitmath::lemma_be_value_step(old(self).rem(), 0);
                    assert(old(self).rem().take(0) =~= Seq::<bool>::empty());
                }
                Ok(v == 1)
            },
            Err(e) => Err(e),
        }
    }

    /// Reads a 1-bit big-endian field.
    fn get_u1(&mut self) -> (r: Result<u8, BufError>)
        requires
            old(self).wf(),
        ensures
            final(self).wf(),
            match r {
                Ok(v) => old(self).rem().len() >= 1 && v as nat == BigEndian::field_value(
                    old(self).rem().take(1),
                ) && final(self).rem() == old(self).rem().skip(1),
                Err(e) => e == BufError::EndOfData && old(self).rem().len() < 1 && final(self).rem() == old(self).rem(),
            },
    {
        match self.get_uN::<BigEndian>(1) {
            Ok(v) => {
                proof {
                    BigEndian::lemma_field_value_bound(old(self).rem().take(1));
                    vstd::arithmetic::power2::lemma2_to64();
                }
                Ok(v as u8)
            },
            Err(e) => Err(e),
        }
    }

    /// Reads a 2-bit big-endian field.
    fn get_u2(&mut self) -> (r: Result<u8, BufError>)
        requires
            old(self).wf(),
        ensures
            final(self).wf(),
            match r {
                Ok(v) => old(self).rem().len() >= 2 && v as nat == BigEndian::field_value(
                    old(self).rem().take(2),
                ) && final(self).rem() == old(self).rem().skip(2),
                Err(e) => e == BufError::EndOfData && old(self).rem().len() < 2 && final(self).rem() == old(self).rem(),
            },
    {
        match self.get_uN::<BigEndian>(2) {
            Ok(v) => {
                proof {
                    BigEndian::lemma_field_value_bound(old(self).rem().take(2));
                    vstd::arithmetic::power2::lemma2_to64();
                }
                Ok(v as u8)
            },
            Err(e) => Err(e),
        }
    }

    /// Reads a 3-bit big-endian field.
    fn get_u3(&mut self) -> (r: Result<u8, BufError>)
        requires
            old(self).wf(),
        ensures
            final(self).wf(),
            match r {
                Ok(v) => old(self).rem().len() >= 3 && v as nat == BigEndian::field_value(
                    old(self).rem().take(3),
                ) && final(self).rem() == old(self).rem().skip(3),
                Err(e) => e == BufError::EndOfData && old(self).rem().len() < 3 && final(self).rem() == old(self).rem(),
            },
    {
        match self.get_uN::<BigEndian>(3) {
            Ok(v) => {
                proof {
                    BigEndian::lemma_field_value_bound(old(self).rem().take(3));
                    vstd::arithmetic::power2::lemma2_to64();
                }
                Ok(v as u8)
            },
            Err(e) => Err(e),
        }
    }

    /// Reads a 4-bit big-endian field.
    fn get_u4(&mut self) -> (r: Result<u8, BufError>)
        requires
            old(self).wf(),
        ensures
            final(self).wf(),
            match r {
                Ok(v) => old(self).rem().len() >= 4 && v as nat == BigEndian::field_value(
                    old(self).rem().take(4),
                ) && final(self).rem() == old(self).rem().skip(4),
                Err(e) => e == BufError::EndOfData && old(self).rem().len() < 4 && final(self).rem() == old(self).rem(),
            },
    {
        match self.get_uN::<BigEndian>(4) {
            Ok(v) => {
                proof {
                    BigEndian::lemma_field_value_bound(old(self).rem().take(4));
                    vstd::arithmetic::power2::lemma2_to64();
                }
                Ok(v as u8)
            },
            Err(e) => Err(e),
        }
    }

    /// Reads a 5-bit big-endian field.
    fn get_u5(&mut self) -> (r: Result<u8, BufError>)
        requires
            old(self).wf(),
        ensures
            final(self).wf(),
            match r {
                Ok(v) => old(self).rem().len() >= 5 && v as nat == BigEndian::field_value(
                    old(self).rem().take(5),
                ) && final(self).rem() == old(self).rem().skip(5),
                Err(e) => e == BufError::EndOfData && old(self).rem().len() < 5 && final(self).rem() == old(self).rem(),
            },
    {
        match self.get_uN::<BigEndian>(5) {
            Ok(v) => {
                proof {
                    BigEndian::lemma_field_value_bound(old(self).rem().take(5));
                    vstd::arithmetic::power2::lemma2_to64();
                }
                Ok(v as u8)
            },
            Err(e) => Err(e),
        }
    }

    /// Reads a 6-bit big-endian field.
    fn get_u6(&mut self) -> (r: Result<u8, BufError>)
        requires
            old(self).wf(),
        ensures
            final(self).wf(),
            match r {
                Ok(v) => old(self).rem().len() >= 6 && v as nat == BigEndian::field_value(
                    old(self).rem().take(6),
                ) && final(self).rem() == old(self).rem().skip(6),
                Err(e) => e == BufError::EndOfData && old(self).rem().len() < 6 && final(self).rem() == old(self).rem(),
            },
    {
        match self.get_uN::<BigEndian>(6) {
            Ok(v) => {
                proof {
                    BigEndian::lemma_field_value_bound(old(self).rem().take(6));
                    vstd::arithmetic::power2::lemma2_to64();
                }
                Ok(v as u8)
            },
            Err(e) => Err(e),
        }
    }

    /// Reads a 7-bit big-endian field.
    fn get_u7(&mut self) -> (r: Result<u8, BufError>)
        requires
            old(self).wf(),
        ensures
            final(self).wf(),
            match r {
                Ok(v) => old(self).rem().len() >= 7 && v as nat == BigEndian::field_value(
                    old(self).rem().take(7),
                ) && final(self).rem() == old(self).rem().skip(7),
                Err(e) => e == BufError::EndOfData && old(self).rem().len() < 7 && final(self).rem() == old(self).rem(),
            },
    {
        match self.get_uN::<BigEndian>(7) {
            Ok(v) => {
                proof {
                    BigEndian::lemma_field_value_bound(old(self).rem().take(7));
                    vstd::arithmetic::power2::lemma2_to64();
                }
                Ok(v as u8)
            },
            Err(e) => Err(e),
        }
    }

    /// Reads an 8-bit big-endian field, reading a whole byte directly when
    /// the view is byte-aligned.
    fn get_u8(&mut self) -> (r: Result<u8, BufError>)
        requires
            old(self).wf(),
        ensures
            final(self).wf(),
            match r {
                Ok(v) => old(self).rem().len() >= 8 && v as nat == BigEndian::field_value(
                    old(self).rem().take(8),
                ) && final(self).rem() == old(self).rem().skip(8),
                Err(e) => e == BufError::EndOfData && old(self).rem().len() < 8 && final(self).rem() == old(self).rem(),
            },
    {
        if self.byte_aligned() {
            proof {
                self.lemma_aligned_rem();
            }
            if self.remaining_bytes() < 1 {
                return Err(BufError::EndOfData);
            }
            let v = self.byte_at(0);
            proof {
                assert(self.rem().subrange(0, 8) =~= self.rem().take(8));
            }
            self.advance_bits(8);
            return Ok(v);
        }
        match self.get_uN::<BigEndian>(8) {
            Ok(v) => {
                proof {
                    BigEndian::lemma_field_value_bound(old(self).rem().take(8));
                    vstd::arithmetic::power2::lemma2_to64();
                }
                Ok(v as u8)
            },
            Err(e) => Err(e),
        }
    }

    /// Reads a 9-bit field in the given byte order.
    fn get_u9<O: ByteOrder>(&mut self) -> (r: Result<u16, BufError>)
        requires
            old(self).wf(),
        ensures
            final(self).wf(),
            match r {
                Ok(v) => old(self).rem().len() >= 9 && v as nat == O::field_value(
                    old(self).rem().take(9),
                ) && final(self).rem() == old(self).rem().skip(9),
                Err(e) => e == BufError::EndOfData && old(self).rem().len() < 9 && final(self).rem() == old(self).rem(),
            },
    {
        match self.get_uN::<O>(9) {
            Ok(v) => {
                proof {
                    O::lemma_field_value_bound(old(self).rem().take(9));
                    vstd::arithmetic::power2::lemma2_to64();
                }
                Ok(v as u16)
            },
            Err(e) => Err(e),
        }
    }

    /// Reads a 10-bit field in the given byte order.
    fn get_u10<O: ByteOrder>(&mut self) -> (r: Result<u16, BufError>)
        requires
            old(self).wf(),
        ensures
            final(self).wf(),
            match r {
                Ok(v) => old(self).rem().len() >= 10 && v as nat == O::field_value(
                    old(self).rem().take(10),
                ) && final(self).rem() == old(self).rem().skip(10),
                Err(e) => e == BufError::EndOfData && old(self).rem().len() < 10 && final(self).rem() == old(self).rem(),
            },
    {
        match self.get_uN::<O>(10) {
            Ok(v) => {
                proof {
                    O::lemma_field_value_bound(old(self).rem().take(10));
                    vstd::arithmetic::power2::lemma2_to64();
                }
                Ok(v as u16)
            },
            Err(e) => Err(e),
        }
    }

    /// Reads a 11-bit field in the given byte order.
    fn get_u11<O: ByteOrder>(&mut self) -> (r: Result<u16, BufError>)
        requires
            old(self).wf(),
        ensures
            final(self).wf(),
            match r {
                Ok(v) => old(self).rem().len() >= 11 && v as nat == O::field_value(
                    old(self).rem().take(11),
                ) && final(self).rem() == old(self).rem().skip(11),
                Err(e) => e == BufError::EndOfData && old(self).rem().len() < 11 && final(self).rem() == old(self).rem(),
            },
    {
        match self.get_uN::<O>(11) {
            Ok(v) => {
                proof {
                    O::lemma_field_value_bound(old(self).rem().take(11));
                    vstd::arithmetic::power2::lemma2_to64();
                }
                Ok(v as u16)
            },
            Err(e) => Err(e),
        }
    }

    /// Reads a 12-bit field in the given byte order.
    fn get_u12<O: ByteOrder>(&mut self) -> (r: Result<u16, BufError>)
        requires
            old(self).wf(),
        ensures
            final(self).wf(),
            match r {
                Ok(v) => old(self).rem().len() >= 12 && v as nat == O::field_value(
                    old(self).rem().take(12),
                ) && final(self).rem() == old(self).rem().skip(12),
                Err(e) => e == BufError::EndOfData && old(self).rem().len() < 12 && final(self).rem() == old(self).rem(),
            },
    {
        match self.get_uN::<O>(12) {
            Ok(v) => {
                proof {
                    O::lemma_field_value_bound(old(self).rem().take(12));
                    vstd::arithmetic::power2::lemma2_to64();
                }
                Ok(v as u16)
            },
            Err(e) => Err(e),
        }
    }

    /// Reads a 13-bit field in the given byte order.
    fn get_u13<O: ByteOrder>(&mut self) -> (r: Result<u16, BufError>)
        requires
            old(self).wf(),
        ensures
            final(self).wf(),
            match r {
                Ok(v) => old(self).rem().len() >= 13 && v as nat == O::field_value(
                    old(self).rem().take(13),
                ) && final(self).rem() == old(self).rem().skip(13),
                Err(e) => e == BufError::EndOfData && old(self).rem().len() < 13 && final(self).rem() == old(self).rem(),
            },
    {
        match self.get_uN::<O>(13) {
            Ok(v) => {
                proof {
                    O::lemma_field_value_bound(old(self).rem().take(13));
                    vstd::arithmetic::power2::lemma2_to64();
                }
                Ok(v as u16)
            },
            Err(e) => Err(e),
        }
    }

    /// Reads a 14-bit field in the given byte order.
    fn get_u14<O: ByteOrder>(&mut self) -> (r: Result<u16, BufError>)
        requires
            old(self).wf(),
        ensures
            final(self).wf(),
            match r {
                Ok(v) => old(self).rem().len() >= 14 && v as nat == O::field_value(
                    old(self).rem().take(14),
                ) && final(self).rem() == old(self).rem().skip(14),
                Err(e) => e == BufError::EndOfData && old(self).rem().len() < 14 && final(self).rem() == old(self).rem(),
            },
    {
        match self.get_uN::<O>(14) {
            Ok(v) => {
                proof {
                    O::lemma_field_value_bound(old(self).rem().take(14));
                    vstd::arithmetic::power2::lemma2_to64();
                }
                Ok(v as u16)
            },
            Err(e) => Err(e),
        }
    }

    /// Reads a 15-bit field in the given byte order.
    fn get_u15<O: ByteOrder>(&mut self) -> (r: Result<u16, BufError>)
        requires
            old(self).wf(),
        ensures
            final(self).wf(),
            match r {
                Ok(v) => old(self).rem().len() >= 15 && v as nat == O::field_value(
                    old(self).rem().take(15),
                ) && final(self).rem() == old(self).rem().skip(15),
                Err(e) => e == BufError::EndOfData && old(self).rem().len() < 15 && final(self).rem() == old(self).rem(),
            },
    {
        match self.get_uN::<O>(15) {
            Ok(v) => {
                proof {
                    O::lemma_field_value_bound(old(self).rem().take(15));
                    vstd::arithmetic::power2::lemma2_to64();
                }
                Ok(v as u16)
            },
            Err(e) => Err(e),
        }
    }

    /// Reads a 16-bit field in the given byte order, reading whole bytes
    /// directly when the view is byte-aligned.
    fn get_u16<O: ByteOrder>(&mut self) -> (r: Result<u16, BufError>)
        requires
            old(self).wf(),
        ensures
            final(self).wf(),
            match r {
                Ok(v) => old(self).rem().len() >= 16 && v as nat == O::field_value(
                    old(self).rem().take(16),
                ) && final(self).rem() == old(self).rem().skip(16),
                Err(e) => e == BufError::EndOfData && old(self).rem().len() < 16 && final(self).rem() == old(self).rem(),
            },
    {
        if self.byte_aligned() {
            proof {
                self.lemma_aligned_rem();
            }
            if self.remaining_bytes() < 2 {
                return Err(BufError::EndOfData);
            }
            let mut dest: Vec<u8> = vec![0u8, 0u8];
            let cr = self.try_copy_to_slice_bytes(&mut dest);
            let v = O::load_u16(dest.as_slice());
            return Ok(v);
        }
        match self.get_uN::<O>(16) {
            Ok(v) => {
                proof { O::lemma_field_value_bound(old(self).rem().take(16)); vstd::arithmetic::power2::lemma2_to64(); }
                Ok(v as u16)
            },
            Err(e) => Err(e),
        }
    }

    /// Reads a 17-bit field in the given byte order.
    fn get_u17<O: ByteOrder>(&mut self) -> (r: Result<u32, BufError>)
        requires
            old(self).wf(),
        ensures
            final(self).wf(),
            match r {
                Ok(v) => old(self).rem().len() >= 17 && v as nat == O::field_value(
                    old(self).rem().take(17),
                ) && final(self).rem() == old(self).rem().skip(17),
                Err(e) => e == BufError::EndOfData && old(self).rem().len() < 17 && final(self).rem() == old(self).rem(),
            },
    {
        match self.get_uN::<O>(17) {
            Ok(v) => {
                Ok(v)
            },
            Err(e) => Err(e),
        }
    }

    /// Reads a 18-bit field in the given byte order.
    fn get_u18<O: ByteOrder>(&mut self) -> (r: Result<u32, BufError>)
        requires
            old(self).wf(),
        ensures
            final(self).wf(),
            match r {
                Ok(v) => old(self).rem().len() >= 18 && v as nat == O::field_value(
                    old(self).rem().take(18),
                ) && final(self).rem() == old(self).rem().skip(18),
                Err(e) => e == BufError::EndOfData && old(self).rem().len() < 18 && final(self).rem() == old(self).rem(),
            },
    {
        match self.get_uN::<O>(18) {
            Ok(v) => {
                Ok(v)
            },
            Err(e) => Err(e),
        }
    }

    /// Reads a 19-bit field in the given byte order.
    fn get_u19<O: ByteOrder>(&mut self) -> (r: Result<u32, BufError>)
        requires
            old(self).wf(),
        ensures
            final(self).wf(),
            match r {
                Ok(v) => old(self).rem().len() >= 19 && v as nat == O::field_value(
                    old(self).rem().take(19),
                ) && final(self).rem() == old(self).rem().skip(19),
                Err(e) => e == BufError::EndOfData && old(self).rem().len() < 19 && final(self).rem() == old(self).rem(),
            },
    {
        match self.get_uN::<O>(19) {
            Ok(v) => {
                Ok(v)
            },
            Err(e) => Err(e),
        }
    }

    /// Reads a 20-bit field in the given byte order.
    fn get_u20<O: ByteOrder>(&mut self) -> (r: Result<u32, BufError>)
        requires
            old(self).wf(),
        ensures
            final(self).wf(),
            match r {
                Ok(v) => old(self).rem().len() >= 20 && v as nat == O::field_value(
                    old(self).rem().take(20),
                ) && final(self).rem() == old(self).rem().skip(20),
                Err(e) => e == BufError::EndOfData && old(self).rem().len() < 20 && final(self).rem() == old(self).rem(),
            },
    {
        match self.get_uN::<O>(20) {
            Ok(v) => {
                Ok(v)
            },
            Err(e) => Err(e),
        }
    }

    /// Reads a 21-bit field in the given byte order.
    fn get_u21<O: ByteOrder>(&mut self) -> (r: Result<u32, BufError>)
        requires
            old(self).wf(),
        ensures
            final(self).wf(),
            match r {
                Ok(v) => old(self).rem().len() >= 21 && v as nat == O::field_value(
                    old(self).rem().take(21),
                ) && final(self).rem() == old(self).rem().skip(21),
                Err(e) => e == BufError::EndOfData && old(self).rem().len() < 21 && final(self).rem() == old(self).rem(),
            },
    {
        match self.get_uN::<O>(21) {
            Ok(v) => {
                Ok(v)
            },
            Err(e) => Err(e),
        }
    }

    /// Reads a 22-bit field in the given byte order.
    fn get_u22<O: ByteOrder>(&mut self) -> (r: Result<u32, BufError>)
        requires
            old(self).wf(),
        ensures
            final(self).wf(),
            match r {
                Ok(v) => old(self).rem().len() >= 22 && v as nat == O::field_value(
                    old(self).rem().take(22),
                ) && final(self).rem() == old(self).rem().skip(22),
                Err(e) => e == BufError::EndOfData && old(self).rem().len() < 22 && final(self).rem() == old(self).rem(),
            },
    {
        match self.get_uN::<O>(22) {
            Ok(v) => {
                Ok(v)
            },
            Err(e) => Err(e),
        }
    }

    /// Reads a 23-bit field in the given byte order.
    fn get_u23<O: ByteOrder>(&mut self) -> (r: Result<u32, BufError>)
        requires
            old(self).wf(),
        ensures
            final(self).wf(),
            match r {
                Ok(v) => old(self).rem().len() >= 23 && v as nat == O::field_value(
                    old(self).rem().take(23),
                ) && final(self).rem() == old(self).rem().skip(23),
                Err(e) => e == BufError::EndOfData && old(self).rem().len() < 23 && final(self).rem() == old(self).rem(),
            },
    {
        match self.get_uN::<O>(23) {
            Ok(v) => {
                Ok(v)
            },
            Err(e) => Err(e),
        }
    }

    /// Reads a 24-bit field in the given byte order, reading whole bytes
    /// directly when the view is byte-aligned.
    fn get_u24<O: ByteOrder>(&mut self) -> (r: Result<u32, BufError>)
        requires
            old(self).wf(),
        ensures
            final(self).wf(),
            match r {
                Ok(v) => old(self).rem().len() >= 24 && v as nat == O::field_value(
                    old(self).rem().take(24),
                ) && final(self).rem() == old(self).rem().skip(24),
                Err(e) => e == BufError::EndOfData && old(self).rem().len() < 24 && final(self).rem() == old(self).rem(),
            },
    {
        if self.byte_aligned() {
            proof {
                self.lemma_aligned_rem();
            }
            if self.remaining_bytes() < 3 {
                return Err(BufError::EndOfData);
            }
            let mut dest: Vec<u8> = vec![0u8, 0u8, 0u8];
            let cr = self.try_copy_to_slice_bytes(&mut dest);
            let v = O::load_u24(dest.as_slice());
            return Ok(v);
        }
        match self.get_uN::<O>(24) {
            Ok(v) => {
                
                Ok(v)
            },
            Err(e) => Err(e),
        }
    }

    /// Reads a 25-bit field in the given byte order.
    fn get_u25<O: ByteOrder>(&mut self) -> (r: Result<u32, BufError>)
        requires
            old(self).wf(),
        ensures
            final(self).wf(),
            match r {
                Ok(v) => old(self).rem().len() >= 25 && v as nat == O::field_value(
                    old(self).rem().take(25),
                ) && final(self).rem() == old(self).rem().skip(25),
                Err(e) => e == BufError::EndOfData && old(self).rem().len() < 25 && final(self).rem() == old(self).rem(),
            },
    {
        match self.get_uN::<O>(25) {
            Ok(v) => {
                Ok(v)
            },
            Err(e) => Err(e),
        }
    }

    /// Reads a 26-bit field in the given byte order.
    fn get_u26<O: ByteOrder>(&mut self) -> (r: Result<u32, BufError>)
        requires
            old(self).wf(),
        ensures
            final(self).wf(),
            match r {
                Ok(v) => old(self).rem().len() >= 26 && v as nat == O::field_value(
                    old(self).rem().take(26),
                ) && final(self).rem() == old(self).rem().skip(26),
                Err(e) => e == BufError::EndOfData && old(self).rem().len() < 26 && final(self).rem() == old(self).rem(),
            },
    {
        match self.get_uN::<O>(26) {
            Ok(v) => {
                Ok(v)
            },
            Err(e) => Err(e),
        }
    }

    /// Reads a 27-bit field in the given byte order.
    fn get_u27<O: ByteOrder>(&mut self) -> (r: Result<u32, BufError>)
        requires
            old(self).wf(),
        ensures
            final(self).wf(),
            match r {
                Ok(v) => old(self).rem().len() >= 27 && v as nat == O::field_value(
                    old(self).rem().take(27),
                ) && final(self).rem() == old(self).rem().skip(27),
                Err(e) => e == BufError::EndOfData && old(self).rem().len() < 27 && final(self).rem() == old(self).rem(),
            },
    {
        match self.get_uN::<O>(27) {
            Ok(v) => {
                Ok(v)
            },
            Err(e) => Err(e),
        }
    }

    /// Reads a 28-bit field in the given byte order.
    fn get_u28<O: ByteOrder>(&mut self) -> (r: Result<u32, BufError>)
        requires
            old(self).wf(),
        ensures
            final(self).wf(),
            match r {
                Ok(v) => old(self).rem().len() >= 28 && v as nat == O::field_value(
                    old(self).rem().take(28),
                ) && final(self).rem() == old(self).rem().skip(28),
                Err(e) => e == BufError::EndOfData && old(self).rem().len() < 28 && final(self).rem() == old(self).rem(),
            },
    {
        match self.get_uN::<O>(28) {
            Ok(v) => {
                Ok(v)
            },
            Err(e) => Err(e),
        }
    }

    /// Reads a 29-bit field in the given byte order.
    fn get_u29<O: ByteOrder>(&mut self) -> (r: Result<u32, BufError>)
        requires
            old(self).wf(),
        ensures
            final(self).wf(),
            match r {
                Ok(v) => old(self).rem().len() >= 29 && v as nat == O::field_value(
                    old(self).rem().take(29),
                ) && final(self).rem() == old(self).rem().skip(29),
                Err(e) => e == BufError::EndOfData && old(self).rem().len() < 29 && final(self).rem() == old(self).rem(),
            },
    {
        match self.get_uN::<O>(29) {
            Ok(v) => {
                Ok(v)
            },
            Err(e) => Err(e),
        }
    }

    /// Reads a 30-bit field in the given byte order.
    fn get_u30<O: ByteOrder>(&mut self) -> (r: Result<u32, BufError>)
        requires
            old(self).wf(),
        ensures
            final(self).wf(),
            match r {
                Ok(v) => old(self).rem().len() >= 30 && v as nat == O::field_value(
                    old(self).rem().take(30),
                ) && final(self).rem() == old(self).rem().skip(30),
                Err(e) => e == BufError::EndOfData && old(self).rem().len() < 30 && final(self).rem() == old(self).rem(),
            },
    {
        match self.get_uN::<O>(30) {
            Ok(v) => {
                Ok(v)
            },
            Err(e) => Err(e),
        }
    }

    /// Reads a 31-bit field in the given byte order.
    fn get_u31<O: ByteOrder>(&mut self) -> (r: Result<u32, BufError>)
        requires
            old(self).wf(),
        ensures
            final(self).wf(),
            match r {
                Ok(v) => old(self).rem().len() >= 31 && v as nat == O::field_value(
                    old(self).rem().take(31),
                ) && final(self).rem() == old(self).rem().skip(31),
                Err(e) => e == BufError::EndOfData && old(self).rem().len() < 31 && final(self).rem() == old(self).rem(),
            },
    {
        match self.get_uN::<O>(31) {
            Ok(v) => {
                Ok(v)
            },
            Err(e) => Err(e),
        }
    }

    /// Reads a 32-bit field in the given byte order, reading whole bytes
    /// directly when the view is byte-aligned.
    fn get_u32<O: ByteOrder>(&mut self) -> (r: Result<u32, BufError>)
        requires
            old(self).wf(),
        ensures
            final(self).wf(),
            match r {
                Ok(v) => old(self).rem().len() >= 32 && v as nat == O::field_value(
                    old(self).rem().take(32),
                ) && final(self).rem() == old(self).rem().skip(32),
                Err(e) => e == BufError::EndOfData && old(self).rem().len() < 32 && final(self).rem() == old(self).rem(),
            },
    {
        if self.byte_aligned() {
            proof {
                self.lemma_aligned_rem();
            }
            if self.remaining_bytes() < 4 {
                return Err(BufError::EndOfData);
            }
            let mut dest: Vec<u8> = vec![0u8, 0u8, 0u8, 0u8];
            let cr = self.try_copy_to_slice_bytes(&mut dest);
            let v = O::load_u32(dest.as_slice());
            return Ok(v);
        }
        match self.get_uN::<O>(32) {
            Ok(v) => {
                
                Ok(v)
            },
            Err(e) => Err(e),
        }
    }
}

impl<T: BitBuf> BitBufExts for T {

}

} // verus!
