//! A byte-backed cursor that can read any number of bits at a time,
//! folding them most-significant bit first into a register.

use crate::bitmath::{be_value, bits_of_bytes, get_bit_in_byte, lemma_be_value_step};
use vstd::prelude::*;

verus! {

/// How a bit-level cursor can fail: reading or seeking past the end, or
/// seeking before the start.
#[derive(Debug, PartialEq, Eq, Clone, Copy)]
pub enum BitCursorError {
    BufferOverflow,
    BufferUnderflow,
}

pub type BitCursorResult<T> = Result<T, BitCursorError>;

/// A seek target measured in whole bytes plus bits, from the start, the
/// current position, or the end.
#[derive(Debug, PartialEq, Eq, Clone, Copy)]
pub enum BitSeekFrom {
    Start(i64, i64),
    Current(i64, i64),
    End(i64, i64),
}

/// Seeking at bit granularity over a bit stream with a tracked position.
pub trait BitSeek: Sized {
    /// Structural well-formedness of the seekable stream.
    spec fn seek_wf(&self) -> bool;

    /// The whole stream of bits sought over.
    spec fn stream(&self) -> Seq<bool>;

    /// The position, in bits from the start of the stream.
    spec fn pos(&self) -> nat;

    /// Moves to the given byte-plus-bit position; fails, without moving,
    /// past either end of the stream. The result is the new position as
    /// `(byte, bit)`.
    fn seek(&mut self, pos: BitSeekFrom) -> (r: BitCursorResult<(u64, u64)>)
        requires
            old(self).seek_wf(),
        ensures
            final(self).seek_wf(),
            final(self).stream() == old(self).stream(),
            ({
                let target = match pos {
                    BitSeekFrom::Start(bytes, bits) => bytes * 8 + bits,
                    BitSeekFrom::Current(bytes, bits) => old(self).pos() + bytes * 8 + bits,
                    BitSeekFrom::End(bytes, bits) => old(self).stream().len() + bytes * 8 + bits,
                };
                if 0 <= target <= old(self).stream().len() {
                    r == Ok::<(u64, u64), BitCursorError>(
                        ((target / 8) as u64, (target % 8) as u64),
                    ) && final(self).pos() == target
                } else if target > old(self).stream().len() {
                    r == Err::<(u64, u64), BitCursorError>(BitCursorError::BufferOverflow) && final(self).pos() == old(self).pos()
                } else {
                    r == Err::<(u64, u64), BitCursorError>(BitCursorError::BufferUnderflow)
                        && final(self).pos() == old(self).pos()
                }
            }),
    ;
}

/// A cursor over owned bytes that tracks its position to the bit.
pub struct BitCursor {
    data: Vec<u8>,
    byte_pos: usize,
    bit_pos: u8,
}

impl BitCursor {
    /// The bytes read from.
    pub closed spec fn data_spec(&self) -> Seq<u8> {
        self.data@
    }

    /// The position in bits from the start.
    pub closed spec fn pos_spec(&self) -> nat {
        (8 * self.byte_pos + self.bit_pos) as nat
    }

    /// The position stays inside the data (one past the end at most) and the
    /// data's bit count stays addressable.
    pub closed spec fn wf(&self) -> bool {
        &&& self.bit_pos < 8
        &&& self.pos_spec() <= self.data_spec().len() * 8
        &&& 8 * self.data_spec().len() <= i64::MAX
    }

    /// A new cursor at position 0 over the given bytes.
    pub fn new(data: Vec<u8>) -> (r: BitCursor)
        requires
            8 * data@.len() <= i64::MAX,
        ensures
            r.wf(),
            r.data_spec() == data@,
            r.pos_spec() == 0,
    {
        BitCursor { data, byte_pos: 0, bit_pos: 0 }
    }

    /// The number of whole bytes between the position and the end; a
    /// position inside a byte does not count that byte.
    pub fn bytes_remaining(&self) -> (r: usize)
        requires
            self.wf(),
        ensures
            r == (self.data_spec().len() * 8 - self.pos_spec()) / 8,
    {
        proof {
            assert(self.byte_pos <= self.data_spec().len() && (self.bit_pos == 0 ==> (
            self.data_spec().len() * 8 - 8 * self.byte_pos) / 8 == self.data_spec().len()
                - self.byte_pos) && (0 < self.bit_pos < 8 && 8 * self.byte_pos + self.bit_pos
                <= self.data_spec().len() * 8 ==> self.byte_pos < self.data_spec().len() && (
            self.data_spec().len() * 8 - 8 * self.byte_pos - self.bit_pos) / 8
                == self.data_spec().len() - self.byte_pos - 1)) by (nonlinear_arith)
                requires
                    self.wf(),
            ;
        }
        if self.bit_pos == 0 {
            self.data.len() - self.byte_pos
        } else {
            self.data.len() - self.byte_pos - 1
        }
    }

    /// Reads the bit at the position as 0 or 1 and moves past it; fails at
    /// the end of the data.
    pub fn read_bit(&mut self) -> (r: BitCursorResult<u8>)
        requires
            old(self).wf(),
        ensures
            final(self).wf(),
            final(self).data_spec() == old(self).data_spec(),
            if old(self).pos_spec() < old(self).data_spec().len() * 8 {
                &&& r == Ok::<u8, BitCursorError>(
                    if bits_of_bytes(old(self).data_spec())[old(self).pos_spec() as int] {
                        1u8
                    } else {
                        0u8
                    },
                )
                &&& final(self).pos_spec() == old(self).pos_spec() + 1
            } else {
                r == Err::<u8, BitCursorError>(BitCursorError::BufferOverflow) && final(self).pos_spec() == old(self).pos_spec()
            },
    {
        proof {
            assert(self.byte_pos < self.data_spec().len() ==> 8 * self.byte_pos + self.bit_pos < 8
                * self.data_spec().len() && 8 * self.byte_pos + 8 <= 8 * self.data_spec().len())
                by (nonlinear_arith)
                requires
                    self.bit_pos < 8,
            ;
            assert(self.byte_pos >= self.data_spec().len() && self.wf() ==> 8 * self.byte_pos
                + self.bit_pos >= 8 * self.data_spec().len()) by (nonlinear_arith);
        }
        if self.byte_pos >= self.data.len() {
            return Err(BitCursorError::BufferOverflow);
        }
        let byte = self.data[self.byte_pos];
        let b = get_bit_in_byte(byte, self.bit_pos as usize);
        proof {
            crate::bitmath::lemma_bits_of_bytes_index(self.data_spec(), self.pos_spec() as int);
        }
        if self.bit_pos == 7 {
            self.bit_pos = 0;
            self.byte_pos = self.byte_pos + 1;
        } else {
            self.bit_pos = self.bit_pos + 1;
        }
        if b {
            Ok(1)
        } else {
            Ok(0)
        }
    }

    /// Reads `num_bits` bits, most significant first, into a byte register;
    /// fails once the data runs out, the bits before the end then being
    /// consumed.
    pub fn read_bits_as_u8(&mut self, num_bits: usize) -> (r: BitCursorResult<u8>)
        requires
            old(self).wf(),
            num_bits <= 8,
        ensures
            final(self).wf(),
            final(self).data_spec() == old(self).data_spec(),
            if old(self).pos_spec() + num_bits <= old(self).data_spec().len() * 8 {
                &&& r == Ok::<u8, BitCursorError>(
                    be_value(
                        bits_of_bytes(old(self).data_spec()).subrange(
                            old(self).pos_spec() as int,
                            old(self).pos_spec() + num_bits,
                        ),
                    ) as u8,
                )
                &&& final(self).pos_spec() == old(self).pos_spec() + num_bits
            } else {
                r == Err::<u8, BitCursorError>(BitCursorError::BufferOverflow) && final(self).pos_spec() == old(self).data_spec().len() * 8
            },
    {
        match bit_read_helper(self, num_bits) {
            Ok(v) => {
                proof {
                    crate::bitmath::lemma_be_value_bound(
                        bits_of_bytes(old(self).data_spec()).subrange(
                            old(self).pos_spec() as int,
                            old(self).pos_spec() + num_bits,
                        ),
                    );
                    vstd::arithmetic::power2::lemma2_to64();
                    if num_bits < 8 {
                        vstd::arithmetic::power2::lemma_pow2_strictly_increases(num_bits as nat, 8);
                    }
                }
                Ok(v as u8)
            },
            Err(e) => Err(e),
        }
    }

    /// Reads `num_bits` bits, most significant first, into a 16-bit
    /// register.
    pub fn read_bits_as_u16(&mut self, num_bits: usize) -> (r: BitCursorResult<u16>)
        requires
            old(self).wf(),
            num_bits <= 16,
        ensures
            final(self).wf(),
            final(self).data_spec() == old(self).data_spec(),
            if old(self).pos_spec() + num_bits <= old(self).data_spec().len() * 8 {
                &&& r == Ok::<u16, BitCursorError>(
                    be_value(
                        bits_of_bytes(old(self).data_spec()).subrange(
                            old(self).pos_spec() as int,
                            old(self).pos_spec() + num_bits,
                        ),
                    ) as u16,
                )
                &&& final(self).pos_spec() == old(self).pos_spec() + num_bits
            } else {
                r == Err::<u16, BitCursorError>(BitCursorError::BufferOverflow) && final(self).pos_spec() == old(self).data_spec().len() * 8
            },
    {
        match bit_read_helper(self, num_bits) {
            Ok(v) => {
                proof {
                    crate::bitmath::lemma_be_value_bound(
                        bits_of_bytes(old(self).data_spec()).subrange(
                            old(self).pos_spec() as int,
                            old(self).pos_spec() + num_bits,
                        ),
                    );
                    vstd::arithmetic::power2::lemma2_to64();
                    if num_bits < 16 {
                        vstd::arithmetic::power2::lemma_pow2_strictly_increases(num_bits as nat, 16);
                    }
                }
                Ok(v as u16)
            },
            Err(e) => Err(e),
        }
    }

    /// Reads `num_bits` bits, most significant first, into a 32-bit
    /// register.
    pub fn read_bits_as_u32(&mut self, num_bits: usize) -> (r: BitCursorResult<u32>)
        requires
            old(self).wf(),
            num_bits <= 32,
        ensures
            final(self).wf(),
            final(self).data_spec() == old(self).data_spec(),
            if old(self).pos_spec() + num_bits <= old(self).data_spec().len() * 8 {
                &&& r == Ok::<u32, BitCursorError>(
                    be_value(
                        bits_of_bytes(old(self).data_spec()).subrange(
                            old(self).pos_spec() as int,
                            old(self).pos_spec() + num_bits,
                        ),
                    ) as u32,
                )
                &&& final(self).pos_spec() == old(self).pos_spec() + num_bits
            } else {
                r == Err::<u32, BitCursorError>(BitCursorError::BufferOverflow) && final(self).pos_spec() == old(self).data_spec().len() * 8
            },
    {
        bit_read_helper(self, num_bits)
    }

    /// Reads whole bytes into `buf`, filling it; fails when the position is
    /// not on a byte boundary, or at the end of the data.
    pub fn read(&mut self, buf: &mut Vec<u8>) -> (r: BitCursorResult<usize>)
        requires
            old(self).wf(),
        ensures
            final(self).wf(),
            final(self).data_spec() == old(self).data_spec(),
            match r {
                Ok(n) => {
                    &&& old(self).pos_spec() % 8 == 0
                    &&& n == if old(buf)@.len() <= old(self).data_spec().len() - old(
                        self,
                    ).pos_spec() / 8 {
                        old(buf)@.len() as int
                    } else {
                        old(self).data_spec().len() - old(self).pos_spec() / 8
                    }
                    &&& final(buf)@.len() == old(buf)@.len()
                    &&& final(buf)@ == old(self).data_spec().subrange(
                        (old(self).pos_spec() / 8) as int,
                        (old(self).pos_spec() / 8) as int + n,
                    ) + old(buf)@.skip(n as int)
                    &&& final(self).pos_spec() == old(self).pos_spec() + 8 * n
                },
                Err(e) => e == BitCursorError::BufferOverflow && old(self).pos_spec() % 8 != 0
                    && final(self).pos_spec() == old(self).pos_spec() && final(buf)@ == old(buf)@,
            },
    {
        if self.bit_pos != 0 {
            return Err(BitCursorError::BufferOverflow);
        }
        let avail = self.data.len() - self.byte_pos;
        let want = buf.len();
        let n = if want <= avail {
            want
        } else {
            avail
        };
        let dlen = self.data.len();
        let mut j: usize = 0;
        while j < n
            invariant
                self.wf(),
                self.bit_pos == 0,
                n <= buf@.len(),
                self.data_spec().len() == dlen,
                self.byte_pos + n <= self.data_spec().len(),
                j <= n,
                self.data_spec() == old(self).data_spec(),
                self.byte_pos == old(self).byte_pos,
                buf@.len() == old(buf)@.len(),
                buf@ =~= self.data_spec().subrange(
                    self.byte_pos as int,
                    self.byte_pos + j,
                ) + old(buf)@.skip(j as int),
            decreases n - j,
        {
            let b = self.data[self.byte_pos + j];
            buf.set(j, b);
            j = j + 1;
            proof {
                assert(buf@ =~= self.data_spec().subrange(
                    self.byte_pos as int,
                    self.byte_pos + j,
                ) + old(buf)@.skip(j as int));
            }
        }
        self.byte_pos = self.byte_pos + n;
        Ok(n)
    }
}

/// Folds `num_bits` bits from the cursor into a register, most significant
/// bit first.
fn bit_read_helper(buf: &mut BitCursor, num_bits: usize) -> (r: BitCursorResult<u32>)
    requires
        old(buf).wf(),
        num_bits <= 32,
    ensures
        final(buf).wf(),
        final(buf).data_spec() == old(buf).data_spec(),
        if old(buf).pos_spec() + num_bits <= old(buf).data_spec().len() * 8 {
            &&& r == Ok::<u32, BitCursorError>(
                be_value(
                    bits_of_bytes(old(buf).data_spec()).subrange(
                        old(buf).pos_spec() as int,
                        old(buf).pos_spec() + num_bits,
                    ),
                ) as u32,
            )
            &&& final(buf).pos_spec() == old(buf).pos_spec() + num_bits
        } else {
            r == Err::<u32, BitCursorError>(BitCursorError::BufferOverflow) && final(buf).pos_spec() == old(buf).data_spec().len() * 8
        },
{
    let ghost s = bits_of_bytes(old(buf).data_spec()).subrange(
        old(buf).pos_spec() as int,
        old(buf).pos_spec() + num_bits,
    );
    let ghost all = bits_of_bytes(old(buf).data_spec());
    let mut result: u32 = 0;
    let mut i: usize = 0;
    while i < num_bits
        invariant
            buf.wf(),
            num_bits <= 32,
            i <= num_bits,
            buf.data_spec() == old(buf).data_spec(),
            all == bits_of_bytes(old(buf).data_spec()),
            s == all.subrange(old(buf).pos_spec() as int, old(buf).pos_spec() + num_bits),
            buf.pos_spec() == old(buf).pos_spec() + i,
            result as nat == be_value(
                all.subrange(old(buf).pos_spec() as int, old(buf).pos_spec() + i),
            ),
        decreases num_bits - i,
    {
        let ghost seg = all.subrange(old(buf).pos_spec() as int, old(buf).pos_spec() + i);
        proof {
            crate::bitmath::lemma_be_value_bound(seg);
            if (i as nat) < 31 {
                vstd::arithmetic::power2::lemma_pow2_strictly_increases(i as nat, 31);
            }
            vstd::arithmetic::power2::lemma2_to64();
        }
        let bit = match buf.read_bit() {
            Ok(b) => b,
            Err(e) => {
                return Err(e);
            },
        };
        result = result * 2 + (bit as u32);
        i = i + 1;
        proof {
            let seg1 = all.subrange(old(buf).pos_spec() as int, old(buf).pos_spec() + i);
            lemma_be_value_step(seg1, i - 1);
            assert(seg1.take(i - 1) =~= seg);
            assert(seg1.take(i as int) =~= seg1);
        }
    }
    proof {
        assert(all.subrange(old(buf).pos_spec() as int, old(buf).pos_spec() + num_bits) == s);
    }
    Ok(result)
}

impl BitSeek for BitCursor {
    open spec fn seek_wf(&self) -> bool {
        self.wf()
    }

    open spec fn stream(&self) -> Seq<bool> {
        bits_of_bytes(self.data_spec())
    }

    open spec fn pos(&self) -> nat {
        self.pos_spec()
    }

    fn seek(&mut self, pos: BitSeekFrom) -> (r: BitCursorResult<(u64, u64)>) {
        let (bytes, bits) = match pos {
            BitSeekFrom::Start(bytes, bits) => (bytes, bits),
            BitSeekFrom::Current(bytes, bits) => (bytes, bits),
            BitSeekFrom::End(bytes, bits) => (bytes, bits),
        };
        let base: i128 = match pos {
            BitSeekFrom::Start(_, _) => 0,
            BitSeekFrom::Current(_, _) => {
                proof {
                    assert(8 * self.byte_pos + self.bit_pos <= self.data_spec().len() * 8);
                }
                8 * (self.byte_pos as i128) + (self.bit_pos as i128)
            },
            BitSeekFrom::End(_, _) => 8 * (self.data.len() as i128),
        };
        let target: i128 = base + 8 * (bytes as i128) + (bits as i128);
        let max_bit_pos: i128 = 8 * (self.data.len() as i128);
        if target > max_bit_pos {
            return Err(BitCursorError::BufferOverflow);
        }
        if target < 0 {
            return Err(BitCursorError::BufferUnderflow);
        }
        let new_byte = (target / 8) as usize;
        let new_bit = (target % 8) as u8;
        self.byte_pos = new_byte;
        self.bit_pos = new_bit;
        proof {
            assert(8 * (target / 8) + target % 8 == target && target / 8 <= self.data_spec().len())
                by (nonlinear_arith)
                requires
                    0 <= target <= self.data_spec().len() * 8,
            ;
        }
        Ok((new_byte as u64, new_bit as u64))
    }
}

} // verus!
