//! Bit-granular buffers and a variable-width integer codec.
//!
//! The crate provides shareable immutable bit buffers ([`buf::bits::Bits`]),
//! growable exclusive bit buffers ([`buf::bits_mut::BitsMut`]), traversal
//! traits for reading and writing at single-bit precision, adaptors that
//! chain or bound buffers, and byte-order-aware encoding of integer fields
//! whose width is any value from 1 to 32 bits.

pub mod bit_cursor;
pub mod bit_seek;
pub mod bit_slice;
pub mod bit_types;
pub mod bit_write;
pub mod bitcursor;
pub mod bitmath;
pub mod buf;
pub mod byte_order;
pub mod error;
pub mod io;
pub mod prelude;
pub mod storage;

use vstd::prelude::*;

verus! {

/// Number of bytes needed to hold the given number of bits.
pub fn bytes_needed(num_bits: usize) -> (r: usize)
    ensures
        r == crate::bitmath::bytes_for_bits(num_bits as nat),
{
    if num_bits % 8 == 0 {
        num_bits / 8
    } else {
        num_bits / 8 + 1
    }
}

} // verus!
