//! Bit-oriented reading, writing, and borrowing contracts for cursor-style
//! access to bit streams.

pub mod bit_read;
pub mod borrow_bits;
