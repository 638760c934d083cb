//! The buffer/codec core: byte-order strategies, the traversal contracts,
//! the shared and growable bit buffers, and the adaptors over them.

pub mod bit_buf;
pub mod bit_buf_exts;
pub mod bit_buf_mut;
pub mod bit_buf_mut_exts;
pub mod bit_take;
pub mod bits;
pub mod bits_mut;
pub mod byte_order;
pub mod chain;
pub mod limit;
pub mod slice_writer;
pub mod take;
