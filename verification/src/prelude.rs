//! The common imports: buffer types, traversal traits, byte orders, and the
//! bit containers.

pub use crate::bit_cursor::BitCursor;
pub use crate::bit_seek::{BitSeek, SeekFrom};
pub use crate::bit_slice::{AsBitSlice, BitSlice};
pub use crate::bit_types::{BitStore, BitVec, Sealed};
pub use crate::bit_write::BitWrite;
pub use crate::buf::bit_buf::BitBuf;
pub use crate::buf::bit_buf_exts::BitBufExts;
pub use crate::buf::bit_buf_mut::BitBufMut;
pub use crate::buf::bit_buf_mut_exts::BitBufMutExts;
pub use crate::buf::bits::Bits;
pub use crate::buf::bits_mut::BitsMut;
pub use crate::buf::byte_order::{BigEndian, ByteOrder, LittleEndian, NetworkOrder};
pub use crate::error::{BufError, Error};
pub use crate::io::bit_read::BitRead;
pub use crate::io::borrow_bits::{BorrowBits, BorrowBitsMut};
