use bitbuf::bit_cursor::BitCursor;
use bitbuf::bit_seek::{BitSeek, SeekFrom};
use bitbuf::bit_types::BitVec;
use bitbuf::bit_write::BitWrite;
use bitbuf::bitcursor::{
    BitCursor as ByteBitCursor, BitCursorError, BitSeek as ByteBitSeek, BitSeekFrom,
};
use bitbuf::io::bit_read::BitRead;

fn bv_cur(bits: &[u8]) -> BitVec {
    BitVec::from_bools(bits.iter().map(|&b| b != 0).collect())
}

fn bits_of(data: &[u8]) -> Vec<u8> {
    let mut out = Vec::new();
    for &b in data {
        for k in 0..8 {
            out.push((b >> (7 - k)) & 1);
        }
    }
    out
}

fn read_bits_helper<T: bitbuf::io::borrow_bits::BorrowBits>(buf: T, expected: &[u8]) {
    let expected_bits = bv_cur(&bits_of(expected));
    let mut cursor = BitCursor::new(buf);
    let mut read_buf = BitVec::repeat(false, expected.len() * 8);
    assert_eq!(cursor.read_bits(&mut read_buf).unwrap(), expected.len() * 8);
    assert!(read_buf.eq_bits(&expected_bits));
}

#[test]
fn bit_cursor_test_read_bits() {
    let data = [0b11110000, 0b00001111];

    let vec = Vec::from(data);
    read_bits_helper(vec, &data);

    let bitvec = bv_cur(&bits_of(&data));
    read_bits_helper(bitvec, &data);
}

#[test]
fn test_read_bytes() {
    let data = vec![1u8, 2, 3, 4];
    let mut cursor = BitCursor::new(data);

    let mut buf = vec![0u8; 2];
    cursor.read(&mut buf).expect("valid read");
    assert_eq!(buf, [1, 2]);
    cursor.read(&mut buf).expect("valid read");
    assert_eq!(buf, [3, 4]);
}

#[test]
fn test_bit_seek() {
    let data = vec![0b11001100u8, 0b00110011];
    let mut cursor = BitCursor::new(data);

    let mut read_buf = BitVec::repeat(false, 4);

    cursor.bit_seek(SeekFrom::End(-2)).expect("valid seek");
    // Should now be reading the last 2 bits
    assert_eq!(cursor.read_bits(&mut read_buf).unwrap(), 2);
    assert!(read_buf.eq_bits(&bv_cur(&[1, 1, 0, 0])));
    // We already read to the end
    assert_eq!(cursor.read_bits(&mut read_buf).unwrap(), 0);

    // The read after the seek brought the cursor back to the end.  Now jump
    // back 6 bits.
    cursor.bit_seek(SeekFrom::Current(-6)).expect("valid seek");
    assert_eq!(cursor.read_bits(&mut read_buf).unwrap(), 4);
    assert!(read_buf.eq_bits(&bv_cur(&[1, 1, 0, 0])));

    cursor.bit_seek(SeekFrom::Start(4)).expect("valid seek");
    assert_eq!(cursor.read_bits(&mut read_buf).unwrap(), 4);
    assert!(read_buf.eq_bits(&bv_cur(&[1, 1, 0, 0])));
}

#[test]
fn test_seek() {
    let data = vec![0b11001100u8, 0b00110011];
    let mut cursor = BitCursor::new(data);

    let mut read_buf = BitVec::repeat(false, 2);
    cursor.seek(SeekFrom::End(-1)).unwrap();
    // Should now be reading the last byte
    assert_eq!(cursor.read_bits(&mut read_buf).unwrap(), 2);
    assert!(read_buf.eq_bits(&bv_cur(&[0, 0])));
    // Go back one byte
    cursor.seek(SeekFrom::Current(-1)).unwrap();
    // We should now be in bit position 2
    assert_eq!(cursor.read_bits(&mut read_buf).unwrap(), 2);
    assert!(read_buf.eq_bits(&bv_cur(&[0, 0])));
}

fn write_bits_helper<T: bitbuf::io::borrow_bits::BorrowBitsMut>(buf: T) -> T {
    let mut cursor = BitCursor::new(buf);
    cursor.write_bits(&bv_cur(&[1, 1, 0, 0])).unwrap();
    cursor.write_bits(&bv_cur(&[1, 1])).unwrap();
    cursor.write_bits(&bv_cur(&[0, 0])).unwrap();
    cursor.write_bits(&bv_cur(&[1, 1, 0])).unwrap();
    cursor.write_bits(&bv_cur(&[0, 1, 1, 0, 0])).unwrap();
    cursor.into_inner()
}

#[test]
fn test_write_bits_bitvec() {
    let buf = BitVec::repeat(false, 16);

    let written = write_bits_helper(buf);
    assert!(written.eq_bits(&bv_cur(&bits_of(&[0b11001100, 0b11001100]))));
}

#[test]
fn test_write_bits_vec() {
    let buf: Vec<u8> = vec![0, 0];

    assert_eq!(write_bits_helper(buf), [0b11001100, 0b11001100]);
}

#[test]
fn test_write_bits_bit_slice() {
    let buf = BitVec::from_bytes(vec![0u8; 2]);

    let written = write_bits_helper(buf);
    assert!(written.eq_bits(&bv_cur(&bits_of(&[0b11001100, 0b11001100]))));
}

#[test]
fn test_write_bits_u8_slice() {
    let buf = vec![0u8; 2];

    assert_eq!(write_bits_helper(buf), [0b11001100, 0b11001100]);
}

#[test]
fn cursor_accessors() {
    let mut cursor = BitCursor::new(vec![5u8]);
    assert_eq!(cursor.position(), 0);
    cursor.set_position(3);
    assert_eq!(cursor.position(), 3);
    assert_eq!(cursor.get_ref(), &vec![5u8]);
    cursor.get_mut().push(6);
    assert_eq!(cursor.into_inner(), vec![5u8, 6]);
}

#[test]
fn test_read() {
    let data: Vec<u8> = vec![0b11110000, 0b00001111];
    let mut cursor = ByteBitCursor::new(data);

    assert_eq!(cursor.read_bits_as_u8(4).unwrap(), 15);
    assert_eq!(cursor.read_bits_as_u8(4).unwrap(), 0);
    assert_eq!(cursor.read_bits_as_u8(2).unwrap(), 0);
    assert_eq!(cursor.read_bits_as_u8(6).unwrap(), 15);
}

#[test]
fn read_on_non_byte_boundary() {
    let data: Vec<u8> = vec![0b11110000, 0b00001111];
    let mut cursor = ByteBitCursor::new(data);

    let _ = cursor.read_bits_as_u8(4).unwrap();
    let mut buf = vec![0u8; 1];
    assert!(cursor.read(&mut buf).is_err());
}

#[test]
fn read_too_far() {
    let data: Vec<u8> = vec![0b11110000];
    let mut cursor = ByteBitCursor::new(data);

    assert!(cursor.read_bits_as_u16(16).is_err());
}

#[test]
fn read_too_far_bits() {
    let data: Vec<u8> = vec![0b11110000];
    let mut cursor = ByteBitCursor::new(data);

    let _ = cursor.read_bits_as_u8(7);
    assert!(cursor.read_bits_as_u8(3).is_err());
}

#[test]
fn seek_from_start() {
    let data: Vec<u8> = vec![0b00001111, 0b11110000, 0b00001111, 0b11110000, 0b00001111];
    let mut cursor = ByteBitCursor::new(data);
    // A valid seek
    assert_eq!((2, 2), cursor.seek(BitSeekFrom::Start(2, 2)).unwrap());
    assert_eq!(0b0011, cursor.read_bits_as_u8(4).unwrap());
    // A valid seek with bits > 1 byte
    assert_eq!((2, 2), cursor.seek(BitSeekFrom::Start(0, 18)).unwrap());
    assert_eq!(0b0011, cursor.read_bits_as_u8(4).unwrap());
    // A valid seek with bytes + overflowing bits
    assert_eq!((2, 2), cursor.seek(BitSeekFrom::Start(1, 10)).unwrap());
    assert_eq!(0b0011, cursor.read_bits_as_u8(4).unwrap());

    // Seek past the end
    assert!(cursor.seek(BitSeekFrom::Start(6, 0)).is_err());
    // Seek past the end using just bits
    assert!(cursor.seek(BitSeekFrom::Start(0, 48)).is_err());
    // Seek past the end with bytes + overflowing bits
    assert!(cursor.seek(BitSeekFrom::Start(2, 32)).is_err());
}

#[test]
fn seek_from_current() {
    let data: Vec<u8> = vec![0b00001111, 0b11110000, 0b00001111, 0b11110000, 0b00001111];
    let mut cursor = ByteBitCursor::new(data);
    // Start at some position
    let reset = |c: &mut ByteBitCursor| {
        c.seek(BitSeekFrom::Start(1, 2)).unwrap();
    };
    reset(&mut cursor);

    // A valid seek
    assert_eq!((2, 4), cursor.seek(BitSeekFrom::Current(1, 2)).unwrap());
    assert_eq!(0b1111, cursor.read_bits_as_u8(4).unwrap());
    reset(&mut cursor);
    // A valid seek with bits > 1 byte
    assert_eq!((2, 4), cursor.seek(BitSeekFrom::Current(0, 10)).unwrap());
    assert_eq!(0b1111, cursor.read_bits_as_u8(4).unwrap());
    reset(&mut cursor);
    // A valid seek with bytes + overflowing bits
    assert_eq!((3, 4), cursor.seek(BitSeekFrom::Current(1, 10)).unwrap());
    assert_eq!(0b0000, cursor.read_bits_as_u8(4).unwrap());
    reset(&mut cursor);
    // A valid seek with bytes + bits which overflow with the current position
    assert_eq!((3, 1), cursor.seek(BitSeekFrom::Current(1, 7)).unwrap());
    assert_eq!(0b1110, cursor.read_bits_as_u8(4).unwrap());
    reset(&mut cursor);

    // A valid seek backwards
    assert_eq!((0, 2), cursor.seek(BitSeekFrom::Current(-1, 0)).unwrap());
    assert_eq!(0b0011, cursor.read_bits_as_u8(4).unwrap());
    reset(&mut cursor);

    // A valid seek backwards with bits > 1 byte
    assert_eq!((0, 0), cursor.seek(BitSeekFrom::Current(0, -10)).unwrap());
    assert_eq!(0b0000, cursor.read_bits_as_u8(4).unwrap());
    reset(&mut cursor);

    // A valid seek backwards with bytes + bits which overflow with the
    // current position
    assert_eq!((0, 7), cursor.seek(BitSeekFrom::Current(0, -3)).unwrap());
    assert_eq!(0b1111, cursor.read_bits_as_u8(4).unwrap());

    // Seek past the end
    assert!(cursor.seek(BitSeekFrom::Current(6, 0)).is_err());
    reset(&mut cursor);
    // Seek past the end using just bits
    assert!(cursor.seek(BitSeekFrom::Current(0, 48)).is_err());
    reset(&mut cursor);
    // Seek past the end with bytes + overflowing bits
    assert!(cursor.seek(BitSeekFrom::Current(2, 32)).is_err());
    reset(&mut cursor);
    // Seek past the end with bytes + bits which overflow with the current
    // position
    assert!(cursor.seek(BitSeekFrom::Current(3, 7)).is_err());

    // Seek past the beginning
    assert!(cursor.seek(BitSeekFrom::Current(0, -15)).is_err());
    reset(&mut cursor);
    assert!(cursor.seek(BitSeekFrom::Current(-1, -3)).is_err());
    reset(&mut cursor);
}

#[test]
fn test_seek_from_end() {
    let data: Vec<u8> = vec![0b00001111, 0b11110000, 0b00001111, 0b11110000, 0b00001111];
    let mut cursor = ByteBitCursor::new(data);

    // A valid seek
    assert_eq!((5, 0), cursor.seek(BitSeekFrom::End(0, 0)).unwrap());
    assert!(cursor.read_bit().is_err());

    // Seek back with bytes + bits
    assert_eq!((3, 6), cursor.seek(BitSeekFrom::End(-1, -2)).unwrap());
    assert_eq!(0b0000, cursor.read_bits_as_u8(4).unwrap());
    // Seek back with bytes + bits > 1 byte
    assert_eq!((2, 6), cursor.seek(BitSeekFrom::End(-1, -10)).unwrap());
    assert_eq!(0b1111, cursor.read_bits_as_u8(4).unwrap());

    // Seek back past the front
    assert!(cursor.seek(BitSeekFrom::End(-6, 0)).is_err());
}

#[test]
fn byte_cursor_counts_whole_bytes() {
    let mut cursor = ByteBitCursor::new(vec![1u8, 2, 3]);
    assert_eq!(cursor.bytes_remaining(), 3);
    assert_eq!(cursor.read_bit().unwrap(), 0);
    // A position inside a byte does not count that byte.
    assert_eq!(cursor.bytes_remaining(), 2);
    assert_eq!(cursor.read_bits_as_u32(15).unwrap(), 0b000000100000010);
    assert_eq!(cursor.bytes_remaining(), 1);
}

#[test]
fn byte_cursor_error_values() {
    let mut cursor = ByteBitCursor::new(vec![0xFFu8]);
    assert_eq!(cursor.seek(BitSeekFrom::Start(0, -1)), Err(BitCursorError::BufferUnderflow));
    assert_eq!(cursor.seek(BitSeekFrom::Start(1, 1)), Err(BitCursorError::BufferOverflow));
    cursor.seek(BitSeekFrom::End(0, 0)).unwrap();
    assert_eq!(cursor.read_bit(), Err(BitCursorError::BufferOverflow));
}

#[test]
fn test_write_bits_unique_slice() {
    let mut cursor = BitCursor::new(vec![0u8; 2]);

    cursor.write_bits(&bv_cur(&[1])).unwrap();
    cursor.write_bits(&bv_cur(&[0, 0, 1])).unwrap();
    cursor.write_bits(&bv_cur(&[0, 0, 0, 0, 1])).unwrap();

    assert_eq!(cursor.into_inner(), [0b10010000, 0b10000000]);
}

#[test]
fn test_write_bits_shared_slice() {
    let mut left = BitCursor::new(vec![0u8]);
    let mut right = BitCursor::new(vec![0u8]);

    left.write_bits(&bv_cur(&[1])).unwrap();
    left.write_bits(&bv_cur(&[0, 0, 1])).unwrap();

    right.write_bits(&bv_cur(&[0, 1])).unwrap();
    right.write_bits(&bv_cur(&[0, 0, 0, 1])).unwrap();

    assert_eq!(left.into_inner(), [0b10010000]);
    assert_eq!(right.into_inner(), [0b01000100]);
}

#[test]
fn bit_slice_traits_test_read_bits() {
    let mut data = BitCursor::new(bv_cur(&[0, 1, 0, 0, 1, 0, 0, 0, 0, 1]));

    let mut read_buf = BitVec::repeat(false, 2);
    data.read_bits(&mut read_buf).unwrap();
    assert!(read_buf.eq_bits(&bv_cur(&[0, 1])));

    let mut read_buf = BitVec::repeat(false, 3);
    data.read_bits(&mut read_buf).unwrap();
    assert!(read_buf.eq_bits(&bv_cur(&[0, 0, 1])));

    let mut read_buf = BitVec::repeat(false, 5);
    data.read_bits(&mut read_buf).unwrap();
    assert!(read_buf.eq_bits(&bv_cur(&[0, 0, 0, 0, 1])));
}

#[test]
fn cursor_partial_final_byte_is_left_aligned() {
    // Reading bytes off the end pads the final short run with zeros on the
    // right.
    let mut cursor = BitCursor::new(bv_cur(&[1, 0, 1, 0, 1, 0, 1, 0, 1, 1]));
    let mut buf = vec![0u8; 3];
    assert_eq!(cursor.read(&mut buf).unwrap(), 2);
    assert_eq!(buf, [0b10101010, 0b11000000, 0]);
}

#[test]
fn exact_reads_and_writes() {
    let mut cursor = BitCursor::new(vec![0xA5u8]);
    let mut dest = BitVec::repeat(false, 8);
    cursor.read_bits_exact(&mut dest).unwrap();
    assert!(dest.eq_bits(&bv_cur(&[1, 0, 1, 0, 0, 1, 0, 1])));
    let mut more = BitVec::repeat(false, 1);
    assert!(cursor.read_bits_exact(&mut more).is_err());

    let mut wcursor = BitCursor::new(vec![0u8]);
    wcursor.write_all_bits(&bv_cur(&[1, 1, 1, 1, 0, 0, 0, 0])).unwrap();
    assert!(wcursor.write_all_bits(&bv_cur(&[1])).is_err());
    assert_eq!(wcursor.into_inner(), [0xF0]);
}

fn split_helper<T: bitbuf::bit_slice::AsBitSlice>(buf: T, expected: &[u8]) {
    let expected_bits = bits_of(expected);
    let mut cursor = BitCursor::new(buf);
    cursor.set_position(4);
    let (before, after) = cursor.split();

    assert_eq!(before.len(), 4);
    assert_eq!(after.len(), expected_bits.len() - 4);
    for i in 0..4 {
        assert_eq!(before.at(i as u64), expected_bits[i]);
    }
    for i in 4..expected_bits.len() {
        assert_eq!(after.at((i - 4) as u64), expected_bits[i]);
    }
}

#[test]
fn test_split() {
    let data = [0b11110011, 0b10101010];

    let vec = Vec::from(data);
    split_helper(vec, &data);

    let bitvec = bv_cur(&bits_of(&data));
    split_helper(bitvec, &data);
}

#[test]
fn test_cursors_from_splits() {
    let data = [0b11110011u8, 0b10101010];

    let vec = Vec::from(data);
    let mut vec_cursor = BitCursor::new(vec);
    vec_cursor.set_position(8);
    let (left, right) = vec_cursor.split();
    read_bits_helper(left, &data[..1]);
    read_bits_helper(right, &data[1..]);

    let bitvec = bv_cur(&bits_of(&data));
    let mut bitvec_cursor = BitCursor::new(bitvec);
    bitvec_cursor.set_position(8);
    let (left, right) = bitvec_cursor.split();
    read_bits_helper(left, &data[..1]);
    read_bits_helper(right, &data[1..]);
}

#[test]
fn seek_before_the_start_is_invalid() {
    let mut cursor = BitCursor::new(vec![1u8]);
    assert_eq!(
        cursor.bit_seek(SeekFrom::End(-9)),
        Err(bitbuf::error::BufError::InvalidSeek)
    );
    assert_eq!(
        cursor.bit_seek(SeekFrom::Current(-1)),
        Err(bitbuf::error::BufError::InvalidSeek)
    );
    assert_eq!(cursor.position(), 0);
}
