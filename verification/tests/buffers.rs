use bitbuf::bit_types::BitVec;
use bitbuf::buf::bit_buf::BitBuf;
use bitbuf::buf::bit_buf_exts::BitBufExts;
use bitbuf::buf::bits::Bits;
use bitbuf::buf::bits_mut::BitsMut;
use bitbuf::buf::byte_order::NetworkOrder;
use bitbuf::buf::take::take_bits;
use bitbuf::error::BufError;

fn bv_buf(bits: &[u8]) -> BitVec {
    BitVec::from_bools(bits.iter().map(|&b| b != 0).collect())
}

fn assert_bits_eq(b: &Bits, expected: &[u8]) {
    assert_eq!(b.len_bits(), expected.len());
    for (i, &e) in expected.iter().enumerate() {
        assert_eq!(b.bit_at(i), e != 0, "bit {} differs", i);
    }
}

fn assert_bits_mut_eq(b: &BitsMut, expected: &[u8]) {
    assert_eq!(b.len(), expected.len());
    for (i, &e) in expected.iter().enumerate() {
        assert_eq!(b.bit_at(i), e != 0, "bit {} differs", i);
    }
}

#[test]
fn test_copy_from_slice() {
    // Mutable so we can alter it below to make sure a copy was made
    let mut src = bv_buf(&[1, 0, 1, 1, 0, 1, 0, 0, 1, 1]);

    let bits = Bits::copy_from_bit_slice(&src);

    assert_eq!(bits.len_bits(), src.len());
    assert_bits_eq(&bits, &[1, 0, 1, 1, 0, 1, 0, 0, 1, 1]);

    // Ensure the data was copied (not shared)
    src.set(0, false);

    // The copy should not be affected
    assert!(bits.bit_at(0));
}

#[test]
fn test_from_bitslice() {
    let slice = bv_buf(&[1, 1, 0, 1, 1, 0]);
    let bits = Bits::copy_from_bit_slice(&slice);
    assert_eq!(bits.len_bits(), 6);
    assert_bits_eq(&bits, &[1, 1, 0, 1, 1, 0]);

    // Now make sure a view that starts off a byte boundary still works
    let unaligned_slice = bits.slice_bits(2, 6);
    assert_eq!(unaligned_slice.len_bits(), 4);
    assert_bits_eq(&unaligned_slice, &[0, 1, 1, 0]);
}

#[test]
fn test_slice() {
    let bits = Bits::from_static_bytes(&[0b1010_1010, 0b1111_0000]);

    let head = bits.slice_bits(0, 4);
    assert_eq!(head.len_bits(), 4);
    assert_bits_eq(&head, &[1, 0, 1, 0]);

    let mid = bits.slice_bits(4, 12);
    assert_eq!(mid.len_bits(), 8);
    assert_bits_eq(&mid, &[1, 0, 1, 0, 1, 1, 1, 1]);

    let tail = bits.slice_bits(12, 16);
    assert_eq!(tail.len_bits(), 4);
    assert_bits_eq(&tail, &[0, 0, 0, 0]);

    // A slice which overlaps two existing slices
    let overlapping = bits.slice_bits(10, 14);
    assert_eq!(overlapping.len_bits(), 4);
    assert_bits_eq(&overlapping, &[1, 1, 0, 0]);

    // A slice taken from an existing slice whose starting point isn't at a
    // byte boundary
    let slice_of_slice = overlapping.slice_bits(0, 2);
    assert_eq!(slice_of_slice.len_bits(), 2);
    assert_bits_eq(&slice_of_slice, &[1, 1]);
}

#[test]
fn test_slice_bytes() {
    let bits = Bits::from_static_bytes(&[0b1010_1010, 0b1100_1100, 0b1110_0011, 0b1111_0000]);

    let head = bits.slice_bytes(0, 2);
    assert_eq!(head.len_bits(), 16);
    assert_bits_eq(&head, &[1, 0, 1, 0, 1, 0, 1, 0, 1, 1, 0, 0, 1, 1, 0, 0]);

    let mid = bits.slice_bytes(1, 3);
    assert_eq!(mid.len_bits(), 16);
    assert_bits_eq(&mid, &[1, 1, 0, 0, 1, 1, 0, 0, 1, 1, 1, 0, 0, 0, 1, 1]);

    // Grab a slice that starts at a non-byte boundary and make sure a byte
    // slice from that works correctly
    let bitslice = bits.slice_bits(4, 32);
    let byte_slice_from_bitslice = bitslice.slice_bytes(0, 1);
    assert_eq!(byte_slice_from_bitslice.len_bits(), 8);
    assert_bits_eq(&byte_slice_from_bitslice, &[1, 0, 1, 0, 1, 1, 0, 0]);
}

#[test]
fn bits_test_split_to() {
    let mut bits = Bits::from_static_bytes(&[0b1010_1010, 0b1111_0000]);

    let head = bits.split_to_bits(7);
    assert_eq!(head.len_bits(), 7);
    assert_eq!(bits.len_bits(), 9);
    assert_bits_eq(&head, &[1, 0, 1, 0, 1, 0, 1]);
    assert_bits_eq(&bits, &[0, 1, 1, 1, 1, 0, 0, 0, 0]);

    // Split again from what was left over
    let head = bits.split_to_bits(3);
    assert_eq!(head.len_bits(), 3);
    assert_eq!(bits.len_bits(), 6);
    assert_bits_eq(&head, &[0, 1, 1]);
    assert_bits_eq(&bits, &[1, 1, 0, 0, 0, 0]);
}

#[test]
fn bits_test_split_to_bytes() {
    let mut bits = Bits::from_static_bytes(&[0b1010_1010, 0b1100_1100, 0b1110_0011, 0b1111_0000]);

    let head = bits.split_to_bytes(1);
    assert_eq!(head.len_bits(), 8);
    assert_eq!(bits.len_bits(), 24);
    assert_bits_eq(&head, &[1, 0, 1, 0, 1, 0, 1, 0]);
    assert_bits_eq(
        &bits,
        &[1, 1, 0, 0, 1, 1, 0, 0, 1, 1, 1, 0, 0, 0, 1, 1, 1, 1, 1, 1, 0, 0, 0, 0],
    );

    // Now split on a non-byte boundary
    let _head = bits.split_to_bits(4);
    // Then split bytes on that and make sure it works
    let head = bits.split_to_bytes(1);
    assert_eq!(head.len_bits(), 8);
    assert_eq!(bits.len_bits(), 12);
    assert_bits_eq(&head, &[1, 1, 0, 0, 1, 1, 1, 0]);
    assert_bits_eq(&bits, &[0, 0, 1, 1, 1, 1, 1, 1, 0, 0, 0, 0]);
}

#[test]
fn bits_test_split_off() {
    let mut bits = Bits::from_static_bytes(&[0b1010_1010, 0b1111_0000]);

    let tail = bits.split_off_bits(7);
    assert_eq!(bits.len_bits(), 7);
    assert_eq!(tail.len_bits(), 9);
    assert_bits_eq(&bits, &[1, 0, 1, 0, 1, 0, 1]);
    assert_bits_eq(&tail, &[0, 1, 1, 1, 1, 0, 0, 0, 0]);

    // Split again from what was left over
    let tail = bits.split_off_bits(3);
    assert_eq!(bits.len_bits(), 3);
    assert_eq!(tail.len_bits(), 4);
    assert_bits_eq(&bits, &[1, 0, 1]);
    assert_bits_eq(&tail, &[0, 1, 0, 1]);
}

#[test]
fn test_split_off_bytes() {
    let mut bits = Bits::from_static_bytes(&[0b1010_1010, 0b1100_1100, 0b1110_0011, 0b1111_0000]);

    let tail = bits.split_off_bytes(3);
    // 'tail' is now bits [24, 32), 'bits' is [0, 24)
    assert_eq!(bits.len_bits(), 24);
    assert_eq!(tail.len_bits(), 8);
    assert_bits_eq(
        &bits,
        &[1, 0, 1, 0, 1, 0, 1, 0, 1, 1, 0, 0, 1, 1, 0, 0, 1, 1, 1, 0, 0, 0, 1, 1],
    );
    assert_bits_eq(&tail, &[1, 1, 1, 1, 0, 0, 0, 0]);

    // Now split on a non-byte boundary
    let mut tail = bits.split_off_bits(6);
    // 'tail' is now bits [6, 24), 'bits' is now [0, 6)
    assert_eq!(bits.len_bits(), 6);
    assert_bits_eq(&bits, &[1, 0, 1, 0, 1, 0]);

    // Now split off bytes on 'tail' to make sure it works
    let tail_tail = tail.split_off_bytes(1);
    // 'tail_tail' is now bits [14, 24), 'tail' is [6, 14)
    assert_eq!(tail_tail.len_bits(), 10);
    assert_eq!(tail.len_bits(), 8);
    assert_bits_eq(&tail_tail, &[0, 0, 1, 1, 1, 0, 0, 0, 1, 1]);
    assert_bits_eq(&tail, &[1, 0, 1, 1, 0, 0, 1, 1]);
}

#[test]
fn test_truncate() {
    let mut bits = Bits::from_static_bytes(&[0b1010_1010, 0b1100_1100, 0b1110_0011, 0b1111_0000]);

    bits.truncate_bits(10);
    assert_eq!(bits.len_bits(), 10);
    assert_bits_eq(&bits, &[1, 0, 1, 0, 1, 0, 1, 0, 1, 1]);
}

#[test]
fn test_truncate_bytes() {
    let mut bits = Bits::from_static_bytes(&[0b1010_1010, 0b1100_1100, 0b1110_0011, 0b1111_0000]);

    bits.truncate_bytes(2);
    assert_eq!(bits.len_bits(), 16);
    assert_bits_eq(&bits, &[1, 0, 1, 0, 1, 0, 1, 0, 1, 1, 0, 0, 1, 1, 0, 0]);
}

#[test]
fn test_byte_aligned() {
    // Exactly one byte worth of bits
    let bits = Bits::copy_from_bit_slice(&bv_buf(&[0; 8]));
    assert!(bits.byte_aligned());
    // Bits within one byte but not the entire byte shouldn't be considered
    // byte-aligned
    let bits = Bits::copy_from_bit_slice(&bv_buf(&[1, 1, 1]));
    assert!(!bits.byte_aligned());
    // 2 bytes worth of bits should be considered byte-aligned
    let bits = Bits::copy_from_bit_slice(&bv_buf(&[0; 16]));
    assert!(bits.byte_aligned());
    // 1 byte's worth but not at the start shouldn't be considered
    // byte-aligned
    let bits = Bits::copy_from_bit_slice(&bv_buf(&[0; 9]));
    let slice = bits.slice_bits(1, 9);
    assert_eq!(8, slice.len_bits());
    assert!(!slice.byte_aligned());
}

#[test]
fn test_bit_buf_bits_advance() {
    let mut bits = Bits::copy_from_bit_slice(&bv_buf(&[1, 1, 1, 1, 0, 0, 0, 0]));

    bits.advance_bits(4);
    assert_eq!(bits.len_bits(), 4);
    assert_bits_eq(&bits, &[0, 0, 0, 0]);
}

#[test]
fn test_bit_buf_bits_mut_advance() {
    let mut bits_mut = BitsMut::zeroed(16);
    bits_mut.advance_bits(8);
    assert_eq!(bits_mut.len(), 8);
}

#[test]
fn test_bits_copy_to_slice() {
    let mut bits = Bits::copy_from_bit_slice(&bv_buf(&[1, 1, 1, 1, 0, 0, 0, 0]));

    let mut dest = bv_buf(&[0; 4]);
    bits.copy_to_bit_slice(&mut dest);
    assert!(dest.eq_bits(&bv_buf(&[1, 1, 1, 1])));

    bits.copy_to_bit_slice(&mut dest);
    assert!(dest.eq_bits(&bv_buf(&[0, 0, 0, 0])));
}

#[test]
fn test_chunk_bytes() {
    {
        let bits = Bits::copy_from_bit_slice(&bv_buf(&[1, 1, 1, 1, 0, 0, 0, 0]));

        let chunk_bytes = bits.chunk_bytes();
        assert_eq!(chunk_bytes.len(), 1);
        assert_eq!(chunk_bytes[0], 0b11110000);
    }
    {
        let mut bits = Bits::copy_from_bit_slice(
            &bv_buf(&[0, 0, 0, 0, 0, 0, 0, 0, 1, 1, 1, 1, 1, 1, 1, 1, 1, 0, 1, 0, 1, 0, 1, 0]),
        );
        bits.advance_bits(8);
        let chunk_bytes = bits.chunk_bytes();
        assert_eq!(chunk_bytes.len(), 2);
        assert_eq!(chunk_bytes, [0b11111111, 0b10101010]);
    }
}

#[test]
fn test_chunk_after_split() {
    // Make sure that a call to chunk after some kind of split respects the
    // new limit
    let mut bits = Bits::from_static_bytes(&[1, 2, 3, 4, 5]);

    let start = bits.split_to_bytes(2);
    let start_chunk = start.chunk_bytes();
    assert_eq!(start_chunk.len(), 2);
}

#[test]
fn test_copy_to_slice_bytes() {
    let mut dest = vec![0u8; 4];

    let mut bits = Bits::copy_from_bytes(&[42, 43, 44, 45]);

    bits.copy_to_slice_bytes(&mut dest);
    assert_eq!(dest, [42, 43, 44, 45]);
}

#[test]
fn test_bitslice_bitbuf() {
    let mut bits = Bits::copy_from_bit_slice(&bv_buf(&[1, 0, 1, 0, 1, 0]));
    assert_eq!(6, bits.remaining_bits());
    bits.advance_bits(3);
    assert_eq!(3, bits.remaining_bits());
}

#[test]
fn test_take() {
    let bits = Bits::copy_from_bytes(&[1, 2, 3, 4]);

    let mut head = take_bits(bits, 16);
    let value = head.get_u16::<NetworkOrder>().unwrap();
    assert!(head.get_bool().is_err());
    assert_eq!(value, 0x0102);
    let bits = head.into_inner();
    let mut tail = take_bits(bits, 16);
    let value = tail.get_u16::<NetworkOrder>().unwrap();
    assert!(tail.get_bool().is_err());
    assert_eq!(value, 0x0304);
}

#[test]
fn bits_mut_test_split_to() {
    let mut bits = BitsMut::copy_from_bit_slice(&bv_buf(&[1, 1, 1, 1, 0, 0, 0, 0]));

    let mut head = bits.split_to(4);
    head.set(0, false);
    head.set(1, false);
    assert_bits_mut_eq(&head, &[0, 0, 1, 1]);

    bits.set(0, true);
    bits.set(1, true);
    assert_bits_mut_eq(&bits, &[1, 1, 0, 0]);
}

#[test]
fn bits_mut_test_split_to_bytes() {
    let mut bits = BitsMut::from_vec(vec![0b1111_1111, 0b0000_0000, 0b1010_1010, 0b0101_0101]);

    let mut head = bits.split_to_bytes(1);
    // 'head' is now bits [0, 8), 'bits' is [8, 32)
    assert_eq!(head.len(), 8);
    assert_eq!(bits.len(), 24);
    head.set(0, false);
    head.set(1, false);
    head.set(2, false);
    head.set(3, false);

    bits.set(0, true);
    bits.set(1, true);
    bits.set(2, true);
    bits.set(3, true);
    assert_bits_mut_eq(&head, &[0, 0, 0, 0, 1, 1, 1, 1]);
    assert_bits_mut_eq(
        &bits,
        &[1, 1, 1, 1, 0, 0, 0, 0, 1, 0, 1, 0, 1, 0, 1, 0, 0, 1, 0, 1, 0, 1, 0, 1],
    );
    // Now split at a non-byte boundary and then do a byte-split to make sure
    // that works correctly
    let mut unaligned_split = bits.split_to(12);
    // 'bits' is now bits [20, 32), 'unaligned_split' is [8, 20)
    let mut unaligned_byte_split = unaligned_split.split_to_bytes(1);
    // 'unaligned_split' is now bits [16, 20), 'unaligned_byte_split' is [8, 16)
    assert_eq!(unaligned_byte_split.len(), 8);
    assert_eq!(unaligned_split.len(), 4);

    unaligned_byte_split.set(0, false);
    unaligned_byte_split.set(1, false);
    assert_bits_mut_eq(&unaligned_byte_split, &[0, 0, 1, 1, 0, 0, 0, 0]);

    unaligned_split.set(0, false);
    unaligned_split.set(1, true);
    assert_bits_mut_eq(&unaligned_split, &[0, 1, 1, 0]);
}

#[test]
fn bits_mut_test_split_off() {
    let mut bits = BitsMut::zeroed(32);

    let mut tail = bits.split_off(12);
    assert_eq!(bits.len(), 12);
    assert_eq!(tail.len(), 20);
    bits.set(0, true);
    bits.set(1, true);
    bits.set(2, true);
    bits.set(3, true);
    assert_bits_mut_eq(&bits, &[1, 1, 1, 1, 0, 0, 0, 0, 0, 0, 0, 0]);

    tail.set(0, true);
    tail.set(1, true);
    tail.set(2, true);
    tail.set(3, true);
    assert_bits_mut_eq(
        &tail,
        &[1, 1, 1, 1, 0, 0, 0, 0, 0, 0, 0, 0, 0, 0, 0, 0, 0, 0, 0, 0],
    );
}

#[test]
fn test_spare_capacity_mut() {
    let mut bits_mut = BitsMut::with_capacity(24);
    bits_mut.set_spare_bit(0, true);
    bits_mut.set_len(1);

    bits_mut.set_spare_bit(0, false);
    bits_mut.set_spare_bit(1, false);
    bits_mut.set_spare_bit(2, true);
    bits_mut.set_len(4);

    assert_bits_mut_eq(&bits_mut, &[1, 0, 0, 1]);
}

#[test]
fn test_extend_from_slice() {
    let mut bits_mut = BitsMut::new();
    let data = bv_buf(&[0, 1, 1, 0, 1, 1, 0]);

    bits_mut.extend_from_slice(&data);
    assert_bits_mut_eq(&bits_mut, &[0, 1, 1, 0, 1, 1, 0]);
}

#[test]
fn growth_preserves_content() {
    // Write some bits, force reallocation with further writes, and read the
    // first bits back unchanged.
    let mut bm = BitsMut::with_capacity(4);
    bitbuf::buf::bit_buf_mut::BitBufMut::put_bit(&mut bm, true);
    bitbuf::buf::bit_buf_mut::BitBufMut::put_bit(&mut bm, false);
    bitbuf::buf::bit_buf_mut::BitBufMut::put_bit(&mut bm, true);
    bitbuf::buf::bit_buf_mut::BitBufMut::put_bit(&mut bm, true);
    for i in 0..200 {
        bitbuf::buf::bit_buf_mut::BitBufMut::put_bit(&mut bm, i % 3 == 0);
    }
    assert_eq!(bm.len(), 204);
    assert!(bm.bit_at(0));
    assert!(!bm.bit_at(1));
    assert!(bm.bit_at(2));
    assert!(bm.bit_at(3));
    for i in 0..200 {
        assert_eq!(bm.bit_at(4 + i), i % 3 == 0);
    }
}

#[test]
fn freeze_is_zero_copy_and_keeps_bits() {
    let mut bm = BitsMut::from_vec(vec![0xAB, 0xCD]);
    bm.set(0, false);
    let frozen = bm.freeze();
    assert_eq!(frozen.len_bits(), 16);
    assert_bits_eq(
        &frozen,
        &[0, 0, 1, 0, 1, 0, 1, 1, 1, 1, 0, 0, 1, 1, 0, 1],
    );
}

#[test]
fn content_equality_ignores_storage() {
    // Two overlapping-content slices from different parent buffers compare
    // equal.
    let a = Bits::copy_from_bytes(&[0xFF, 0b1010_0101, 0x00]);
    let b = Bits::copy_from_bytes(&[0b1010_0101]);
    let mid = a.slice_bits(8, 16);
    assert!(mid.eq_bits(&b));
    assert!(!a.eq_bits(&b));
}

#[test]
fn shared_storage_error_cases() {
    // A misaligned view refuses byte-wise copying with the misalignment
    // error, leaving everything in place.
    let full = Bits::copy_from_bytes(&[0xF0, 0x0F]);
    let mut odd = full.slice_bits(1, 9);
    let mut dest = vec![0u8; 1];
    assert_eq!(odd.try_copy_to_slice_bytes(&mut dest), Err(BufError::Misaligned));
    assert_eq!(odd.len_bits(), 8);
    // Too little data is the end-of-data error.
    let mut small = full.slice_bits(0, 8);
    let mut dest = vec![0u8; 2];
    assert_eq!(small.try_copy_to_slice_bytes(&mut dest), Err(BufError::EndOfData));
}

#[test]
fn from_shared_bytes_is_zero_copy() {
    let storage = bytes::Bytes::from(vec![0x80u8, 0x01]);
    let bits = Bits::from_bytes(storage);
    assert_eq!(bits.len_bits(), 16);
    assert!(bits.bit_at(0));
    assert!(!bits.bit_at(1));
    assert!(bits.bit_at(15));
}

#[test]
fn from_exclusive_storage_takes_all_bytes() {
    let mut storage = bytes::BytesMut::zeroed(2);
    storage[0] = 0xF0;
    storage[1] = 0x55;
    let bm = BitsMut::from_bytes_mut(storage);
    assert_eq!(bm.len(), 16);
    assert_bits_mut_eq(&bm, &[1, 1, 1, 1, 0, 0, 0, 0, 0, 1, 0, 1, 0, 1, 0, 1]);
}
