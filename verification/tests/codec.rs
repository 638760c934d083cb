use bitbuf::bit_types::BitVec;
use bitbuf::buf::bit_buf::BitBuf;
use bitbuf::buf::bit_buf_exts::BitBufExts;
use bitbuf::buf::bit_buf_mut::BitBufMut;
use bitbuf::buf::bit_buf_mut_exts::BitBufMutExts;
use bitbuf::buf::bits::Bits;
use bitbuf::buf::bits_mut::BitsMut;
use bitbuf::buf::byte_order::{BigEndian, ByteOrder, LittleEndian};
use bitbuf::byte_order::{
    BigEndian as RegBigEndian, ByteOrder as RegByteOrder, LittleEndian as RegLittleEndian,
};
use bitbuf::error::BufError;

fn bv_codec(bits: &[u8]) -> BitVec {
    BitVec::from_bools(bits.iter().map(|&b| b != 0).collect())
}

fn assert_mut_bits(b: &BitsMut, expected: &[u8]) {
    assert_eq!(b.len(), expected.len());
    for (i, &e) in expected.iter().enumerate() {
        assert_eq!(b.bit_at(i), e != 0, "bit {} differs", i);
    }
}

#[test]
fn test_bit_buf_exts() {
    let mut bits = Bits::copy_from_bit_slice(&bv_codec(&[0, 1, 1, 0, 0, 1, 1, 1]));

    let value = bits.get_u4().unwrap();
    assert_eq!(value, 0b0110);
    let value = bits.get_u1().unwrap();
    assert_eq!(value, 0);
    let value = bits.get_u3().unwrap();
    assert_eq!(value, 0b111);
}

#[test]
fn test_get_big_endian() {
    let u9_data = bv_codec(&[1, 0, 1, 0, 1, 0, 1, 0, 1]);
    let mut bits = Bits::copy_from_bit_slice(&u9_data);
    assert_eq!(bits.get_u9::<BigEndian>().unwrap(), 0b101010101);

    let u10_data = bv_codec(&[1, 0, 1, 0, 1, 0, 1, 0, 1, 1]);
    let mut bits = Bits::copy_from_bit_slice(&u10_data);
    assert_eq!(bits.get_u10::<BigEndian>().unwrap(), 0b1010101011);

    let u11_data = bv_codec(&[0, 0, 1, 1, 0, 0, 1, 1, 0, 0, 0]);
    let mut bits = Bits::copy_from_bit_slice(&u11_data);
    assert_eq!(bits.get_u11::<BigEndian>().unwrap(), 0b00110011000);

    let u12_data = bv_codec(&[0, 1, 1, 1, 1, 1, 1, 1, 1, 0, 0, 0]);
    let mut bits = Bits::copy_from_bit_slice(&u12_data);
    assert_eq!(bits.get_u12::<BigEndian>().unwrap(), 0b011111111000);
}

#[test]
fn test_get_little_endian() {
    // Little-endian form of 1_10101011
    let u9_data = bv_codec(&[1, 0, 1, 0, 1, 0, 1, 1, 1]);
    let mut bits = Bits::copy_from_bit_slice(&u9_data);
    assert_eq!(bits.get_u9::<LittleEndian>().unwrap(), 0b1_10101011);

    // Little-endian form of 11_10101011
    let u10_data = bv_codec(&[1, 0, 1, 0, 1, 0, 1, 1, 1, 1]);
    let mut bits = Bits::copy_from_bit_slice(&u10_data);
    assert_eq!(bits.get_u10::<LittleEndian>().unwrap(), 0b11_10101011);

    // Little-endian form of 110_10101011
    let u11_data = bv_codec(&[1, 0, 1, 0, 1, 0, 1, 1, 1, 1, 0]);
    let mut bits = Bits::copy_from_bit_slice(&u11_data);
    assert_eq!(bits.get_u11::<LittleEndian>().unwrap(), 0b110_10101011);

    // Little-endian form of 11001101_11101111
    let u16_data = bv_codec(&[1, 1, 1, 0, 1, 1, 1, 1, 1, 1, 0, 0, 1, 1, 0, 1]);
    let mut bits = Bits::copy_from_bit_slice(&u16_data);
    assert_eq!(bits.get_u16::<LittleEndian>().unwrap(), 0b11001101_11101111u16);

    // Little-endian form of 1010_10111100_11011110
    let u20_data = bv_codec(&[1, 1, 0, 1, 1, 1, 1, 0, 1, 0, 1, 1, 1, 1, 0, 0, 1, 0, 1, 0]);
    let mut bits = Bits::copy_from_bit_slice(&u20_data);
    assert_eq!(bits.get_u20::<LittleEndian>().unwrap(), 0b1010_10111100_11011110);
}

#[test]
fn test_put() {
    let mut bits_mut = BitsMut::new();
    bits_mut.put_u1(0b1).unwrap();
    bits_mut.put_u3(0b001).unwrap();
    bits_mut.put_u5(0b00001).unwrap();
    bits_mut.put_u7(0b0000001).unwrap();

    assert_mut_bits(&bits_mut, &[1, 0, 0, 1, 0, 0, 0, 0, 1, 0, 0, 0, 0, 0, 0, 1]);
}

#[test]
fn test_put_big_endian() {
    {
        let mut bits_mut = BitsMut::new();
        let value = 0b1_01010101u16;
        bits_mut.put_u9::<BigEndian>(value).unwrap();
        assert_mut_bits(&bits_mut, &[1, 0, 1, 0, 1, 0, 1, 0, 1]);
    }
    {
        let mut bits_mut = BitsMut::new();
        let value = 0b10101_01010101_01010101u32;
        bits_mut.put_u21::<BigEndian>(value).unwrap();
        assert_mut_bits(
            &bits_mut,
            &[1, 0, 1, 0, 1, 0, 1, 0, 1, 0, 1, 0, 1, 0, 1, 0, 1, 0, 1, 0, 1],
        );
    }
}

#[test]
fn test_put_little_endian() {
    {
        let mut bits_mut = BitsMut::new();
        let value = 0b1_00001111u16;
        bits_mut.put_u9::<LittleEndian>(value).unwrap();
        assert_mut_bits(&bits_mut, &[0, 0, 0, 0, 1, 1, 1, 1, 1]);
    }
    {
        let mut bits_mut = BitsMut::new();
        let value = 0b00110_00001111_00011100u32;
        bits_mut.put_u21::<LittleEndian>(value).unwrap();
        assert_mut_bits(
            &bits_mut,
            &[0, 0, 0, 1, 1, 1, 0, 0, 0, 0, 0, 0, 1, 1, 1, 1, 0, 0, 1, 1, 0],
        );
    }
}

#[test]
fn test_big_endian_write() {
    let mut dest = BitVec::repeat(false, 16);
    BigEndian::store(&mut dest, 0xABCDu32);
    let value = BigEndian::load(&dest);
    assert_eq!(value, 0xABCD);
    assert!(dest.eq_bits(&bv_codec(&[1, 0, 1, 0, 1, 0, 1, 1, 1, 1, 0, 0, 1, 1, 0, 1])));
}

#[test]
fn test_big_endian_read() {
    let value = 0xABCDu16;
    let value_bytes = value.to_be_bytes();
    let src = BitVec::from_bytes(vec![value_bytes[0], value_bytes[1]]);
    let read_value = BigEndian::load(&src);
    assert_eq!(value as u32, read_value);
}

#[test]
fn test_little_endian_write() {
    let mut dest = BitVec::repeat(false, 16);
    LittleEndian::store(&mut dest, 0xABCDu32);
    let value = LittleEndian::load(&dest);
    assert_eq!(value, 0xABCD);
    // The low byte comes first, each byte most significant bit first.
    assert!(dest.eq_bits(&bv_codec(&[1, 1, 0, 0, 1, 1, 0, 1, 1, 0, 1, 0, 1, 0, 1, 1])));
}

#[test]
fn test_little_endian_read() {
    let value = 0xABCDu16;
    let value_bytes = value.to_le_bytes();
    let src = BitVec::from_bytes(vec![value_bytes[0], value_bytes[1]]);
    let read_value = LittleEndian::load(&src);
    assert_eq!(value as u32, read_value);
}

#[test]
fn test_big_endian_read_write() {
    let test_cases: [(u32, usize); 5] = [
        (0b1, 1),
        (0b10, 2),
        (0b10101010, 8),
        (0b1010101010101010, 16),
        (0xDEADBEEF, 32),
    ];

    for &(value, bits) in &test_cases {
        let mut reg = BitVec::repeat(false, bits);
        RegBigEndian::write_u32_to_bits(&mut reg, value);
        let read_value = RegBigEndian::read_u32_from_bits(&reg);
        assert_eq!(value, read_value, "big-endian failed for {} bits", bits);
    }
}

#[test]
fn test_little_endian_read_write() {
    let test_cases: [(u32, usize); 5] = [
        (0b1, 1),
        (0b10, 2),
        (0b10101010, 8),
        (0b1010101010101010, 16),
        (0xDEADBEEF, 32),
    ];

    for &(value, bits) in &test_cases {
        let mut reg = BitVec::repeat(false, bits);
        RegLittleEndian::write_u32_to_bits(&mut reg, value);
        let read_value = RegLittleEndian::read_u32_from_bits(&reg);
        assert_eq!(value, read_value, "little-endian failed for {} bits", bits);
    }
}

#[test]
fn round_trip_all_widths_both_orders() {
    // For every width from 1 to 32 and both byte orders, loading a stored
    // value gives it back.
    for n in 1..=32usize {
        let mask: u32 = if n == 32 { u32::MAX } else { (1u32 << n) - 1 };
        for &seed in &[0u32, 1, 0x5A5A_5A5A, 0xFFFF_FFFF, 0xDEAD_BEEF] {
            let v = seed & mask;
            let mut bm = BitsMut::new();
            bm.put_uN::<BigEndian>(v, n).unwrap();
            let mut rd = bm.freeze();
            assert_eq!(rd.get_uN::<BigEndian>(n).unwrap(), v, "big-endian width {}", n);

            let mut bm = BitsMut::new();
            bm.put_uN::<LittleEndian>(v, n).unwrap();
            let mut rd = bm.freeze();
            assert_eq!(rd.get_uN::<LittleEndian>(n).unwrap(), v, "little-endian width {}", n);
        }
    }
}

#[test]
fn byte_aligned_path_matches_bit_path() {
    // The accelerated byte-aligned gets must produce the same values as the
    // generic bit-by-bit path reading the same bits at an odd offset.
    let payload = [0xDEu8, 0xAD, 0xBE, 0xEF];
    // Aligned: read from the start of the bytes.
    let mut aligned = Bits::copy_from_bytes(&payload);
    assert!(aligned.byte_aligned());
    let a16 = aligned.get_u16::<BigEndian>().unwrap();
    let mut aligned = Bits::copy_from_bytes(&payload);
    let a24 = aligned.get_u24::<BigEndian>().unwrap();
    let mut aligned = Bits::copy_from_bytes(&payload);
    let a32 = aligned.get_u32::<BigEndian>().unwrap();

    // Unaligned: the same bits shifted one position into a larger buffer.
    let mut shifted = BitsMut::new();
    shifted.put_u1(0).unwrap();
    for &b in &payload {
        shifted.put_u8(b).unwrap();
    }
    let whole = shifted.freeze();
    let mut un = whole.slice_bits(1, 33);
    assert!(!un.byte_aligned());
    let u16v = un.get_u16::<BigEndian>().unwrap();
    let mut un = whole.slice_bits(1, 33);
    let u24v = un.get_u24::<BigEndian>().unwrap();
    let mut un = whole.slice_bits(1, 33);
    let u32v = un.get_u32::<BigEndian>().unwrap();

    assert_eq!(a16, u16v);
    assert_eq!(a24, u24v);
    assert_eq!(a32, u32v);
    assert_eq!(a32, 0xDEADBEEF);

    // Store side: the byte-level store writes the same bits the bit-level
    // store writes.
    let mut fast = vec![0u8; 4];
    BigEndian::store_u32(&mut fast, 0xDEADBEEF);
    assert_eq!(fast, payload);
    let mut fast = vec![0u8; 2];
    LittleEndian::store_u16(&mut fast, 0xBEEF);
    let mut slow = BitsMut::new();
    slow.put_u16::<LittleEndian>(0xBEEF).unwrap();
    for i in 0..16 {
        let byte = fast[i / 8];
        let fast_bit = (byte >> (7 - (i % 8))) & 1 == 1;
        assert_eq!(fast_bit, slow.bit_at(i));
    }
}

#[test]
fn reading_past_the_end_fails() {
    // Bytes read four bits at a time, most significant first, then the end
    // of the data.
    let mut bits = Bits::copy_from_bytes(&[0xF0, 0x0F]);
    assert_eq!(bits.get_u4().unwrap(), 0b1111);
    assert_eq!(bits.get_u4().unwrap(), 0b0000);
    assert_eq!(bits.get_u4().unwrap(), 0b0000);
    assert_eq!(bits.get_u4().unwrap(), 0b1111);
    assert_eq!(bits.get_u4(), Err(BufError::EndOfData));
}

#[test]
fn put_without_room_fails() {
    let writer = bitbuf::buf::slice_writer::SliceWriter::new(vec![0u8]);
    let mut capped = bitbuf::buf::limit::limit_bits(writer, 4);
    capped.put_u3(0b101).unwrap();
    assert_eq!(capped.put_u3(0b010), Err(BufError::EndOfData));
}

#[test]
fn byte_level_stores_exact_values() {
    let mut two = vec![0u8; 2];
    BigEndian::store_u16(&mut two, 0xABCD);
    assert_eq!(two, [0xAB, 0xCD]);
    assert_eq!(BigEndian::load_u16(&two), 0xABCD);

    let mut three = vec![0u8; 3];
    BigEndian::store_u24(&mut three, 0x00ABCDEF);
    assert_eq!(three, [0xAB, 0xCD, 0xEF]);
    assert_eq!(BigEndian::load_u24(&three), 0x00ABCDEF);

    let mut three = vec![0u8; 3];
    LittleEndian::store_u24(&mut three, 0x00ABCDEF);
    assert_eq!(three, [0xEF, 0xCD, 0xAB]);
    assert_eq!(LittleEndian::load_u24(&three), 0x00ABCDEF);

    let mut four = vec![0u8; 4];
    LittleEndian::store_u32(&mut four, 0xDEADBEEF);
    assert_eq!(four, [0xEF, 0xBE, 0xAD, 0xDE]);
    assert_eq!(LittleEndian::load_u32(&four), 0xDEADBEEF);

    // A longer destination keeps its tail.
    let mut long = vec![9u8; 5];
    BigEndian::store_u16(&mut long, 0x1234);
    assert_eq!(long, [0x12, 0x34, 9, 9, 9]);
}
