use bitbuf::bit_slice::{AsBitSlice, BitSlice};
use bitbuf::bit_types::BitVec;
use bitbuf::error::Error;

fn expect_bits(s: &BitSlice, expected: &[u8]) {
    assert_eq!(s.len(), expected.len());
    for (i, &e) in expected.iter().enumerate() {
        assert_eq!(s.at(i as u64), e, "bit {} differs", i);
    }
}

#[test]
fn slice_views_bytes_in_bit_order() {
    let data = vec![0b1100_0011u8, 0b1010_0101];
    let slice = data.as_bit_slice();
    assert_eq!(slice.len(), 16);
    expect_bits(&slice, &[1, 1, 0, 0, 0, 0, 1, 1, 1, 0, 1, 0, 0, 1, 0, 1]);
}

#[test]
fn get_slice_narrows_within_the_buffer() {
    let data = vec![0b1100_0011u8, 0b1010_0101];
    let slice = data.as_bit_slice();

    let mid = slice.get_slice(6, 10).unwrap();
    expect_bits(&mid, &[1, 1, 1, 0]);

    // A slice of a slice keeps narrowing from the inner start.
    let inner = mid.get_slice(1, 3).unwrap();
    expect_bits(&inner, &[1, 1]);

    // The same bits through the cloned view.
    let again = inner.as_bit_slice();
    expect_bits(&again, &[1, 1]);
}

#[test]
fn get_slice_rejects_ranges_past_the_buffer() {
    let data = vec![0xFFu8];
    let slice = data.as_bit_slice();
    let r = slice.get_slice(4, 17);
    match r {
        Ok(_) => panic!("range past the buffer was accepted"),
        Err(e) => assert_eq!(
            e,
            Error::SliceOutOfRange { len: 1, slice_start: 0, slice_end: 2 }
        ),
    }
}

#[test]
fn bit_vector_push_set_and_compare() {
    let mut bv = BitVec::new();
    assert!(bv.is_empty());
    for i in 0..12 {
        bv.push(i % 2 == 0);
    }
    assert_eq!(bv.len(), 12);
    assert!(bv.at(0));
    assert!(!bv.at(11));
    bv.set(11, true);
    assert!(bv.at(11));

    let same = BitVec::from_bools(vec![
        true, false, true, false, true, false, true, false, true, false, true, true,
    ]);
    assert!(bv.eq_bits(&same));
    let mut other = same.clone();
    other.set(0, false);
    assert!(!bv.eq_bits(&other));
}

#[test]
fn bit_vector_from_bytes_matches_bit_order() {
    let bv = BitVec::from_bytes(vec![0x0F, 0xF0]);
    let expected = BitVec::from_bools(vec![
        false, false, false, false, true, true, true, true, true, true, true, true, false, false,
        false, false,
    ]);
    assert!(bv.eq_bits(&expected));
}
