use bitbuf::bit_types::BitVec;
use bitbuf::buf::bit_buf::BitBuf;
use bitbuf::buf::bit_buf_exts::BitBufExts;
use bitbuf::buf::bit_buf_mut::BitBufMut;
use bitbuf::buf::bit_buf_mut_exts::BitBufMutExts;
use bitbuf::buf::bit_take::BitTake;
use bitbuf::buf::bits::Bits;
use bitbuf::buf::byte_order::NetworkOrder;
use bitbuf::buf::chain::{chain, chain_mut, Chain};
use bitbuf::buf::limit::{limit_bits, limit_bytes, Limit};
use bitbuf::buf::slice_writer::SliceWriter;
use bitbuf::buf::take::Take;
use bitbuf::error::BufError;

fn bv_adapt(bits: &[u8]) -> BitVec {
    BitVec::from_bools(bits.iter().map(|&b| b != 0).collect())
}

#[test]
fn test_bit_buf_chain() {
    let left = Bits::copy_from_bit_slice(&bv_adapt(&[1, 1, 1, 1, 0, 0, 0, 0]));
    let right = Bits::copy_from_bit_slice(&bv_adapt(&[1, 0, 1, 0, 1, 0, 1, 0]));

    let mut chained = chain(left, right);

    let mut data = vec![0u8; 2];
    chained.copy_to_slice_bytes(&mut data);

    assert_eq!(data, [0b11110000, 0b10101010]);
}

#[test]
fn test_bit_buf_mut_chain() {
    let left = SliceWriter::new(vec![0u8]);
    let right = SliceWriter::new(vec![0u8]);

    let mut chained = chain_mut(left, right);
    chained.put_u16::<NetworkOrder>(42).unwrap();
    let (left, right) = chained.into_inner();
    assert_eq!(left.into_vec(), [0]);
    assert_eq!(right.into_vec(), [42]);
}

#[test]
fn chain_reads_first_then_last() {
    // Reading bytes across the seam yields the two buffers in order, and
    // the chain is byte-aligned only when both halves are.
    let aligned = chain(
        Bits::copy_from_bytes(&[1, 2]),
        Bits::copy_from_bytes(&[3, 4]),
    );
    assert!(aligned.byte_aligned());
    let mut aligned = aligned;
    let mut data = vec![0u8; 4];
    aligned.copy_to_slice_bytes(&mut data);
    assert_eq!(data, [1, 2, 3, 4]);

    // A seam in the middle of a byte cannot be byte-aligned.
    let whole = Bits::copy_from_bytes(&[0xAB]);
    let front = whole.slice_bits(0, 4);
    let back = whole.slice_bits(4, 8);
    let crooked = chain(front, back);
    assert_eq!(crooked.remaining_bits(), 8);
    assert!(!crooked.byte_aligned());
    let mut crooked = crooked;
    assert_eq!(crooked.get_u8().unwrap(), 0xAB);
}

#[test]
fn test_limit() {
    let lim = limit_bytes(SliceWriter::new(vec![0u8; 10]), 2);
    assert_eq!(lim.remaining_mut_bytes(), 2);
    let lim = limit_bits(SliceWriter::new(vec![0u8; 10]), 16);
    assert_eq!(lim.remaining_mut_bits(), 16);
}

#[test]
fn limit_accessors() {
    let mut lim = Limit::new(SliceWriter::new(vec![0u8; 4]), 9);
    assert_eq!(lim.limit(), 9);
    lim.set_limit(16);
    assert_eq!(lim.limit(), 16);
    let _peek = lim.get_ref();
    let writer = lim.into_inner();
    assert_eq!(writer.into_vec(), vec![0u8; 4]);
}

#[test]
fn take_caps_reads_exactly() {
    // A cap of sixteen bits permits exactly two 8-bit reads, then the end of
    // the data, even though the underlying buffer holds more.
    let bits = Bits::copy_from_bytes(&[7, 8, 9, 10]);
    let mut capped = Take::new(bits, 16);
    assert_eq!(capped.remaining_bits(), 16);
    assert_eq!(capped.get_u8().unwrap(), 7);
    assert_eq!(capped.get_u8().unwrap(), 8);
    assert_eq!(capped.get_u8(), Err(BufError::EndOfData));
    assert_eq!(capped.limit(), 0);
}

#[test]
fn bit_take_caps_reads() {
    let bits = Bits::copy_from_bytes(&[0xF0]);
    let mut capped = BitTake::new(bits, 4);
    assert_eq!(capped.remaining_bits(), 4);
    assert_eq!(capped.get_u4().unwrap(), 0b1111);
    assert!(capped.get_u1().is_err());
    let inner = capped.into_inner();
    assert_eq!(inner.len_bits(), 4);
}

#[test]
fn take_accessors() {
    let bits = Bits::copy_from_bytes(&[1, 2]);
    let mut t = Take::new(bits, 3);
    assert_eq!(t.limit(), 3);
    t.set_limit(5);
    assert_eq!(t.limit(), 5);
    assert_eq!(t.get_ref().len_bits(), 16);
    t.get_mut().advance_bits(8);
    assert_eq!(t.into_inner().len_bits(), 8);
}

#[test]
fn chain_accessors() {
    let a = Bits::copy_from_bytes(&[1]);
    let b = Bits::copy_from_bytes(&[2, 3]);
    let mut c = Chain::new(a, b);
    assert_eq!(c.first_ref().len_bits(), 8);
    assert_eq!(c.last_ref().len_bits(), 16);
    c.first_mut().advance_bits(4);
    c.last_mut().advance_bits(8);
    let (a, b) = c.into_inner();
    assert_eq!(a.len_bits(), 4);
    assert_eq!(b.len_bits(), 8);
}

#[test]
fn split_handles_stay_disjoint() {
    // After a split, writes through one handle are never observable through
    // the other.
    let mut parent = bitbuf::buf::bits_mut::BitsMut::zeroed(16);
    let mut front = parent.split_to(8);
    front.set(0, true);
    front.set(7, true);
    parent.set(0, true);
    for i in 0..8 {
        assert_eq!(front.bit_at(i), i == 0 || i == 7);
        assert_eq!(parent.bit_at(i), i == 0);
    }
    let mut back = parent.split_off(4);
    back.set(1, true);
    assert_eq!(parent.len(), 4);
    assert!(parent.bit_at(0));
    assert!(!parent.bit_at(1));
    assert!(back.bit_at(1));
}
