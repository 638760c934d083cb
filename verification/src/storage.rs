//! Trusted boundary around the `bytes` crate: reference-counted immutable
//! byte storage (`bytes::Bytes`) and exclusively owned resizable byte storage
//! (`bytes::BytesMut`).
//!
//! Each wrapper below relies on one function of the `bytes` crate; its
//! contract states what that crate's source and documentation show. The two
//! `uninterp` spec functions name the byte contents of each storage type.

use vstd::prelude::*;

verus! {

#[verifier::external_type_specification]
#[verifier::external_body]
pub struct ExBytes(bytes::Bytes);

#[verifier::external_type_specification]
#[verifier::external_body]
pub struct ExBytesMut(bytes::BytesMut);

/// The byte contents of a `bytes::Bytes`.
pub uninterp spec fn bytes_view(b: bytes::Bytes) -> Seq<u8>;

/// The byte contents of a `bytes::BytesMut`.
pub uninterp spec fn bytes_mut_view(b: bytes::BytesMut) -> Seq<u8>;

/// Relies on `<Bytes as From<Vec<u8>>>::from`: takes over the vector's
/// contents without copying.
#[verifier::external_body]
pub(crate) fn bytes_from_vec(v: Vec<u8>) -> (r: bytes::Bytes)
    ensures
        bytes_view(r) == v@,
{
    bytes::Bytes::from(v)
}

/// Relies on `Bytes::from_static`: points directly at the static slice,
/// neither allocating nor copying.
#[verifier::external_body]
pub(crate) fn bytes_from_static(b: &'static [u8]) -> (r: bytes::Bytes)
    ensures
        bytes_view(r) == b@,
{
    bytes::Bytes::from_static(b)
}

/// Relies on `Bytes::len`: the number of bytes the handle views.
#[verifier::external_body]
pub(crate) fn bytes_len(b: &bytes::Bytes) -> (r: usize)
    ensures
        r == bytes_view(*b).len(),
{
    b.len()
}

/// Relies on `<Bytes as Deref>::deref`: a borrowed view of all the bytes.
#[verifier::external_body]
pub(crate) fn bytes_as_slice(b: &bytes::Bytes) -> (r: &[u8])
    ensures
        r@ == bytes_view(*b),
{
    &b[..]
}

/// Relies on `<Bytes as Clone>::clone`: a second handle to the same bytes,
/// produced by bumping a reference count, never by copying the data.
#[verifier::external_body]
pub(crate) fn bytes_clone(b: &bytes::Bytes) -> (r: bytes::Bytes)
    ensures
        bytes_view(r) == bytes_view(*b),
{
    b.clone()
}

/// Relies on `BytesMut::zeroed`: `len` bytes, all zero.
#[verifier::external_body]
pub(crate) fn bytes_mut_zeroed(len: usize) -> (r: bytes::BytesMut)
    ensures
        bytes_mut_view(r) == Seq::new(len as nat, |i: int| 0u8),
{
    bytes::BytesMut::zeroed(len)
}

/// Relies on `BytesMut::len`: the number of initialized bytes.
#[verifier::external_body]
pub(crate) fn bytes_mut_len(b: &bytes::BytesMut) -> (r: usize)
    ensures
        r == bytes_mut_view(*b).len(),
{
    b.len()
}

/// Relies on `<BytesMut as Deref>::deref` and slice indexing: one byte of the
/// contents.
#[verifier::external_body]
pub(crate) fn bytes_mut_byte(b: &bytes::BytesMut, i: usize) -> (r: u8)
    requires
        i < bytes_mut_view(*b).len(),
    ensures
        r == bytes_mut_view(*b)[i as int],
{
    b[i]
}

/// Relies on `<BytesMut as DerefMut>::deref_mut` and slice indexing: writes
/// one byte of the contents in place.
#[verifier::external_body]
pub(crate) fn bytes_mut_set_byte(b: &mut bytes::BytesMut, i: usize, v: u8)
    requires
        i < bytes_mut_view(*old(b)).len(),
    ensures
        bytes_mut_view(*final(b)) == bytes_mut_view(*old(b)).update(i as int, v),
{
    b[i] = v;
}

/// Relies on `BytesMut::resize`: truncates, or extends with `value`,
/// reserving more space (amortized) when needed.
#[verifier::external_body]
pub(crate) fn bytes_mut_resize(b: &mut bytes::BytesMut, new_len: usize, value: u8)
    ensures
        bytes_mut_view(*final(b)).len() == new_len,
        forall|i: int|
            0 <= i < new_len ==> bytes_mut_view(*final(b))[i] == if i < bytes_mut_view(*old(b)).len() {
                bytes_mut_view(*old(b))[i]
            } else {
                value
            },
{
    b.resize(new_len, value);
}

/// Relies on `<BytesMut as Clone>::clone`: a fresh buffer holding a copy of
/// the contents; the two handles share no storage afterwards.
#[verifier::external_body]
pub(crate) fn bytes_mut_clone(b: &bytes::BytesMut) -> (r: bytes::BytesMut)
    ensures
        bytes_mut_view(r) == bytes_mut_view(*b),
{
    b.clone()
}

/// Relies on `BytesMut::freeze`: converts to immutable shared storage with
/// the same contents, without copying.
#[verifier::external_body]
pub(crate) fn bytes_mut_freeze(b: bytes::BytesMut) -> (r: bytes::Bytes)
    ensures
        bytes_view(r) == bytes_mut_view(b),
{
    b.freeze()
}

/// Relies on `<BytesMut as From<&[u8]>>::from`: a fresh buffer holding a copy
/// of the slice.
#[verifier::external_body]
pub(crate) fn bytes_mut_from_slice(v: &[u8]) -> (r: bytes::BytesMut)
    ensures
        bytes_mut_view(r) == v@,
{
    bytes::BytesMut::from(v)
}

} // verus!
