//! The growable byte buffer that the decoder keeps its bytes in:
//! `bytes::BytesMut`, seen through the sequence of bytes it holds.
use vstd::prelude::*;

verus! {

#[verifier::external_type_specification]
#[verifier::external_body]
pub struct ExBytesMut(bytes::BytesMut);

/// The bytes that a buffer holds, in order.
pub uninterp spec fn bytes_of(b: bytes::BytesMut) -> Seq<u8>;

/// Relies on bytes::BytesMut::new: a buffer that holds no bytes.
#[verifier::external_body]
pub(crate) fn buf_new() -> (r: bytes::BytesMut)
    ensures
        bytes_of(r) == Seq::<u8>::empty(),
{
    bytes::BytesMut::new()
}

/// Relies on `Deref for bytes::BytesMut`: the bytes held, as a slice.
#[verifier::external_body]
pub(crate) fn buf_slice(b: &bytes::BytesMut) -> (r: &[u8])
    ensures
        r@ == bytes_of(*b),
{
    &b[..]
}

/// Relies on bytes::BytesMut::extend_from_slice: appends the bytes of `s`.
/// It panics where the capacity it needs overflows; `requires` keeps the new
/// length within that limit. The allocation also counts bytes already split off
/// its front, which the contents do not show: like any allocation, that limit
/// is left to the machine.
#[verifier::external_body]
pub(crate) fn buf_extend(b: &mut bytes::BytesMut, s: &[u8])
    requires
        bytes_of(*old(b)).len() + s@.len() <= isize::MAX,
    ensures
        bytes_of(*final(b)) == bytes_of(*old(b)) + s@,
{
    b.extend_from_slice(s)
}

/// Relies on bytes::BytesMut::split_to: returns the first `at` bytes and
/// keeps the rest; it panics when `at` exceeds the length.
#[verifier::external_body]
pub(crate) fn buf_split_to(b: &mut bytes::BytesMut, at: usize) -> (r: bytes::BytesMut)
    requires
        at <= bytes_of(*old(b)).len(),
    ensures
        bytes_of(r) == bytes_of(*old(b)).take(at as int),
        bytes_of(*final(b)) == bytes_of(*old(b)).skip(at as int),
{
    b.split_to(at)
}

/// Relies on bytes::BytesMut::truncate: keeps the first `len` bytes, and
/// changes nothing when there are no more than `len`.
#[verifier::external_body]
pub(crate) fn buf_truncate(b: &mut bytes::BytesMut, len: usize)
    ensures
        len <= bytes_of(*old(b)).len() ==> bytes_of(*final(b)) == bytes_of(*old(b)).take(
            len as int,
        ),
        len > bytes_of(*old(b)).len() ==> bytes_of(*final(b)) == bytes_of(*old(b)),
{
    b.truncate(len)
}

} // verus!
