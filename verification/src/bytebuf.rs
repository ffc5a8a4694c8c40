//! The few operations the codec needs on the caller's `bytes::BytesMut`
//! buffers, each stated over the buffer's contents `bytes_view`.
use vstd::prelude::*;

verus! {

#[verifier::external_type_specification]
#[verifier::external_body]
pub struct ExBytesMut(bytes::BytesMut);

/// The bytes that a `BytesMut` buffer currently holds, in order.
pub uninterp spec fn bytes_view(b: bytes::BytesMut) -> Seq<u8>;

/// Relies on `BytesMut` dereferencing to its contents as a byte slice and on
/// `<[u8]>::to_vec` copying a slice: the returned vector holds exactly the
/// buffer's bytes, in order.
#[verifier::external_body]
pub(crate) fn buf_to_vec(b: &bytes::BytesMut) -> (v: Vec<u8>)
    ensures
        v@ == bytes_view(*b),
{
    b.as_ref().to_vec()
}

/// Relies on `bytes::Buf::advance` for `BytesMut`: it discards exactly the
/// first `n` bytes of the buffer. It panics when `n` exceeds the buffer's
/// length, so that case is excluded here.
#[verifier::external_body]
pub(crate) fn buf_advance(b: &mut bytes::BytesMut, n: usize)
    requires
        n <= bytes_view(*old(b)).len(),
    ensures
        bytes_view(*final(b)) == bytes_view(*old(b)).skip(n as int),
{
    bytes::Buf::advance(b, n);
}

/// Relies on `BytesMut::extend_from_slice`: it appends the given bytes after
/// the buffer's current contents.
#[verifier::external_body]
pub(crate) fn buf_extend(b: &mut bytes::BytesMut, data: &Vec<u8>)
    ensures
        bytes_view(*final(b)) == bytes_view(*old(b)) + data@,
{
    b.extend_from_slice(data.as_slice());
}

} // verus!
