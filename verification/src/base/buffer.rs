//! Shared byte buffers of the bytes crate.
use vstd::prelude::*;

verus! {

#[verifier::external_type_specification]
#[verifier::external_body]
pub struct ExBytes(bytes::Bytes);

/// What a buffer holds.
pub uninterp spec fn contents(buffer: bytes::Bytes) -> Seq<u8>;

/// `bytes::Bytes::copy_from_slice`: a buffer that holds a copy of `data`.
#[verifier::external_body]
pub(crate) fn copy_from_slice(data: &[u8]) -> (buffer: bytes::Bytes)
    ensures
        contents(buffer) == data@,
{
    bytes::Bytes::copy_from_slice(data)
}

/// The `Deref` of `bytes::Bytes`: the bytes that the buffer holds.
#[verifier::external_body]
pub(crate) fn as_slice(buffer: &bytes::Bytes) -> (data: &[u8])
    ensures
        data@ == contents(*buffer),
{
    buffer
}

/// The `From<Vec<u8>>` of `bytes::Bytes`: a buffer that holds the bytes of the vector.
#[verifier::external_body]
pub(crate) fn from_vec(data: Vec<u8>) -> (buffer: bytes::Bytes)
    ensures
        contents(buffer) == data@,
{
    bytes::Bytes::from(data)
}

/// `bytes::Bytes::slice`: a buffer that shares the bytes from `start` to `end`. The outside
/// function panics on bounds out of order or out of range.
#[verifier::external_body]
pub(crate) fn slice(buffer: &bytes::Bytes, start: usize, end: usize) -> (part: bytes::Bytes)
    requires
        start <= end <= contents(*buffer).len(),
    ensures
        contents(part) == contents(*buffer).subrange(start as int, end as int),
{
    buffer.slice(start..end)
}

/// `bytes::Bytes::len`: how many bytes the buffer holds.
#[verifier::external_body]
pub(crate) fn len(buffer: &bytes::Bytes) -> (length: usize)
    ensures
        length == contents(*buffer).len(),
{
    buffer.len()
}

} // verus!
