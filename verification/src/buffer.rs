//! What the library relies on from `bytes::Bytes`, the shared byte buffer that holds a page.
use bytes::Bytes;
use vstd::prelude::*;

verus! {

/// `bytes::Bytes`, taken as an opaque type.
#[verifier::external_type_specification]
#[verifier::external_body]
pub struct ExBytes(bytes::Bytes);

/// The bytes that a buffer holds, first to last.
pub uninterp spec fn contents(buffer: Bytes) -> Seq<u8>;

/// `Bytes::new` gives a buffer that holds nothing.
pub assume_specification[ bytes::Bytes::new ]() -> (buffer: bytes::Bytes)
    ensures
        contents(buffer) == Seq::<u8>::empty(),
;

/// `Bytes::len` is the number of bytes in the buffer.
pub assume_specification[ bytes::Bytes::len ](buffer: &bytes::Bytes) -> (len: usize)
    ensures
        len == contents(*buffer).len(),
;

/// `Bytes::deref` lends the whole buffer as a slice.
pub assume_specification[ <bytes::Bytes as core::ops::Deref>::deref ](
    buffer: &bytes::Bytes,
) -> (slice: &[u8])
    ensures
        slice@ == contents(*buffer),
;

/// `Bytes::from(Vec<u8>)` takes over the vector's bytes.
#[verifier::external_body]
pub(crate) fn bytes_from_vec(vec: Vec<u8>) -> (buffer: Bytes)
    ensures
        contents(buffer) == vec@,
{
    Bytes::from(vec)
}

/// `Bytes::slice` gives a buffer that holds the bytes from `begin` up to, but without, `end`. It
/// panics on a range that is reversed or reaches past the end, so those ranges are left out.
#[verifier::external_body]
pub(crate) fn bytes_slice(buffer: &Bytes, begin: usize, end: usize) -> (part: Bytes)
    requires
        begin <= end <= contents(*buffer).len(),
    ensures
        contents(part) == contents(*buffer).subrange(begin as int, end as int),
{
    buffer.slice(begin..end)
}

} // verus!
