//! Byte buffers of the `bytes` crate.
use bytes::{Bytes, BytesMut};
use vstd::prelude::*;

verus! {

/// Declares `bytes::BytesMut`.
#[verifier::external_type_specification]
#[verifier::external_body]
pub struct ExBytesMut(bytes::BytesMut);

/// Declares `bytes::Bytes`.
#[verifier::external_type_specification]
#[verifier::external_body]
pub struct ExBytes(bytes::Bytes);

/// The bytes that a `BytesMut` holds, from the first to the last.
pub uninterp spec fn buffered(buffer: BytesMut) -> Seq<u8>;

/// The bytes that a `Bytes` holds, from the first to the last.
pub uninterp spec fn content(bytes: Bytes) -> Seq<u8>;

/// `BytesMut::new` gives a buffer of length 0.
pub assume_specification[ BytesMut::new ]() -> (buffer: BytesMut)
    ensures
        buffered(buffer) == Seq::<u8>::empty(),
;

/// `BytesMut::extend_from_slice` appends the slice to what the buffer holds.
pub assume_specification[ BytesMut::extend_from_slice ](buffer: &mut BytesMut, extend: &[u8])
    requires
        buffered(*old(buffer)).len() + extend@.len() <= isize::MAX,
    ensures
        buffered(*final(buffer)) == buffered(*old(buffer)) + extend@,
;

/// `BytesMut::split_to` takes the first `at` bytes out of the buffer and leaves the rest in it.
pub assume_specification[ BytesMut::split_to ](buffer: &mut BytesMut, at: usize) -> (front:
    BytesMut)
    requires
        at <= buffered(*old(buffer)).len(),
    ensures
        buffered(front) == buffered(*old(buffer)).take(at as int),
        buffered(*final(buffer)) == buffered(*old(buffer)).skip(at as int),
;

/// `BytesMut::split` takes all bytes out of the buffer and leaves it empty.
pub assume_specification[ BytesMut::split ](buffer: &mut BytesMut) -> (all: BytesMut)
    ensures
        buffered(all) == buffered(*old(buffer)),
        buffered(*final(buffer)) == Seq::<u8>::empty(),
;

/// `BytesMut::truncate` keeps the first `len` bytes; it does nothing to a buffer of fewer.
pub assume_specification[ BytesMut::truncate ](buffer: &mut BytesMut, len: usize)
    ensures
        buffered(*final(buffer)) == if len <= buffered(*old(buffer)).len() {
            buffered(*old(buffer)).take(len as int)
        } else {
            buffered(*old(buffer))
        },
;

/// `BytesMut::freeze` turns the buffer into a `Bytes` of the same bytes.
pub assume_specification[ BytesMut::freeze ](buffer: BytesMut) -> (bytes: Bytes)
    ensures
        content(bytes) == buffered(buffer),
;

/// `BytesMut::as_ref` (of `AsRef<[u8]>`) lends the bytes that the buffer holds.
#[verifier::external_body]
pub(crate) fn buffered_slice(buffer: &BytesMut) -> (slice: &[u8])
    ensures
        slice@ == buffered(*buffer),
{
    buffer.as_ref()
}

/// `Bytes::as_ref` (of `AsRef<[u8]>`) lends the bytes that it holds.
#[verifier::external_body]
pub(crate) fn content_slice(bytes: &Bytes) -> (slice: &[u8])
    ensures
        slice@ == content(*bytes),
{
    bytes.as_ref()
}

}
