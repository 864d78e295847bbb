//! The receive buffer of the codec, `bytes::BytesMut`.

use bytes::{BufMut, BytesMut};
use vstd::prelude::*;

verus! {

/// The growable byte buffer of the `bytes` crate.
#[verifier::external_type_specification]
#[verifier::external_body]
pub struct ExBytesMut(BytesMut);

/// The bytes that a `BytesMut` holds.
pub uninterp spec fn buffered(buf: BytesMut) -> Seq<u8>;

/// `BytesMut` as a slice (its `AsRef<[u8]>`): the bytes that it holds.
#[verifier::external_body]
pub(crate) fn as_slice(buf: &BytesMut) -> (s: &[u8])
    ensures
        s@ == buffered(*buf),
{
    buf.as_ref()
}

/// `BytesMut::split_to` cuts the first `at` bytes off the buffer and returns
/// them; the buffer keeps the rest. It panics where it holds fewer.
#[verifier::external_body]
pub(crate) fn split_to(buf: &mut BytesMut, at: usize) -> (front: BytesMut)
    requires
        at <= buffered(*old(buf)).len(),
    ensures
        buffered(front) == buffered(*old(buf)).take(at as int),
        buffered(*final(buf)) == buffered(*old(buf)).skip(at as int),
{
    buf.split_to(at)
}

/// `BufMut::put_slice` on a `BytesMut` appends the bytes of `src`. It panics
/// where it would have to allocate more than `isize::MAX` bytes. Since it may
/// keep the space of bytes that were cut off the front, and doubles what it
/// has, that can be up to four times the bytes that the buffer will hold.
#[verifier::external_body]
pub(crate) fn put_slice(buf: &mut BytesMut, src: &[u8])
    requires
        buffered(*old(buf)).len() + src@.len() <= isize::MAX / 4,
    ensures
        buffered(*final(buf)) == buffered(*old(buf)) + src@,
{
    buf.put_slice(src);
}

} // verus!
