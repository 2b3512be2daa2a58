//! The byte buffers of the `bytes` crate, as the stream protocol uses them.

use bytes::{Buf, BufMut, Bytes, BytesMut};
use vstd::prelude::*;

verus! {

/// `bytes::BytesMut`: a growable byte buffer.
#[verifier::external_type_specification]
#[verifier::external_body]
pub struct ExBytesMut(BytesMut);

/// `bytes::Bytes`: an immutable, cheaply shared run of bytes.
#[verifier::external_type_specification]
#[verifier::external_body]
pub struct ExBytes(Bytes);

/// What a `BytesMut` holds, from front to back.
pub uninterp spec fn buffer_bytes(buf: BytesMut) -> Seq<u8>;

/// What a `Bytes` holds, from front to back.
pub uninterp spec fn shared_bytes(bytes: Bytes) -> Seq<u8>;

/// `BytesMut::new` gives an empty buffer.
pub assume_specification[ BytesMut::new ]() -> (buf: BytesMut)
    ensures
        buffer_bytes(buf) == Seq::<u8>::empty(),
;

/// `BytesMut::len` counts the bytes held.
pub assume_specification[ BytesMut::len ](buf: &BytesMut) -> (n: usize)
    ensures
        n == buffer_bytes(*buf).len(),
;

/// `BytesMut::is_empty` tells whether no byte is held.
pub assume_specification[ BytesMut::is_empty ](buf: &BytesMut) -> (empty: bool)
    ensures
        empty == (buffer_bytes(*buf).len() == 0),
;

/// `BytesMut::clear` drops all bytes.
pub assume_specification[ BytesMut::clear ](buf: &mut BytesMut)
    ensures
        buffer_bytes(*final(buf)) == Seq::<u8>::empty(),
;

/// `BytesMut::split_to` takes the first `at` bytes out of the buffer and returns them; it
/// panics when there are fewer.
pub assume_specification[ BytesMut::split_to ](buf: &mut BytesMut, at: usize) -> (front: BytesMut)
    requires
        at <= buffer_bytes(*old(buf)).len(),
    ensures
        buffer_bytes(front) == buffer_bytes(*old(buf)).take(at as int),
        buffer_bytes(*final(buf)) == buffer_bytes(*old(buf)).skip(at as int),
;

/// `BytesMut::split` takes all bytes out of the buffer and returns them.
pub assume_specification[ BytesMut::split ](buf: &mut BytesMut) -> (all: BytesMut)
    ensures
        buffer_bytes(all) == buffer_bytes(*old(buf)),
        buffer_bytes(*final(buf)) == Seq::<u8>::empty(),
;

/// `BytesMut::freeze` keeps the bytes.
pub assume_specification[ BytesMut::freeze ](buf: BytesMut) -> (bytes: Bytes)
    ensures
        shared_bytes(bytes) == buffer_bytes(buf),
;

/// Cloning a `Bytes` shares its bytes.
pub assume_specification[ <Bytes as Clone>::clone ](bytes: &Bytes) -> (r: Bytes)
    ensures
        shared_bytes(r) == shared_bytes(*bytes),
;

/// `BufMut::put_u8` on a `BytesMut` appends one byte. A buffer never holds more than
/// `isize::MAX` bytes; the call panics past that.
#[verifier::external_body]
pub(crate) fn put_u8(buf: &mut BytesMut, value: u8)
    requires
        buffer_bytes(*old(buf)).len() + 1 <= isize::MAX,
    ensures
        buffer_bytes(*final(buf)) == buffer_bytes(*old(buf)).push(value),
{
    buf.put_u8(value);
}

/// `BufMut::put_slice` on a `BytesMut` appends the slice. A buffer never holds more than
/// `isize::MAX` bytes; the call panics past that.
#[verifier::external_body]
pub(crate) fn put_slice(buf: &mut BytesMut, bytes: &[u8])
    requires
        buffer_bytes(*old(buf)).len() + bytes@.len() <= isize::MAX,
    ensures
        buffer_bytes(*final(buf)) == buffer_bytes(*old(buf)) + bytes@,
{
    buf.put_slice(bytes);
}

/// `Buf::advance` on a `BytesMut` drops the first `count` bytes; it panics when there are
/// fewer.
#[verifier::external_body]
pub(crate) fn advance(buf: &mut BytesMut, count: usize)
    requires
        count <= buffer_bytes(*old(buf)).len(),
    ensures
        buffer_bytes(*final(buf)) == buffer_bytes(*old(buf)).skip(count as int),
{
    buf.advance(count);
}

/// `BytesMut` dereferences to the slice of the bytes it holds.
#[verifier::external_body]
pub(crate) fn as_slice(buf: &BytesMut) -> (r: &[u8])
    ensures
        r@ == buffer_bytes(*buf),
{
    &buf[..]
}

} // verus!
