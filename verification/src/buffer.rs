//! The byte buffers of the `bytes` crate.
use bytes::{Buf, Bytes, BytesMut};
use vstd::prelude::*;

verus! {

/// A buffer that grows.
#[verifier::external_type_specification]
#[verifier::external_body]
pub struct ExBytesMut(BytesMut);

/// A buffer that no longer changes.
#[verifier::external_type_specification]
#[verifier::external_body]
pub struct ExBytes(Bytes);

/// The bytes in a buffer that grows.
pub uninterp spec fn bytes_of(buffer: BytesMut) -> Seq<u8>;

/// The bytes in a buffer that no longer changes.
pub uninterp spec fn content_of(buffer: Bytes) -> Seq<u8>;

/// `BytesMut::new`: an empty buffer.
#[verifier::external_body]
pub(crate) fn new() -> (buffer: BytesMut)
    ensures
        bytes_of(buffer) == Seq::<u8>::empty(),
{
    BytesMut::new()
}

/// `BytesMut::with_capacity`: an empty buffer.
#[verifier::external_body]
pub(crate) fn with_capacity(capacity: usize) -> (buffer: BytesMut)
    requires
        capacity <= isize::MAX,
    ensures
        bytes_of(buffer) == Seq::<u8>::empty(),
{
    BytesMut::with_capacity(capacity)
}

/// `BytesMut::reserve`: room for more bytes, with the contents unchanged.
#[verifier::external_body]
pub(crate) fn reserve(buffer: &mut BytesMut, additional: usize)
    requires
        bytes_of(*old(buffer)).len() + additional <= isize::MAX,
    ensures
        bytes_of(*final(buffer)) == bytes_of(*old(buffer)),
{
    buffer.reserve(additional)
}

/// Whether a buffer can take so many more bytes.
pub fn has_room(buffer: &BytesMut, additional: usize) -> (room: bool)
    ensures
        room == (bytes_of(*buffer).len() + additional <= isize::MAX),
{
    let len: usize = as_slice(buffer).len();
    len <= isize::MAX as usize && additional <= isize::MAX as usize - len
}

/// `BytesMut::extend_from_slice`: bytes are put at the end.
#[verifier::external_body]
pub(crate) fn extend_from_slice(buffer: &mut BytesMut, bytes: &[u8])
    requires
        bytes_of(*old(buffer)).len() + bytes@.len() <= isize::MAX,
    ensures
        bytes_of(*final(buffer)) == bytes_of(*old(buffer)) + bytes@,
{
    buffer.extend_from_slice(bytes)
}

/// `Buf::advance` for `BytesMut`: bytes are taken off the front.
#[verifier::external_body]
pub(crate) fn advance(buffer: &mut BytesMut, count: usize)
    requires
        count <= bytes_of(*old(buffer)).len(),
    ensures
        bytes_of(*final(buffer)) == bytes_of(*old(buffer)).skip(count as int),
{
    buffer.advance(count)
}

/// `AsRef` for `BytesMut`: the bytes as a slice.
#[verifier::external_body]
pub(crate) fn as_slice(buffer: &BytesMut) -> (bytes: &[u8])
    ensures
        bytes@ == bytes_of(*buffer),
{
    buffer.as_ref()
}

/// `BytesMut::freeze`: the same bytes, which no longer change.
#[verifier::external_body]
pub(crate) fn freeze(buffer: BytesMut) -> (frozen: Bytes)
    ensures
        content_of(frozen) == bytes_of(buffer),
{
    buffer.freeze()
}

/// `AsRef` for `Bytes`: the bytes as a slice.
#[verifier::external_body]
pub(crate) fn content(buffer: &Bytes) -> (bytes: &[u8])
    ensures
        bytes@ == content_of(*buffer),
{
    buffer.as_ref()
}

} // verus!
