//! Trusted interface to `bytes::BytesMut`, the growable byte buffer that the
//! S101 framing code fills and drains.
//!
//! Each item here makes exactly one call into the `bytes` crate; its contract
//! restates what the crate's source does to the bytes the buffer holds.
#[allow(unused_imports)]
use bytes::{Buf, BufMut, BytesMut};
use vstd::prelude::*;

verus! {

#[verifier::external_type_specification]
#[verifier::external_body]
pub struct ExBytesMut(bytes::BytesMut);

/// The bytes that a `BytesMut` holds, in order (its `len()` bytes from the
/// current start; capacity is not part of it).
pub uninterp spec fn bytes_contents(b: BytesMut) -> Seq<u8>;

/// `BytesMut::with_capacity`: a new buffer that holds no bytes. It rests on
/// `Vec::with_capacity`, which panics when asked for more than `isize::MAX`
/// bytes; that input is left out.
#[verifier::external_body]
pub(crate) fn bytes_with_capacity(capacity: usize) -> (b: BytesMut)
    requires
        capacity <= isize::MAX,
    ensures
        bytes_contents(b) == Seq::<u8>::empty(),
{
    BytesMut::with_capacity(capacity)
}

/// `<BytesMut as BufMut>::put_u8`: appends one byte. Growing the buffer panics
/// past `isize::MAX` bytes, so the contract asks for room for one more byte.
#[verifier::external_body]
pub(crate) fn bytes_put_u8(b: &mut BytesMut, n: u8)
    requires
        bytes_contents(*old(b)).len() + 1 <= isize::MAX,
    ensures
        bytes_contents(*final(b)) == bytes_contents(*old(b)).push(n),
{
    b.put_u8(n)
}

/// `<BytesMut as BufMut>::put_slice`: appends the bytes of `src` in order.
/// Growing the buffer panics past `isize::MAX` bytes.
#[verifier::external_body]
pub(crate) fn bytes_put_slice(b: &mut BytesMut, src: &[u8])
    requires
        bytes_contents(*old(b)).len() + src@.len() <= isize::MAX,
    ensures
        bytes_contents(*final(b)) == bytes_contents(*old(b)) + src@,
{
    b.put_slice(src)
}

/// `BytesMut::extend_from_slice`: appends the bytes of `extend` in order.
/// Growing the buffer panics past `isize::MAX` bytes.
#[verifier::external_body]
pub(crate) fn bytes_extend_from_slice(b: &mut BytesMut, extend: &[u8])
    requires
        bytes_contents(*old(b)).len() + extend@.len() <= isize::MAX,
    ensures
        bytes_contents(*final(b)) == bytes_contents(*old(b)) + extend@,
{
    b.extend_from_slice(extend)
}

/// `<BytesMut as Deref>::deref`: the held bytes as a slice.
#[verifier::external_body]
pub(crate) fn bytes_as_slice(b: &BytesMut) -> (s: &[u8])
    ensures
        s@ == bytes_contents(*b),
{
    &**b
}

/// `<BytesMut as Buf>::advance`: drops the first `cnt` bytes. It panics when
/// `cnt` exceeds the number of held bytes; that input is left out.
#[verifier::external_body]
pub(crate) fn bytes_advance(b: &mut BytesMut, cnt: usize)
    requires
        cnt <= bytes_contents(*old(b)).len(),
    ensures
        bytes_contents(*final(b)) == bytes_contents(*old(b)).skip(cnt as int),
{
    b.advance(cnt)
}

/// `BytesMut::clear`: drops every held byte.
#[verifier::external_body]
pub(crate) fn bytes_clear(b: &mut BytesMut)
    ensures
        bytes_contents(*final(b)) == Seq::<u8>::empty(),
{
    b.clear()
}

/// `BytesMut::split_to`: returns the first `at` bytes and keeps the rest. It
/// panics when `at` exceeds the number of held bytes; that input is left out.
#[verifier::external_body]
pub(crate) fn bytes_split_to(b: &mut BytesMut, at: usize) -> (front: BytesMut)
    requires
        at <= bytes_contents(*old(b)).len(),
    ensures
        bytes_contents(front) == bytes_contents(*old(b)).take(at as int),
        bytes_contents(*final(b)) == bytes_contents(*old(b)).skip(at as int),
{
    b.split_to(at)
}

} // verus!
