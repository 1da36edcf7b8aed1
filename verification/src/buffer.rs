//! Byte buffers of the `bytes` crate, seen as byte sequences.
use bytes::{Bytes, BytesMut};
use vstd::prelude::*;

verus! {

/// The growable buffer of the `bytes` crate.
#[verifier::external_type_specification]
#[verifier::external_body]
pub struct ExBytesMut(bytes::BytesMut);

/// The shared, immutable buffer of the `bytes` crate.
#[verifier::external_type_specification]
#[verifier::external_body]
pub struct ExBytes(bytes::Bytes);

/// The bytes that a `BytesMut` holds, in order.
pub uninterp spec fn buffered(b: BytesMut) -> Seq<u8>;

/// The bytes that a `Bytes` holds, in order.
pub uninterp spec fn frozen(b: Bytes) -> Seq<u8>;

/// `BytesMut::new`: an empty buffer.
#[verifier::external_body]
pub(crate) fn buf_new() -> (b: BytesMut)
    ensures
        buffered(b) == Seq::<u8>::empty(),
{
    BytesMut::new()
}

/// `BytesMut::from` on a slice: a buffer that holds its bytes.
#[verifier::external_body]
pub(crate) fn buf_from_slice(s: &[u8]) -> (b: BytesMut)
    ensures
        buffered(b) == s@,
{
    BytesMut::from(s)
}

/// `BytesMut::len`: how many bytes the buffer holds. No allocation exceeds `isize::MAX` bytes.
#[verifier::external_body]
pub(crate) fn buf_len(b: &BytesMut) -> (n: usize)
    ensures
        n == buffered(*b).len(),
        n <= isize::MAX,
{
    b.len()
}

/// `BytesMut::as_ref`: the held bytes as a slice.
#[verifier::external_body]
pub(crate) fn buf_slice(b: &BytesMut) -> (s: &[u8])
    ensures
        s@ == buffered(*b),
{
    b.as_ref()
}

/// `BytesMut::extend_from_slice`: appends the slice. It panics only where the
/// length would exceed what can be allocated.
#[verifier::external_body]
pub(crate) fn buf_put(b: &mut BytesMut, s: &[u8])
    requires
        buffered(*old(b)).len() + s@.len() <= isize::MAX,
    ensures
        buffered(*final(b)) == buffered(*old(b)) + s@,
{
    b.extend_from_slice(s)
}

/// `Buf::advance` for `BytesMut`: drops the first `n` bytes. It panics where fewer are held.
#[verifier::external_body]
pub(crate) fn buf_advance(b: &mut BytesMut, n: usize)
    requires
        n <= buffered(*old(b)).len(),
    ensures
        buffered(*final(b)) == buffered(*old(b)).skip(n as int),
{
    bytes::Buf::advance(b, n)
}

/// `BytesMut::split_to`: takes the first `n` bytes out of the buffer. It panics where fewer are held.
#[verifier::external_body]
pub(crate) fn buf_split_to(b: &mut BytesMut, n: usize) -> (head: BytesMut)
    requires
        n <= buffered(*old(b)).len(),
    ensures
        buffered(head) == buffered(*old(b)).take(n as int),
        buffered(*final(b)) == buffered(*old(b)).skip(n as int),
{
    b.split_to(n)
}

/// `BytesMut::split_off`: takes everything from position `n` on out of the buffer.
#[verifier::external_body]
pub(crate) fn buf_split_off(b: &mut BytesMut, n: usize) -> (tail: BytesMut)
    requires
        n <= buffered(*old(b)).len(),
    ensures
        buffered(tail) == buffered(*old(b)).skip(n as int),
        buffered(*final(b)) == buffered(*old(b)).take(n as int),
{
    b.split_off(n)
}

/// `BytesMut::truncate`: keeps the first `n` bytes.
#[verifier::external_body]
pub(crate) fn buf_truncate(b: &mut BytesMut, n: usize)
    requires
        n <= buffered(*old(b)).len(),
    ensures
        buffered(*final(b)) == buffered(*old(b)).take(n as int),
{
    b.truncate(n)
}

/// `BytesMut::clear`: drops every byte.
#[verifier::external_body]
pub(crate) fn buf_clear(b: &mut BytesMut)
    ensures
        buffered(*final(b)) == Seq::<u8>::empty(),
{
    b.clear()
}

/// `BytesMut::freeze`: the same bytes, now immutable.
#[verifier::external_body]
pub(crate) fn buf_freeze(b: BytesMut) -> (r: Bytes)
    ensures
        frozen(r) == buffered(b),
{
    b.freeze()
}

/// `Bytes::from(Vec<u8>)`: the same bytes, now shared.
#[verifier::external_body]
pub(crate) fn bytes_from_vec(v: Vec<u8>) -> (r: Bytes)
    ensures
        frozen(r) == v@,
{
    Bytes::from(v)
}

/// `Bytes::len`: how many bytes are held. No allocation exceeds `isize::MAX` bytes.
#[verifier::external_body]
pub(crate) fn bytes_len(b: &Bytes) -> (n: usize)
    ensures
        n == frozen(*b).len(),
        n <= isize::MAX,
{
    b.len()
}

/// `Bytes::as_ref`: the held bytes as a slice. No slice exceeds `isize::MAX` bytes.
#[verifier::external_body]
pub(crate) fn bytes_as_slice(b: &Bytes) -> (s: &[u8])
    ensures
        s@ == frozen(*b),
        s@.len() <= isize::MAX,
{
    b.as_ref()
}

/// `Bytes::slice`: the bytes from `start` up to `end`. It panics outside the held range.
#[verifier::external_body]
pub(crate) fn bytes_slice(b: &Bytes, start: usize, end: usize) -> (r: Bytes)
    requires
        start <= end <= frozen(*b).len(),
    ensures
        frozen(r) == frozen(*b).subrange(start as int, end as int),
{
    b.slice(start..end)
}

} // verus!
