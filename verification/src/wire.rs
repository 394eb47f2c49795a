//! Byte buffers of the `bytes` crate, and what their operations do to the contents.
use bytes::{Buf, BufMut, Bytes, BytesMut};
use vstd::prelude::*;

verus! {

/// An immutable run of bytes.
#[verifier::external_type_specification]
#[verifier::external_body]
pub struct ExBytes(bytes::Bytes);

/// A growing run of bytes.
#[verifier::external_type_specification]
#[verifier::external_body]
pub struct ExBytesMut(bytes::BytesMut);

/// The bytes that are left to read in `b`.
pub uninterp spec fn bytes_of(b: bytes::Bytes) -> Seq<u8>;

/// The bytes that were written to `b`.
pub uninterp spec fn buffer_of(b: bytes::BytesMut) -> Seq<u8>;

/// `Bytes::clone`: the same bytes are left to read in the copy.
pub assume_specification[ <bytes::Bytes as Clone>::clone ](b: &bytes::Bytes) -> (r: bytes::Bytes)
    ensures
        bytes_of(r) == bytes_of(*b),
;

/// The two bytes of `n`, the low one first.
pub open spec fn u16_le(n: u16) -> Seq<u8> {
    seq![(n % 256) as u8, (n / 256) as u8]
}

/// The eight bytes of `n`, the high one first.
pub open spec fn u64_be(n: u64) -> Seq<u8> {
    seq![
        (n / 0x100_0000_0000_0000) as u8,
        (n / 0x1_0000_0000_0000 % 256) as u8,
        (n / 0x100_0000_0000 % 256) as u8,
        (n / 0x1_0000_0000 % 256) as u8,
        (n / 0x100_0000 % 256) as u8,
        (n / 0x1_0000 % 256) as u8,
        (n / 0x100 % 256) as u8,
        (n % 256) as u8,
    ]
}

/// `BytesMut::with_capacity`: a buffer without contents. A capacity above `isize::MAX`
/// panics.
#[verifier::external_body]
pub(crate) fn buffer_with_capacity(capacity: usize) -> (r: BytesMut)
    requires
        capacity <= isize::MAX,
    ensures
        buffer_of(r) == Seq::<u8>::empty(),
{
    BytesMut::with_capacity(capacity)
}

/// `BytesMut::reserve`: makes room, and leaves the contents as they are. A buffer holds at
/// most `isize::MAX` bytes, as its `remaining_mut` has it.
#[verifier::external_body]
pub(crate) fn buffer_reserve(buf: &mut BytesMut, additional: usize)
    requires
        buffer_of(*old(buf)).len() + additional <= isize::MAX,
    ensures
        buffer_of(*final(buf)) == buffer_of(*old(buf)),
{
    buf.reserve(additional)
}

/// `BufMut::put_slice` on `BytesMut`: appends `src`.
#[verifier::external_body]
pub(crate) fn buffer_put_slice(buf: &mut BytesMut, src: &[u8])
    requires
        buffer_of(*old(buf)).len() + src@.len() <= isize::MAX,
    ensures
        buffer_of(*final(buf)) == buffer_of(*old(buf)) + src@,
{
    buf.put_slice(src)
}

/// `BufMut::put_u8` on `BytesMut`: appends one byte.
#[verifier::external_body]
pub(crate) fn buffer_put_u8(buf: &mut BytesMut, n: u8)
    requires
        buffer_of(*old(buf)).len() + 1 <= isize::MAX,
    ensures
        buffer_of(*final(buf)) == buffer_of(*old(buf)).push(n),
{
    buf.put_u8(n)
}

/// `BufMut::put_u16_le` on `BytesMut`: appends two bytes, the low one first.
#[verifier::external_body]
pub(crate) fn buffer_put_u16_le(buf: &mut BytesMut, n: u16)
    requires
        buffer_of(*old(buf)).len() + 2 <= isize::MAX,
    ensures
        buffer_of(*final(buf)) == buffer_of(*old(buf)) + u16_le(n),
{
    buf.put_u16_le(n)
}

/// `BufMut::put_u64` on `BytesMut`: appends eight bytes, the high one first.
#[verifier::external_body]
pub(crate) fn buffer_put_u64(buf: &mut BytesMut, n: u64)
    requires
        buffer_of(*old(buf)).len() + 8 <= isize::MAX,
    ensures
        buffer_of(*final(buf)) == buffer_of(*old(buf)) + u64_be(n),
{
    buf.put_u64(n)
}

/// `BytesMut::freeze`: the same contents, from now on immutable.
#[verifier::external_body]
pub(crate) fn buffer_freeze(buf: BytesMut) -> (r: Bytes)
    ensures
        bytes_of(r) == buffer_of(buf),
{
    buf.freeze()
}

/// `Bytes::copy_from_slice`: a copy of `data`.
#[verifier::external_body]
pub(crate) fn bytes_copy_from_slice(data: &[u8]) -> (r: Bytes)
    ensures
        bytes_of(r) == data@,
{
    Bytes::copy_from_slice(data)
}

/// `Bytes::len`: how many bytes are left to read.
#[verifier::external_body]
pub(crate) fn bytes_len(b: &Bytes) -> (r: usize)
    ensures
        r == bytes_of(*b).len(),
{
    b.len()
}

/// `Bytes::deref`: the bytes that are left to read, as a slice.
#[verifier::external_body]
pub(crate) fn bytes_slice(b: &Bytes) -> (r: &[u8])
    ensures
        r@ == bytes_of(*b),
{
    b
}

/// `Buf::copy_to_slice` on `Bytes`: reads as many bytes as `dst` holds. With fewer left it
/// panics.
#[verifier::external_body]
pub(crate) fn bytes_copy_to_slice(b: &mut Bytes, dst: &mut [u8; 4])
    requires
        bytes_of(*old(b)).len() >= 4,
    ensures
        final(dst)@ == bytes_of(*old(b)).take(4),
        bytes_of(*final(b)) == bytes_of(*old(b)).skip(4),
{
    b.copy_to_slice(dst)
}

/// `Buf::get_u8` on `Bytes`: reads one byte. With none left it panics.
#[verifier::external_body]
pub(crate) fn bytes_get_u8(b: &mut Bytes) -> (r: u8)
    requires
        bytes_of(*old(b)).len() >= 1,
    ensures
        r == bytes_of(*old(b))[0],
        bytes_of(*final(b)) == bytes_of(*old(b)).skip(1),
{
    b.get_u8()
}

/// `Buf::get_u16_le` on `Bytes`: reads two bytes, the low one first. With fewer left it
/// panics.
#[verifier::external_body]
pub(crate) fn bytes_get_u16_le(b: &mut Bytes) -> (r: u16)
    requires
        bytes_of(*old(b)).len() >= 2,
    ensures
        r == bytes_of(*old(b))[0] + 256 * bytes_of(*old(b))[1],
        bytes_of(*final(b)) == bytes_of(*old(b)).skip(2),
{
    b.get_u16_le()
}

/// `Buf::get_u64` on `Bytes`: reads eight bytes, the high one first. With fewer left it
/// panics.
#[verifier::external_body]
pub(crate) fn bytes_get_u64(b: &mut Bytes) -> (r: u64)
    requires
        bytes_of(*old(b)).len() >= 8,
    ensures
        u64_be(r) == bytes_of(*old(b)).take(8),
        bytes_of(*final(b)) == bytes_of(*old(b)).skip(8),
{
    b.get_u64()
}

} // verus!
