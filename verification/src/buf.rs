//! The byte buffers of the `bytes` crate, as far as this library relies on
//! them. Nothing in this file is proved: each contract restates what the
//! crate's source does, over the sequence of bytes that a buffer holds.
//!
//! A call that allocates does not return where memory runs out, which
//! includes a buffer that would pass `isize::MAX` bytes. As in vstd's
//! contracts for `Vec`, the contracts of such calls say what holds of the
//! buffer that comes back.

use bytes::{BufMut, Bytes, BytesMut};
use core::ops::Deref;
use vstd::prelude::*;

verus! {

/// `bytes::Bytes`, a handle to a run of bytes that are not changed. Verus
/// sees nothing inside it.
#[verifier::external_type_specification]
#[verifier::external_body]
pub struct ExBytes(bytes::Bytes);

/// `bytes::BytesMut`, a buffer that bytes are appended to. Verus sees nothing
/// inside it.
#[verifier::external_type_specification]
#[verifier::external_body]
pub struct ExBytesMut(bytes::BytesMut);

/// The bytes that a `Bytes` handle gives access to, in order.
pub uninterp spec fn content(b: &Bytes) -> Seq<u8>;

/// The bytes written so far to a `BytesMut`, in order.
pub uninterp spec fn buffered(b: &BytesMut) -> Seq<u8>;

/// `Bytes::len`: the number of bytes held.
pub assume_specification[ Bytes::len ](b: &Bytes) -> (n: usize)
    ensures
        n == content(b).len(),
;

/// `Bytes::is_empty`: whether no byte is held.
pub assume_specification[ Bytes::is_empty ](b: &Bytes) -> (e: bool)
    ensures
        e == (content(b).len() == 0),
;

/// `Bytes::new`: a handle that holds no bytes.
pub assume_specification[ Bytes::new ]() -> (b: Bytes)
    ensures
        content(&b) == Seq::<u8>::empty(),
;

/// `Bytes::clone`: a second handle to the same bytes.
pub assume_specification[ <Bytes as Clone>::clone ](b: &Bytes) -> (c: Bytes)
    ensures
        content(&c) == content(b),
;

/// `Bytes::deref`: the held bytes as a slice.
#[verifier::external_body]
pub(crate) fn as_slice(b: &Bytes) -> (s: &[u8])
    ensures
        s@ == content(b),
{
    b.deref()
}

/// `Bytes::slice` on the range `begin..end`: a handle to that part of the
/// bytes. The call panics on a range that is reversed or reaches past the end.
#[verifier::external_body]
pub(crate) fn slice(b: &Bytes, begin: usize, end: usize) -> (s: Bytes)
    requires
        begin <= end <= content(b).len(),
    ensures
        content(&s) == content(b).subrange(begin as int, end as int),
{
    b.slice(begin..end)
}

/// `BytesMut::new`: an empty buffer.
pub assume_specification[ BytesMut::new ]() -> (b: BytesMut)
    ensures
        buffered(&b) == Seq::<u8>::empty(),
;

/// `BytesMut::with_capacity`: an empty buffer with room set aside. The call
/// panics on a capacity of more than `isize::MAX` bytes.
pub assume_specification[ BytesMut::with_capacity ](capacity: usize) -> (b: BytesMut)
    requires
        capacity <= isize::MAX,
    ensures
        buffered(&b) == Seq::<u8>::empty(),
;

/// `BytesMut::freeze`: the written bytes behind an immutable handle.
pub assume_specification[ BytesMut::freeze ](b: BytesMut) -> (f: Bytes)
    ensures
        content(&f) == buffered(&b),
;

/// `BufMut::put_u8` on a `BytesMut`: appends one byte.
#[verifier::external_body]
pub(crate) fn put_u8(buf: &mut BytesMut, byte: u8)
    ensures
        buffered(final(buf)) == buffered(old(buf)).push(byte),
{
    buf.put_u8(byte)
}

/// `BufMut::put_u32` on a `BytesMut`: appends the four bytes of `n`, most
/// significant first.
#[verifier::external_body]
pub(crate) fn put_u32(buf: &mut BytesMut, n: u32)
    ensures
        buffered(final(buf)) == buffered(old(buf)) + be32(n),
{
    buf.put_u32(n)
}

/// `BufMut::put` on a `BytesMut`, from a slice: appends the whole slice.
#[verifier::external_body]
pub(crate) fn put(buf: &mut BytesMut, src: &[u8])
    ensures
        buffered(final(buf)) == buffered(old(buf)) + src@,
{
    buf.put(src)
}

/// The four bytes of a 32-bit number, most significant first.
pub open spec fn be32(n: u32) -> Seq<u8> {
    seq![
        (n / 0x100_0000) as u8,
        (n / 0x1_0000 % 0x100) as u8,
        (n / 0x100 % 0x100) as u8,
        (n % 0x100) as u8,
    ]
}

} // verus!
