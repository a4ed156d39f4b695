//! The buffers that packets are read from and written to.
//!
//! `bytes::BytesMut`, `bytes::Bytes` and the byte-level readers of `bytes`, `memchr` and
//! `byteorder` are used as they are. What is stated of each of them here is not proved: it is
//! what its own documentation and source say.

use byteorder::{BigEndian, ByteOrder};
use bytes::{Buf, BufMut, Bytes, BytesMut};
use vstd::prelude::*;
use vstd::string::StringSliceAdditionalSpecFns;

use crate::wire::{be_i32, be_i32_value, le_bytes, le_value};

verus! {

#[verifier::external_type_specification]
#[verifier::external_body]
pub struct ExBytesMut(BytesMut);

#[verifier::external_type_specification]
#[verifier::external_body]
pub struct ExBytes(Bytes);

/// The bytes that a `BytesMut` holds: those not yet read, in order.
pub uninterp spec fn buf_bytes(buf: BytesMut) -> Seq<u8>;

/// The bytes that a `Bytes` holds, in order.
pub uninterp spec fn shared_bytes(bytes: Bytes) -> Seq<u8>;

// ---------------------------------------------------------------------------
// BytesMut: reading
// ---------------------------------------------------------------------------

/// `BytesMut::from(&[u8])`: a buffer with a copy of `data`.
#[verifier::external_body]
pub(crate) fn buf_from(data: &[u8]) -> (buf: BytesMut)
    ensures
        buf_bytes(buf) == data@,
{
    BytesMut::from(data)
}

/// `Buf::remaining`: how many bytes are left to read.
#[verifier::external_body]
pub(crate) fn buf_remaining(buf: &BytesMut) -> (n: usize)
    ensures
        n == buf_bytes(*buf).len(),
{
    buf.remaining()
}

/// `BytesMut`'s `Deref`: the bytes left to read, as a slice.
#[verifier::external_body]
pub(crate) fn buf_slice(buf: &BytesMut) -> (slice: &[u8])
    ensures
        slice@ == buf_bytes(*buf),
{
    &buf[..]
}

/// `Buf::get_u8`: takes one byte from the front. It panics on an empty buffer.
#[verifier::external_body]
pub(crate) fn buf_get_u8(buf: &mut BytesMut) -> (byte: u8)
    requires
        buf_bytes(*old(buf)).len() >= 1,
    ensures
        byte == buf_bytes(*old(buf))[0],
        buf_bytes(*final(buf)) == buf_bytes(*old(buf)).skip(1),
{
    buf.get_u8()
}

/// `Buf::get_u16_le`: takes two bytes from the front as a little-endian number. It panics if
/// fewer are left.
#[verifier::external_body]
pub(crate) fn buf_get_u16_le(buf: &mut BytesMut) -> (n: u16)
    requires
        buf_bytes(*old(buf)).len() >= 2,
    ensures
        n == le_value(buf_bytes(*old(buf)).take(2)),
        buf_bytes(*final(buf)) == buf_bytes(*old(buf)).skip(2),
{
    buf.get_u16_le()
}

/// `Buf::get_u32_le`: takes four bytes from the front as a little-endian number. It panics if
/// fewer are left.
#[verifier::external_body]
pub(crate) fn buf_get_u32_le(buf: &mut BytesMut) -> (n: u32)
    requires
        buf_bytes(*old(buf)).len() >= 4,
    ensures
        n == le_value(buf_bytes(*old(buf)).take(4)),
        buf_bytes(*final(buf)) == buf_bytes(*old(buf)).skip(4),
{
    buf.get_u32_le()
}

/// `Buf::get_u64_le`: takes eight bytes from the front as a little-endian number. It panics if
/// fewer are left.
#[verifier::external_body]
pub(crate) fn buf_get_u64_le(buf: &mut BytesMut) -> (n: u64)
    requires
        buf_bytes(*old(buf)).len() >= 8,
    ensures
        n == le_value(buf_bytes(*old(buf)).take(8)),
        buf_bytes(*final(buf)) == buf_bytes(*old(buf)).skip(8),
{
    buf.get_u64_le()
}

/// `Buf::advance`: drops `count` bytes from the front. It panics if fewer are left.
#[verifier::external_body]
pub(crate) fn buf_advance(buf: &mut BytesMut, count: usize)
    requires
        count <= buf_bytes(*old(buf)).len(),
    ensures
        buf_bytes(*final(buf)) == buf_bytes(*old(buf)).skip(count as int),
{
    buf.advance(count)
}

/// `Buf::copy_to_slice`: moves as many bytes as `dst` is long from the front into `dst`. It
/// panics if fewer are left.
#[verifier::external_body]
pub(crate) fn buf_copy_to_slice(buf: &mut BytesMut, dst: &mut Vec<u8>)
    requires
        old(dst)@.len() <= buf_bytes(*old(buf)).len(),
    ensures
        final(dst)@ == buf_bytes(*old(buf)).take(old(dst)@.len() as int),
        buf_bytes(*final(buf)) == buf_bytes(*old(buf)).skip(old(dst)@.len() as int),
{
    buf.copy_to_slice(dst)
}

/// `BytesMut::split_off`: cuts the buffer in two, keeps the front and returns the back. It
/// panics on a position past the buffer's capacity.
#[verifier::external_body]
pub(crate) fn buf_split_off(buf: &mut BytesMut, at: usize) -> (back: BytesMut)
    requires
        at <= buf_bytes(*old(buf)).len(),
    ensures
        buf_bytes(*final(buf)) == buf_bytes(*old(buf)).take(at as int),
        buf_bytes(back) == buf_bytes(*old(buf)).skip(at as int),
{
    buf.split_off(at)
}

// ---------------------------------------------------------------------------
// BytesMut: writing
// ---------------------------------------------------------------------------

/// `BytesMut::new`: an empty buffer.
#[verifier::external_body]
pub(crate) fn buf_new() -> (buf: BytesMut)
    ensures
        buf_bytes(buf) == Seq::<u8>::empty(),
{
    BytesMut::new()
}

/// `BufMut::put_u8`: appends one byte. A buffer holds at most `isize::MAX` bytes; it panics
/// past that.
#[verifier::external_body]
pub(crate) fn buf_put_u8(buf: &mut BytesMut, byte: u8)
    requires
        buf_bytes(*old(buf)).len() + 1 <= isize::MAX,
    ensures
        buf_bytes(*final(buf)) == buf_bytes(*old(buf)).push(byte),
{
    buf.put_u8(byte)
}

/// `BufMut::put_i32`: appends a number as four bytes in network order. It panics past
/// `isize::MAX` bytes.
#[verifier::external_body]
pub(crate) fn buf_put_i32(buf: &mut BytesMut, n: i32)
    requires
        buf_bytes(*old(buf)).len() + 4 <= isize::MAX,
    ensures
        buf_bytes(*final(buf)) == buf_bytes(*old(buf)) + be_i32(n as int),
{
    buf.put_i32(n)
}

/// `BufMut::put_slice`: appends the bytes of `src`. It panics past `isize::MAX` bytes.
#[verifier::external_body]
pub(crate) fn buf_put_slice(buf: &mut BytesMut, src: &[u8])
    requires
        buf_bytes(*old(buf)).len() + src@.len() <= isize::MAX,
    ensures
        buf_bytes(*final(buf)) == buf_bytes(*old(buf)) + src@,
{
    buf.put_slice(src)
}

/// `BytesMut::freeze`: the same bytes, no longer writable.
#[verifier::external_body]
pub(crate) fn buf_freeze(buf: BytesMut) -> (bytes: Bytes)
    ensures
        shared_bytes(bytes) == buf_bytes(buf),
{
    buf.freeze()
}

// ---------------------------------------------------------------------------
// Bytes
// ---------------------------------------------------------------------------

/// `Bytes`'s `Deref`: the bytes as a slice.
#[verifier::external_body]
pub(crate) fn shared_slice(bytes: &Bytes) -> (slice: &[u8])
    ensures
        slice@ == shared_bytes(*bytes),
{
    &bytes[..]
}

/// `Bytes::slice`: the bytes from `start` up to `end`. It panics on a range that is reversed or
/// reaches past the end.
#[verifier::external_body]
pub(crate) fn shared_subrange(bytes: &Bytes, start: usize, end: usize) -> (part: Bytes)
    requires
        start <= end <= shared_bytes(*bytes).len(),
    ensures
        shared_bytes(part) == shared_bytes(*bytes).subrange(start as int, end as int),
{
    bytes.slice(start..end)
}

/// `Bytes == str`: whether the bytes are those of the text.
#[verifier::external_body]
pub(crate) fn shared_is_text(bytes: &Bytes, text: &str) -> (same: bool)
    ensures
        same <==> shared_bytes(*bytes) == text.spec_bytes(),
{
    *bytes == *text
}

// ---------------------------------------------------------------------------
// Vec<u8>: writing
// ---------------------------------------------------------------------------

/// `BufMut::put_u8` on a vector: appends one byte. A vector holds at most `isize::MAX` bytes; it
/// panics past that.
#[verifier::external_body]
pub(crate) fn vec_put_u8(vec: &mut Vec<u8>, byte: u8)
    requires
        old(vec)@.len() + 1 <= isize::MAX,
    ensures
        final(vec)@ == old(vec)@.push(byte),
{
    vec.put_u8(byte)
}

/// `BufMut::put_u16_le` on a vector: appends a number as two little-endian bytes. It panics past
/// `isize::MAX` bytes.
#[verifier::external_body]
pub(crate) fn vec_put_u16_le(vec: &mut Vec<u8>, n: u16)
    requires
        old(vec)@.len() + 2 <= isize::MAX,
    ensures
        final(vec)@ == old(vec)@ + le_bytes(n as nat, 2),
{
    vec.put_u16_le(n)
}

/// `BufMut::put_u32_le` on a vector: appends a number as four little-endian bytes. It panics past
/// `isize::MAX` bytes.
#[verifier::external_body]
pub(crate) fn vec_put_u32_le(vec: &mut Vec<u8>, n: u32)
    requires
        old(vec)@.len() + 4 <= isize::MAX,
    ensures
        final(vec)@ == old(vec)@ + le_bytes(n as nat, 4),
{
    vec.put_u32_le(n)
}

// ---------------------------------------------------------------------------
// Slices
// ---------------------------------------------------------------------------

/// `memchr::memchr`: the position of the first `needle` in `haystack`, if there is one.
pub assume_specification[ memchr::memchr ](needle: u8, haystack: &[u8]) -> (position: Option<usize>)
    ensures
        match position {
            Some(i) => haystack@.index_of_first(needle) == Some(i as int),
            None => haystack@.index_of_first(needle) is None,
        },
;

/// `byteorder::BigEndian::read_i32`: the signed number that the first four bytes spell in network
/// order. It panics on fewer than four.
#[verifier::external_body]
pub(crate) fn read_i32_be(bytes: &[u8]) -> (n: i32)
    requires
        bytes@.len() >= 4,
    ensures
        n == be_i32_value(bytes@.take(4)),
{
    BigEndian::read_i32(bytes)
}

} // verus!
