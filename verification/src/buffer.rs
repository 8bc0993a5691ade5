//! Byte buffers for the codec.
//!
//! Writing goes through `bytes::BytesMut` and reading through `bytes::Bytes`,
//! the buffer types the transport layer hands over. Verus sees them through
//! the trusted declarations and wrappers below, whose contracts speak of the
//! buffer contents as a `Seq<u8>`.

use vstd::prelude::*;
use bytes::Buf;
use bytes::BufMut;

verus! {

/// The big-endian two-byte encoding of an integer, the order the X11 wire
/// format uses for all multi-byte integers.
pub open spec fn be16(x: u16) -> Seq<u8> {
    seq![(x >> 8) as u8, x as u8]
}

/// The big-endian four-byte encoding of an integer.
pub open spec fn be32(x: u32) -> Seq<u8> {
    seq![(x >> 24) as u8, (x >> 16) as u8, (x >> 8) as u8, x as u8]
}

/// The integer read back from two big-endian bytes.
pub open spec fn be16_val(b0: u8, b1: u8) -> u16 {
    ((b0 as u16) << 8 | (b1 as u16)) as u16
}

/// The integer read back from four big-endian bytes.
pub open spec fn be32_val(b0: u8, b1: u8, b2: u8, b3: u8) -> u32 {
    ((b0 as u32) << 24 | (b1 as u32) << 16 | (b2 as u32) << 8 | (b3 as u32)) as u32
}

/// Reading back the encoding of an integer gives that integer.
pub proof fn lemma_be16_val_of(x: u16)
    ensures
        be16_val((x >> 8) as u8, x as u8) == x,
{
    assert((((x >> 8) as u8) as u16) << 8 | ((x as u8) as u16) == x) by (bit_vector);
}

/// Reading back the encoding of an integer gives that integer.
pub proof fn lemma_be32_val_of(x: u32)
    ensures
        be32_val((x >> 24) as u8, (x >> 16) as u8, (x >> 8) as u8, x as u8) == x,
{
    assert((((x >> 24) as u8) as u32) << 24 | (((x >> 16) as u8) as u32) << 16
        | (((x >> 8) as u8) as u32) << 8 | ((x as u8) as u32) == x) by (bit_vector);
}

/// Zero encodes as zero bytes.
pub proof fn lemma_be16_zero()
    ensures
        be16(0) == seq![0u8, 0u8],
{
    assert((0u16 >> 8) as u8 == 0) by (bit_vector);
    assert(be16(0) =~= seq![0u8, 0u8]);
}

/// Zero encodes as zero bytes.
pub proof fn lemma_be32_zero()
    ensures
        be32(0) == seq![0u8, 0u8, 0u8, 0u8],
{
    assert((0u32 >> 24) as u8 == 0) by (bit_vector);
    assert((0u32 >> 16) as u8 == 0) by (bit_vector);
    assert((0u32 >> 8) as u8 == 0) by (bit_vector);
    assert(be32(0) =~= seq![0u8, 0u8, 0u8, 0u8]);
}

#[verifier::external_type_specification]
#[verifier::external_body]
pub struct ExBytesMut(bytes::BytesMut);

#[verifier::external_type_specification]
#[verifier::external_body]
pub struct ExBytes(bytes::Bytes);

/// The bytes a `BytesMut` write buffer holds, oldest first.
pub uninterp spec fn bm_view(b: bytes::BytesMut) -> Seq<u8>;

/// The bytes a `Bytes` read buffer still holds, next-to-read first.
pub uninterp spec fn buf_view(b: bytes::Bytes) -> Seq<u8>;

/// Relies on bytes::BytesMut::new: a fresh buffer holds no bytes.
#[verifier::external_body]
pub fn bm_new() -> (r: bytes::BytesMut)
    ensures
        bm_view(r) == Seq::<u8>::empty(),
{
    bytes::BytesMut::new()
}

/// Relies on bytes::BufMut::put_u8 for BytesMut: appends the byte, growing
/// the buffer as needed.
#[verifier::external_body]
pub(crate) fn bm_put_u8(b: &mut bytes::BytesMut, v: u8)
    ensures
        bm_view(*final(b)) == bm_view(*old(b)).push(v),
{
    b.put_u8(v);
}

/// Relies on bytes::BufMut::put_u16 for BytesMut: appends the two big-endian
/// bytes of the integer.
#[verifier::external_body]
pub(crate) fn bm_put_u16(b: &mut bytes::BytesMut, v: u16)
    ensures
        bm_view(*final(b)) == bm_view(*old(b)) + be16(v),
{
    b.put_u16(v);
}

/// Relies on bytes::BufMut::put_u32 for BytesMut: appends the four big-endian
/// bytes of the integer.
#[verifier::external_body]
pub(crate) fn bm_put_u32(b: &mut bytes::BytesMut, v: u32)
    ensures
        bm_view(*final(b)) == bm_view(*old(b)) + be32(v),
{
    b.put_u32(v);
}

/// Relies on bytes::BufMut::put_slice for BytesMut: appends the slice's bytes.
#[verifier::external_body]
pub(crate) fn bm_put_slice(b: &mut bytes::BytesMut, s: &[u8])
    ensures
        bm_view(*final(b)) == bm_view(*old(b)) + s@,
{
    b.put_slice(s);
}

/// Relies on bytes::BufMut::put_bytes for BytesMut: appends the byte the
/// given number of times.
#[verifier::external_body]
pub(crate) fn bm_put_zeros(b: &mut bytes::BytesMut, n: usize)
    ensures
        bm_view(*final(b)) == bm_view(*old(b)) + Seq::<u8>::new(n as nat, |i: int| 0u8),
{
    b.put_bytes(0u8, n);
}

/// Relies on slice::to_vec through BytesMut's deref to a byte slice: the
/// buffer's bytes as an owned vector.
#[verifier::external_body]
pub fn bm_to_vec(b: &bytes::BytesMut) -> (r: Vec<u8>)
    ensures
        r@ == bm_view(*b),
{
    b.to_vec()
}

/// Relies on Bytes::copy_from_slice: the read buffer holds the slice's
/// bytes.
#[verifier::external_body]
pub fn buf_from_slice(s: &[u8]) -> (r: bytes::Bytes)
    ensures
        buf_view(r) == s@,
{
    bytes::Bytes::copy_from_slice(s)
}

/// Relies on bytes::Buf::remaining for Bytes, which is its length.
#[verifier::external_body]
pub fn buf_remaining(b: &bytes::Bytes) -> (r: usize)
    ensures
        r == buf_view(*b).len(),
{
    b.remaining()
}

/// Relies on bytes::Buf::get_u8 for Bytes: reads and consumes the first byte.
/// It panics on an empty buffer, which the precondition rules out.
#[verifier::external_body]
pub(crate) fn buf_get_u8(b: &mut bytes::Bytes) -> (r: u8)
    requires
        buf_view(*old(b)).len() >= 1,
    ensures
        r == buf_view(*old(b))[0],
        buf_view(*final(b)) == buf_view(*old(b)).skip(1),
{
    b.get_u8()
}

/// Relies on bytes::Buf::get_u16 for Bytes: reads and consumes the first two
/// bytes as a big-endian integer. It panics on a short buffer, which the
/// precondition rules out.
#[verifier::external_body]
pub(crate) fn buf_get_u16(b: &mut bytes::Bytes) -> (r: u16)
    requires
        buf_view(*old(b)).len() >= 2,
    ensures
        r == be16_val(buf_view(*old(b))[0], buf_view(*old(b))[1]),
        buf_view(*final(b)) == buf_view(*old(b)).skip(2),
{
    b.get_u16()
}

/// Relies on bytes::Buf::get_u32 for Bytes: reads and consumes the first four
/// bytes as a big-endian integer. It panics on a short buffer, which the
/// precondition rules out.
#[verifier::external_body]
pub(crate) fn buf_get_u32(b: &mut bytes::Bytes) -> (r: u32)
    requires
        buf_view(*old(b)).len() >= 4,
    ensures
        r == be32_val(
            buf_view(*old(b))[0],
            buf_view(*old(b))[1],
            buf_view(*old(b))[2],
            buf_view(*old(b))[3],
        ),
        buf_view(*final(b)) == buf_view(*old(b)).skip(4),
{
    b.get_u32()
}

/// Relies on bytes::Buf::advance for Bytes: discards the first bytes. It
/// panics when asked for more than remain, which the precondition rules out.
#[verifier::external_body]
pub(crate) fn buf_advance(b: &mut bytes::Bytes, n: usize)
    requires
        n <= buf_view(*old(b)).len(),
    ensures
        buf_view(*final(b)) == buf_view(*old(b)).skip(n as int),
{
    b.advance(n);
}

/// Relies on bytes::Buf::copy_to_bytes for Bytes, then slice::to_vec: reads
/// and consumes the first bytes. It panics when asked for more than remain,
/// which the precondition rules out.
#[verifier::external_body]
pub(crate) fn buf_copy_to_vec(b: &mut bytes::Bytes, n: usize) -> (r: Vec<u8>)
    requires
        n <= buf_view(*old(b)).len(),
    ensures
        r@ == buf_view(*old(b)).take(n as int),
        buf_view(*final(b)) == buf_view(*old(b)).skip(n as int),
{
    let taken = b.copy_to_bytes(n);
    taken.to_vec()
}

} // verus!
