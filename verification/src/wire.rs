//! The value-level codec interfaces: every field type, hand-written or
//! produced from a schema, reports its encoded size, writes itself into a
//! growable buffer, and reads itself back from a cursor. Types whose read
//! routine needs an externally supplied count implement the contextual
//! variant instead of the context-free one.

use vstd::prelude::*;
use crate::buffer::{be16, be16_val, be32, be32_val, bm_view, buf_view};
use crate::buffer::{bm_put_u8, bm_put_u16, bm_put_u32, bm_put_slice};
use crate::buffer::{buf_get_u8, buf_get_u16, buf_get_u32, buf_copy_to_vec, buf_remaining};
use crate::buffer::{lemma_be16_val_of, lemma_be32_val_of};
use crate::error::{ReadError, ReadResult, WriteResult};

verus! {

/// A value's encoded size on the wire: a constant for fixed-width types,
/// computed from the value otherwise.
pub trait X11Size {
    /// The number of bytes the value occupies on the wire.
    spec fn size_spec(&self) -> nat;

    /// Report the value's encoded size.
    fn x11_size(&self) -> (r: usize)
        requires
            self.size_spec() <= usize::MAX,
        ensures
            r as nat == self.size_spec(),
    ;
}

/// A value that can be written to a buffer.
pub trait Writable: X11Size {
    /// The values the type can put on the wire. Hand-written types own their
    /// invariants; for most types every value qualifies.
    spec fn wire_wf(&self) -> bool;

    /// The value's exact wire encoding.
    spec fn encoding(&self) -> Seq<u8>;

    /// The reported size equals the number of bytes the write emits.
    proof fn lemma_size_is_encoding_len(&self)
        requires
            self.wire_wf(),
        ensures
            self.encoding().len() == self.size_spec(),
    ;

    /// Append the value's encoding to the buffer: exactly `size_spec` bytes,
    /// never partially.
    fn write_to(&self, buf: &mut bytes::BytesMut) -> (r: WriteResult)
        requires
            self.wire_wf(),
        ensures
            r is Ok,
            bm_view(*final(buf)) == bm_view(*old(buf)) + self.encoding(),
    ;
}

/// A value that can be read back from a buffer without external context.
pub trait Readable: Sized + View {
    /// What reading from the given bytes yields: a value (as its view) and
    /// the number of bytes consumed, or the read error. This is the type's
    /// parsing function and the reference every implementation is held to.
    spec fn read_spec(bytes: Seq<u8>) -> Result<(Self::V, int), ReadError>;

    /// Read one value from the front of the buffer. On success exactly the
    /// value's bytes are consumed; on failure the cursor position is
    /// unspecified and the caller must discard the whole message.
    fn read_from(buf: &mut bytes::Bytes) -> (r: ReadResult<Self>)
        ensures
            match Self::read_spec(buf_view(*old(buf))) {
                Ok(p) => {
                    &&& r matches Ok(v) && v@ == p.0
                    &&& buf_view(*final(buf)) == buf_view(*old(buf)).skip(p.1)
                },
                Err(e) => r == Err::<Self, ReadError>(e),
            },
    ;
}

/// A value whose read routine needs an externally computed count, passed as
/// an explicit argument rather than read from the value's own bytes.
pub trait ContextualReadable: Sized + View {
    /// What reading with the given count yields.
    spec fn read_with_spec(bytes: Seq<u8>, count: nat) -> Result<(Self::V, int), ReadError>;

    /// Read one value from the front of the buffer, the count supplied by the
    /// caller from an earlier field or let binding.
    fn read_with(buf: &mut bytes::Bytes, count: usize) -> (r: ReadResult<Self>)
        ensures
            match Self::read_with_spec(buf_view(*old(buf)), count as nat) {
                Ok(p) => {
                    &&& r matches Ok(v) && v@ == p.0
                    &&& buf_view(*final(buf)) == buf_view(*old(buf)).skip(p.1)
                },
                Err(e) => r == Err::<Self, ReadError>(e),
            },
    ;
}

impl X11Size for u8 {
    open spec fn size_spec(&self) -> nat {
        1
    }

    fn x11_size(&self) -> usize {
        1
    }
}

impl Writable for u8 {
    open spec fn wire_wf(&self) -> bool {
        true
    }

    open spec fn encoding(&self) -> Seq<u8> {
        seq![*self]
    }

    proof fn lemma_size_is_encoding_len(&self) {
    }

    fn write_to(&self, buf: &mut bytes::BytesMut) -> WriteResult {
        bm_put_u8(buf, *self);
        assert(bm_view(*buf) =~= bm_view(*old(buf)) + self.encoding());
        Ok(())
    }
}

impl Readable for u8 {
    open spec fn read_spec(bytes: Seq<u8>) -> Result<(u8, int), ReadError> {
        if bytes.len() >= 1 {
            Ok((bytes[0], 1))
        } else {
            Err(ReadError::InvalidData)
        }
    }

    fn read_from(buf: &mut bytes::Bytes) -> ReadResult<Self> {
        if buf_remaining(buf) < 1 {
            return Err(ReadError::InvalidData);
        }
        Ok(buf_get_u8(buf))
    }
}

impl X11Size for u16 {
    open spec fn size_spec(&self) -> nat {
        2
    }

    fn x11_size(&self) -> usize {
        2
    }
}

impl Writable for u16 {
    open spec fn wire_wf(&self) -> bool {
        true
    }

    open spec fn encoding(&self) -> Seq<u8> {
        be16(*self)
    }

    proof fn lemma_size_is_encoding_len(&self) {
    }

    fn write_to(&self, buf: &mut bytes::BytesMut) -> WriteResult {
        bm_put_u16(buf, *self);
        Ok(())
    }
}

impl Readable for u16 {
    open spec fn read_spec(bytes: Seq<u8>) -> Result<(u16, int), ReadError> {
        if bytes.len() >= 2 {
            Ok((be16_val(bytes[0], bytes[1]), 2))
        } else {
            Err(ReadError::InvalidData)
        }
    }

    fn read_from(buf: &mut bytes::Bytes) -> ReadResult<Self> {
        if buf_remaining(buf) < 2 {
            return Err(ReadError::InvalidData);
        }
        Ok(buf_get_u16(buf))
    }
}

impl X11Size for u32 {
    open spec fn size_spec(&self) -> nat {
        4
    }

    fn x11_size(&self) -> usize {
        4
    }
}

impl Writable for u32 {
    open spec fn wire_wf(&self) -> bool {
        true
    }

    open spec fn encoding(&self) -> Seq<u8> {
        be32(*self)
    }

    proof fn lemma_size_is_encoding_len(&self) {
    }

    fn write_to(&self, buf: &mut bytes::BytesMut) -> WriteResult {
        bm_put_u32(buf, *self);
        Ok(())
    }
}

impl Readable for u32 {
    open spec fn read_spec(bytes: Seq<u8>) -> Result<(u32, int), ReadError> {
        if bytes.len() >= 4 {
            Ok((be32_val(bytes[0], bytes[1], bytes[2], bytes[3]), 4))
        } else {
            Err(ReadError::InvalidData)
        }
    }

    fn read_from(buf: &mut bytes::Bytes) -> ReadResult<Self> {
        if buf_remaining(buf) < 4 {
            return Err(ReadError::InvalidData);
        }
        Ok(buf_get_u32(buf))
    }
}

impl X11Size for bool {
    open spec fn size_spec(&self) -> nat {
        1
    }

    fn x11_size(&self) -> usize {
        1
    }
}

impl Writable for bool {
    open spec fn wire_wf(&self) -> bool {
        true
    }

    open spec fn encoding(&self) -> Seq<u8> {
        if *self {
            seq![1u8]
        } else {
            seq![0u8]
        }
    }

    proof fn lemma_size_is_encoding_len(&self) {
    }

    fn write_to(&self, buf: &mut bytes::BytesMut) -> WriteResult {
        if *self {
            bm_put_u8(buf, 1);
        } else {
            bm_put_u8(buf, 0);
        }
        assert(bm_view(*buf) =~= bm_view(*old(buf)) + self.encoding());
        Ok(())
    }
}

impl Readable for bool {
    open spec fn read_spec(bytes: Seq<u8>) -> Result<(bool, int), ReadError> {
        if bytes.len() >= 1 {
            if bytes[0] == 0 {
                Ok((false, 1))
            } else if bytes[0] == 1 {
                Ok((true, 1))
            } else {
                Err(ReadError::InvalidData)
            }
        } else {
            Err(ReadError::InvalidData)
        }
    }

    fn read_from(buf: &mut bytes::Bytes) -> ReadResult<Self> {
        if buf_remaining(buf) < 1 {
            return Err(ReadError::InvalidData);
        }
        let b = buf_get_u8(buf);
        if b == 0 {
            Ok(false)
        } else if b == 1 {
            Ok(true)
        } else {
            Err(ReadError::InvalidData)
        }
    }
}

impl X11Size for Vec<u8> {
    open spec fn size_spec(&self) -> nat {
        self@.len()
    }

    fn x11_size(&self) -> usize {
        self.len()
    }
}

impl Writable for Vec<u8> {
    open spec fn wire_wf(&self) -> bool {
        true
    }

    open spec fn encoding(&self) -> Seq<u8> {
        self@
    }

    proof fn lemma_size_is_encoding_len(&self) {
    }

    fn write_to(&self, buf: &mut bytes::BytesMut) -> WriteResult {
        bm_put_slice(buf, self.as_slice());
        Ok(())
    }
}

impl ContextualReadable for Vec<u8> {
    open spec fn read_with_spec(bytes: Seq<u8>, count: nat) -> Result<(Seq<u8>, int), ReadError> {
        if bytes.len() >= count {
            Ok((bytes.take(count as int), count as int))
        } else {
            Err(ReadError::InvalidData)
        }
    }

    fn read_with(buf: &mut bytes::Bytes, count: usize) -> ReadResult<Self> {
        if buf_remaining(buf) < count {
            return Err(ReadError::InvalidData);
        }
        let v = buf_copy_to_vec(buf, count);
        Ok(v)
    }
}

/// Reading back a one-byte integer's encoding gives the integer and consumes
/// one byte, whatever follows it.
pub proof fn lemma_u8_round_trip(x: u8, rest: Seq<u8>)
    ensures
        <u8 as Readable>::read_spec(x.encoding() + rest) == Ok::<(u8, int), ReadError>((x, 1)),
{
    assert((x.encoding() + rest)[0] == x);
}

/// Reading back a two-byte integer's encoding gives the integer and consumes
/// two bytes, whatever follows it.
pub proof fn lemma_u16_round_trip(x: u16, rest: Seq<u8>)
    ensures
        <u16 as Readable>::read_spec(x.encoding() + rest) == Ok::<(u16, int), ReadError>((x, 2)),
{
    let b = x.encoding() + rest;
    assert(b[0] == (x >> 8) as u8 && b[1] == x as u8);
    lemma_be16_val_of(x);
}

/// Reading back a four-byte integer's encoding gives the integer and consumes
/// four bytes, whatever follows it.
pub proof fn lemma_u32_round_trip(x: u32, rest: Seq<u8>)
    ensures
        <u32 as Readable>::read_spec(x.encoding() + rest) == Ok::<(u32, int), ReadError>((x, 4)),
{
    let b = x.encoding() + rest;
    assert(b[0] == (x >> 24) as u8 && b[1] == (x >> 16) as u8 && b[2] == (x >> 8) as u8
        && b[3] == x as u8);
    lemma_be32_val_of(x);
}

/// Reading back a byte list's encoding with its own length as the count gives
/// the list and consumes its bytes, whatever follows them.
pub proof fn lemma_bytes_round_trip(v: Vec<u8>, rest: Seq<u8>)
    ensures
        <Vec<u8> as ContextualReadable>::read_with_spec(v.encoding() + rest, v@.len())
            == Ok::<(Seq<u8>, int), ReadError>((v@, v@.len() as int)),
{
    let b = v.encoding() + rest;
    assert(b.take(v@.len() as int) =~= v@);
}

} // verus!
