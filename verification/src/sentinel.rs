//! The sentinel-coded wrapper idioms: an optional value whose absence is a
//! reserved id, and a specific-or-wildcard value whose wildcard is a
//! reserved code. Each domain type owns its sentinel; the wrappers delegate
//! to the wrapped type's encoding, add no tag byte, and keep the encoded
//! size identical to the wrapped type's size.

use vstd::prelude::*;
use crate::buffer::{be32, be32_val, bm_put_u32, buf_get_u32, buf_remaining};
use crate::error::{ReadError, ReadResult, WriteResult};
use crate::wire::{Readable, Writable, X11Size};

verus! {

/// A resource id: windows, cursor appearances and their kin. Zero is
/// reserved as the sentinel the wrappers below use, so an id is never zero.
#[derive(Debug, Hash, Clone, Copy, PartialEq, Eq, Structural)]
pub struct ResId {
    pub id: u32,
}

impl ResId {
    /// Ids leave zero to the sentinel encodings.
    pub open spec fn wf(self) -> bool {
        self.id != 0
    }

    /// Make an id from a non-zero value.
    pub fn new(id: u32) -> (r: Option<ResId>)
        ensures
            match r {
                Some(v) => v.wf() && v.id == id && id != 0,
                None => id == 0,
            },
    {
        if id == 0 {
            None
        } else {
            Some(ResId { id })
        }
    }
}

impl View for ResId {
    type V = ResId;

    open spec fn view(&self) -> ResId {
        *self
    }
}

impl X11Size for ResId {
    open spec fn size_spec(&self) -> nat {
        4
    }

    fn x11_size(&self) -> usize {
        4
    }
}

impl Writable for ResId {
    open spec fn wire_wf(&self) -> bool {
        self.wf()
    }

    open spec fn encoding(&self) -> Seq<u8> {
        be32(self.id)
    }

    proof fn lemma_size_is_encoding_len(&self) {
    }

    fn write_to(&self, buf: &mut bytes::BytesMut) -> WriteResult {
        bm_put_u32(buf, self.id);
        Ok(())
    }
}

impl Readable for ResId {
    open spec fn read_spec(bytes: Seq<u8>) -> Result<(ResId, int), ReadError> {
        if bytes.len() < 4 {
            Err(ReadError::InvalidData)
        } else if be32_val(bytes[0], bytes[1], bytes[2], bytes[3]) == 0 {
            Err(ReadError::InvalidData)
        } else {
            Ok((ResId { id: be32_val(bytes[0], bytes[1], bytes[2], bytes[3]) }, 4))
        }
    }

    fn read_from(buf: &mut bytes::Bytes) -> ReadResult<Self> {
        if buf_remaining(buf) < 4 {
            return Err(ReadError::InvalidData);
        }
        let id = buf_get_u32(buf);
        if id == 0 {
            Err(ReadError::InvalidData)
        } else {
            Ok(ResId { id })
        }
    }
}

/// An optional resource id. Absence is encoded as the reserved id zero —
/// the domain type's own sentinel — with no added tag byte, so the wire
/// size equals the wrapped id's size.
#[derive(Debug, Hash, Clone, Copy, PartialEq, Eq, Structural)]
pub enum OptionalId {
    Absent,
    Present(ResId),
}

impl View for OptionalId {
    type V = OptionalId;

    open spec fn view(&self) -> OptionalId {
        *self
    }
}

impl X11Size for OptionalId {
    open spec fn size_spec(&self) -> nat {
        4
    }

    fn x11_size(&self) -> usize {
        4
    }
}

impl Writable for OptionalId {
    open spec fn wire_wf(&self) -> bool {
        match self {
            OptionalId::Absent => true,
            OptionalId::Present(v) => v.wf(),
        }
    }

    open spec fn encoding(&self) -> Seq<u8> {
        match self {
            OptionalId::Absent => be32(0),
            OptionalId::Present(v) => v.encoding(),
        }
    }

    proof fn lemma_size_is_encoding_len(&self) {
    }

    fn write_to(&self, buf: &mut bytes::BytesMut) -> WriteResult {
        match self {
            OptionalId::Absent => {
                bm_put_u32(buf, 0);
                Ok(())
            },
            OptionalId::Present(v) => v.write_to(buf),
        }
    }
}

impl Readable for OptionalId {
    open spec fn read_spec(bytes: Seq<u8>) -> Result<(OptionalId, int), ReadError> {
        if bytes.len() < 4 {
            Err(ReadError::InvalidData)
        } else if be32_val(bytes[0], bytes[1], bytes[2], bytes[3]) == 0 {
            Ok((OptionalId::Absent, 4))
        } else {
            Ok((OptionalId::Present(ResId { id: be32_val(bytes[0], bytes[1], bytes[2], bytes[3]) }), 4))
        }
    }

    fn read_from(buf: &mut bytes::Bytes) -> ReadResult<Self> {
        if buf_remaining(buf) < 4 {
            return Err(ReadError::InvalidData);
        }
        let id = buf_get_u32(buf);
        if id == 0 {
            Ok(OptionalId::Absent)
        } else {
            Ok(OptionalId::Present(ResId { id }))
        }
    }
}

/// A timestamp that may stand for the server's current time. The wildcard
/// is encoded as the reserved time zero, with no added tag byte, so the
/// wire size equals a concrete timestamp's size.
#[derive(Debug, Hash, Clone, Copy, PartialEq, Eq, Structural)]
pub enum CurrentableTime {
    CurrentTime,
    At(u32),
}

impl CurrentableTime {
    /// A concrete time leaves zero to the wildcard.
    pub open spec fn wf(self) -> bool {
        match self {
            CurrentableTime::CurrentTime => true,
            CurrentableTime::At(t) => t != 0,
        }
    }
}

impl View for CurrentableTime {
    type V = CurrentableTime;

    open spec fn view(&self) -> CurrentableTime {
        *self
    }
}

impl X11Size for CurrentableTime {
    open spec fn size_spec(&self) -> nat {
        4
    }

    fn x11_size(&self) -> usize {
        4
    }
}

impl Writable for CurrentableTime {
    open spec fn wire_wf(&self) -> bool {
        self.wf()
    }

    open spec fn encoding(&self) -> Seq<u8> {
        match self {
            CurrentableTime::CurrentTime => be32(0),
            CurrentableTime::At(t) => be32(*t),
        }
    }

    proof fn lemma_size_is_encoding_len(&self) {
    }

    fn write_to(&self, buf: &mut bytes::BytesMut) -> WriteResult {
        match self {
            CurrentableTime::CurrentTime => bm_put_u32(buf, 0),
            CurrentableTime::At(t) => bm_put_u32(buf, *t),
        }
        Ok(())
    }
}

impl Readable for CurrentableTime {
    open spec fn read_spec(bytes: Seq<u8>) -> Result<(CurrentableTime, int), ReadError> {
        if bytes.len() < 4 {
            Err(ReadError::InvalidData)
        } else if be32_val(bytes[0], bytes[1], bytes[2], bytes[3]) == 0 {
            Ok((CurrentableTime::CurrentTime, 4))
        } else {
            Ok((CurrentableTime::At(be32_val(bytes[0], bytes[1], bytes[2], bytes[3])), 4))
        }
    }

    fn read_from(buf: &mut bytes::Bytes) -> ReadResult<Self> {
        if buf_remaining(buf) < 4 {
            return Err(ReadError::InvalidData);
        }
        let t = buf_get_u32(buf);
        if t == 0 {
            Ok(CurrentableTime::CurrentTime)
        } else {
            Ok(CurrentableTime::At(t))
        }
    }
}

/// The optional wrapper adds nothing to the wire: a present id occupies
/// exactly the bytes the id itself would.
pub proof fn lemma_optional_size_preserved(v: ResId)
    ensures
        OptionalId::Present(v).size_spec() == v.size_spec(),
        OptionalId::Absent.size_spec() == v.size_spec(),
{
}

/// The wildcard wrapper adds nothing to the wire: the wildcard occupies
/// exactly the bytes a concrete time would.
pub proof fn lemma_wildcard_size_preserved(t: u32)
    ensures
        CurrentableTime::CurrentTime.size_spec() == CurrentableTime::At(t).size_spec(),
{
}

/// Round trip for the optional wrapper: reading back a well-formed value's
/// encoding gives the value, sentinel and concrete cases alike.
pub proof fn lemma_optional_round_trip(v: OptionalId, rest: Seq<u8>)
    requires
        v.wire_wf(),
    ensures
        OptionalId::read_spec(v.encoding() + rest) == Ok::<(OptionalId, int), ReadError>((v, 4)),
{
    match v {
        OptionalId::Absent => {
            let b = v.encoding() + rest;
            crate::buffer::lemma_be32_zero();
            crate::buffer::lemma_be32_val_of(0);
            assert(b[0] == 0 && b[1] == 0 && b[2] == 0 && b[3] == 0);
            assert(be32_val(0, 0, 0, 0) == 0) by (bit_vector);
        },
        OptionalId::Present(r) => {
            let b = v.encoding() + rest;
            assert(b[0] == (r.id >> 24) as u8 && b[1] == (r.id >> 16) as u8
                && b[2] == (r.id >> 8) as u8 && b[3] == r.id as u8);
            crate::buffer::lemma_be32_val_of(r.id);
        },
    }
}

/// Round trip for the wildcard wrapper.
pub proof fn lemma_wildcard_round_trip(v: CurrentableTime, rest: Seq<u8>)
    requires
        v.wire_wf(),
    ensures
        CurrentableTime::read_spec(v.encoding() + rest)
            == Ok::<(CurrentableTime, int), ReadError>((v, 4)),
{
    match v {
        CurrentableTime::CurrentTime => {
            let b = v.encoding() + rest;
            crate::buffer::lemma_be32_zero();
            crate::buffer::lemma_be32_val_of(0);
            assert(b[0] == 0 && b[1] == 0 && b[2] == 0 && b[3] == 0);
            assert(be32_val(0, 0, 0, 0) == 0) by (bit_vector);
        },
        CurrentableTime::At(t) => {
            let b = v.encoding() + rest;
            assert(b[0] == (t >> 24) as u8 && b[1] == (t >> 16) as u8 && b[2] == (t >> 8) as u8
                && b[3] == t as u8);
            crate::buffer::lemma_be32_val_of(t);
        },
    }
}

} // verus!
