//! Messages for client and server bookkeeping, hand-written against the
//! value-level codec interfaces: a request with a variable-length body, its
//! reply, an event without a sequence number, and an error.

use vstd::prelude::*;
use crate::buffer::{be16, be16_val, be32_val, bm_view, buf_view};
use crate::buffer::{bm_put_u8, bm_put_u16, bm_put_slice};
use crate::buffer::{buf_advance, buf_copy_to_vec, buf_get_u8, buf_get_u16, buf_get_u32, buf_remaining};
use crate::codec::{pad4, pad4_len, zeros, lemma_pad4};
use crate::error::{ReadError, ReadResult, WriteResult};
use crate::message::{Error, Event, Reply, Request};
use crate::wire::{Readable, Writable, X11Size};

verus! {

/// A request that asks whether the server supports a named extension.
#[derive(Debug, Clone, PartialEq, Eq)]
pub struct QueryExtensionRequest {
    /// The extension's name, as wire bytes.
    pub name: Vec<u8>,
}

impl QueryExtensionRequest {
    /// The name must leave the header's length field representable.
    pub open spec fn name_wf(&self) -> bool {
        self.name@.len() <= 0xFF00
    }
}

impl View for QueryExtensionRequest {
    type V = Seq<u8>;

    open spec fn view(&self) -> Seq<u8> {
        self.name@
    }
}

impl X11Size for QueryExtensionRequest {
    open spec fn size_spec(&self) -> nat {
        8 + self.name@.len() + pad4(self.name@.len())
    }

    fn x11_size(&self) -> (r: usize)
        ensures
            r == self.size_spec(),
    {
        let n = self.name.len();
        let p = pad4_len(n);
        8 + n + p
    }
}

impl Writable for QueryExtensionRequest {
    open spec fn wire_wf(&self) -> bool {
        self.name_wf()
    }

    open spec fn encoding(&self) -> Seq<u8> {
        seq![98u8, 0u8] + be16((self.size_spec() / 4) as u16)
            + be16(self.name@.len() as u16) + seq![0u8, 0u8] + self.name@
            + zeros(pad4(self.name@.len()))
    }

    proof fn lemma_size_is_encoding_len(&self) {
    }

    fn write_to(&self, buf: &mut bytes::BytesMut) -> WriteResult {
        let n = self.name.len();
        let p = pad4_len(n);
        let total = 8 + n + p;
        bm_put_u8(buf, 98);
        bm_put_u8(buf, 0);
        bm_put_u16(buf, (total / 4) as u16);
        bm_put_u16(buf, n as u16);
        bm_put_u8(buf, 0);
        bm_put_u8(buf, 0);
        bm_put_slice(buf, self.name.as_slice());
        crate::buffer::bm_put_zeros(buf, p);
        assert(bm_view(*buf) =~= bm_view(*old(buf)) + self.encoding());
        Ok(())
    }
}

impl Request for QueryExtensionRequest {
    type OtherErrors = ();

    type Reply = QueryExtension;

    open spec fn major_opcode_spec() -> u8 {
        98
    }

    fn major_opcode() -> u8 {
        98
    }

    open spec fn minor_opcode_spec() -> Option<u8> {
        None
    }

    fn minor_opcode() -> Option<u8> {
        None
    }

    fn length(&self) -> (r: u16) {
        let n = self.name.len();
        let p = pad4_len(n);
        let total = 8 + n + p;
        proof {
            lemma_pad4(n as nat);
            vstd::arithmetic::div_mod::lemma_add_mod_noop(8, (n + p) as int, 4);
            assert(total % 4 == 0);
        }
        (total / 4) as u16
    }
}

/// The reply to a [`QueryExtensionRequest`]: whether the extension is
/// present, and the opcode and codes it was assigned.
#[derive(Debug, Hash, Clone, Copy, PartialEq, Eq, Structural)]
pub struct QueryExtension {
    /// The sequence number of the request that generated this reply.
    pub sequence: u16,
    /// Whether the named extension is present.
    pub present: bool,
    /// The extension's assigned major opcode, meaningful when present.
    pub major_opcode: u8,
    /// The first event code the extension defines, meaningful when present.
    pub first_event_code: u8,
    /// The first error code the extension defines, meaningful when present.
    pub first_error_code: u8,
}

impl View for QueryExtension {
    type V = QueryExtension;

    open spec fn view(&self) -> QueryExtension {
        *self
    }
}

impl X11Size for QueryExtension {
    open spec fn size_spec(&self) -> nat {
        32
    }

    fn x11_size(&self) -> usize {
        32
    }
}

impl Readable for QueryExtension {
    open spec fn read_spec(bytes: Seq<u8>) -> Result<(QueryExtension, int), ReadError> {
        if bytes.len() < 32 {
            Err(ReadError::InvalidData)
        } else if bytes[0] != 1 || bytes[1] != 0 {
            Err(ReadError::InvalidData)
        } else if be32_val(bytes[4], bytes[5], bytes[6], bytes[7]) != 0 {
            Err(ReadError::InvalidData)
        } else if bytes[8] >= 2 {
            Err(ReadError::InvalidData)
        } else {
            Ok((
                QueryExtension {
                    sequence: be16_val(bytes[2], bytes[3]),
                    present: bytes[8] == 1,
                    major_opcode: bytes[9],
                    first_event_code: bytes[10],
                    first_error_code: bytes[11],
                },
                32,
            ))
        }
    }

    fn read_from(buf: &mut bytes::Bytes) -> ReadResult<Self> {
        if buf_remaining(buf) < 32 {
            return Err(ReadError::InvalidData);
        }
        let b0 = buf_get_u8(buf);
        let b1 = buf_get_u8(buf);
        let sequence = buf_get_u16(buf);
        let lenf = buf_get_u32(buf);
        let present_byte = buf_get_u8(buf);
        let major_opcode = buf_get_u8(buf);
        let first_event_code = buf_get_u8(buf);
        let first_error_code = buf_get_u8(buf);
        if b0 != 1 || b1 != 0 {
            return Err(ReadError::InvalidData);
        }
        if lenf != 0 {
            return Err(ReadError::InvalidData);
        }
        if present_byte >= 2 {
            return Err(ReadError::InvalidData);
        }
        buf_advance(buf, 20);
        Ok(QueryExtension {
            sequence,
            present: present_byte == 1,
            major_opcode,
            first_event_code,
            first_error_code,
        })
    }
}

impl Reply for QueryExtension {
    type Request = QueryExtensionRequest;

    open spec fn reply_wf(&self) -> bool {
        true
    }

    fn length(&self) -> u32 {
        0
    }

    open spec fn sequence_spec(&self) -> u16 {
        self.sequence
    }

    fn sequence(&self) -> u16 {
        self.sequence
    }
}

/// An event reporting the state of the keyboard: one bit for each of the
/// 248 keys past the eighth keycode. It carries no sequence number, so its
/// body begins immediately after the code byte.
#[derive(Debug, Clone, PartialEq, Eq)]
pub struct KeymapNotify {
    /// The key bitmap: exactly thirty-one bytes.
    pub keys: Vec<u8>,
}

impl View for KeymapNotify {
    type V = Seq<u8>;

    open spec fn view(&self) -> Seq<u8> {
        self.keys@
    }
}

impl X11Size for KeymapNotify {
    open spec fn size_spec(&self) -> nat {
        32
    }

    fn x11_size(&self) -> usize {
        32
    }
}

impl Writable for KeymapNotify {
    open spec fn wire_wf(&self) -> bool {
        self.keys@.len() == 31
    }

    open spec fn encoding(&self) -> Seq<u8> {
        seq![11u8] + self.keys@
    }

    proof fn lemma_size_is_encoding_len(&self) {
    }

    fn write_to(&self, buf: &mut bytes::BytesMut) -> WriteResult {
        bm_put_u8(buf, 11);
        bm_put_slice(buf, self.keys.as_slice());
        assert(bm_view(*buf) =~= bm_view(*old(buf)) + self.encoding());
        Ok(())
    }
}

impl Readable for KeymapNotify {
    open spec fn read_spec(bytes: Seq<u8>) -> Result<(Seq<u8>, int), ReadError> {
        if bytes.len() < 32 {
            Err(ReadError::InvalidData)
        } else if bytes[0] != 11 {
            Err(ReadError::InvalidData)
        } else {
            Ok((bytes.subrange(1, 32), 32))
        }
    }

    fn read_from(buf: &mut bytes::Bytes) -> ReadResult<Self> {
        if buf_remaining(buf) < 32 {
            return Err(ReadError::InvalidData);
        }
        let b0 = buf_get_u8(buf);
        if b0 != 11 {
            return Err(ReadError::InvalidData);
        }
        let keys = buf_copy_to_vec(buf, 31);
        proof {
            assert(keys@ =~= buf_view(*old(buf)).subrange(1, 32));
            assert(buf_view(*buf) =~= buf_view(*old(buf)).skip(32));
        }
        Ok(KeymapNotify { keys })
    }
}

impl Event for KeymapNotify {
    open spec fn code_spec() -> u8 {
        11
    }

    fn code() -> u8 {
        11
    }

    open spec fn sequence_spec(&self) -> Option<u16> {
        None
    }

    fn sequence(&self) -> Option<u16> {
        None
    }
}

/// An error reporting that a request named a window that does not exist.
#[derive(Debug, Hash, Clone, Copy, PartialEq, Eq, Structural)]
pub struct WindowError {
    /// The sequence number of the request that generated this error.
    pub sequence: u16,
    /// The id that did not refer to a defined window.
    pub bad_resource_id: u32,
    /// The minor opcode of the request that generated this error.
    pub minor_opcode: u16,
    /// The major opcode of the request that generated this error.
    pub major_opcode: u8,
}

impl View for WindowError {
    type V = WindowError;

    open spec fn view(&self) -> WindowError {
        *self
    }
}

impl X11Size for WindowError {
    open spec fn size_spec(&self) -> nat {
        32
    }

    fn x11_size(&self) -> usize {
        32
    }
}

impl Readable for WindowError {
    open spec fn read_spec(bytes: Seq<u8>) -> Result<(WindowError, int), ReadError> {
        if bytes.len() < 32 {
            Err(ReadError::InvalidData)
        } else if bytes[0] != 0 || bytes[1] != 3 {
            Err(ReadError::InvalidData)
        } else {
            Ok((
                WindowError {
                    sequence: be16_val(bytes[2], bytes[3]),
                    bad_resource_id: be32_val(bytes[4], bytes[5], bytes[6], bytes[7]),
                    minor_opcode: be16_val(bytes[8], bytes[9]),
                    major_opcode: bytes[10],
                },
                32,
            ))
        }
    }

    fn read_from(buf: &mut bytes::Bytes) -> ReadResult<Self> {
        if buf_remaining(buf) < 32 {
            return Err(ReadError::InvalidData);
        }
        let b0 = buf_get_u8(buf);
        let b1 = buf_get_u8(buf);
        let sequence = buf_get_u16(buf);
        let bad_resource_id = buf_get_u32(buf);
        let minor_opcode = buf_get_u16(buf);
        let major_opcode = buf_get_u8(buf);
        if b0 != 0 || b1 != 3 {
            return Err(ReadError::InvalidData);
        }
        buf_advance(buf, 21);
        Ok(WindowError { sequence, bad_resource_id, minor_opcode, major_opcode })
    }
}

impl Error for WindowError {
    open spec fn code_spec() -> u8 {
        3
    }

    fn code() -> u8 {
        3
    }

    open spec fn sequence_spec(&self) -> u16 {
        self.sequence
    }

    fn sequence(&self) -> u16 {
        self.sequence
    }

    open spec fn minor_opcode_spec(&self) -> u16 {
        self.minor_opcode
    }

    fn minor_opcode(&self) -> u16 {
        self.minor_opcode
    }

    open spec fn major_opcode_spec(&self) -> u8 {
        self.major_opcode
    }

    fn major_opcode(&self) -> u8 {
        self.major_opcode
    }
}

} // verus!
