//! Structure-level serialize and deserialize: the convenience layer for
//! top-level, context-free, owned-buffer values — types that are not
//! embedded inside another message. Values embedded in messages implement
//! the value-level interfaces instead.

use vstd::prelude::*;
use crate::buffer::{buf_copy_to_vec, buf_from_slice, buf_get_u8, buf_remaining, buf_view};
use crate::error::{ReadError, ReadResult, WriteError, WriteResult};
use vstd::string::StrSliceExecFns;
use vstd::utf8::{decode_utf8, encode_utf8, valid_utf8};

verus! {

/// A destination with a fixed amount of room, for all-or-nothing writes
/// into caller-supplied storage.
pub struct BoundedBuf {
    data: Vec<u8>,
    limit: usize,
}

impl View for BoundedBuf {
    type V = Seq<u8>;

    closed spec fn view(&self) -> Seq<u8> {
        self.data@
    }
}

impl BoundedBuf {
    /// The buffer never holds more than its room.
    pub closed spec fn inv(&self) -> bool {
        self.data@.len() <= self.limit
    }

    /// The room the buffer was made with.
    pub closed spec fn limit_spec(&self) -> nat {
        self.limit as nat
    }

    /// An empty buffer with the given room.
    pub fn new(limit: usize) -> (r: BoundedBuf)
        ensures
            r.inv(),
            r@ == Seq::<u8>::empty(),
            r.limit_spec() == limit,
    {
        BoundedBuf { data: Vec::new(), limit }
    }

    /// The room still unwritten.
    pub fn remaining(&self) -> (r: usize)
        requires
            self.inv(),
        ensures
            r == self.limit_spec() - self@.len(),
    {
        self.limit - self.data.len()
    }

    /// Append bytes that fit in the remaining room.
    pub fn append(&mut self, bytes: &Vec<u8>)
        requires
            old(self).inv(),
            old(self)@.len() + bytes@.len() <= old(self).limit_spec(),
        ensures
            final(self).inv(),
            final(self)@ == old(self)@ + bytes@,
            final(self).limit_spec() == old(self).limit_spec(),
    {
        let n = bytes.len();
        let mut i: usize = 0;
        while i < n
            invariant
                0 <= i <= n,
                n == bytes@.len(),
                self.data@ == old(self).data@ + bytes@.take(i as int),
                self.limit == old(self).limit,
                old(self)@.len() + bytes@.len() <= old(self).limit_spec(),
            decreases n - i,
        {
            self.data.push(bytes[i]);
            proof {
                assert(self.data@ =~= old(self).data@ + bytes@.take(i + 1));
            }
            i += 1;
        }
        proof {
            assert(bytes@.take(n as int) =~= bytes@);
        }
    }

    /// The written bytes, surrendering the buffer.
    pub fn take_bytes(self) -> (r: Vec<u8>)
        ensures
            r@ == self@,
    {
        self.data
    }
}

/// Serializes a data structure to bytes. Values embedded inside another
/// message implement the value-level write interface instead.
pub trait Serialize: Sized {
    /// The values the type can serialize.
    spec fn serial_wf(&self) -> bool;

    /// The exact bytes the value serializes to.
    spec fn serial_bytes(&self) -> Seq<u8>;

    /// Serialize the data structure to a newly allocated byte vector. Zero
    /// side effects; succeeds on every well-formed value.
    fn serialize(self) -> (r: WriteResult<Vec<u8>>)
        requires
            self.serial_wf(),
        ensures
            r matches Ok(v) && v@ == self.serial_bytes(),
    ;

    /// Serialize into a caller-supplied bounded buffer. If the buffer's
    /// remaining room is smaller than the value's serialized size, the
    /// write fails with a capacity error and the buffer is untouched:
    /// all-or-nothing.
    fn serialize_to(self, buf: &mut BoundedBuf) -> (r: WriteResult)
        requires
            old(buf).inv(),
            self.serial_wf(),
        ensures
            final(buf).inv(),
            final(buf).limit_spec() == old(buf).limit_spec(),
            if old(buf)@.len() + self.serial_bytes().len() <= old(buf).limit_spec() {
                r is Ok && final(buf)@ == old(buf)@ + self.serial_bytes()
            } else {
                r == Err::<(), WriteError>(WriteError::CapacityTooLow)
                    && final(buf)@ == old(buf)@
            },
    {
        let data = match self.serialize() {
            Ok(d) => d,
            Err(e) => {
                return Err(e);
            },
        };
        if buf.remaining() < data.len() {
            return Err(WriteError::CapacityTooLow);
        }
        buf.append(&data);
        Ok(())
    }
}

/// Deserializes a data structure from bytes. Implementations must be
/// compatible with the type's `Serialize` implementation. Values embedded
/// inside another message implement the value-level read interface instead.
pub trait Deserialize: Sized + View {
    /// What deserializing from the given bytes yields: a value (as its
    /// view) and the bytes consumed — trailing bytes are ignored — or the
    /// read error.
    spec fn deserial_spec(bytes: Seq<u8>) -> Result<(Self::V, int), ReadError>;

    /// Deserialize from the front of a buffer, consuming only the bytes the
    /// value needs. On failure the cursor position is unspecified.
    fn deserialize(buf: &mut bytes::Bytes) -> (r: ReadResult<Self>)
        ensures
            match Self::deserial_spec(buf_view(*old(buf))) {
                Ok(p) => {
                    &&& r matches Ok(v) && v@ == p.0
                    &&& buf_view(*final(buf)) == buf_view(*old(buf)).skip(p.1)
                },
                Err(e) => r == Err::<Self, ReadError>(e),
            },
    ;

    /// Deserialize from a byte slice, ignoring any trailing bytes.
    fn deserialize_bytes(bytes: &[u8]) -> (r: ReadResult<Self>)
        ensures
            match Self::deserial_spec(bytes@) {
                Ok(p) => r matches Ok(v) && v@ == p.0,
                Err(e) => r == Err::<Self, ReadError>(e),
            },
    {
        let mut buf = buf_from_slice(bytes);
        Self::deserialize(&mut buf)
    }
}

/// Relies on String::from_utf8: it succeeds exactly on valid UTF-8,
/// returning the decoded characters.
#[verifier::external_body]
fn string_from_utf8(v: Vec<u8>) -> (r: Option<String>)
    ensures
        match r {
            Some(s) => valid_utf8(v@) && s@ == decode_utf8(v@),
            None => !valid_utf8(v@),
        },
{
    String::from_utf8(v).ok()
}

impl Serialize for String {
    /// A string fits when its byte length fits the one-byte length prefix.
    open spec fn serial_wf(&self) -> bool {
        encode_utf8(self@).len() <= 255
    }

    /// The one-byte length prefix, then the string's bytes.
    open spec fn serial_bytes(&self) -> Seq<u8> {
        seq![encode_utf8(self@).len() as u8] + encode_utf8(self@)
    }

    fn serialize(self) -> (r: WriteResult<Vec<u8>>) {
        let n = self.as_str().len();
        let bytes = self.as_str().as_bytes_vec();
        let mut out: Vec<u8> = Vec::new();
        out.push(n as u8);
        let mut i: usize = 0;
        while i < n
            invariant
                0 <= i <= n,
                n == bytes@.len(),
                bytes@ == encode_utf8(self@),
                n <= 255,
                out@ == seq![n as u8] + bytes@.take(i as int),
            decreases n - i,
        {
            out.push(bytes[i]);
            proof {
                assert(out@ =~= seq![n as u8] + bytes@.take(i + 1));
            }
            i += 1;
        }
        proof {
            assert(bytes@.take(n as int) =~= bytes@);
        }
        Ok(out)
    }
}

impl Deserialize for String {
    /// The length prefix names how many bytes follow; they must be present
    /// and valid UTF-8, else the read fails with invalid data.
    open spec fn deserial_spec(bytes: Seq<u8>) -> Result<(Seq<char>, int), ReadError> {
        if bytes.len() < 1 {
            Err(ReadError::InvalidData)
        } else {
            let n = bytes[0] as int;
            if bytes.len() < 1 + n {
                Err(ReadError::InvalidData)
            } else if valid_utf8(bytes.subrange(1, 1 + n)) {
                Ok((decode_utf8(bytes.subrange(1, 1 + n)), 1 + n))
            } else {
                Err(ReadError::InvalidData)
            }
        }
    }

    fn deserialize(buf: &mut bytes::Bytes) -> (r: ReadResult<Self>) {
        let ghost orig = buf_view(*buf);
        if buf_remaining(buf) < 1 {
            return Err(ReadError::InvalidData);
        }
        let n = buf_get_u8(buf) as usize;
        if buf_remaining(buf) < n {
            return Err(ReadError::InvalidData);
        }
        let raw = buf_copy_to_vec(buf, n);
        proof {
            assert(raw@ =~= orig.subrange(1, 1 + n as int));
            assert(buf_view(*buf) =~= orig.skip(1 + n as int));
        }
        match string_from_utf8(raw) {
            Some(s) => Ok(s),
            None => Err(ReadError::InvalidData),
        }
    }
}

/// Round trip at the structure level: deserializing what a well-formed
/// string serializes to — whatever bytes follow it — gives the string back
/// and consumes exactly the prefix and the string's bytes.
pub proof fn lemma_string_round_trip(s: String, rest: Seq<u8>)
    requires
        s.serial_wf(),
    ensures
        <String as Deserialize>::deserial_spec(s.serial_bytes() + rest)
            == Ok::<(Seq<char>, int), ReadError>((s@, 1 + encode_utf8(s@).len() as int)),
{
    vstd::utf8::encode_utf8_valid_utf8(s@);
    vstd::utf8::encode_utf8_decode_utf8(s@);
    let b = s.serial_bytes() + rest;
    let n = encode_utf8(s@).len() as int;
    assert(b[0] == n as u8);
    assert(b.subrange(1, 1 + n) =~= encode_utf8(s@));
}

} // verus!
