//! The message roles: the interfaces request, reply, event and error types
//! satisfy, naming the constants the codec consumes — opcodes and codes —
//! and the header bookkeeping every role carries.

use vstd::prelude::*;
use crate::wire::{Readable, Writable, X11Size};

verus! {

/// A message sent from an X client to the X server.
pub trait Request: Writable {
    /// The type of the other possible errors generated by this request.
    ///
    /// Every request may generate, at minimum, allocation-failure,
    /// unimplemented-by-server and length-invalid errors; those are explicit
    /// variants of [`RequestError`]. A request generating no others sets
    /// this to the unit type.
    type OtherErrors;

    /// The type of reply generated by this request; `()` for requests which
    /// do not generate one.
    type Reply;

    /// The major opcode that identifies this request or its extension.
    spec fn major_opcode_spec() -> u8;

    /// Report the major opcode.
    fn major_opcode() -> (r: u8)
        ensures
            r == Self::major_opcode_spec(),
    ;

    /// The minor opcode that identifies this request within its extension,
    /// or none for a core request.
    spec fn minor_opcode_spec() -> Option<u8>;

    /// Report the minor opcode.
    fn minor_opcode() -> (r: Option<u8>)
        ensures
            r == Self::minor_opcode_spec(),
    ;

    /// The size of this request, including its 4-byte header, in 4-byte
    /// units — at least one. The contract is the length-unit law: the
    /// reported length times four is exactly the encoded size.
    fn length(&self) -> (r: u16)
        requires
            self.wire_wf(),
        ensures
            r as nat * 4 == self.size_spec(),
            r >= 1,
    ;
}

/// A message sent from the X server to an X client in response to a
/// [`Request`].
pub trait Reply: Readable + X11Size where Self: Sized {
    /// The request that generates this reply.
    type Request;

    /// The values of the reply that are well-formed for the wire.
    spec fn reply_wf(&self) -> bool;

    /// The size of this reply in 4-byte units beyond its 32-byte envelope.
    /// The contract is the length-unit law: thirty-two plus four times the
    /// reported length is exactly the encoded size.
    fn length(&self) -> (r: u32)
        requires
            self.reply_wf(),
        ensures
            32 + 4 * (r as nat) == self.size_spec(),
    ;

    /// The sequence number of the request that generated this reply.
    spec fn sequence_spec(&self) -> u16;

    /// Report the sequence number.
    fn sequence(&self) -> (r: u16)
        ensures
            r == self.sequence_spec(),
    ;
}

/// A message sent from the X server to an X client that is not a direct
/// response to a request.
pub trait Event: Readable + Writable where Self: Sized {
    /// The code that identifies this event.
    spec fn code_spec() -> u8;

    /// Report the event code.
    fn code() -> (r: u8)
        ensures
            r == Self::code_spec(),
    ;

    /// The sequence number of the last related request, for events that
    /// carry one.
    spec fn sequence_spec(&self) -> Option<u16>;

    /// Report the sequence number, if the event carries one.
    fn sequence(&self) -> (r: Option<u16>)
        ensures
            r == self.sequence_spec(),
    ;
}

/// An error sent from the X server to an X client in response to a failed
/// request.
pub trait Error: Readable + X11Size {
    /// The code that identifies this error among errors. Codes 128 to 255
    /// are reserved for extensions.
    spec fn code_spec() -> u8;

    /// Report the error code.
    fn code() -> (r: u8)
        ensures
            r == Self::code_spec(),
    ;

    /// The sequence number of the request that generated this error.
    spec fn sequence_spec(&self) -> u16;

    /// Report the sequence number.
    fn sequence(&self) -> (r: u16)
        ensures
            r == self.sequence_spec(),
    ;

    /// The minor opcode of the request that generated this error.
    spec fn minor_opcode_spec(&self) -> u16;

    /// Report the minor opcode.
    fn minor_opcode(&self) -> (r: u16)
        ensures
            r == self.minor_opcode_spec(),
    ;

    /// The major opcode of the request that generated this error.
    spec fn major_opcode_spec(&self) -> u8;

    /// Report the major opcode.
    fn major_opcode(&self) -> (r: u8)
        ensures
            r == self.major_opcode_spec(),
    ;
}

/// An error generated by a request. Any request may generate the first
/// three; the last carries the request's own other errors, if it declares
/// any.
#[derive(Debug, Clone, Copy, PartialEq, Eq)]
pub enum RequestError<OtherErrors> {
    /// The server ran out of allocation space for a requested resource.
    Alloc,
    /// The server does not implement some aspect of the request.
    Implementation,
    /// The request's length is outside what the server accepts.
    Length,
    /// Any other error the request declares.
    Other(OtherErrors),
}

} // verus!
