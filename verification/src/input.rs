//! Requests and field types that relate to input devices, grabs and
//! coordinates, hand-written against the value-level codec interfaces.

use vstd::prelude::*;
use crate::buffer::{be16, be16_val, bm_put_u8, bm_put_u16, buf_get_u8, buf_get_u16, buf_remaining};
use crate::buffer::bm_view;
use crate::error::{ReadError, ReadResult, WriteResult};
use crate::message::Request;
use crate::sentinel::CurrentableTime;
use crate::wire::{Readable, Writable, X11Size};

verus! {

/// The conditions under which queued events are released for an
/// [`AllowEvents`] request.
#[derive(Debug, Hash, Clone, Copy, PartialEq, Eq, Structural)]
pub enum AllowEventsMode {
    /// Unfreeze the cursor if your client has frozen it with an active grab.
    UnfreezeCursor,
    /// Unfreeze the cursor, but freeze it again after the next button press
    /// or release.
    RefreezeCursor,
    /// Release a passive cursor grab and reprocess the triggering event.
    ReplayCursor,
    /// Unfreeze the keyboard if your client has frozen it with an active
    /// grab.
    UnfreezeKeyboard,
    /// Unfreeze the keyboard, but freeze it again after the next key press
    /// or release.
    RefreezeKeyboard,
    /// Release a passive keyboard grab and reprocess the triggering event.
    ReplayKeyboard,
    /// Unfreeze both the cursor and the keyboard if both are frozen by your
    /// client.
    UnfreezeBoth,
    /// Unfreeze both, but freeze them again on the next button or key press
    /// or release.
    RefreezeBoth,
}

impl AllowEventsMode {
    /// The one-byte discriminant of each mode, assigned by position.
    pub open spec fn disc_spec(self) -> u8 {
        match self {
            AllowEventsMode::UnfreezeCursor => 0,
            AllowEventsMode::RefreezeCursor => 1,
            AllowEventsMode::ReplayCursor => 2,
            AllowEventsMode::UnfreezeKeyboard => 3,
            AllowEventsMode::RefreezeKeyboard => 4,
            AllowEventsMode::ReplayKeyboard => 5,
            AllowEventsMode::UnfreezeBoth => 6,
            AllowEventsMode::RefreezeBoth => 7,
        }
    }

    /// Report the discriminant.
    pub fn disc(self) -> (r: u8)
        ensures
            r == self.disc_spec(),
    {
        match self {
            AllowEventsMode::UnfreezeCursor => 0,
            AllowEventsMode::RefreezeCursor => 1,
            AllowEventsMode::ReplayCursor => 2,
            AllowEventsMode::UnfreezeKeyboard => 3,
            AllowEventsMode::RefreezeKeyboard => 4,
            AllowEventsMode::ReplayKeyboard => 5,
            AllowEventsMode::UnfreezeBoth => 6,
            AllowEventsMode::RefreezeBoth => 7,
        }
    }

    /// The mode a one-byte discriminant reads back as, for the eight
    /// declared discriminants.
    pub open spec fn of_disc_spec(d: u8) -> AllowEventsMode {
        if d == 0 {
            AllowEventsMode::UnfreezeCursor
        } else if d == 1 {
            AllowEventsMode::RefreezeCursor
        } else if d == 2 {
            AllowEventsMode::ReplayCursor
        } else if d == 3 {
            AllowEventsMode::UnfreezeKeyboard
        } else if d == 4 {
            AllowEventsMode::RefreezeKeyboard
        } else if d == 5 {
            AllowEventsMode::ReplayKeyboard
        } else if d == 6 {
            AllowEventsMode::UnfreezeBoth
        } else {
            AllowEventsMode::RefreezeBoth
        }
    }
}

impl View for AllowEventsMode {
    type V = AllowEventsMode;

    open spec fn view(&self) -> AllowEventsMode {
        *self
    }
}

impl X11Size for AllowEventsMode {
    open spec fn size_spec(&self) -> nat {
        1
    }

    fn x11_size(&self) -> usize {
        1
    }
}

impl Writable for AllowEventsMode {
    open spec fn wire_wf(&self) -> bool {
        true
    }

    open spec fn encoding(&self) -> Seq<u8> {
        seq![self.disc_spec()]
    }

    proof fn lemma_size_is_encoding_len(&self) {
    }

    fn write_to(&self, buf: &mut bytes::BytesMut) -> WriteResult {
        bm_put_u8(buf, self.disc());
        assert(bm_view(*buf) =~= bm_view(*old(buf)) + self.encoding());
        Ok(())
    }
}

impl Readable for AllowEventsMode {
    open spec fn read_spec(bytes: Seq<u8>) -> Result<(AllowEventsMode, int), ReadError> {
        if bytes.len() < 1 {
            Err(ReadError::InvalidData)
        } else if bytes[0] < 8 {
            Ok((AllowEventsMode::of_disc_spec(bytes[0]), 1))
        } else {
            Err(ReadError::UnrecognizedDiscriminant)
        }
    }

    fn read_from(buf: &mut bytes::Bytes) -> ReadResult<Self> {
        if buf_remaining(buf) < 1 {
            return Err(ReadError::InvalidData);
        }
        let d = buf_get_u8(buf);
        if d == 0 {
            Ok(AllowEventsMode::UnfreezeCursor)
        } else if d == 1 {
            Ok(AllowEventsMode::RefreezeCursor)
        } else if d == 2 {
            Ok(AllowEventsMode::ReplayCursor)
        } else if d == 3 {
            Ok(AllowEventsMode::UnfreezeKeyboard)
        } else if d == 4 {
            Ok(AllowEventsMode::RefreezeKeyboard)
        } else if d == 5 {
            Ok(AllowEventsMode::ReplayKeyboard)
        } else if d == 6 {
            Ok(AllowEventsMode::UnfreezeBoth)
        } else if d == 7 {
            Ok(AllowEventsMode::RefreezeBoth)
        } else {
            Err(ReadError::UnrecognizedDiscriminant)
        }
    }
}

/// Round trip for the mode: reading back a mode's encoding gives the mode,
/// whatever follows it.
pub proof fn lemma_allow_events_mode_round_trip(v: AllowEventsMode, rest: Seq<u8>)
    ensures
        AllowEventsMode::read_spec(v.encoding() + rest)
            == Ok::<(AllowEventsMode, int), ReadError>((v, 1)),
{
    assert((v.encoding() + rest)[0] == v.disc_spec());
}

/// A width or height within the source window of a cursor-warp request:
/// either a specific extent, or the window's remaining extent past the
/// start coordinate. The wildcard is encoded as the reserved extent zero.
#[derive(Debug, Hash, Clone, Copy, PartialEq, Eq, Structural)]
pub enum WarpSourceDimension {
    /// Use the source window's width or height minus the start coordinate.
    FillRemaining,
    /// This specific width or height.
    Other(u16),
}

impl View for WarpSourceDimension {
    type V = WarpSourceDimension;

    open spec fn view(&self) -> WarpSourceDimension {
        *self
    }
}

impl X11Size for WarpSourceDimension {
    open spec fn size_spec(&self) -> nat {
        2
    }

    fn x11_size(&self) -> usize {
        2
    }
}

impl Writable for WarpSourceDimension {
    open spec fn wire_wf(&self) -> bool {
        match self {
            WarpSourceDimension::FillRemaining => true,
            WarpSourceDimension::Other(x) => x != 0,
        }
    }

    open spec fn encoding(&self) -> Seq<u8> {
        match self {
            WarpSourceDimension::FillRemaining => be16(0),
            WarpSourceDimension::Other(x) => be16(*x),
        }
    }

    proof fn lemma_size_is_encoding_len(&self) {
    }

    fn write_to(&self, buf: &mut bytes::BytesMut) -> WriteResult {
        match self {
            WarpSourceDimension::FillRemaining => bm_put_u16(buf, 0),
            WarpSourceDimension::Other(x) => bm_put_u16(buf, *x),
        }
        Ok(())
    }
}

impl Readable for WarpSourceDimension {
    open spec fn read_spec(bytes: Seq<u8>) -> Result<(WarpSourceDimension, int), ReadError> {
        if bytes.len() < 2 {
            Err(ReadError::InvalidData)
        } else if be16_val(bytes[0], bytes[1]) == 0 {
            Ok((WarpSourceDimension::FillRemaining, 2))
        } else {
            Ok((WarpSourceDimension::Other(be16_val(bytes[0], bytes[1])), 2))
        }
    }

    fn read_from(buf: &mut bytes::Bytes) -> ReadResult<Self> {
        if buf_remaining(buf) < 2 {
            return Err(ReadError::InvalidData);
        }
        let x = buf_get_u16(buf);
        if x == 0 {
            Ok(WarpSourceDimension::FillRemaining)
        } else {
            Ok(WarpSourceDimension::Other(x))
        }
    }
}

/// Round trip for the warp dimension: reading back a well-formed value's
/// encoding gives the value.
pub proof fn lemma_warp_source_dimension_round_trip(v: WarpSourceDimension, rest: Seq<u8>)
    requires
        v.wire_wf(),
    ensures
        WarpSourceDimension::read_spec(v.encoding() + rest)
            == Ok::<(WarpSourceDimension, int), ReadError>((v, 2)),
{
    match v {
        WarpSourceDimension::FillRemaining => {
            let b = v.encoding() + rest;
            crate::buffer::lemma_be16_zero();
            assert(b[0] == 0 && b[1] == 0);
            assert(be16_val(0, 0) == 0) by (bit_vector);
        },
        WarpSourceDimension::Other(x) => {
            let b = v.encoding() + rest;
            assert(b[0] == (x >> 8) as u8 && b[1] == x as u8);
            crate::buffer::lemma_be16_val_of(x);
        },
    }
}

/// Where the focus reverts when the focused window becomes unviewable.
#[derive(Debug, Hash, Clone, Copy, PartialEq, Eq, Structural)]
pub enum RevertFocus {
    /// Revert the focus to no window.
    NoFocus,
    /// Revert the focus to the root window the cursor is on at the time.
    CursorRoot,
    /// Revert the focus to the parent of the window the cursor is in at the
    /// time.
    Parent,
}

impl RevertFocus {
    /// The one-byte discriminant of each choice, assigned by position.
    pub open spec fn disc_spec(self) -> u8 {
        match self {
            RevertFocus::NoFocus => 0,
            RevertFocus::CursorRoot => 1,
            RevertFocus::Parent => 2,
        }
    }

    /// Report the discriminant.
    pub fn disc(self) -> (r: u8)
        ensures
            r == self.disc_spec(),
    {
        match self {
            RevertFocus::NoFocus => 0,
            RevertFocus::CursorRoot => 1,
            RevertFocus::Parent => 2,
        }
    }
}

impl View for RevertFocus {
    type V = RevertFocus;

    open spec fn view(&self) -> RevertFocus {
        *self
    }
}

impl X11Size for RevertFocus {
    open spec fn size_spec(&self) -> nat {
        1
    }

    fn x11_size(&self) -> usize {
        1
    }
}

impl Writable for RevertFocus {
    open spec fn wire_wf(&self) -> bool {
        true
    }

    open spec fn encoding(&self) -> Seq<u8> {
        seq![self.disc_spec()]
    }

    proof fn lemma_size_is_encoding_len(&self) {
    }

    fn write_to(&self, buf: &mut bytes::BytesMut) -> WriteResult {
        bm_put_u8(buf, self.disc());
        assert(bm_view(*buf) =~= bm_view(*old(buf)) + self.encoding());
        Ok(())
    }
}

impl Readable for RevertFocus {
    open spec fn read_spec(bytes: Seq<u8>) -> Result<(RevertFocus, int), ReadError> {
        if bytes.len() < 1 {
            Err(ReadError::InvalidData)
        } else if bytes[0] == 0 {
            Ok((RevertFocus::NoFocus, 1))
        } else if bytes[0] == 1 {
            Ok((RevertFocus::CursorRoot, 1))
        } else if bytes[0] == 2 {
            Ok((RevertFocus::Parent, 1))
        } else {
            Err(ReadError::UnrecognizedDiscriminant)
        }
    }

    fn read_from(buf: &mut bytes::Bytes) -> ReadResult<Self> {
        if buf_remaining(buf) < 1 {
            return Err(ReadError::InvalidData);
        }
        let d = buf_get_u8(buf);
        if d == 0 {
            Ok(RevertFocus::NoFocus)
        } else if d == 1 {
            Ok(RevertFocus::CursorRoot)
        } else if d == 2 {
            Ok(RevertFocus::Parent)
        } else {
            Err(ReadError::UnrecognizedDiscriminant)
        }
    }
}

/// Round trip for the revert choice: reading back an encoding gives the
/// choice; the three declared discriminants and no others read back.
pub proof fn lemma_revert_focus_round_trip(v: RevertFocus, rest: Seq<u8>)
    ensures
        RevertFocus::read_spec(v.encoding() + rest)
            == Ok::<(RevertFocus, int), ReadError>((v, 1)),
{
    assert((v.encoding() + rest)[0] == v.disc_spec());
}

/// A request that freezes processing of requests and connection closes on
/// all other clients' connections.
#[derive(Debug, Hash, Clone, Copy, PartialEq, Eq, Structural)]
pub struct GrabServer;

impl View for GrabServer {
    type V = GrabServer;

    open spec fn view(&self) -> GrabServer {
        *self
    }
}

impl X11Size for GrabServer {
    open spec fn size_spec(&self) -> nat {
        4
    }

    fn x11_size(&self) -> usize {
        4
    }
}

impl Writable for GrabServer {
    open spec fn wire_wf(&self) -> bool {
        true
    }

    open spec fn encoding(&self) -> Seq<u8> {
        seq![36u8, 0u8] + be16(1)
    }

    proof fn lemma_size_is_encoding_len(&self) {
    }

    fn write_to(&self, buf: &mut bytes::BytesMut) -> WriteResult {
        bm_put_u8(buf, 36);
        bm_put_u8(buf, 0);
        bm_put_u16(buf, 1);
        assert(bm_view(*buf) =~= bm_view(*old(buf)) + self.encoding());
        Ok(())
    }
}

impl Request for GrabServer {
    type OtherErrors = ();

    type Reply = ();

    open spec fn major_opcode_spec() -> u8 {
        36
    }

    fn major_opcode() -> u8 {
        36
    }

    open spec fn minor_opcode_spec() -> Option<u8> {
        None
    }

    fn minor_opcode() -> Option<u8> {
        None
    }

    fn length(&self) -> u16 {
        1
    }
}

/// A request that releases some queued events if your client has caused a
/// device to be frozen. The mode rides in the header's metabyte slot.
#[derive(Debug, Hash, Clone, Copy, PartialEq, Eq, Structural)]
pub struct AllowEvents {
    /// The conditions under which the queued events are released.
    pub mode: AllowEventsMode,
    /// The time at which this request is recorded as having taken place.
    pub time: CurrentableTime,
}

impl View for AllowEvents {
    type V = AllowEvents;

    open spec fn view(&self) -> AllowEvents {
        *self
    }
}

impl X11Size for AllowEvents {
    open spec fn size_spec(&self) -> nat {
        8
    }

    fn x11_size(&self) -> usize {
        8
    }
}

impl Writable for AllowEvents {
    open spec fn wire_wf(&self) -> bool {
        self.time.wf()
    }

    open spec fn encoding(&self) -> Seq<u8> {
        seq![35u8, self.mode.disc_spec()] + be16(2) + self.time.encoding()
    }

    proof fn lemma_size_is_encoding_len(&self) {
    }

    fn write_to(&self, buf: &mut bytes::BytesMut) -> WriteResult {
        bm_put_u8(buf, 35);
        bm_put_u8(buf, self.mode.disc());
        bm_put_u16(buf, 2);
        match self.time.write_to(buf) {
            Ok(_) => {},
            Err(e) => {
                return Err(e);
            },
        }
        assert(bm_view(*buf) =~= bm_view(*old(buf)) + self.encoding());
        Ok(())
    }
}

impl Request for AllowEvents {
    type OtherErrors = ();

    type Reply = ();

    open spec fn major_opcode_spec() -> u8 {
        35
    }

    fn major_opcode() -> u8 {
        35
    }

    open spec fn minor_opcode_spec() -> Option<u8> {
        None
    }

    fn minor_opcode() -> Option<u8> {
        None
    }

    fn length(&self) -> u16 {
        2
    }
}

} // verus!
