//! The hand-written message types and the structure-level text codec.

use xrb::buffer::{bm_new, bm_to_vec, buf_from_slice, buf_remaining};
use xrb::error::{ReadError, WriteError};
use xrb::input::{AllowEvents, AllowEventsMode, GrabServer, RevertFocus, WarpSourceDimension};
use xrb::message::{Error, Event, Reply, Request};
use xrb::meta::{KeymapNotify, QueryExtension, QueryExtensionRequest, WindowError};
use xrb::rw::{BoundedBuf, Deserialize, Serialize};
use xrb::sentinel::{CurrentableTime, OptionalId, ResId};
use xrb::wire::{Readable, Writable, X11Size};

fn written<T: Writable>(v: &T) -> Vec<u8> {
    let mut buf = bm_new();
    v.write_to(&mut buf).expect("writes never fail");
    bm_to_vec(&buf)
}

fn read_back<T: Readable>(bytes: Vec<u8>) -> Result<T, ReadError> {
    let mut buf = buf_from_slice(&bytes);
    T::read_from(&mut buf)
}

#[test]
fn text_serializes_with_a_length_prefix() {
    let out = String::from("ab").serialize().expect("short text serializes");
    assert_eq!(out, vec![0x02, b'a', b'b']);
}

#[test]
fn text_round_trips() {
    let out = String::from("ab").serialize().unwrap();
    let back = <String as Deserialize>::deserialize_bytes(&out).unwrap();
    assert_eq!(back, "ab");
}

#[test]
fn text_with_overlong_declared_length_is_rejected() {
    // the declared length exceeds the available bytes: a read error, not a
    // truncated value
    let r = <String as Deserialize>::deserialize_bytes(&[0x03, b'a', b'b']);
    assert_eq!(r, Err(ReadError::InvalidData));
}

#[test]
fn text_that_is_not_utf8_is_rejected() {
    let r = <String as Deserialize>::deserialize_bytes(&[0x01, 0xFF]);
    assert_eq!(r, Err(ReadError::InvalidData));
}

#[test]
fn text_ignores_trailing_bytes() {
    let back = <String as Deserialize>::deserialize_bytes(&[0x02, b'a', b'b', 0x77]).unwrap();
    assert_eq!(back, "ab");
}

#[test]
fn serialize_to_checks_capacity_first() {
    let mut small = BoundedBuf::new(2);
    let r = String::from("ab").serialize_to(&mut small);
    assert_eq!(r, Err(WriteError::CapacityTooLow));
    assert_eq!(small.take_bytes(), Vec::<u8>::new());

    let mut roomy = BoundedBuf::new(3);
    String::from("ab").serialize_to(&mut roomy).unwrap();
    assert_eq!(roomy.take_bytes(), vec![0x02, b'a', b'b']);
}

#[test]
fn grab_server_is_header_only() {
    assert_eq!(GrabServer::major_opcode(), 36);
    assert_eq!(GrabServer::minor_opcode(), None);
    assert_eq!(GrabServer.length(), 1);
    assert_eq!(GrabServer.x11_size(), 4);
    assert_eq!(written(&GrabServer), vec![36u8, 0, 0, 1]);
}

#[test]
fn allow_events_rides_the_metabyte() {
    let req = AllowEvents {
        mode: AllowEventsMode::ReplayCursor,
        time: CurrentableTime::At(0x01020304),
    };
    assert_eq!(AllowEvents::major_opcode(), 35);
    assert_eq!(req.length(), 2);
    assert_eq!(req.x11_size(), 8);
    assert_eq!(written(&req), vec![35u8, 2, 0, 2, 1, 2, 3, 4]);
}

#[test]
fn allow_events_mode_discriminants() {
    assert_eq!(written(&AllowEventsMode::UnfreezeCursor), vec![0u8]);
    assert_eq!(written(&AllowEventsMode::RefreezeBoth), vec![7u8]);
    assert_eq!(read_back::<AllowEventsMode>(vec![5]), Ok(AllowEventsMode::ReplayKeyboard));
    assert_eq!(
        read_back::<AllowEventsMode>(vec![8]),
        Err(ReadError::UnrecognizedDiscriminant),
    );
}

#[test]
fn revert_focus_round_trips_each_variant() {
    for v in [RevertFocus::NoFocus, RevertFocus::CursorRoot, RevertFocus::Parent] {
        let bytes = written(&v);
        assert_eq!(read_back::<RevertFocus>(bytes), Ok(v));
    }
    assert_eq!(written(&RevertFocus::NoFocus), vec![0u8]);
    assert_eq!(written(&RevertFocus::Parent), vec![2u8]);
    assert_eq!(read_back::<RevertFocus>(vec![3]), Err(ReadError::UnrecognizedDiscriminant));
}

#[test]
fn warp_source_dimension_owns_its_sentinel() {
    assert_eq!(written(&WarpSourceDimension::FillRemaining), vec![0u8, 0]);
    assert_eq!(written(&WarpSourceDimension::Other(768)), vec![3u8, 0]);
    assert_eq!(
        read_back::<WarpSourceDimension>(vec![0, 0]),
        Ok(WarpSourceDimension::FillRemaining),
    );
    assert_eq!(
        read_back::<WarpSourceDimension>(vec![3, 0]),
        Ok(WarpSourceDimension::Other(768)),
    );
    assert_eq!(read_back::<WarpSourceDimension>(vec![0]), Err(ReadError::InvalidData));
}

#[test]
fn optional_id_adds_no_tag_byte() {
    let id = ResId::new(0x10).unwrap();
    // the wrapper's size equals the wrapped id's size, absent or present
    assert_eq!(OptionalId::Present(id).x11_size(), id.x11_size());
    assert_eq!(OptionalId::Absent.x11_size(), id.x11_size());
    assert_eq!(written(&OptionalId::Absent), vec![0u8, 0, 0, 0]);
    assert_eq!(written(&OptionalId::Present(id)), vec![0u8, 0, 0, 0x10]);
    assert_eq!(read_back::<OptionalId>(vec![0, 0, 0, 0]), Ok(OptionalId::Absent));
    assert_eq!(read_back::<OptionalId>(vec![0, 0, 0, 0x10]), Ok(OptionalId::Present(id)));
    // a bare id refuses the reserved zero
    assert_eq!(read_back::<ResId>(vec![0, 0, 0, 0]), Err(ReadError::InvalidData));
}

#[test]
fn currentable_time_wildcard_preserves_size() {
    assert_eq!(CurrentableTime::CurrentTime.x11_size(), CurrentableTime::At(5).x11_size());
    assert_eq!(written(&CurrentableTime::CurrentTime), vec![0u8, 0, 0, 0]);
    assert_eq!(written(&CurrentableTime::At(5)), vec![0u8, 0, 0, 5]);
    assert_eq!(read_back::<CurrentableTime>(vec![0, 0, 0, 0]), Ok(CurrentableTime::CurrentTime));
    assert_eq!(read_back::<CurrentableTime>(vec![0, 0, 0, 5]), Ok(CurrentableTime::At(5)));
}

#[test]
fn query_extension_request_length_tracks_the_name() {
    let req = QueryExtensionRequest { name: b"BIG-REQUESTS".to_vec() };
    assert_eq!(req.length(), 5);
    assert_eq!(req.x11_size(), 20);
    let mut expected = vec![98u8, 0, 0, 5, 0, 12, 0, 0];
    expected.extend_from_slice(b"BIG-REQUESTS");
    assert_eq!(written(&req), expected);

    // a name needing padding
    let req = QueryExtensionRequest { name: b"SHAPE".to_vec() };
    assert_eq!(req.length(), 4);
    let mut expected = vec![98u8, 0, 0, 4, 0, 5, 0, 0];
    expected.extend_from_slice(b"SHAPE");
    expected.extend_from_slice(&[0, 0, 0]);
    assert_eq!(written(&req), expected);
}

#[test]
fn query_extension_reply_reads_its_envelope() {
    let mut bytes = vec![1u8, 0, 0, 9, 0, 0, 0, 0, 1, 130, 90, 150];
    bytes.extend(std::iter::repeat(0u8).take(20));
    let reply: QueryExtension = read_back(bytes.clone()).unwrap();
    assert_eq!(reply.sequence(), 9);
    assert!(reply.present);
    assert_eq!(reply.major_opcode, 130);
    assert_eq!(reply.first_event_code, 90);
    assert_eq!(reply.first_error_code, 150);
    assert_eq!(reply.length(), 0);

    let mut wrong = bytes.clone();
    wrong[0] = 0;
    assert_eq!(read_back::<QueryExtension>(wrong), Err(ReadError::InvalidData));
}

#[test]
fn keymap_notify_has_no_sequence() {
    let keys: Vec<u8> = (1..=31).collect();
    let ev = KeymapNotify { keys: keys.clone() };
    assert_eq!(KeymapNotify::code(), 11);
    assert_eq!(ev.sequence(), None);
    let bytes = written(&ev);
    assert_eq!(bytes.len(), 32);
    assert_eq!(bytes[0], 11);
    let back: KeymapNotify = read_back(bytes).unwrap();
    assert_eq!(back.keys, keys);
}

#[test]
fn window_error_reads_its_fields() {
    let mut bytes = vec![0u8, 3, 0, 2, 0, 0, 0, 42, 0, 1, 53];
    bytes.extend(std::iter::repeat(0u8).take(21));
    let mut buf = buf_from_slice(&bytes);
    let err = WindowError::read_from(&mut buf).unwrap();
    assert_eq!(WindowError::code(), 3);
    assert_eq!(err.sequence(), 2);
    assert_eq!(err.bad_resource_id, 42);
    assert_eq!(err.minor_opcode(), 1);
    assert_eq!(err.major_opcode(), 53);
    assert_eq!(buf_remaining(&buf), 0);

    let mut wrong = bytes.clone();
    wrong[1] = 4;
    let mut buf = buf_from_slice(&wrong);
    assert_eq!(WindowError::read_from(&mut buf), Err(ReadError::InvalidData));
}
