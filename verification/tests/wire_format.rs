//! The interpreter on whole definitions: headers, lengths, padding,
//! context-fed lists, variant dispatch, and the round trip.

use xrb::buffer::{buf_from_slice, buf_remaining};
use xrb::codec::{classify_items, decode, encode, encoded_size};
use xrb::error::ReadError;
use xrb::schema::{
    check_wf, Definition, DefinitionBody, Field, FieldType, IntWidth, Item, LetItem, MessageValue,
    Role, Unused, Value, Variant,
};

fn card(w: IntWidth) -> Item {
    Item::Field(Field { ty: FieldType::Card(w), metabyte: false, sequence: false, context: None })
}

fn metabyte_card8() -> Item {
    Item::Field(Field {
        ty: FieldType::Card(IntWidth::W1),
        metabyte: true,
        sequence: false,
        context: None,
    })
}

fn sequence_card16() -> Item {
    Item::Field(Field {
        ty: FieldType::Card(IntWidth::W2),
        metabyte: false,
        sequence: true,
        context: None,
    })
}

fn list(ctx: usize) -> Item {
    Item::Field(Field {
        ty: FieldType::ByteList,
        metabyte: false,
        sequence: false,
        context: Some(ctx),
    })
}

fn round_trips(def: &Definition, m: &MessageValue) -> Vec<u8> {
    let enc = encode(def, m);
    assert_eq!(enc.len(), encoded_size(def, m));
    let mut buf = buf_from_slice(&enc);
    let got = decode(def, &mut buf).expect("decoding an encoding must succeed");
    assert_eq!(&got, m);
    assert_eq!(buf_remaining(&buf), 0);
    enc
}

#[test]
fn request_with_no_fields_has_length_one() {
    let def = Definition {
        role: Role::Request { major_opcode: 36, minor_opcode: None },
        body: DefinitionBody::Record(vec![]),
    };
    assert!(check_wf(&def));
    let m = MessageValue::Record(vec![]);
    assert_eq!(encoded_size(&def, &m), 4);
    let enc = round_trips(&def, &m);
    assert_eq!(enc, vec![36u8, 0, 0, 1]);
}

#[test]
fn adding_one_word_field_makes_length_two() {
    let def = Definition {
        role: Role::Request { major_opcode: 35, minor_opcode: None },
        body: DefinitionBody::Record(vec![metabyte_card8(), card(IntWidth::W4)]),
    };
    assert!(check_wf(&def));
    let m = MessageValue::Record(vec![Value::C8(2), Value::C32(0x01020304)]);
    assert_eq!(encoded_size(&def, &m), 8);
    let enc = round_trips(&def, &m);
    assert_eq!(enc, vec![35u8, 2, 0, 2, 1, 2, 3, 4]);
}

#[test]
fn request_with_minor_opcode_carries_it_in_the_metabyte_slot() {
    let def = Definition {
        role: Role::Request { major_opcode: 130, minor_opcode: Some(7) },
        body: DefinitionBody::Record(vec![card(IntWidth::W4)]),
    };
    assert!(check_wf(&def));
    let m = MessageValue::Record(vec![Value::C32(9)]);
    let enc = round_trips(&def, &m);
    assert_eq!(enc, vec![130u8, 7, 0, 2, 0, 0, 0, 9]);
}

#[test]
fn request_encoding_is_padded_to_four_bytes() {
    let def = Definition {
        role: Role::Request { major_opcode: 20, minor_opcode: None },
        body: DefinitionBody::Record(vec![card(IntWidth::W1)]),
    };
    assert!(check_wf(&def));
    let m = MessageValue::Record(vec![Value::C8(0xAB)]);
    let enc = round_trips(&def, &m);
    assert_eq!(enc, vec![20u8, 0, 0, 2, 0xAB, 0, 0, 0]);
    assert_eq!(enc.len() % 4, 0);
}

#[test]
fn fixed_size_reply_envelope() {
    let def = Definition {
        role: Role::Reply,
        body: DefinitionBody::Record(vec![
            sequence_card16(),
            metabyte_card8(),
            Item::Unused(Unused::Run(24)),
        ]),
    };
    assert!(check_wf(&def));
    let m = MessageValue::Record(vec![Value::C16(7), Value::C8(5), Value::Nil]);
    assert_eq!(encoded_size(&def, &m), 32);
    let enc = round_trips(&def, &m);
    let mut expected = vec![1u8, 5, 0, 7, 0, 0, 0, 0];
    expected.extend(std::iter::repeat(0u8).take(24));
    assert_eq!(enc, expected);
    assert_eq!(enc.len() % 4, 0);
}

#[test]
fn reply_with_let_fed_list_and_pad_formula() {
    // the metabyte carries a let: the list's emitted length, which the
    // reader uses as the list's count before reading the list itself
    let def = Definition {
        role: Role::Reply,
        body: DefinitionBody::Record(vec![
            sequence_card16(),
            Item::Let(LetItem { width: IntWidth::W1, source: 3, metabyte: true }),
            Item::Unused(Unused::Run(24)),
            list(1),
            Item::Unused(Unused::PadOf(3)),
        ]),
    };
    assert!(check_wf(&def));
    let m = MessageValue::Record(vec![
        Value::C16(3),
        Value::Nil,
        Value::Nil,
        Value::List(vec![10, 20, 30, 40, 50]),
        Value::Nil,
    ]);
    assert_eq!(encoded_size(&def, &m), 40);
    let enc = round_trips(&def, &m);
    let mut expected = vec![1u8, 5, 0, 3, 0, 0, 0, 2];
    expected.extend(std::iter::repeat(0u8).take(24));
    expected.extend([10, 20, 30, 40, 50, 0, 0, 0]);
    assert_eq!(enc, expected);
}

#[test]
fn scalar_context_feeds_a_list() {
    let def = Definition {
        role: Role::Plain,
        body: DefinitionBody::Record(vec![card(IntWidth::W1), list(0)]),
    };
    assert!(check_wf(&def));
    let m = MessageValue::Record(vec![Value::C8(3), Value::List(vec![7, 8, 9])]);
    let enc = round_trips(&def, &m);
    assert_eq!(enc, vec![3u8, 7, 8, 9]);
}

#[test]
fn alignment_item_counts_from_message_start() {
    let def = Definition {
        role: Role::Event { code: 44 },
        body: DefinitionBody::Record(vec![
            card(IntWidth::W1),
            Item::Unused(Unused::AlignTo4),
            card(IntWidth::W4),
        ]),
    };
    assert!(check_wf(&def));
    let m = MessageValue::Record(vec![Value::C8(0xEE), Value::Nil, Value::C32(1)]);
    let enc = round_trips(&def, &m);
    // code byte, one body byte, then padding to the 4-byte boundary
    assert_eq!(enc, vec![44u8, 0xEE, 0, 0, 0, 0, 0, 1]);
}

#[test]
fn event_with_sequence_has_the_four_byte_header() {
    let def = Definition {
        role: Role::Event { code: 2 },
        body: DefinitionBody::Record(vec![
            metabyte_card8(),
            sequence_card16(),
            card(IntWidth::W4),
        ]),
    };
    assert!(check_wf(&def));
    let m = MessageValue::Record(vec![Value::C8(38), Value::C16(512), Value::C32(0x01000000)]);
    let enc = round_trips(&def, &m);
    assert_eq!(enc, vec![2u8, 38, 2, 0, 1, 0, 0, 0]);
}

#[test]
fn big_endian_scalars_on_the_wire() {
    let def = Definition {
        role: Role::Plain,
        body: DefinitionBody::Record(vec![card(IntWidth::W2), card(IntWidth::W4)]),
    };
    assert!(check_wf(&def));
    let m = MessageValue::Record(vec![Value::C16(0x0102), Value::C32(0x0A0B0C0D)]);
    let enc = round_trips(&def, &m);
    assert_eq!(enc, vec![1u8, 2, 0x0A, 0x0B, 0x0C, 0x0D]);
}

#[test]
fn implicit_discriminants_round_trip() {
    let def = Definition {
        role: Role::Plain,
        body: DefinitionBody::VariantSet(vec![
            Variant { discriminant: None, items: vec![] },
            Variant { discriminant: None, items: vec![card(IntWidth::W1)] },
            Variant { discriminant: None, items: vec![] },
        ]),
    };
    assert!(check_wf(&def));
    let v0 = MessageValue::Variant(0, vec![]);
    let v1 = MessageValue::Variant(1, vec![Value::C8(9)]);
    let v2 = MessageValue::Variant(2, vec![]);
    assert_eq!(round_trips(&def, &v0), vec![0u8]);
    assert_eq!(round_trips(&def, &v1), vec![1u8, 9]);
    assert_eq!(round_trips(&def, &v2), vec![2u8]);

    let mut buf = buf_from_slice(&vec![3u8]);
    assert_eq!(decode(&def, &mut buf), Err(ReadError::UnrecognizedDiscriminant));
}

#[test]
fn explicit_discriminants_override_the_count() {
    let def = Definition {
        role: Role::Plain,
        body: DefinitionBody::VariantSet(vec![
            Variant { discriminant: Some(5), items: vec![] },
            Variant { discriminant: None, items: vec![] },
            Variant { discriminant: Some(2), items: vec![] },
            Variant { discriminant: None, items: vec![] },
        ]),
    };
    assert!(check_wf(&def));
    assert_eq!(round_trips(&def, &MessageValue::Variant(1, vec![])), vec![6u8]);
    assert_eq!(round_trips(&def, &MessageValue::Variant(3, vec![])), vec![3u8]);
    let mut buf = buf_from_slice(&vec![2u8]);
    assert_eq!(decode(&def, &mut buf), Ok(MessageValue::Variant(2, vec![])));
}

#[test]
fn duplicate_discriminants_are_rejected_by_validation() {
    let def = Definition {
        role: Role::Plain,
        body: DefinitionBody::VariantSet(vec![
            Variant { discriminant: Some(1), items: vec![] },
            Variant { discriminant: Some(0), items: vec![] },
            Variant { discriminant: None, items: vec![] },
        ]),
    };
    // the third variant's implicit discriminant collides with the first
    assert!(!check_wf(&def));
}

#[test]
fn trailing_bytes_are_ignored() {
    let def = Definition {
        role: Role::Request { major_opcode: 36, minor_opcode: None },
        body: DefinitionBody::Record(vec![]),
    };
    let m = MessageValue::Record(vec![]);
    let mut enc = encode(&def, &m);
    enc.extend([0xAA, 0xBB]);
    let mut buf = buf_from_slice(&enc);
    assert_eq!(decode(&def, &mut buf), Ok(m));
    assert_eq!(buf_remaining(&buf), 2);
}

#[test]
fn header_checks_reject_bad_bytes() {
    let def = Definition {
        role: Role::Request { major_opcode: 36, minor_opcode: None },
        body: DefinitionBody::Record(vec![]),
    };
    // wrong opcode
    let mut buf = buf_from_slice(&vec![35u8, 0, 0, 1]);
    assert_eq!(decode(&def, &mut buf), Err(ReadError::InvalidData));
    // a nonzero metabyte slot where no metabyte item is declared
    let mut buf = buf_from_slice(&vec![36u8, 9, 0, 1]);
    assert_eq!(decode(&def, &mut buf), Err(ReadError::InvalidData));
    // a length field disagreeing with the actual length
    let mut buf = buf_from_slice(&vec![36u8, 0, 0, 2]);
    assert_eq!(decode(&def, &mut buf), Err(ReadError::InvalidData));
    // a truncated header
    let mut buf = buf_from_slice(&vec![36u8, 0, 0]);
    assert_eq!(decode(&def, &mut buf), Err(ReadError::InvalidData));
}

#[test]
fn a_list_outrunning_the_buffer_is_invalid() {
    let def = Definition {
        role: Role::Plain,
        body: DefinitionBody::Record(vec![card(IntWidth::W1), list(0)]),
    };
    // the count byte says three but only two bytes follow
    let mut buf = buf_from_slice(&vec![3u8, 7, 8]);
    assert_eq!(decode(&def, &mut buf), Err(ReadError::InvalidData));
}

#[test]
fn constant_size_definitions_have_one_size() {
    let items = vec![metabyte_card8(), card(IntWidth::W4)];
    assert!(classify_items(&items));
    let def = Definition {
        role: Role::Request { major_opcode: 35, minor_opcode: None },
        body: DefinitionBody::Record(items),
    };
    let a = encode(&def, &MessageValue::Record(vec![Value::C8(0), Value::C32(0)]));
    let b = encode(&def, &MessageValue::Record(vec![Value::C8(9), Value::C32(77)]));
    assert_eq!(a.len(), b.len());

    // a context-fed list makes the size per-value
    let computed = vec![card(IntWidth::W1), list(0)];
    assert!(!classify_items(&computed));
}
