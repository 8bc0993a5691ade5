//! The declarative text parser: well-formed declarations become working
//! definitions, and each named failure is reported as itself.

use xrb::buffer::buf_from_slice;
use xrb::codec::{decode, encode};
use xrb::error::ReadError;
use xrb::parser::{parse, validate, Context, ParseError, Source};
use xrb::schema::{
    check_wf, Definition, DefinitionBody, Field, FieldType, IntWidth, Item, LetItem,
    MessageValue, Role, Value,
};

#[test]
fn parsed_request_encodes_like_the_hand_built_one() {
    let def = parse("request 35 record metabyte field8 field32 end").unwrap();
    assert!(check_wf(&def));
    let m = MessageValue::Record(vec![Value::C8(2), Value::C32(0x01020304)]);
    assert_eq!(encode(&def, &m), vec![35u8, 2, 0, 2, 1, 2, 3, 4]);
}

#[test]
fn parsed_reply_with_let_and_context_round_trips() {
    let def = parse(
        "reply record sequence field16 metabyte let8 3 pad 24 ctx ( 1 ) list padof 3 end",
    )
    .unwrap();
    let m = MessageValue::Record(vec![
        Value::C16(3),
        Value::Nil,
        Value::Nil,
        Value::List(vec![10, 20, 30, 40, 50]),
        Value::Nil,
    ]);
    let enc = encode(&def, &m);
    assert_eq!(enc.len(), 40);
    let mut buf = buf_from_slice(&enc);
    assert_eq!(decode(&def, &mut buf), Ok(m));
}

#[test]
fn parsed_equals_context_works_like_the_parenthesised_one() {
    let a = parse("plain record field8 ctx ( 0 ) list end").unwrap();
    let b = parse("plain record field8 ctx = 0 list end").unwrap();
    assert_eq!(a, b);
}

#[test]
fn parsed_variants_dispatch_by_discriminant() {
    let def = parse("plain variants variant auto variant auto field8 variant auto end").unwrap();
    let m = MessageValue::Variant(1, vec![Value::C8(9)]);
    let enc = encode(&def, &m);
    assert_eq!(enc, vec![1u8, 9]);
    let mut buf = buf_from_slice(&enc);
    assert_eq!(decode(&def, &mut buf), Ok(m));
    let mut buf = buf_from_slice(&vec![3u8]);
    assert_eq!(decode(&def, &mut buf), Err(ReadError::UnrecognizedDiscriminant));
}

#[test]
fn a_second_metabyte_marker_is_refused() {
    let r = parse("request 1 record metabyte field8 metabyte field8 end");
    assert_eq!(r, Err(ParseError::MultipleMetabyte));
}

#[test]
fn a_sequence_marker_outside_reply_or_event_is_refused() {
    let r = parse("request 1 record sequence field16 end");
    assert_eq!(r, Err(ParseError::MisplacedSequence));
}

#[test]
fn a_context_referencing_a_later_name_is_refused() {
    let r = parse("plain record ctx ( 0 ) list end");
    assert_eq!(r, Err(ParseError::UnknownName));
}

#[test]
fn a_let_referencing_an_undeclared_name_is_refused() {
    let r = parse("plain record let8 5 end");
    assert_eq!(r, Err(ParseError::UnknownName));
}

#[test]
fn a_pad_formula_referencing_a_later_name_is_refused() {
    let r = parse("plain record padof 2 field8 end");
    assert_eq!(r, Err(ParseError::UnknownName));
}

#[test]
fn garbage_is_a_syntax_error() {
    assert_eq!(parse("frobnicate"), Err(ParseError::Syntax));
    assert_eq!(parse(""), Err(ParseError::Syntax));
    assert_eq!(parse("request 1 record field8"), Err(ParseError::Syntax));
}

#[test]
fn a_reply_without_a_sequence_item_is_invalid() {
    assert_eq!(parse("reply record end"), Err(ParseError::Invalid));
}

#[test]
fn a_let_whose_source_is_not_a_list_is_invalid() {
    assert_eq!(parse("plain record field8 let8 0 end"), Err(ParseError::Invalid));
}

#[test]
fn context_carries_its_source_in_either_form() {
    let paren = Context::Paren { source: Source::ValueOf(2) };
    let equals = Context::Equals { source: Source::ValueOf(2) };
    assert_eq!(*paren.source(), Source::ValueOf(2));
    assert_eq!(*equals.source(), Source::ValueOf(2));
}

#[test]
fn validation_names_each_failure() {
    let mb = Item::Field(Field {
        ty: FieldType::Card(IntWidth::W1),
        metabyte: true,
        sequence: false,
        context: None,
    });
    let sq = Item::Field(Field {
        ty: FieldType::Card(IntWidth::W2),
        metabyte: false,
        sequence: true,
        context: None,
    });

    let doubled = Definition {
        role: Role::Request { major_opcode: 1, minor_opcode: None },
        body: DefinitionBody::Record(vec![mb, mb]),
    };
    assert_eq!(validate(&doubled), Err(ParseError::MultipleMetabyte));

    let misplaced = Definition {
        role: Role::Plain,
        body: DefinitionBody::Record(vec![sq]),
    };
    assert_eq!(validate(&misplaced), Err(ParseError::MisplacedSequence));

    let dangling = Definition {
        role: Role::Plain,
        body: DefinitionBody::Record(vec![Item::Let(LetItem {
            width: IntWidth::W1,
            source: 9,
            metabyte: false,
        })]),
    };
    assert_eq!(validate(&dangling), Err(ParseError::UnknownName));

    let sound = Definition {
        role: Role::Request { major_opcode: 1, minor_opcode: None },
        body: DefinitionBody::Record(vec![mb]),
    };
    assert_eq!(validate(&sound), Ok(()));
}

#[test]
fn trailing_words_after_the_body_are_refused() {
    assert_eq!(parse("plain record end junk"), Err(ParseError::Syntax));
}
