//! The layout compiler: given a definition, the exact write and read
//! procedures for values of that definition, as one interpreter over the
//! schema model. The specification functions here are the wire format's
//! reference: `spec_encode` is the bytes a value puts on the wire, and
//! `spec_decode` is what any byte sequence reads back as.

use vstd::prelude::*;
use crate::buffer::{be16, be32, be16_val, be32_val, bm_view};
use crate::buffer::{bm_new, bm_put_u8, bm_put_u16, bm_put_u32, bm_put_slice, bm_put_zeros, bm_to_vec};
use crate::buffer::{buf_view, buf_remaining, buf_get_u8, buf_get_u16, buf_get_u32, buf_copy_to_vec, buf_advance};
use crate::error::ReadError;
use crate::schema::{
    BodyModel, DefModel, Definition, DefinitionBody, Field, FieldType, IntWidth, Item,
    MessageModel, MessageValue, Role, Unused, Value, ValueModel, Variant, VariantModel,
};
use crate::schema::{
    discriminant_at, env_val, has_metabyte, has_sequence, is_header_item, is_metabyte_item,
    is_sequence_item, item_wf, items_wf, lemma_metabyte_unique,
    lemma_sequence_unique, list_len, metabyte_idx, scalar_val, sequence_idx, val_matches,
    vals_view, vals_wf, def_wf, variants_view,
};

verus! {

/// The smallest count of zero bytes taking a running total to the next
/// multiple of four.
pub open spec fn pad4(n: nat) -> nat {
    if n % 4 == 0 {
        0
    } else {
        (4 - n % 4) as nat
    }
}

/// A run of zero bytes.
pub open spec fn zeros(n: nat) -> Seq<u8> {
    Seq::new(n, |i: int| 0u8)
}

/// The wire bytes of a scalar value, big-endian.
pub open spec fn scalar_bytes(v: ValueModel) -> Seq<u8> {
    match v {
        ValueModel::C8(x) => seq![x],
        ValueModel::C16(x) => be16(x),
        ValueModel::C32(x) => be32(x),
        _ => Seq::empty(),
    }
}

/// The wire bytes of a let's derived scalar at the given width.
pub open spec fn let_bytes(w: IntWidth, n: nat) -> Seq<u8> {
    match w {
        IntWidth::W1 => seq![n as u8],
        IntWidth::W2 => be16(n as u16),
        IntWidth::W4 => be32(n as u32),
    }
}

/// The encoded size of the field at position `p`, as a pad formula sees it.
pub open spec fn field_size(items: Seq<Item>, vals: Seq<ValueModel>, p: int) -> nat {
    match items[p] {
        Item::Field(f) => match f.ty {
            FieldType::Card(w) => w.byte_count(),
            FieldType::ByteList => list_len(vals, p),
        },
        _ => 0,
    }
}

/// The resolved length of a padding run at the given running total.
pub open spec fn unused_len(items: Seq<Item>, vals: Seq<ValueModel>, u: Unused, offset: nat) -> nat {
    match u {
        Unused::Unit => 1,
        Unused::Run(k) => k as nat,
        Unused::AlignTo4 => pad4(offset),
        Unused::PadOf(p) => pad4(field_size(items, vals, p as int)),
    }
}

/// The bytes the body pass emits for item `i` at running total `offset`.
/// Items placed in the header emit nothing here: they are written once, in
/// the header, not again in the body.
pub open spec fn enc_item(items: Seq<Item>, vals: Seq<ValueModel>, i: int, offset: nat) -> Seq<u8> {
    if is_header_item(items[i]) {
        Seq::empty()
    } else {
        match items[i] {
            Item::Field(f) => match f.ty {
                FieldType::Card(_) => scalar_bytes(vals[i]),
                FieldType::ByteList => match vals[i] {
                    ValueModel::List(b) => b,
                    _ => Seq::empty(),
                },
            },
            Item::Let(l) => let_bytes(l.width, list_len(vals, l.source as int)),
            Item::Unused(u) => zeros(unused_len(items, vals, u, offset)),
        }
    }
}

/// The bytes the body pass emits for items `i..`, threading the running
/// total so pad formulas can see the bytes written so far.
pub open spec fn enc_items(items: Seq<Item>, vals: Seq<ValueModel>, i: int, offset: nat) -> Seq<u8>
    decreases items.len() - i,
{
    if i < 0 || i >= items.len() {
        Seq::empty()
    } else {
        let b = enc_item(items, vals, i, offset);
        b + enc_items(items, vals, i + 1, offset + b.len())
    }
}

/// The header's metabyte slot: the one-byte encoding of the declared
/// metabyte item, or zero when the definition declares none.
pub open spec fn metabyte_byte(items: Seq<Item>, vals: Seq<ValueModel>) -> u8 {
    if has_metabyte(items) {
        env_val(items, vals, metabyte_idx(items)) as u8
    } else {
        0
    }
}

/// A request's second header byte: the minor opcode when the request has
/// one, else the metabyte slot.
pub open spec fn request_metabyte(
    items: Seq<Item>,
    vals: Seq<ValueModel>,
    minor_opcode: Option<u8>,
) -> u8 {
    match minor_opcode {
        Some(m) => m,
        None => metabyte_byte(items, vals),
    }
}

/// The declared sequence field's value, or zero when there is none.
pub open spec fn sequence_val(items: Seq<Item>, vals: Seq<ValueModel>) -> u16 {
    if has_sequence(items) {
        scalar_val(vals[sequence_idx(items)]) as u16
    } else {
        0
    }
}

/// The byte length of the role's header.
pub open spec fn header_len(role: Role, items: Seq<Item>) -> nat {
    match role {
        Role::Plain => 0,
        Role::Request { .. } => 4,
        Role::Reply => 8,
        Role::Event { .. } => if has_sequence(items) {
            4
        } else {
            1
        },
    }
}

/// The complete wire encoding of a message value under its definition: the
/// role's header, then the body items in declared order, then — for
/// requests and replies — zero bytes to the next 4-byte boundary.
pub open spec fn spec_encode(def: DefModel, m: MessageModel) -> Seq<u8> {
    match def.body {
        BodyModel::Record(items) => match m {
            MessageModel::Record(vals) => {
                let body = enc_items(items, vals, 0, header_len(def.role, items));
                match def.role {
                    Role::Plain => body,
                    Role::Request { major_opcode, minor_opcode } => {
                        let tail = pad4((4 + body.len()) as nat);
                        let total = 4 + body.len() + tail;
                        seq![major_opcode, request_metabyte(items, vals, minor_opcode)]
                            + be16((total / 4) as u16) + body + zeros(tail)
                    },
                    Role::Reply => {
                        let tail = pad4((8 + body.len()) as nat);
                        let total = 8 + body.len() + tail;
                        seq![1u8, metabyte_byte(items, vals)] + be16(sequence_val(items, vals))
                            + be32(((total - 32) / 4) as u32) + body + zeros(tail)
                    },
                    Role::Event { code } => {
                        if has_sequence(items) {
                            seq![code, metabyte_byte(items, vals)]
                                + be16(sequence_val(items, vals)) + body
                        } else {
                            seq![code] + body
                        }
                    },
                }
            },
            _ => Seq::empty(),
        },
        BodyModel::VariantSet(variants) => match m {
            MessageModel::Variant(j, vals) => {
                seq![discriminant_at(variants, j) as u8] + enc_items(variants[j].items, vals, 0, 1)
            },
            _ => Seq::empty(),
        },
    }
}

/// The number of bytes a message value occupies on the wire.
pub open spec fn total_size(def: DefModel, m: MessageModel) -> nat {
    spec_encode(def, m).len()
}

/// Whether the value's shape and per-item contents match the definition.
pub open spec fn shape_matches(def: DefModel, m: MessageModel) -> bool {
    match def.body {
        BodyModel::Record(items) => match m {
            MessageModel::Record(vals) => vals_wf(items, vals),
            _ => false,
        },
        BodyModel::VariantSet(variants) => match m {
            MessageModel::Variant(j, vals) => {
                &&& 0 <= j < variants.len()
                &&& vals_wf(variants[j].items, vals)
            },
            _ => false,
        },
    }
}

/// The values of a definition that can go on the wire: the shape matches,
/// and the total size respects the role's length field — a request's length
/// counts 4-byte units in one unsigned 16-bit integer, a reply's counts
/// 4-byte units beyond its 32-byte envelope in one unsigned 32-bit integer —
/// and the machine's address space.
pub open spec fn valid_value(def: DefModel, m: MessageModel) -> bool {
    &&& shape_matches(def, m)
    &&& (def.role matches Role::Request { .. } ==> total_size(def, m) <= 0x3FFFC)
    &&& (def.role is Reply ==> 32 <= total_size(def, m) <= 32 + 0x3_FFFF_FFFC)
    &&& total_size(def, m) <= usize::MAX
}

/// Whether every item's size is known without a value: no variable-length
/// field, no let, no padding resolved by a formula.
pub open spec fn items_constant_size(items: Seq<Item>) -> bool {
    forall|i: int|
        0 <= i < items.len() ==> match #[trigger] items[i] {
            Item::Field(f) => f.ty is Card,
            Item::Let(_) => false,
            Item::Unused(u) => u is Unit || u is Run,
        }
}

/// The size of constant-size items `i..`, known without any value: the
/// fixed widths and runs, with header-carried items contributing nothing to
/// the body.
pub open spec fn const_items_size(items: Seq<Item>, i: int) -> nat
    decreases items.len() - i,
{
    if i < 0 || i >= items.len() {
        0
    } else {
        (if is_header_item(items[i]) {
            0
        } else {
            match items[i] {
                Item::Field(f) => match f.ty {
                    FieldType::Card(w) => w.byte_count(),
                    FieldType::ByteList => 0,
                },
                Item::Let(l) => l.width.byte_count(),
                Item::Unused(u) => match u {
                    Unused::Unit => 1,
                    Unused::Run(k) => k as nat,
                    _ => 0,
                },
            }
        }) + const_items_size(items, i + 1)
    }
}

/// Whether a definition's encoded length is fixed at schema-definition time
/// rather than computed per value: every item sequence it can take is
/// constant-size, and a variant set's variants all come to the same size.
pub open spec fn def_constant_size(def: DefModel) -> bool {
    match def.body {
        BodyModel::Record(items) => items_constant_size(items),
        BodyModel::VariantSet(variants) => forall|v: int|
            0 <= v < variants.len() ==> items_constant_size(#[trigger] variants[v].items)
                && const_items_size(variants[v].items, 0) == const_items_size(
                variants[0].items, 0),
    }
}

/// Classify a record's items: report whether their size is known without a
/// value.
pub fn classify_items(items: &Vec<Item>) -> (r: bool)
    ensures
        r == items_constant_size(items@),
{
    let n = items.len();
    let mut i: usize = 0;
    while i < n
        invariant
            0 <= i <= n,
            n == items@.len(),
            forall|k: int|
                0 <= k < i ==> match #[trigger] items@[k] {
                    Item::Field(f) => f.ty is Card,
                    Item::Let(_) => false,
                    Item::Unused(u) => u is Unit || u is Run,
                },
        decreases n - i,
    {
        let ok = match &items[i] {
            Item::Field(f) => match f.ty {
                FieldType::Card(_) => true,
                FieldType::ByteList => false,
            },
            Item::Let(_) => false,
            Item::Unused(u) => match u {
                Unused::Unit => true,
                Unused::Run(_) => true,
                _ => false,
            },
        };
        if !ok {
            return false;
        }
        i += 1;
    }
    true
}

/// The body of constant-size items occupies exactly its declared size,
/// whatever values fill the fields.
proof fn lemma_const_items_size(items: Seq<Item>, vals: Seq<ValueModel>, i: int, offset: nat)
    requires
        items_constant_size(items),
        vals_wf(items, vals),
        0 <= i <= items.len(),
    ensures
        enc_items(items, vals, i, offset).len() == const_items_size(items, i),
    decreases items.len() - i,
{
    if i < items.len() {
        assert(val_matches(items, vals, i));
        let b = enc_item(items, vals, i, offset);
        assert(b.len() == (if is_header_item(items[i]) {
            0
        } else {
            match items[i] {
                Item::Field(f) => match f.ty {
                    FieldType::Card(w) => w.byte_count(),
                    FieldType::ByteList => 0nat,
                },
                Item::Let(l) => l.width.byte_count(),
                Item::Unused(u) => match u {
                    Unused::Unit => 1nat,
                    Unused::Run(k) => k as nat,
                    _ => 0nat,
                },
            }
        }));
        lemma_const_items_size(items, vals, i + 1, offset + b.len());
    }
}

/// The size-classification law: a constant-size definition encodes every
/// one of its values — whichever variant, whatever field values — to the
/// same number of bytes.
pub proof fn lemma_constant_size(def: DefModel, m1: MessageModel, m2: MessageModel)
    requires
        def_wf(def),
        def_constant_size(def),
        valid_value(def, m1),
        valid_value(def, m2),
    ensures
        total_size(def, m1) == total_size(def, m2),
{
    match def.body {
        BodyModel::Record(items) => {
            let h = header_len(def.role, items);
            lemma_const_items_size(items, m1->Record_0, 0, h);
            lemma_const_items_size(items, m2->Record_0, 0, h);
        },
        BodyModel::VariantSet(variants) => {
            let j1 = m1->Variant_0;
            let j2 = m2->Variant_0;
            lemma_const_items_size(variants[j1].items, m1->Variant_1, 0, 1);
            lemma_const_items_size(variants[j2].items, m2->Variant_1, 0, 1);
        },
    }
}

/// The header-carried values handed to the body pass of a decode.
pub struct HeaderVals {
    pub mb: u8,
    pub sq: u16,
}

/// The scalar value read from the front of a byte sequence at a width.
pub open spec fn read_scalar(w: IntWidth, bytes: Seq<u8>) -> ValueModel {
    match w {
        IntWidth::W1 => ValueModel::C8(bytes[0]),
        IntWidth::W2 => ValueModel::C16(be16_val(bytes[0], bytes[1])),
        IntWidth::W4 => ValueModel::C32(be32_val(bytes[0], bytes[1], bytes[2], bytes[3])),
    }
}

/// The numeric value read from the front of a byte sequence at a width.
pub open spec fn read_scalar_val(w: IntWidth, bytes: Seq<u8>) -> nat {
    scalar_val(read_scalar(w, bytes))
}

/// The length of a padding run as the decoder resolves it: pad formulas over
/// a list field read the list's length from the environment of already-read
/// items.
pub open spec fn dec_unused_len(
    items: Seq<Item>,
    u: Unused,
    offset: nat,
    env: Seq<nat>,
) -> nat {
    match u {
        Unused::Unit => 1,
        Unused::Run(k) => k as nat,
        Unused::AlignTo4 => pad4(offset),
        Unused::PadOf(p) => pad4(
            match items[p as int] {
                Item::Field(f) => match f.ty {
                    FieldType::Card(w) => w.byte_count(),
                    FieldType::ByteList => env[p as int],
                },
                _ => 0,
            },
        ),
    }
}

/// One strict left-to-right pass reading items `i..` from the remaining
/// bytes: fields are read at their declared type, a let is read back from
/// the buffer — not recomputed — into the environment so later items can
/// reference it, padding is skipped, and items placed in the header take
/// their value from the header instead of the byte stream. The result is
/// the completed value vector and the bytes consumed.
pub open spec fn dec_items(
    items: Seq<Item>,
    hdr: HeaderVals,
    bytes: Seq<u8>,
    i: int,
    offset: nat,
    vals: Seq<ValueModel>,
    env: Seq<nat>,
) -> Result<(Seq<ValueModel>, int), ReadError>
    decreases items.len() - i,
{
    if i >= items.len() {
        Ok((vals, 0))
    } else {
        match items[i] {
            Item::Field(f) => {
                if f.metabyte {
                    dec_items(
                        items, hdr, bytes, i + 1, offset,
                        vals.push(ValueModel::C8(hdr.mb)), env.push(hdr.mb as nat),
                    )
                } else if f.sequence {
                    dec_items(
                        items, hdr, bytes, i + 1, offset,
                        vals.push(ValueModel::C16(hdr.sq)), env.push(hdr.sq as nat),
                    )
                } else {
                    match f.ty {
                        FieldType::Card(w) => {
                            let n = w.byte_count();
                            if bytes.len() < n {
                                Err(ReadError::InvalidData)
                            } else {
                                let v = read_scalar(w, bytes);
                                match dec_items(
                                    items, hdr, bytes.skip(n as int), i + 1, offset + n,
                                    vals.push(v), env.push(scalar_val(v)),
                                ) {
                                    Ok(p) => Ok((p.0, n + p.1)),
                                    Err(e) => Err(e),
                                }
                            }
                        },
                        FieldType::ByteList => {
                            let n = match f.context {
                                Some(c) => env[c as int],
                                None => 0,
                            };
                            if bytes.len() < n {
                                Err(ReadError::InvalidData)
                            } else {
                                match dec_items(
                                    items, hdr, bytes.skip(n as int), i + 1, offset + n,
                                    vals.push(ValueModel::List(bytes.take(n as int))),
                                    env.push(n),
                                ) {
                                    Ok(p) => Ok((p.0, n + p.1)),
                                    Err(e) => Err(e),
                                }
                            }
                        },
                    }
                }
            },
            Item::Let(l) => {
                if l.metabyte {
                    dec_items(
                        items, hdr, bytes, i + 1, offset,
                        vals.push(ValueModel::Nil), env.push(hdr.mb as nat),
                    )
                } else {
                    let n = l.width.byte_count();
                    if bytes.len() < n {
                        Err(ReadError::InvalidData)
                    } else {
                        match dec_items(
                            items, hdr, bytes.skip(n as int), i + 1, offset + n,
                            vals.push(ValueModel::Nil),
                            env.push(read_scalar_val(l.width, bytes)),
                        ) {
                            Ok(p) => Ok((p.0, n + p.1)),
                            Err(e) => Err(e),
                        }
                    }
                }
            },
            Item::Unused(u) => {
                let n = dec_unused_len(items, u, offset, env);
                if bytes.len() < n {
                    Err(ReadError::InvalidData)
                } else {
                    match dec_items(
                        items, hdr, bytes.skip(n as int), i + 1, offset + n,
                        vals.push(ValueModel::Nil), env.push(0),
                    ) {
                        Ok(p) => Ok((p.0, n + p.1)),
                        Err(e) => Err(e),
                    }
                }
            },
        }
    }
}

/// The first declared variant carrying the given discriminant, if any.
pub open spec fn find_variant_from(variants: Seq<VariantModel>, d: nat, j: int) -> Option<int>
    decreases variants.len() - j,
{
    if j < 0 || j >= variants.len() {
        None
    } else if discriminant_at(variants, j) == d {
        Some(j)
    } else {
        find_variant_from(variants, d, j + 1)
    }
}

/// What any byte sequence reads back as under a definition: the decoded
/// value and the bytes consumed — trailing bytes are ignored — or the read
/// error. Header bytes are checked against the role: the leading opcode or
/// code byte must match, an unused metabyte slot must be zero, and a
/// request's or reply's length field must equal the actual length.
pub open spec fn spec_decode(def: DefModel, bytes: Seq<u8>) -> Result<(MessageModel, int), ReadError> {
    match def.body {
        BodyModel::Record(items) => match def.role {
            Role::Plain => {
                match dec_items(
                    items, HeaderVals { mb: 0, sq: 0 }, bytes, 0, 0, Seq::empty(), Seq::empty(),
                ) {
                    Ok(p) => Ok((MessageModel::Record(p.0), p.1)),
                    Err(e) => Err(e),
                }
            },
            Role::Request { major_opcode, minor_opcode } => {
                if bytes.len() < 4 {
                    Err(ReadError::InvalidData)
                } else if bytes[0] != major_opcode {
                    Err(ReadError::InvalidData)
                } else if !(match minor_opcode {
                    Some(m) => bytes[1] == m,
                    None => has_metabyte(items) || bytes[1] == 0,
                }) {
                    Err(ReadError::InvalidData)
                } else {
                    match dec_items(
                        items, HeaderVals { mb: bytes[1], sq: 0 }, bytes.skip(4), 0, 4,
                        Seq::empty(), Seq::empty(),
                    ) {
                        Ok(p) => {
                            let c = 4 + p.1;
                            let tail = pad4(c as nat);
                            let total = c + tail;
                            if bytes.len() < total {
                                Err(ReadError::InvalidData)
                            } else if be16_val(bytes[2], bytes[3]) * 4 != total {
                                Err(ReadError::InvalidData)
                            } else {
                                Ok((MessageModel::Record(p.0), total))
                            }
                        },
                        Err(e) => Err(e),
                    }
                }
            },
            Role::Reply => {
                if bytes.len() < 8 {
                    Err(ReadError::InvalidData)
                } else if bytes[0] != 1 {
                    Err(ReadError::InvalidData)
                } else if !(has_metabyte(items) || bytes[1] == 0) {
                    Err(ReadError::InvalidData)
                } else {
                    match dec_items(
                        items,
                        HeaderVals { mb: bytes[1], sq: be16_val(bytes[2], bytes[3]) },
                        bytes.skip(8), 0, 8, Seq::empty(), Seq::empty(),
                    ) {
                        Ok(p) => {
                            let c = 8 + p.1;
                            let tail = pad4(c as nat);
                            let total = c + tail;
                            if bytes.len() < total {
                                Err(ReadError::InvalidData)
                            } else if be32_val(bytes[4], bytes[5], bytes[6], bytes[7]) * 4
                                != total - 32 {
                                Err(ReadError::InvalidData)
                            } else {
                                Ok((MessageModel::Record(p.0), total))
                            }
                        },
                        Err(e) => Err(e),
                    }
                }
            },
            Role::Event { code } => {
                if has_sequence(items) {
                    if bytes.len() < 4 {
                        Err(ReadError::InvalidData)
                    } else if bytes[0] != code {
                        Err(ReadError::InvalidData)
                    } else if !(has_metabyte(items) || bytes[1] == 0) {
                        Err(ReadError::InvalidData)
                    } else {
                        match dec_items(
                            items,
                            HeaderVals { mb: bytes[1], sq: be16_val(bytes[2], bytes[3]) },
                            bytes.skip(4), 0, 4, Seq::empty(), Seq::empty(),
                        ) {
                            Ok(p) => Ok((MessageModel::Record(p.0), 4 + p.1)),
                            Err(e) => Err(e),
                        }
                    }
                } else {
                    if bytes.len() < 1 {
                        Err(ReadError::InvalidData)
                    } else if bytes[0] != code {
                        Err(ReadError::InvalidData)
                    } else {
                        match dec_items(
                            items, HeaderVals { mb: 0, sq: 0 }, bytes.skip(1), 0, 1,
                            Seq::empty(), Seq::empty(),
                        ) {
                            Ok(p) => Ok((MessageModel::Record(p.0), 1 + p.1)),
                            Err(e) => Err(e),
                        }
                    }
                }
            },
        },
        BodyModel::VariantSet(variants) => {
            if bytes.len() < 1 {
                Err(ReadError::InvalidData)
            } else {
                match find_variant_from(variants, bytes[0] as nat, 0) {
                    Some(j) => {
                        match dec_items(
                            variants[j].items, HeaderVals { mb: 0, sq: 0 }, bytes.skip(1), 0, 1,
                            Seq::empty(), Seq::empty(),
                        ) {
                            Ok(p) => Ok((MessageModel::Variant(j, p.0), 1 + p.1)),
                            Err(e) => Err(e),
                        }
                    },
                    None => Err(ReadError::UnrecognizedDiscriminant),
                }
            }
        },
    }
}

/// Padding to the next 4-byte boundary is under four bytes and lands on the
/// boundary.
pub proof fn lemma_pad4(n: nat)
    ensures
        pad4(n) < 4,
        (n + pad4(n)) % 4 == 0,
{
}

/// The decode environment the first `i` items leave behind.
pub open spec fn env_prefix(items: Seq<Item>, vals: Seq<ValueModel>, i: int) -> Seq<nat> {
    Seq::new(i as nat, |k: int| env_val(items, vals, k))
}

/// The one-pass read inverts the write: started at item `i` with the
/// remaining encoding in front of it — whatever follows — and the
/// environment of the items before `i`, it completes the value vector
/// exactly as it was encoded and consumes exactly the encoded bytes.
#[verifier::rlimit(100)]
#[verifier::spinoff_prover]
proof fn lemma_dec_items_inverts(
    items: Seq<Item>,
    vals: Seq<ValueModel>,
    hdr: HeaderVals,
    rest: Seq<u8>,
    i: int,
    offset: nat,
)
    requires
        items_wf(items),
        vals_wf(items, vals),
        0 <= i <= items.len(),
        has_metabyte(items) ==> hdr.mb == metabyte_byte(items, vals),
        has_sequence(items) ==> hdr.sq == sequence_val(items, vals),
    ensures
        dec_items(
            items, hdr, enc_items(items, vals, i, offset) + rest, i, offset,
            vals.take(i), env_prefix(items, vals, i),
        ) == Ok::<(Seq<ValueModel>, int), ReadError>(
            (vals, enc_items(items, vals, i, offset).len() as int),
        ),
    decreases items.len() - i,
{
    let enc = enc_items(items, vals, i, offset);
    let bytes = enc + rest;
    if i == items.len() {
        assert(vals.take(i) =~= vals);
    } else {
        assert(item_wf(items, i));
        assert(val_matches(items, vals, i));
        let b = enc_item(items, vals, i, offset);
        let tail = enc_items(items, vals, i + 1, offset + b.len());
        assert(enc == b + tail);
        assert(vals.take(i + 1) =~= vals.take(i).push(vals[i]));
        assert(env_prefix(items, vals, i + 1)
            =~= env_prefix(items, vals, i).push(env_val(items, vals, i)));
        match items[i] {
            Item::Field(f) => {
                if f.metabyte {
                    lemma_metabyte_unique(items, i);
                    assert(hdr.mb == env_val(items, vals, i) as u8);
                    let x = vals[i]->C8_0;
                    assert(vals[i] == ValueModel::C8(x));
                    assert(env_val(items, vals, i) == x as nat);
                    assert(ValueModel::C8(hdr.mb) == vals[i]);
                    assert(hdr.mb as nat == env_val(items, vals, i));
                    assert(b =~= Seq::<u8>::empty());
                    assert(bytes =~= tail + rest);
                    lemma_dec_items_inverts(items, vals, hdr, rest, i + 1, offset);
                } else if f.sequence {
                    lemma_sequence_unique(items, i);
                    let x = vals[i]->C16_0;
                    assert(vals[i] == ValueModel::C16(x));
                    assert(hdr.sq == scalar_val(vals[i]) as u16);
                    assert(ValueModel::C16(hdr.sq) == vals[i]);
                    assert(hdr.sq as nat == env_val(items, vals, i));
                    assert(b =~= Seq::<u8>::empty());
                    assert(bytes =~= tail + rest);
                    lemma_dec_items_inverts(items, vals, hdr, rest, i + 1, offset);
                } else {
                    match f.ty {
                        FieldType::Card(w) => {
                            let n = w.byte_count();
                            assert(b == scalar_bytes(vals[i]));
                            match w {
                                IntWidth::W1 => {
                                    let x = vals[i]->C8_0;
                                    assert(b =~= seq![x]);
                                    assert(bytes[0] == x);
                                    assert(read_scalar(w, bytes) == vals[i]);
                                },
                                IntWidth::W2 => {
                                    let x = vals[i]->C16_0;
                                    assert(b == be16(x));
                                    assert(bytes[0] == (x >> 8) as u8 && bytes[1] == x as u8);
                                    crate::buffer::lemma_be16_val_of(x);
                                    assert(read_scalar(w, bytes) == vals[i]);
                                },
                                IntWidth::W4 => {
                                    let x = vals[i]->C32_0;
                                    assert(b == be32(x));
                                    assert(bytes[0] == (x >> 24) as u8 && bytes[1] == (x >> 16) as u8
                                        && bytes[2] == (x >> 8) as u8 && bytes[3] == x as u8);
                                    crate::buffer::lemma_be32_val_of(x);
                                    assert(read_scalar(w, bytes) == vals[i]);
                                },
                            }
                            assert(b.len() == n);
                            assert(scalar_val(vals[i]) == env_val(items, vals, i));
                            assert(bytes.skip(n as int) =~= tail + rest);
                            lemma_dec_items_inverts(items, vals, hdr, rest, i + 1, offset + n);
                        },
                        FieldType::ByteList => {
                            let c = f.context->0;
                            assert(0 <= c < i);
                            let n = env_prefix(items, vals, i)[c as int];
                            assert(n == env_val(items, vals, c as int));
                            assert(n == list_len(vals, i));
                            let lb = vals[i]->List_0;
                            assert(b == lb);
                            assert(bytes.take(n as int) =~= lb);
                            assert(ValueModel::List(bytes.take(n as int)) == vals[i]);
                            assert(n == env_val(items, vals, i));
                            assert(bytes.skip(n as int) =~= tail + rest);
                            lemma_dec_items_inverts(items, vals, hdr, rest, i + 1, offset + n);
                        },
                    }
                }
            },
            Item::Let(l) => {
                let srclen = list_len(vals, l.source as int);
                if l.metabyte {
                    lemma_metabyte_unique(items, i);
                    assert(hdr.mb == env_val(items, vals, i) as u8);
                    assert(env_val(items, vals, i) == srclen);
                    assert(srclen < 0x100);
                    assert(hdr.mb as nat == env_val(items, vals, i));
                    assert(vals[i] == ValueModel::Nil);
                    assert(b =~= Seq::<u8>::empty());
                    assert(bytes =~= tail + rest);
                    lemma_dec_items_inverts(items, vals, hdr, rest, i + 1, offset);
                } else {
                    let n = l.width.byte_count();
                    assert(b == let_bytes(l.width, srclen));
                    assert(srclen < l.width.bound());
                    match l.width {
                        IntWidth::W1 => {
                            assert(b =~= seq![srclen as u8]);
                            assert(bytes[0] == srclen as u8);
                            assert(read_scalar_val(l.width, bytes) == srclen);
                        },
                        IntWidth::W2 => {
                            assert(b == be16(srclen as u16));
                            let x = srclen as u16;
                            assert(bytes[0] == (x >> 8) as u8 && bytes[1] == x as u8);
                            crate::buffer::lemma_be16_val_of(x);
                            assert(read_scalar_val(l.width, bytes) == srclen);
                        },
                        IntWidth::W4 => {
                            assert(b == be32(srclen as u32));
                            let x = srclen as u32;
                            assert(bytes[0] == (x >> 24) as u8 && bytes[1] == (x >> 16) as u8
                                && bytes[2] == (x >> 8) as u8 && bytes[3] == x as u8);
                            crate::buffer::lemma_be32_val_of(x);
                            assert(read_scalar_val(l.width, bytes) == srclen);
                        },
                    }
                    assert(b.len() == n);
                    assert(env_val(items, vals, i) == srclen);
                    assert(vals[i] == ValueModel::Nil);
                    assert(bytes.skip(n as int) =~= tail + rest);
                    lemma_dec_items_inverts(items, vals, hdr, rest, i + 1, offset + n);
                }
            },
            Item::Unused(u) => {
                let n = unused_len(items, vals, u, offset);
                assert(b == zeros(n));
                assert(b.len() == n);
                match u {
                    Unused::PadOf(p) => {
                        assert(0 <= p < i);
                        assert(items[p as int] matches Item::Field(_));
                        match items[p as int] {
                            Item::Field(pf) => match pf.ty {
                                FieldType::Card(_) => {
                                    assert(dec_unused_len(items, u, offset,
                                        env_prefix(items, vals, i)) == n);
                                },
                                FieldType::ByteList => {
                                    assert(env_prefix(items, vals, i)[p as int]
                                        == env_val(items, vals, p as int));
                                    assert(env_val(items, vals, p as int)
                                        == list_len(vals, p as int));
                                    assert(dec_unused_len(items, u, offset,
                                        env_prefix(items, vals, i)) == n);
                                },
                            },
                            _ => {},
                        }
                    },
                    _ => {
                        assert(dec_unused_len(items, u, offset, env_prefix(items, vals, i)) == n);
                    },
                }
                assert(vals[i] == ValueModel::Nil);
                assert(env_val(items, vals, i) == 0);
                assert(bytes.skip(n as int) =~= tail + rest);
                lemma_dec_items_inverts(items, vals, hdr, rest, i + 1, offset + n);
            },
        }
    }
}

/// Finding a variant by its own discriminant lands on that variant, when the
/// definition's discriminants are pairwise distinct.
proof fn lemma_find_variant(variants: Seq<VariantModel>, j: int, k: int)
    requires
        0 <= k <= j < variants.len(),
        forall|v: int, w: int|
            0 <= v < variants.len() && 0 <= w < variants.len() && v != w
                ==> discriminant_at(variants, v) != discriminant_at(variants, w),
    ensures
        find_variant_from(variants, discriminant_at(variants, j), k) == Some(j),
    decreases j - k,
{
    if k < j {
        assert(discriminant_at(variants, k) != discriminant_at(variants, j));
        lemma_find_variant(variants, j, k + 1);
    }
}

/// The round trip for a plain record.
#[verifier::spinoff_prover]
proof fn lemma_rt_plain(items: Seq<Item>, vals: Seq<ValueModel>, rest: Seq<u8>)
    requires
        def_wf(DefModel { role: Role::Plain, body: BodyModel::Record(items) }),
        valid_value(
            DefModel { role: Role::Plain, body: BodyModel::Record(items) },
            MessageModel::Record(vals),
        ),
    ensures
        ({
            let def = DefModel { role: Role::Plain, body: BodyModel::Record(items) };
            let m = MessageModel::Record(vals);
            spec_decode(def, spec_encode(def, m) + rest)
                == Ok::<(MessageModel, int), ReadError>((m, total_size(def, m) as int))
        }),
{
    let def = DefModel { role: Role::Plain, body: BodyModel::Record(items) };
    let m = MessageModel::Record(vals);
    let body = enc_items(items, vals, 0, 0);
    assert(spec_encode(def, m) == body);
    assert(vals.take(0) =~= Seq::<ValueModel>::empty());
    assert(env_prefix(items, vals, 0) =~= Seq::<nat>::empty());
    lemma_dec_items_inverts(items, vals, HeaderVals { mb: 0, sq: 0 }, rest, 0, 0);
}

/// The round trip for a request: the header carries the major opcode, the
/// metabyte slot and the length in 4-byte units, and the body comes back
/// item by item.
#[verifier::rlimit(100)]
#[verifier::spinoff_prover]
proof fn lemma_rt_request(
    items: Seq<Item>,
    vals: Seq<ValueModel>,
    major_opcode: u8,
    minor_opcode: Option<u8>,
    rest: Seq<u8>,
)
    requires
        def_wf(
            DefModel { role: Role::Request { major_opcode, minor_opcode }, body: BodyModel::Record(items) },
        ),
        valid_value(
            DefModel { role: Role::Request { major_opcode, minor_opcode }, body: BodyModel::Record(items) },
            MessageModel::Record(vals),
        ),
    ensures
        ({
            let def = DefModel {
                role: Role::Request { major_opcode, minor_opcode },
                body: BodyModel::Record(items),
            };
            let m = MessageModel::Record(vals);
            spec_decode(def, spec_encode(def, m) + rest)
                == Ok::<(MessageModel, int), ReadError>((m, total_size(def, m) as int))
        }),
{
    let def = DefModel {
        role: Role::Request { major_opcode, minor_opcode },
        body: BodyModel::Record(items),
    };
    let m = MessageModel::Record(vals);
    let body = enc_items(items, vals, 0, 4);
    let tail = pad4((4 + body.len()) as nat);
    let total = 4 + body.len() + tail;
    let lenf = (total / 4) as u16;
    let mb = request_metabyte(items, vals, minor_opcode);
    let enc = seq![major_opcode, mb] + be16(lenf) + body + zeros(tail);
    assert(spec_encode(def, m) == enc);
    assert(enc.len() == total);
    let bytes = enc + rest;
    assert(bytes[0] == major_opcode);
    assert(bytes[1] == mb);
    assert(bytes[2] == (lenf >> 8) as u8);
    assert(bytes[3] == lenf as u8);
    crate::buffer::lemma_be16_val_of(lenf);
    assert(be16_val(bytes[2], bytes[3]) == lenf);
    assert(match minor_opcode {
        Some(m0) => bytes[1] == m0,
        None => has_metabyte(items) || bytes[1] == 0,
    });
    let hdr = HeaderVals { mb: bytes[1], sq: 0 };
    assert(has_metabyte(items) ==> hdr.mb == metabyte_byte(items, vals));
    assert(vals.take(0) =~= Seq::<ValueModel>::empty());
    assert(env_prefix(items, vals, 0) =~= Seq::<nat>::empty());
    assert(bytes.skip(4) =~= body + (zeros(tail) + rest));
    lemma_dec_items_inverts(items, vals, hdr, zeros(tail) + rest, 0, 4);
    assert(dec_items(items, hdr, bytes.skip(4), 0, 4, Seq::empty(), Seq::empty())
        == Ok::<(Seq<ValueModel>, int), ReadError>((vals, body.len() as int)));
    lemma_pad4((4 + body.len()) as nat);
    assert(total % 4 == 0);
    assert(total <= 0x3FFFC);
    assert(lenf as int == total / 4);
    assert(lenf * 4 == total);
    assert(bytes.len() >= total);
}

/// The round trip for a reply: the header carries the constant one, the
/// metabyte slot, the sequence number and the length in 4-byte units beyond
/// the 32-byte envelope.
#[verifier::rlimit(100)]
#[verifier::spinoff_prover]
proof fn lemma_rt_reply(items: Seq<Item>, vals: Seq<ValueModel>, rest: Seq<u8>)
    requires
        def_wf(DefModel { role: Role::Reply, body: BodyModel::Record(items) }),
        valid_value(
            DefModel { role: Role::Reply, body: BodyModel::Record(items) },
            MessageModel::Record(vals),
        ),
    ensures
        ({
            let def = DefModel { role: Role::Reply, body: BodyModel::Record(items) };
            let m = MessageModel::Record(vals);
            spec_decode(def, spec_encode(def, m) + rest)
                == Ok::<(MessageModel, int), ReadError>((m, total_size(def, m) as int))
        }),
{
    let def = DefModel { role: Role::Reply, body: BodyModel::Record(items) };
    let m = MessageModel::Record(vals);
    let body = enc_items(items, vals, 0, 8);
    let tail = pad4((8 + body.len()) as nat);
    let total = 8 + body.len() + tail;
    let lenf = ((total - 32) / 4) as u32;
    let mb = metabyte_byte(items, vals);
    let sq = sequence_val(items, vals);
    let enc = seq![1u8, mb] + be16(sq) + be32(lenf) + body + zeros(tail);
    assert(spec_encode(def, m) == enc);
    assert(enc.len() == total);
    let bytes = enc + rest;
    assert(bytes[0] == 1);
    assert(bytes[1] == mb);
    assert(bytes[2] == (sq >> 8) as u8);
    assert(bytes[3] == sq as u8);
    crate::buffer::lemma_be16_val_of(sq);
    assert(be16_val(bytes[2], bytes[3]) == sq);
    assert(bytes[4] == (lenf >> 24) as u8);
    assert(bytes[5] == (lenf >> 16) as u8);
    assert(bytes[6] == (lenf >> 8) as u8);
    assert(bytes[7] == lenf as u8);
    crate::buffer::lemma_be32_val_of(lenf);
    assert(be32_val(bytes[4], bytes[5], bytes[6], bytes[7]) == lenf);
    let hdr = HeaderVals { mb: bytes[1], sq: be16_val(bytes[2], bytes[3]) };
    assert(vals.take(0) =~= Seq::<ValueModel>::empty());
    assert(env_prefix(items, vals, 0) =~= Seq::<nat>::empty());
    assert(bytes.skip(8) =~= body + (zeros(tail) + rest));
    lemma_dec_items_inverts(items, vals, hdr, zeros(tail) + rest, 0, 8);
    assert(dec_items(items, hdr, bytes.skip(8), 0, 8, Seq::empty(), Seq::empty())
        == Ok::<(Seq<ValueModel>, int), ReadError>((vals, body.len() as int)));
    lemma_pad4((8 + body.len()) as nat);
    assert(total % 4 == 0);
    assert(32 <= total <= 32 + 0x3_FFFF_FFFC);
    assert((total - 32) % 4 == 0);
    assert(lenf as int == (total - 32) / 4);
    assert(lenf * 4 == total - 32);
    assert(bytes.len() >= total);
}

/// The round trip for an event: the code byte, then — only when the event
/// carries a sequence number — the metabyte slot and the sequence number.
#[verifier::rlimit(100)]
#[verifier::spinoff_prover]
proof fn lemma_rt_event(items: Seq<Item>, vals: Seq<ValueModel>, code: u8, rest: Seq<u8>)
    requires
        def_wf(DefModel { role: Role::Event { code }, body: BodyModel::Record(items) }),
        valid_value(
            DefModel { role: Role::Event { code }, body: BodyModel::Record(items) },
            MessageModel::Record(vals),
        ),
    ensures
        ({
            let def = DefModel { role: Role::Event { code }, body: BodyModel::Record(items) };
            let m = MessageModel::Record(vals);
            spec_decode(def, spec_encode(def, m) + rest)
                == Ok::<(MessageModel, int), ReadError>((m, total_size(def, m) as int))
        }),
{
    let def = DefModel { role: Role::Event { code }, body: BodyModel::Record(items) };
    let m = MessageModel::Record(vals);
    assert(vals.take(0) =~= Seq::<ValueModel>::empty());
    assert(env_prefix(items, vals, 0) =~= Seq::<nat>::empty());
    if has_sequence(items) {
        let body = enc_items(items, vals, 0, 4);
        let mb = metabyte_byte(items, vals);
        let sq = sequence_val(items, vals);
        let enc = seq![code, mb] + be16(sq) + body;
        assert(spec_encode(def, m) == enc);
        let bytes = enc + rest;
        assert(bytes[0] == code);
        assert(bytes[1] == mb);
        assert(bytes[2] == (sq >> 8) as u8);
        assert(bytes[3] == sq as u8);
        crate::buffer::lemma_be16_val_of(sq);
        let hdr = HeaderVals { mb: bytes[1], sq: be16_val(bytes[2], bytes[3]) };
        assert(bytes.skip(4) =~= body + rest);
        lemma_dec_items_inverts(items, vals, hdr, rest, 0, 4);
    } else {
        let body = enc_items(items, vals, 0, 1);
        let enc = seq![code] + body;
        assert(spec_encode(def, m) == enc);
        let bytes = enc + rest;
        assert(bytes[0] == code);
        assert(bytes.skip(1) =~= body + rest);
        lemma_dec_items_inverts(items, vals, HeaderVals { mb: 0, sq: 0 }, rest, 0, 1);
    }
}

/// The round trip for a variant set: the discriminant byte dispatches back
/// to the variant that was written.
#[verifier::spinoff_prover]
proof fn lemma_rt_variant(
    variants: Seq<VariantModel>,
    j: int,
    vals: Seq<ValueModel>,
    rest: Seq<u8>,
)
    requires
        def_wf(DefModel { role: Role::Plain, body: BodyModel::VariantSet(variants) }),
        valid_value(
            DefModel { role: Role::Plain, body: BodyModel::VariantSet(variants) },
            MessageModel::Variant(j, vals),
        ),
    ensures
        ({
            let def = DefModel { role: Role::Plain, body: BodyModel::VariantSet(variants) };
            let m = MessageModel::Variant(j, vals);
            spec_decode(def, spec_encode(def, m) + rest)
                == Ok::<(MessageModel, int), ReadError>((m, total_size(def, m) as int))
        }),
{
    let def = DefModel { role: Role::Plain, body: BodyModel::VariantSet(variants) };
    let m = MessageModel::Variant(j, vals);
    let items = variants[j].items;
    let body = enc_items(items, vals, 0, 1);
    let d = discriminant_at(variants, j);
    assert(d < 256);
    let enc = seq![d as u8] + body;
    assert(spec_encode(def, m) == enc);
    let bytes = enc + rest;
    assert(bytes[0] == d as u8);
    assert(bytes[0] as nat == d);
    lemma_find_variant(variants, j, 0);
    assert(find_variant_from(variants, bytes[0] as nat, 0) == Some(j));
    assert(vals.take(0) =~= Seq::<ValueModel>::empty());
    assert(env_prefix(items, vals, 0) =~= Seq::<nat>::empty());
    assert(bytes.skip(1) =~= body + rest);
    lemma_dec_items_inverts(items, vals, HeaderVals { mb: 0, sq: 0 }, rest, 0, 1);
}

/// The round-trip law: for every well-formed definition and every valid
/// value of it, decoding the value's encoding — whatever bytes follow it —
/// returns exactly that value and consumes exactly its encoded size.
pub proof fn lemma_round_trip_decode(def: DefModel, m: MessageModel, rest: Seq<u8>)
    requires
        def_wf(def),
        valid_value(def, m),
    ensures
        spec_decode(def, spec_encode(def, m) + rest)
            == Ok::<(MessageModel, int), ReadError>((m, total_size(def, m) as int)),
{
    match def.body {
        BodyModel::Record(items) => {
            let vals = m->Record_0;
            match def.role {
                Role::Plain => lemma_rt_plain(items, vals, rest),
                Role::Request { major_opcode, minor_opcode } => lemma_rt_request(
                    items, vals, major_opcode, minor_opcode, rest,
                ),
                Role::Reply => lemma_rt_reply(items, vals, rest),
                Role::Event { code } => lemma_rt_event(items, vals, code, rest),
            }
        },
        BodyModel::VariantSet(variants) => {
            lemma_rt_variant(variants, m->Variant_0, m->Variant_1, rest);
        },
    }
}

/// The round-trip law on exactly the encoded bytes: `decode(encode(v)) == v`,
/// with every byte consumed.
pub proof fn lemma_round_trip(def: DefModel, m: MessageModel)
    requires
        def_wf(def),
        valid_value(def, m),
    ensures
        spec_decode(def, spec_encode(def, m))
            == Ok::<(MessageModel, int), ReadError>((m, total_size(def, m) as int)),
{
    lemma_round_trip_decode(def, m, Seq::empty());
    assert(spec_encode(def, m) + Seq::<u8>::empty() =~= spec_encode(def, m));
}

/// The length-unit law for requests: the length field read back from the
/// encoded header counts 4-byte units of the whole message, header included.
pub proof fn lemma_request_length_units(def: DefModel, m: MessageModel)
    requires
        def_wf(def),
        valid_value(def, m),
        def.role matches Role::Request { .. },
    ensures
        ({
            let enc = spec_encode(def, m);
            be16_val(enc[2], enc[3]) * 4 == enc.len()
        }),
{
    let items = def.body->Record_0;
    let vals = m->Record_0;
    let body = enc_items(items, vals, 0, 4);
    let tail = pad4((4 + body.len()) as nat);
    let total = 4 + body.len() + tail;
    let lenf = (total / 4) as u16;
    let enc = spec_encode(def, m);
    assert(enc[2] == (lenf >> 8) as u8);
    assert(enc[3] == lenf as u8);
    crate::buffer::lemma_be16_val_of(lenf);
    lemma_pad4((4 + body.len()) as nat);
    assert(enc.len() == total);
    assert(total <= 0x3FFFC);
    assert(lenf * 4 == total);
}

/// The length-unit law for replies: the length field read back from the
/// encoded header counts 4-byte units beyond the 32-byte envelope.
pub proof fn lemma_reply_length_units(def: DefModel, m: MessageModel)
    requires
        def_wf(def),
        valid_value(def, m),
        def.role is Reply,
    ensures
        ({
            let enc = spec_encode(def, m);
            be32_val(enc[4], enc[5], enc[6], enc[7]) * 4 == enc.len() - 32
        }),
{
    let items = def.body->Record_0;
    let vals = m->Record_0;
    let body = enc_items(items, vals, 0, 8);
    let tail = pad4((8 + body.len()) as nat);
    let total = 8 + body.len() + tail;
    let lenf = ((total - 32) / 4) as u32;
    let enc = spec_encode(def, m);
    assert(enc[4] == (lenf >> 24) as u8);
    assert(enc[5] == (lenf >> 16) as u8);
    assert(enc[6] == (lenf >> 8) as u8);
    assert(enc[7] == lenf as u8);
    crate::buffer::lemma_be32_val_of(lenf);
    lemma_pad4((8 + body.len()) as nat);
    assert(enc.len() == total);
    assert(32 <= total <= 32 + 0x3_FFFF_FFFC);
    assert((total - 32) % 4 == 0);
    assert(lenf * 4 == total - 32);
}

/// The alignment law: every request's and every reply's encoding is a
/// multiple of four bytes long.
pub proof fn lemma_alignment(def: DefModel, m: MessageModel)
    requires
        def_wf(def),
        valid_value(def, m),
        def.role matches Role::Request { .. } || def.role is Reply,
    ensures
        spec_encode(def, m).len() % 4 == 0,
{
    let items = def.body->Record_0;
    let vals = m->Record_0;
    match def.role {
        Role::Request { .. } => {
            let body = enc_items(items, vals, 0, 4);
            lemma_pad4((4 + body.len()) as nat);
            assert(spec_encode(def, m).len() == 4 + body.len() + pad4((4 + body.len()) as nat));
        },
        Role::Reply => {
            let body = enc_items(items, vals, 0, 8);
            lemma_pad4((8 + body.len()) as nat);
            assert(spec_encode(def, m).len() == 8 + body.len() + pad4((8 + body.len()) as nat));
        },
        _ => {},
    }
}

/// Metabyte exclusivity: in a header with a metabyte slot, the second byte
/// is the declared metabyte item's one-byte encoding, and zero when the
/// definition declares none. A request with a minor opcode carries that
/// opcode there and — by well-formedness — declares no metabyte item.
pub proof fn lemma_metabyte_exclusivity(def: DefModel, m: MessageModel)
    requires
        def_wf(def),
        valid_value(def, m),
        def.role matches Role::Request { minor_opcode: None, .. } || def.role is Reply || (
        def.role matches Role::Event { .. } && has_sequence(def.body->Record_0)),
    ensures
        ({
            let items = def.body->Record_0;
            let vals = m->Record_0;
            let enc = spec_encode(def, m);
            &&& has_metabyte(items) ==> enc[1] == env_val(
                items, vals, metabyte_idx(items)) as u8
            &&& !has_metabyte(items) ==> enc[1] == 0
        }),
{
    let items = def.body->Record_0;
    let vals = m->Record_0;
    let enc = spec_encode(def, m);
    match def.role {
        Role::Request { minor_opcode, .. } => {
            assert(enc[1] == request_metabyte(items, vals, minor_opcode));
        },
        Role::Reply => {
            assert(enc[1] == metabyte_byte(items, vals));
        },
        Role::Event { .. } => {
            assert(enc[1] == metabyte_byte(items, vals));
        },
        Role::Plain => {},
    }
}

/// Report the padding to the next 4-byte boundary.
pub fn pad4_len(n: usize) -> (r: usize)
    ensures
        r == pad4(n as nat),
{
    let m: usize = n % 4;
    if m == 0 {
        0
    } else {
        4 - m
    }
}

/// Report the padding to the next 4-byte boundary at header length plus
/// bytes consumed, computed without forming the sum.
pub fn pad4_at(hdr_len: usize, consumed: usize) -> (r: usize)
    requires
        hdr_len <= 8,
    ensures
        r == pad4((hdr_len + consumed) as nat),
{
    proof {
        vstd::arithmetic::div_mod::lemma_add_mod_noop(hdr_len as int, consumed as int, 4);
    }
    let s: usize = ((hdr_len % 4) + (consumed % 4)) % 4;
    assert(s == (hdr_len + consumed) % 4);
    if s == 0 {
        0
    } else {
        4 - s
    }
}

/// Find the declared metabyte item, if any.
fn find_metabyte(items: &Vec<Item>) -> (r: Option<usize>)
    requires
        items_wf(items@),
    ensures
        match r {
            Some(k) => {
                &&& k < items@.len()
                &&& has_metabyte(items@)
                &&& metabyte_idx(items@) == k
            },
            None => !has_metabyte(items@),
        },
{
    let n = items.len();
    let mut i: usize = 0;
    while i < n
        invariant
            0 <= i <= n,
            n == items@.len(),
            items_wf(items@),
            forall|k: int| 0 <= k < i ==> !is_metabyte_item(items@[k]),
        decreases n - i,
    {
        let found = match &items[i] {
            Item::Field(f) => f.metabyte,
            Item::Let(l) => l.metabyte,
            Item::Unused(_) => false,
        };
        if found {
            proof {
                lemma_metabyte_unique(items@, i as int);
            }
            return Some(i);
        }
        i += 1;
    }
    assert(!has_metabyte(items@));
    None
}

/// Find the declared sequence item, if any.
fn find_sequence(items: &Vec<Item>) -> (r: Option<usize>)
    requires
        items_wf(items@),
    ensures
        match r {
            Some(k) => {
                &&& k < items@.len()
                &&& has_sequence(items@)
                &&& sequence_idx(items@) == k
            },
            None => !has_sequence(items@),
        },
{
    let n = items.len();
    let mut i: usize = 0;
    while i < n
        invariant
            0 <= i <= n,
            n == items@.len(),
            items_wf(items@),
            forall|k: int| 0 <= k < i ==> !is_sequence_item(items@[k]),
        decreases n - i,
    {
        let found = match &items[i] {
            Item::Field(f) => f.sequence,
            _ => false,
        };
        if found {
            proof {
                lemma_sequence_unique(items@, i as int);
            }
            return Some(i);
        }
        i += 1;
    }
    assert(!has_sequence(items@));
    None
}

/// The header's metabyte slot for a value: the declared metabyte item's
/// one-byte encoding, or zero.
fn metabyte_byte_of(items: &Vec<Item>, vals: &Vec<Value>) -> (r: u8)
    requires
        items_wf(items@),
        vals_wf(items@, vals_view(*vals)),
    ensures
        r == metabyte_byte(items@, vals_view(*vals)),
{
    let ghost iv = vals_view(*vals);
    match find_metabyte(items) {
        None => 0,
        Some(k) => {
            assert(vals@.len() == items@.len());
            match &items[k] {
                Item::Field(_) => {
                    assert(val_matches(items@, iv, k as int));
                    assert(iv[k as int] == vals@[k as int]@);
                    match &vals[k] {
                        Value::C8(x) => *x,
                        _ => {
                            proof {
                                assert(item_wf(items@, k as int));
                                assert(false);
                            }
                            0
                        },
                    }
                },
                Item::Let(l) => {
                    assert(val_matches(items@, iv, k as int));
                    assert(item_wf(items@, k as int));
                    assert(l.source < items@.len());
                    match &vals[l.source] {
                        Value::List(b) => {
                            assert(iv[l.source as int] == vals@[l.source as int]@);
                            assert(list_len(iv, l.source as int) == b@.len());
                            b.len() as u8
                        },
                        _ => {
                            proof {
                                assert(val_matches(items@, iv, l.source as int));
                                assert(item_wf(items@, k as int));
                                assert(iv[l.source as int] == vals@[l.source as int]@);
                                assert(false);
                            }
                            0
                        },
                    }
                },
                Item::Unused(_) => 0,
            }
        },
    }
}

/// The declared sequence field's value, or zero.
fn sequence_val_of(items: &Vec<Item>, vals: &Vec<Value>) -> (r: u16)
    requires
        items_wf(items@),
        vals_wf(items@, vals_view(*vals)),
    ensures
        r == sequence_val(items@, vals_view(*vals)),
{
    let ghost iv = vals_view(*vals);
    match find_sequence(items) {
        None => 0,
        Some(k) => {
            assert(vals@.len() == items@.len());
            assert(val_matches(items@, iv, k as int));
            assert(item_wf(items@, k as int));
            assert(iv[k as int] == vals@[k as int]@);
            match &vals[k] {
                Value::C16(x) => *x,
                _ => {
                    proof {
                        assert(false);
                    }
                    0
                },
            }
        },
    }
}

/// The exact number of bytes the body pass will emit for these items after
/// a header of the given length, summed item by item as the write procedure
/// is derived from the same sequence.
#[verifier::rlimit(60)]
fn items_size_exec(items: &Vec<Item>, vals: &Vec<Value>, hdr_len: usize) -> (r: usize)
    requires
        items_wf(items@),
        vals_wf(items@, vals_view(*vals)),
        hdr_len <= 8,
        hdr_len + enc_items(items@, vals_view(*vals), 0, hdr_len as nat).len() <= usize::MAX,
    ensures
        r == enc_items(items@, vals_view(*vals), 0, hdr_len as nat).len(),
{
    let ghost iv = vals_view(*vals);
    let n = items.len();
    let mut acc: usize = 0;
    let mut i: usize = 0;
    while i < n
        invariant
            0 <= i <= n,
            n == items@.len(),
            items_wf(items@),
            vals_wf(items@, iv),
            iv == vals_view(*vals),
            vals@.len() == n,
            hdr_len <= 8,
            hdr_len + enc_items(items@, iv, 0, hdr_len as nat).len() <= usize::MAX,
            enc_items(items@, iv, 0, hdr_len as nat).len() == acc + enc_items(
                items@, iv, i as int, (hdr_len + acc) as nat).len(),
        decreases n - i,
    {
        let ghost off = (hdr_len + acc) as nat;
        let ghost b = enc_item(items@, iv, i as int, off);
        proof {
            assert(enc_items(items@, iv, i as int, off) == b + enc_items(
                items@, iv, i as int + 1, off + b.len()));
            assert(val_matches(items@, iv, i as int));
            assert(item_wf(items@, i as int));
            assert(iv[i as int] == vals@[i as int]@);
        }
        let sz: usize = match &items[i] {
            Item::Field(f) => {
                if f.metabyte || f.sequence {
                    proof {
                        assert(b.len() == 0);
                    }
                    0
                } else {
                    match f.ty {
                        FieldType::Card(w) => {
                            proof {
                                assert(b == scalar_bytes(iv[i as int]));
                                assert(b.len() == w.byte_count());
                            }
                            w.byte_len()
                        },
                        FieldType::ByteList => match &vals[i] {
                            Value::List(lb) => {
                                proof {
                                    assert(b.len() == lb@.len());
                                }
                                lb.len()
                            },
                            _ => {
                                proof {
                                    assert(false);
                                }
                                0
                            },
                        },
                    }
                }
            },
            Item::Let(l) => {
                if l.metabyte {
                    proof {
                        assert(b.len() == 0);
                    }
                    0
                } else {
                    proof {
                        assert(b == let_bytes(l.width, list_len(iv, l.source as int)));
                        assert(b.len() == l.width.byte_count());
                    }
                    l.width.byte_len()
                }
            },
            Item::Unused(u) => {
                proof {
                    assert(b == zeros(unused_len(items@, iv, *u, off)));
                }
                match u {
                    Unused::Unit => 1,
                    Unused::Run(k) => *k as usize,
                    Unused::AlignTo4 => pad4_at(hdr_len, acc),
                    Unused::PadOf(p) => {
                        match &items[*p] {
                            Item::Field(f2) => match f2.ty {
                                FieldType::Card(w2) => pad4_len(w2.byte_len()),
                                FieldType::ByteList => {
                                    proof {
                                        assert(val_matches(items@, iv, *p as int));
                                        assert(iv[*p as int] == vals@[*p as int]@);
                                    }
                                    match &vals[*p] {
                                        Value::List(lb) => pad4_len(lb.len()),
                                        _ => {
                                            proof {
                                                assert(false);
                                            }
                                            0
                                        },
                                    }
                                },
                            },
                            _ => {
                                proof {
                                    assert(false);
                                }
                                0
                            },
                        }
                    },
                }
            },
        };
        proof {
            assert(sz == b.len());
        }
        acc = acc + sz;
        i += 1;
    }
    acc
}

/// The encoded size of a message value under its definition: exactly the
/// number of bytes `encode` emits, a constant plus the per-value sum of the
/// items' reported sizes and the resolved padding.
pub fn encoded_size(def: &Definition, m: &MessageValue) -> (r: usize)
    requires
        def_wf(def@),
        valid_value(def@, m@),
    ensures
        r == total_size(def@, m@),
{
    match &def.body {
        DefinitionBody::Record(items) => match m {
            MessageValue::Record(vals) => {
                let ghost iv = vals_view(*vals);
                match def.role {
                    Role::Plain => items_size_exec(items, vals, 0),
                    Role::Request { .. } => {
                        proof {
                            assert(total_size(def@, m@) == 4 + enc_items(items@, iv, 0, 4).len()
                                + pad4((4 + enc_items(items@, iv, 0, 4).len()) as nat));
                            lemma_pad4((4 + enc_items(items@, iv, 0, 4).len()) as nat);
                        }
                        let b = items_size_exec(items, vals, 4);
                        let t = pad4_at(4, b);
                        4 + b + t
                    },
                    Role::Reply => {
                        proof {
                            assert(total_size(def@, m@) == 8 + enc_items(items@, iv, 0, 8).len()
                                + pad4((8 + enc_items(items@, iv, 0, 8).len()) as nat));
                            lemma_pad4((8 + enc_items(items@, iv, 0, 8).len()) as nat);
                        }
                        let b = items_size_exec(items, vals, 8);
                        let t = pad4_at(8, b);
                        8 + b + t
                    },
                    Role::Event { .. } => {
                        let h: usize = if find_sequence(items).is_some() {
                            4
                        } else {
                            1
                        };
                        proof {
                            assert(h as nat == header_len(def@.role, items@));
                            assert(total_size(def@, m@) == h + enc_items(
                                items@, iv, 0, h as nat).len());
                        }
                        let b = items_size_exec(items, vals, h);
                        h + b
                    },
                }
            },
            _ => {
                proof {
                    assert(false);
                }
                0
            },
        },
        DefinitionBody::VariantSet(variants) => match m {
            MessageValue::Variant(j, vals) => {
                let ghost vs = variants_view(*variants);
                let ghost iv = vals_view(*vals);
                proof {
                    assert(def@.body == BodyModel::VariantSet(vs));
                    assert(m@ == MessageModel::Variant(*j as int, iv));
                    assert(vs[*j as int].items == variants@[*j as int].items@);
                    assert(total_size(def@, m@) == 1 + enc_items(
                        variants@[*j as int].items@, iv, 0, 1).len());
                }
                let v = &variants[*j];
                let b = items_size_exec(&v.items, vals, 1);
                1 + b
            },
            _ => {
                proof {
                    assert(false);
                }
                0
            },
        },
    }
}

/// Write the body items in declared order into a buffer that already holds
/// the header, skipping the items the header carries.
#[verifier::rlimit(100)]
#[verifier::spinoff_prover]
fn write_items(buf: &mut bytes::BytesMut, items: &Vec<Item>, vals: &Vec<Value>, hdr_len: usize)
    requires
        items_wf(items@),
        vals_wf(items@, vals_view(*vals)),
        hdr_len <= 8,
        bm_view(*old(buf)).len() == hdr_len,
        hdr_len + enc_items(items@, vals_view(*vals), 0, hdr_len as nat).len() <= usize::MAX,
    ensures
        bm_view(*final(buf)) == bm_view(*old(buf)) + enc_items(
            items@, vals_view(*vals), 0, hdr_len as nat),
{
    let ghost iv = vals_view(*vals);
    let ghost enc0 = enc_items(items@, iv, 0, hdr_len as nat);
    let n = items.len();
    let mut written: usize = 0;
    let mut i: usize = 0;
    while i < n
        invariant
            0 <= i <= n,
            n == items@.len(),
            vals@.len() == n,
            items_wf(items@),
            vals_wf(items@, iv),
            iv == vals_view(*vals),
            hdr_len <= 8,
            enc0 == enc_items(items@, iv, 0, hdr_len as nat),
            hdr_len + enc0.len() <= usize::MAX,
            written <= enc0.len(),
            bm_view(*old(buf)).len() == hdr_len,
            bm_view(*buf) == bm_view(*old(buf)) + enc0.take(written as int),
            enc0 == enc0.take(written as int) + enc_items(
                items@, iv, i as int, (hdr_len + written) as nat),
        decreases n - i,
    {
        let ghost off = (hdr_len + written) as nat;
        let ghost b = enc_item(items@, iv, i as int, off);
        let ghost view0 = bm_view(*buf);
        proof {
            assert(enc_items(items@, iv, i as int, off) == b + enc_items(
                items@, iv, i as int + 1, off + b.len()));
            assert(val_matches(items@, iv, i as int));
            assert(item_wf(items@, i as int));
            assert(iv[i as int] == vals@[i as int]@);
        }
        let sz: usize = match &items[i] {
            Item::Field(f) => {
                if f.metabyte || f.sequence {
                    proof {
                        assert(b.len() == 0);
                    }
                    0
                } else {
                    match f.ty {
                        FieldType::Card(_) => {
                            proof {
                                assert(b == scalar_bytes(iv[i as int]));
                            }
                            match &vals[i] {
                                Value::C8(x) => {
                                    bm_put_u8(buf, *x);
                                    1
                                },
                                Value::C16(x) => {
                                    bm_put_u16(buf, *x);
                                    2
                                },
                                Value::C32(x) => {
                                    bm_put_u32(buf, *x);
                                    4
                                },
                                _ => {
                                    proof {
                                        assert(false);
                                    }
                                    0
                                },
                            }
                        },
                        FieldType::ByteList => match &vals[i] {
                            Value::List(lb) => {
                                bm_put_slice(buf, lb.as_slice());
                                lb.len()
                            },
                            _ => {
                                proof {
                                    assert(false);
                                }
                                0
                            },
                        },
                    }
                }
            },
            Item::Let(l) => {
                if l.metabyte {
                    proof {
                        assert(b.len() == 0);
                    }
                    0
                } else {
                    proof {
                        assert(b == let_bytes(l.width, list_len(iv, l.source as int)));
                        assert(val_matches(items@, iv, l.source as int));
                        assert(iv[l.source as int] == vals@[l.source as int]@);
                    }
                    let srclen: usize = match &vals[l.source] {
                        Value::List(lb) => lb.len(),
                        _ => {
                            proof {
                                assert(false);
                            }
                            0
                        },
                    };
                    proof {
                        assert(srclen as nat == list_len(iv, l.source as int));
                    }
                    match l.width {
                        IntWidth::W1 => {
                            bm_put_u8(buf, srclen as u8);
                            1
                        },
                        IntWidth::W2 => {
                            bm_put_u16(buf, srclen as u16);
                            2
                        },
                        IntWidth::W4 => {
                            bm_put_u32(buf, srclen as u32);
                            4
                        },
                    }
                }
            },
            Item::Unused(u) => {
                proof {
                    assert(b == zeros(unused_len(items@, iv, *u, off)));
                }
                let zn: usize = match u {
                    Unused::Unit => 1,
                    Unused::Run(k) => *k as usize,
                    Unused::AlignTo4 => pad4_at(hdr_len, written),
                    Unused::PadOf(p) => {
                        match &items[*p] {
                            Item::Field(f2) => match f2.ty {
                                FieldType::Card(w2) => pad4_len(w2.byte_len()),
                                FieldType::ByteList => {
                                    proof {
                                        assert(val_matches(items@, iv, *p as int));
                                        assert(iv[*p as int] == vals@[*p as int]@);
                                    }
                                    match &vals[*p] {
                                        Value::List(lb) => pad4_len(lb.len()),
                                        _ => {
                                            proof {
                                                assert(false);
                                            }
                                            0
                                        },
                                    }
                                },
                            },
                            _ => {
                                proof {
                                    assert(false);
                                }
                                0
                            },
                        }
                    },
                };
                proof {
                    assert(zn as nat == unused_len(items@, iv, *u, off));
                }
                bm_put_zeros(buf, zn);
                zn
            },
        };
        proof {
            assert(sz == b.len());
            assert(bm_view(*buf) == view0 + b);
            assert(enc0.take((written + sz) as int) =~= enc0.take(written as int) + b);
            assert(bm_view(*buf) =~= bm_view(*old(buf)) + enc0.take((written + sz) as int));
            assert(enc0 =~= enc0.take((written + sz) as int) + enc_items(
                items@, iv, i as int + 1, (hdr_len + written + sz) as nat));
        }
        written = written + sz;
        i += 1;
    }
    proof {
        assert(enc_items(items@, iv, n as int, (hdr_len + written) as nat) =~= Seq::<u8>::empty());
        assert(enc0 =~= enc0.take(written as int));
        assert(written == enc0.len());
        assert(enc0.take(written as int) =~= enc0);
    }
}

/// The discriminant assigned to one variant: the declared override, or the
/// previous variant's discriminant plus one, starting at zero.
fn variant_discriminant(variants: &Vec<Variant>, j: usize) -> (r: u8)
    requires
        j < variants@.len(),
        forall|v: int|
            0 <= v < variants@.len() ==> #[trigger] discriminant_at(
                variants_view(*variants), v) < 256,
    ensures
        r as nat == discriminant_at(variants_view(*variants), j as int),
{
    let ghost vs = variants_view(*variants);
    let mut d: u8 = match variants[0].discriminant {
        Some(x) => x,
        None => 0,
    };
    proof {
        assert(vs[0].discriminant == variants@[0].discriminant);
        assert(d as nat == discriminant_at(vs, 0));
    }
    let mut k: usize = 0;
    while k < j
        invariant
            0 <= k <= j,
            j < variants@.len(),
            vs == variants_view(*variants),
            d as nat == discriminant_at(vs, k as int),
            forall|v: int| 0 <= v < vs.len() ==> #[trigger] discriminant_at(vs, v) < 256,
        decreases j - k,
    {
        k += 1;
        d = match variants[k].discriminant {
            Some(x) => {
                proof {
                    assert(vs[k as int].discriminant == variants@[k as int].discriminant);
                }
                x
            },
            None => {
                proof {
                    assert(vs[k as int].discriminant == variants@[k as int].discriminant);
                    assert(discriminant_at(vs, k as int) == discriminant_at(vs, k - 1) + 1);
                    assert(discriminant_at(vs, k as int) < 256);
                }
                d + 1
            },
        };
    }
    d
}

/// Encode a message value under its definition: the role's header, the body
/// items in declared order, and — for requests and replies — zero bytes to
/// the next 4-byte boundary. Returns exactly the value's wire encoding.
#[verifier::rlimit(100)]
#[verifier::spinoff_prover]
pub fn encode(def: &Definition, m: &MessageValue) -> (r: Vec<u8>)
    requires
        def_wf(def@),
        valid_value(def@, m@),
    ensures
        r@ == spec_encode(def@, m@),
        r@.len() == total_size(def@, m@),
{
    let mut buf = bm_new();
    match &def.body {
        DefinitionBody::Record(items) => match m {
            MessageValue::Record(vals) => {
                let ghost iv = vals_view(*vals);
                match def.role {
                    Role::Plain => {
                        write_items(&mut buf, items, vals, 0);
                        proof {
                            assert(bm_view(buf) =~= spec_encode(def@, m@));
                        }
                    },
                    Role::Request { major_opcode, minor_opcode } => {
                        let ghost body = enc_items(items@, iv, 0, 4);
                        let ghost stail = pad4((4 + body.len()) as nat);
                        proof {
                            assert(total_size(def@, m@) == 4 + body.len() + stail);
                            lemma_pad4((4 + body.len()) as nat);
                        }
                        let b = items_size_exec(items, vals, 4);
                        let t = pad4_at(4, b);
                        let total = 4 + b + t;
                        bm_put_u8(&mut buf, major_opcode);
                        let mb = match minor_opcode {
                            Some(m0) => m0,
                            None => metabyte_byte_of(items, vals),
                        };
                        bm_put_u8(&mut buf, mb);
                        bm_put_u16(&mut buf, (total / 4) as u16);
                        proof {
                            assert(mb == request_metabyte(items@, iv, minor_opcode));
                            assert(bm_view(buf) =~= seq![major_opcode, mb] + be16(
                                ((4 + body.len() + stail) / 4) as u16));
                            assert(bm_view(buf).len() == 4);
                        }
                        write_items(&mut buf, items, vals, 4);
                        bm_put_zeros(&mut buf, t);
                        proof {
                            assert(bm_view(buf) =~= spec_encode(def@, m@));
                        }
                    },
                    Role::Reply => {
                        let ghost body = enc_items(items@, iv, 0, 8);
                        let ghost stail = pad4((8 + body.len()) as nat);
                        proof {
                            assert(total_size(def@, m@) == 8 + body.len() + stail);
                            lemma_pad4((8 + body.len()) as nat);
                        }
                        let b = items_size_exec(items, vals, 8);
                        let t = pad4_at(8, b);
                        let total = 8 + b + t;
                        bm_put_u8(&mut buf, 1);
                        let mb = metabyte_byte_of(items, vals);
                        bm_put_u8(&mut buf, mb);
                        let sq = sequence_val_of(items, vals);
                        bm_put_u16(&mut buf, sq);
                        proof {
                            assert(total >= 32);
                        }
                        bm_put_u32(&mut buf, ((total - 32) / 4) as u32);
                        proof {
                            assert(bm_view(buf) =~= seq![1u8, mb] + be16(sq) + be32(
                                (((8 + body.len() + stail) - 32) / 4) as u32));
                            assert(bm_view(buf).len() == 8);
                        }
                        write_items(&mut buf, items, vals, 8);
                        bm_put_zeros(&mut buf, t);
                        proof {
                            assert(bm_view(buf) =~= spec_encode(def@, m@));
                        }
                    },
                    Role::Event { code } => {
                        if find_sequence(items).is_some() {
                            bm_put_u8(&mut buf, code);
                            let mb = metabyte_byte_of(items, vals);
                            bm_put_u8(&mut buf, mb);
                            let sq = sequence_val_of(items, vals);
                            bm_put_u16(&mut buf, sq);
                            proof {
                                assert(bm_view(buf) =~= seq![code, mb] + be16(sq));
                                assert(bm_view(buf).len() == 4);
                                assert(header_len(def@.role, items@) == 4);
                            }
                            write_items(&mut buf, items, vals, 4);
                            proof {
                                assert(bm_view(buf) =~= spec_encode(def@, m@));
                            }
                        } else {
                            bm_put_u8(&mut buf, code);
                            proof {
                                assert(bm_view(buf) =~= seq![code]);
                                assert(header_len(def@.role, items@) == 1);
                            }
                            write_items(&mut buf, items, vals, 1);
                            proof {
                                assert(bm_view(buf) =~= spec_encode(def@, m@));
                            }
                        }
                    },
                }
            },
            _ => {
                proof {
                    assert(false);
                }
            },
        },
        DefinitionBody::VariantSet(variants) => match m {
            MessageValue::Variant(j, vals) => {
                let ghost vs = variants_view(*variants);
                let ghost iv = vals_view(*vals);
                proof {
                    assert(def@.body == BodyModel::VariantSet(vs));
                    assert(m@ == MessageModel::Variant(*j as int, iv));
                    assert(vs[*j as int].items == variants@[*j as int].items@);
                }
                let d = variant_discriminant(variants, *j);
                bm_put_u8(&mut buf, d);
                proof {
                    assert(discriminant_at(vs, *j as int) < 256);
                    assert(d == discriminant_at(vs, *j as int) as u8);
                    assert(bm_view(buf) =~= seq![discriminant_at(vs, *j as int) as u8]);
                    assert(bm_view(buf).len() == 1);
                }
                let v = &variants[*j];
                write_items(&mut buf, &v.items, vals, 1);
                proof {
                    assert(bm_view(buf) =~= spec_encode(def@, m@));
                }
            },
            _ => {
                proof {
                    assert(false);
                }
            },
        },
    }
    let out = bm_to_vec(&buf);
    out
}

/// The views of a decode environment held as 32-bit scalars.
pub open spec fn env_nat(env: Vec<u32>) -> Seq<nat> {
    env@.map_values(|x: u32| x as nat)
}

/// Find the first declared variant carrying the given discriminant.
fn find_variant_exec(variants: &Vec<Variant>, d: u8) -> (r: Option<usize>)
    requires
        forall|v: int|
            0 <= v < variants@.len() ==> #[trigger] discriminant_at(
                variants_view(*variants), v) < 256,
    ensures
        match r {
            Some(j) => {
                &&& j < variants@.len()
                &&& find_variant_from(variants_view(*variants), d as nat, 0) == Some(j as int)
            },
            None => find_variant_from(variants_view(*variants), d as nat, 0) is None,
        },
{
    let ghost vs = variants_view(*variants);
    let n = variants.len();
    if n == 0 {
        return None;
    }
    let mut cur: u8 = match variants[0].discriminant {
        Some(x) => x,
        None => 0,
    };
    proof {
        assert(vs[0].discriminant == variants@[0].discriminant);
        assert(cur as nat == discriminant_at(vs, 0));
    }
    let mut k: usize = 0;
    loop
        invariant
            0 <= k < n,
            n == variants@.len(),
            vs == variants_view(*variants),
            cur as nat == discriminant_at(vs, k as int),
            forall|v: int| 0 <= v < vs.len() ==> #[trigger] discriminant_at(vs, v) < 256,
            find_variant_from(vs, d as nat, 0) == find_variant_from(vs, d as nat, k as int),
        decreases n - k,
    {
        if cur == d {
            proof {
                assert(find_variant_from(vs, d as nat, k as int) == Some(k as int));
            }
            return Some(k);
        }
        proof {
            assert(find_variant_from(vs, d as nat, k as int) == find_variant_from(
                vs, d as nat, k as int + 1));
        }
        k += 1;
        if k == n {
            proof {
                assert(find_variant_from(vs, d as nat, k as int) is None);
            }
            return None;
        }
        cur = match variants[k].discriminant {
            Some(x) => {
                proof {
                    assert(vs[k as int].discriminant == variants@[k as int].discriminant);
                }
                x
            },
            None => {
                proof {
                    assert(vs[k as int].discriminant == variants@[k as int].discriminant);
                    assert(discriminant_at(vs, k as int) == discriminant_at(vs, k - 1) + 1);
                    assert(discriminant_at(vs, k as int) < 256);
                }
                cur + 1
            },
        };
    }
}

/// Read the body items in one strict left-to-right pass, taking the
/// header-carried values as arguments. Returns the completed value vector
/// and the bytes consumed, exactly as the reference `dec_items` says.
#[verifier::rlimit(100)]
#[verifier::spinoff_prover]
fn decode_items_exec(
    items: &Vec<Item>,
    hdr_mb: u8,
    hdr_sq: u16,
    hdr_len: usize,
    buf: &mut bytes::Bytes,
) -> (r: Result<(Vec<Value>, usize), ReadError>)
    requires
        items_wf(items@),
        hdr_len <= 8,
    ensures
        match dec_items(
            items@, HeaderVals { mb: hdr_mb, sq: hdr_sq }, buf_view(*old(buf)), 0,
            hdr_len as nat, Seq::empty(), Seq::empty(),
        ) {
            Ok(p) => {
                &&& r matches Ok(q) && vals_view(q.0) == p.0 && q.1 as int == p.1
                &&& 0 <= p.1 <= buf_view(*old(buf)).len()
                &&& buf_view(*final(buf)) == buf_view(*old(buf)).skip(p.1)
            },
            Err(e) => r == Err::<(Vec<Value>, usize), ReadError>(e),
        },
{
    let ghost hdr = HeaderVals { mb: hdr_mb, sq: hdr_sq };
    let ghost orig = buf_view(*buf);
    let avail = buf_remaining(buf);
    proof {
        assert(orig.len() == avail);
    }
    let n = items.len();
    let mut vals: Vec<Value> = Vec::new();
    let mut env: Vec<u32> = Vec::new();
    let mut consumed: usize = 0;
    let mut i: usize = 0;
    proof {
        assert(vals_view(vals) =~= Seq::<ValueModel>::empty());
        assert(env_nat(env) =~= Seq::<nat>::empty());
    }
    while i < n
        invariant
            0 <= i <= n,
            n == items@.len(),
            items_wf(items@),
            hdr_len <= 8,
            hdr == (HeaderVals { mb: hdr_mb, sq: hdr_sq }),
            vals@.len() == i,
            env@.len() == i,
            consumed <= orig.len(),
            orig.len() == avail,
            orig == buf_view(*old(buf)),
            buf_view(*buf) == orig.skip(consumed as int),
            dec_items(items@, hdr, orig, 0, hdr_len as nat, Seq::empty(), Seq::empty()).is_ok()
                == dec_items(items@, hdr, buf_view(*buf), i as int,
                    (hdr_len + consumed) as nat, vals_view(vals), env_nat(env)).is_ok(),
            (dec_items(items@, hdr, buf_view(*buf), i as int, (hdr_len + consumed) as nat,
                vals_view(vals), env_nat(env)) matches Ok(p) ==> dec_items(
                items@, hdr, orig, 0, hdr_len as nat, Seq::empty(), Seq::empty(),
            ) matches Ok(q) && q.0 == p.0 && q.1 == consumed + p.1),
            (dec_items(items@, hdr, buf_view(*buf), i as int, (hdr_len + consumed) as nat,
                vals_view(vals), env_nat(env)) matches Err(e) ==> dec_items(
                items@, hdr, orig, 0, hdr_len as nat, Seq::empty(), Seq::empty(),
            ) == Err::<(Seq<ValueModel>, int), ReadError>(e)),
        decreases n - i,
    {
        let ghost pre_view = buf_view(*buf);
        let ghost pre_vals = vals_view(vals);
        let ghost pre_env = env_nat(env);
        let ghost off = (hdr_len + consumed) as nat;
        proof {
            assert(item_wf(items@, i as int));
        }
        let step: usize = match &items[i] {
            Item::Field(f) => {
                if f.metabyte {
                    vals.push(Value::C8(hdr_mb));
                    env.push(hdr_mb as u32);
                    proof {
                        assert(vals_view(vals) =~= pre_vals.push(ValueModel::C8(hdr_mb)));
                        assert(env_nat(env) =~= pre_env.push(hdr_mb as nat));
                    }
                    0
                } else if f.sequence {
                    vals.push(Value::C16(hdr_sq));
                    env.push(hdr_sq as u32);
                    proof {
                        assert(vals_view(vals) =~= pre_vals.push(ValueModel::C16(hdr_sq)));
                        assert(env_nat(env) =~= pre_env.push(hdr_sq as nat));
                    }
                    0
                } else {
                    match f.ty {
                        FieldType::Card(w) => {
                            let wn = w.byte_len();
                            if buf_remaining(buf) < wn {
                                proof {
                                    assert(dec_items(items@, hdr, pre_view, i as int, off,
                                        pre_vals, pre_env) == Err::<(Seq<ValueModel>, int),
                                        ReadError>(ReadError::InvalidData));
                                }
                                return Err(ReadError::InvalidData);
                            }
                            let v: Value = match w {
                                IntWidth::W1 => Value::C8(buf_get_u8(buf)),
                                IntWidth::W2 => Value::C16(buf_get_u16(buf)),
                                IntWidth::W4 => Value::C32(buf_get_u32(buf)),
                            };
                            let ev: u32 = match &v {
                                Value::C8(x) => *x as u32,
                                Value::C16(x) => *x as u32,
                                Value::C32(x) => *x,
                                _ => 0,
                            };
                            proof {
                                assert(v@ == read_scalar(w, pre_view));
                                assert(ev as nat == scalar_val(v@));
                            }
                            vals.push(v);
                            env.push(ev);
                            proof {
                                assert(vals_view(vals) =~= pre_vals.push(
                                    read_scalar(w, pre_view)));
                                assert(env_nat(env) =~= pre_env.push(
                                    scalar_val(read_scalar(w, pre_view))));
                            }
                            wn
                        },
                        FieldType::ByteList => {
                            let c: usize = match f.context {
                                Some(c0) => c0,
                                None => {
                                    proof {
                                        assert(false);
                                    }
                                    0
                                },
                            };
                            let n32 = env[c];
                            let cnt = n32 as usize;
                            proof {
                                assert(cnt as nat == pre_env[c as int]);
                            }
                            if buf_remaining(buf) < cnt {
                                proof {
                                    assert(dec_items(items@, hdr, pre_view, i as int, off,
                                        pre_vals, pre_env) == Err::<(Seq<ValueModel>, int),
                                        ReadError>(ReadError::InvalidData));
                                }
                                return Err(ReadError::InvalidData);
                            }
                            let lb = buf_copy_to_vec(buf, cnt);
                            vals.push(Value::List(lb));
                            env.push(n32);
                            proof {
                                assert(vals_view(vals) =~= pre_vals.push(ValueModel::List(
                                    pre_view.take(cnt as int))));
                                assert(env_nat(env) =~= pre_env.push(cnt as nat));
                            }
                            cnt
                        },
                    }
                }
            },
            Item::Let(l) => {
                if l.metabyte {
                    vals.push(Value::Nil);
                    env.push(hdr_mb as u32);
                    proof {
                        assert(vals_view(vals) =~= pre_vals.push(ValueModel::Nil));
                        assert(env_nat(env) =~= pre_env.push(hdr_mb as nat));
                    }
                    0
                } else {
                    let wn = l.width.byte_len();
                    if buf_remaining(buf) < wn {
                        proof {
                            assert(dec_items(items@, hdr, pre_view, i as int, off, pre_vals,
                                pre_env) == Err::<(Seq<ValueModel>, int), ReadError>(
                                ReadError::InvalidData));
                        }
                        return Err(ReadError::InvalidData);
                    }
                    let ev: u32 = match l.width {
                        IntWidth::W1 => buf_get_u8(buf) as u32,
                        IntWidth::W2 => buf_get_u16(buf) as u32,
                        IntWidth::W4 => buf_get_u32(buf),
                    };
                    proof {
                        assert(ev as nat == read_scalar_val(l.width, pre_view));
                    }
                    vals.push(Value::Nil);
                    env.push(ev);
                    proof {
                        assert(vals_view(vals) =~= pre_vals.push(ValueModel::Nil));
                        assert(env_nat(env) =~= pre_env.push(
                            read_scalar_val(l.width, pre_view)));
                    }
                    wn
                }
            },
            Item::Unused(u) => {
                let zn: usize = match u {
                    Unused::Unit => 1,
                    Unused::Run(k) => *k as usize,
                    Unused::AlignTo4 => pad4_at(hdr_len, consumed),
                    Unused::PadOf(p) => match &items[*p] {
                        Item::Field(f2) => match f2.ty {
                            FieldType::Card(w2) => pad4_len(w2.byte_len()),
                            FieldType::ByteList => {
                                let ln = env[*p];
                                pad4_len(ln as usize)
                            },
                        },
                        _ => {
                            proof {
                                assert(false);
                            }
                            0
                        },
                    },
                };
                proof {
                    assert(zn as nat == dec_unused_len(items@, *u, off, pre_env));
                }
                if buf_remaining(buf) < zn {
                    proof {
                        assert(dec_items(items@, hdr, pre_view, i as int, off, pre_vals,
                            pre_env) == Err::<(Seq<ValueModel>, int), ReadError>(
                            ReadError::InvalidData));
                    }
                    return Err(ReadError::InvalidData);
                }
                buf_advance(buf, zn);
                vals.push(Value::Nil);
                env.push(0);
                proof {
                    assert(vals_view(vals) =~= pre_vals.push(ValueModel::Nil));
                    assert(env_nat(env) =~= pre_env.push(0));
                }
                zn
            },
        };
        proof {
            assert(step as int <= pre_view.len());
            assert(pre_view.len() == orig.len() - consumed);
            assert(consumed + step <= orig.len());
            assert(buf_view(*buf) =~= pre_view.skip(step as int));
            assert(orig.skip((consumed + step) as int) =~= pre_view.skip(step as int));
            assert(match dec_items(items@, hdr, buf_view(*buf), i as int + 1,
                (off + step) as nat, vals_view(vals), env_nat(env)) {
                Ok(p) => dec_items(items@, hdr, pre_view, i as int, off, pre_vals, pre_env)
                    == Ok::<(Seq<ValueModel>, int), ReadError>((p.0, step + p.1)),
                Err(e) => dec_items(items@, hdr, pre_view, i as int, off, pre_vals, pre_env)
                    == Err::<(Seq<ValueModel>, int), ReadError>(e),
            });
        }
        consumed = consumed + step;
        i += 1;
    }
    proof {
        assert(dec_items(items@, hdr, buf_view(*buf), i as int, (hdr_len + consumed) as nat,
            vals_view(vals), env_nat(env)) == Ok::<(Seq<ValueModel>, int), ReadError>(
            (vals_view(vals), 0)));
    }
    Ok((vals, consumed))
}

/// Decode one message from the front of the buffer under its definition:
/// exactly what the reference `spec_decode` says the bytes read back as. On
/// success the message's bytes are consumed and trailing bytes are left; on
/// failure the cursor position is unspecified and the caller must discard
/// the whole message.
#[verifier::rlimit(100)]
#[verifier::spinoff_prover]
pub fn decode(def: &Definition, buf: &mut bytes::Bytes) -> (r: Result<MessageValue, ReadError>)
    requires
        def_wf(def@),
    ensures
        match spec_decode(def@, buf_view(*old(buf))) {
            Ok(p) => {
                &&& r matches Ok(v) && v@ == p.0
                &&& buf_view(*final(buf)) == buf_view(*old(buf)).skip(p.1)
            },
            Err(e) => r == Err::<MessageValue, ReadError>(e),
        },
{
    let ghost orig = buf_view(*buf);
    match &def.body {
        DefinitionBody::Record(items) => match def.role {
            Role::Plain => {
                match decode_items_exec(items, 0, 0, 0, buf) {
                    Ok(p) => Ok(MessageValue::Record(p.0)),
                    Err(e) => Err(e),
                }
            },
            Role::Request { major_opcode, minor_opcode } => {
                if buf_remaining(buf) < 4 {
                    return Err(ReadError::InvalidData);
                }
                let b0 = buf_get_u8(buf);
                let b1 = buf_get_u8(buf);
                let lenf = buf_get_u16(buf);
                proof {
                    assert(b0 == orig[0]);
                    assert(b1 == orig[1]);
                    assert(orig.skip(2)[0] == orig[2] && orig.skip(2)[1] == orig[3]);
                    assert(lenf == be16_val(orig[2], orig[3]));
                    assert(buf_view(*buf) =~= orig.skip(4));
                }
                if b0 != major_opcode {
                    return Err(ReadError::InvalidData);
                }
                let mbok = match minor_opcode {
                    Some(m0) => b1 == m0,
                    None => find_metabyte(items).is_some() || b1 == 0,
                };
                if !mbok {
                    return Err(ReadError::InvalidData);
                }
                match decode_items_exec(items, b1, 0, 4, buf) {
                    Err(e) => Err(e),
                    Ok(p) => {
                        let vals = p.0;
                        let c = p.1;
                        proof {
                            assert(be16_val(orig[2], orig[3]) * 4 <= 0x3FFFC);
                        }
                        if c > 0x3FFF8 {
                            return Err(ReadError::InvalidData);
                        }
                        let t = pad4_at(4, c);
                        if buf_remaining(buf) < t {
                            return Err(ReadError::InvalidData);
                        }
                        let total = 4 + c + t;
                        if (lenf as usize) * 4 != total {
                            return Err(ReadError::InvalidData);
                        }
                        buf_advance(buf, t);
                        proof {
                            assert(buf_view(*buf) =~= orig.skip(total as int));
                        }
                        Ok(MessageValue::Record(vals))
                    },
                }
            },
            Role::Reply => {
                if buf_remaining(buf) < 8 {
                    return Err(ReadError::InvalidData);
                }
                let b0 = buf_get_u8(buf);
                let b1 = buf_get_u8(buf);
                let sq = buf_get_u16(buf);
                let lenf = buf_get_u32(buf);
                proof {
                    assert(b0 == orig[0]);
                    assert(b1 == orig[1]);
                    assert(orig.skip(2)[0] == orig[2] && orig.skip(2)[1] == orig[3]);
                    assert(sq == be16_val(orig[2], orig[3]));
                    assert(orig.skip(4)[0] == orig[4] && orig.skip(4)[1] == orig[5]
                        && orig.skip(4)[2] == orig[6] && orig.skip(4)[3] == orig[7]);
                    assert(lenf == be32_val(orig[4], orig[5], orig[6], orig[7]));
                    assert(buf_view(*buf) =~= orig.skip(8));
                }
                if b0 != 1 {
                    return Err(ReadError::InvalidData);
                }
                if !(find_metabyte(items).is_some() || b1 == 0) {
                    return Err(ReadError::InvalidData);
                }
                match decode_items_exec(items, b1, sq, 8, buf) {
                    Err(e) => Err(e),
                    Ok(p) => {
                        let vals = p.0;
                        let c = p.1;
                        proof {
                            assert(be32_val(orig[4], orig[5], orig[6], orig[7]) * 4
                                <= 0x3_FFFF_FFFC);
                        }
                        if c as u64 > 0x4_0000_0020u64 {
                            return Err(ReadError::InvalidData);
                        }
                        let t = pad4_at(8, c);
                        if buf_remaining(buf) < t {
                            return Err(ReadError::InvalidData);
                        }
                        let total64: u64 = 8 + (c as u64) + (t as u64);
                        if total64 < 32 {
                            return Err(ReadError::InvalidData);
                        }
                        if (lenf as u64) * 4 != total64 - 32 {
                            return Err(ReadError::InvalidData);
                        }
                        buf_advance(buf, t);
                        proof {
                            assert(buf_view(*buf) =~= orig.skip(8 + c + t));
                        }
                        Ok(MessageValue::Record(vals))
                    },
                }
            },
            Role::Event { code } => {
                if find_sequence(items).is_some() {
                    if buf_remaining(buf) < 4 {
                        return Err(ReadError::InvalidData);
                    }
                    let b0 = buf_get_u8(buf);
                    let b1 = buf_get_u8(buf);
                    let sq = buf_get_u16(buf);
                    proof {
                        assert(b0 == orig[0]);
                        assert(b1 == orig[1]);
                        assert(orig.skip(2)[0] == orig[2] && orig.skip(2)[1] == orig[3]);
                        assert(sq == be16_val(orig[2], orig[3]));
                        assert(buf_view(*buf) =~= orig.skip(4));
                    }
                    if b0 != code {
                        return Err(ReadError::InvalidData);
                    }
                    if !(find_metabyte(items).is_some() || b1 == 0) {
                        return Err(ReadError::InvalidData);
                    }
                    match decode_items_exec(items, b1, sq, 4, buf) {
                        Err(e) => Err(e),
                        Ok(p) => {
                            proof {
                                assert(buf_view(*buf) =~= orig.skip(4 + (p.1 as int)));
                            }
                            Ok(MessageValue::Record(p.0))
                        },
                    }
                } else {
                    if buf_remaining(buf) < 1 {
                        return Err(ReadError::InvalidData);
                    }
                    let b0 = buf_get_u8(buf);
                    proof {
                        assert(b0 == orig[0]);
                        assert(buf_view(*buf) =~= orig.skip(1));
                    }
                    if b0 != code {
                        return Err(ReadError::InvalidData);
                    }
                    match decode_items_exec(items, 0, 0, 1, buf) {
                        Err(e) => Err(e),
                        Ok(p) => {
                            proof {
                                assert(buf_view(*buf) =~= orig.skip(1 + (p.1 as int)));
                            }
                            Ok(MessageValue::Record(p.0))
                        },
                    }
                }
            },
        },
        DefinitionBody::VariantSet(variants) => {
            let ghost vs = variants_view(*variants);
            if buf_remaining(buf) < 1 {
                return Err(ReadError::InvalidData);
            }
            let d = buf_get_u8(buf);
            proof {
                assert(d == orig[0]);
                assert(buf_view(*buf) =~= orig.skip(1));
            }
            match find_variant_exec(variants, d) {
                None => Err(ReadError::UnrecognizedDiscriminant),
                Some(j) => {
                    proof {
                        assert(vs[j as int].items == variants@[j as int].items@);
                        assert(items_wf(vs[j as int].items));
                    }
                    let v = &variants[j];
                    match decode_items_exec(&v.items, 0, 0, 1, buf) {
                        Err(e) => Err(e),
                        Ok(p) => {
                            proof {
                                assert(buf_view(*buf) =~= orig.skip(1 + (p.1 as int)));
                            }
                            Ok(MessageValue::Variant(j, p.0))
                        },
                    }
                },
            }
        },
    }
}

} // verus!
