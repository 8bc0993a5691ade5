//! The schema model: the in-memory representation of a message definition.
//!
//! A definition is an ordered sequence of items — caller-supplied fields,
//! derived scalars written at their own wire position (lets), and padding —
//! together with a role that determines the header shape. Variant sets are
//! closed lists of named alternatives, each tagged by a one-byte
//! discriminant. Schema values are produced once, ahead of use, and are
//! immutable thereafter; the codec interprets them.

use vstd::prelude::*;

verus! {

/// The width in bytes of a scalar wire integer.
#[derive(Debug, Clone, Copy, PartialEq, Eq, Structural)]
pub enum IntWidth {
    W1,
    W2,
    W4,
}

impl IntWidth {
    /// The number of bytes the width occupies.
    pub open spec fn byte_count(self) -> nat {
        match self {
            IntWidth::W1 => 1,
            IntWidth::W2 => 2,
            IntWidth::W4 => 4,
        }
    }

    /// One more than the largest value the width can carry.
    pub open spec fn bound(self) -> nat {
        match self {
            IntWidth::W1 => 0x100,
            IntWidth::W2 => 0x1_0000,
            IntWidth::W4 => 0x1_0000_0000,
        }
    }

    /// Report the width in bytes.
    pub fn byte_len(self) -> (r: usize)
        ensures
            r == self.byte_count(),
    {
        match self {
            IntWidth::W1 => 1,
            IntWidth::W2 => 2,
            IntWidth::W4 => 4,
        }
    }
}

/// The declared type of a field.
#[derive(Debug, Clone, Copy, PartialEq, Eq, Structural)]
pub enum FieldType {
    /// An unsigned integer of the given width, big-endian on the wire.
    Card(IntWidth),
    /// A list of bytes whose count is supplied as context when reading.
    ByteList,
}

/// A field: a named value of a declared type, supplied by the caller.
#[derive(Debug, Clone, Copy, PartialEq, Eq, Structural)]
pub struct Field {
    pub ty: FieldType,
    /// Whether the field is carried in the header's metabyte slot.
    pub metabyte: bool,
    /// Whether the field is the reply's or event's sequence number.
    pub sequence: bool,
    /// For a list type: the index of the sibling item whose scalar value is
    /// the list's byte count when decoding.
    pub context: Option<usize>,
}

/// A derived scalar: computed from a sibling list field's length at write
/// time, written at this item's wire position, and read back from the buffer
/// — not recomputed — at read time, so later items can reference it.
#[derive(Debug, Clone, Copy, PartialEq, Eq, Structural)]
pub struct LetItem {
    /// The wire width of the written scalar.
    pub width: IntWidth,
    /// The index of the sibling list field whose length this let carries.
    pub source: usize,
    /// Whether the let is carried in the header's metabyte slot.
    pub metabyte: bool,
}

/// Padding: a run of zero bytes.
#[derive(Debug, Clone, Copy, PartialEq, Eq, Structural)]
pub enum Unused {
    /// Exactly one zero byte.
    Unit,
    /// A run of the given fixed number of zero bytes.
    Run(u32),
    /// The smallest run making the running total, counted from the start of
    /// the message, a multiple of four.
    AlignTo4,
    /// The smallest run making the named earlier field's size a multiple of
    /// four.
    PadOf(usize),
}

/// One item of a definition's ordered sequence.
#[derive(Debug, Clone, Copy, PartialEq, Eq, Structural)]
pub enum Item {
    Field(Field),
    Let(LetItem),
    Unused(Unused),
}

/// The role of a definition, which determines its header shape.
#[derive(Debug, Clone, Copy, PartialEq, Eq, Structural)]
pub enum Role {
    /// No header: body items only, in declared order.
    Plain,
    /// Header: major opcode, metabyte or minor opcode or zero, then the
    /// length in 4-byte units including the header.
    Request { major_opcode: u8, minor_opcode: Option<u8> },
    /// Header: the constant one, metabyte or zero, the sequence number, then
    /// the length in 4-byte units beyond the 32-byte envelope.
    Reply,
    /// Header: the event code, then — only if the definition declares a
    /// sequence item — metabyte or zero and the sequence number.
    Event { code: u8 },
}

/// One alternative of a variant set.
#[derive(Debug, Clone, PartialEq, Eq)]
pub struct Variant {
    /// An explicit one-byte discriminant. The default is the previous
    /// variant's discriminant plus one, starting at zero.
    pub discriminant: Option<u8>,
    pub items: Vec<Item>,
}

/// The body of a definition: one ordered item sequence, or a closed list of
/// tagged variants.
#[derive(Debug, Clone, PartialEq, Eq)]
pub enum DefinitionBody {
    Record(Vec<Item>),
    VariantSet(Vec<Variant>),
}

/// A named schema unit: a record or a variant set, with a role.
#[derive(Debug, Clone, PartialEq, Eq)]
pub struct Definition {
    pub role: Role,
    pub body: DefinitionBody,
}

/// The mathematical view of a variant.
pub struct VariantModel {
    pub discriminant: Option<u8>,
    pub items: Seq<Item>,
}

/// The mathematical view of a definition body.
pub enum BodyModel {
    Record(Seq<Item>),
    VariantSet(Seq<VariantModel>),
}

/// The mathematical view of a definition.
pub struct DefModel {
    pub role: Role,
    pub body: BodyModel,
}

impl View for Variant {
    type V = VariantModel;

    open spec fn view(&self) -> VariantModel {
        VariantModel { discriminant: self.discriminant, items: self.items@ }
    }
}

/// The views of a vector of variants, position by position.
pub open spec fn variants_view(variants: Vec<Variant>) -> Seq<VariantModel> {
    variants@.map_values(|v: Variant| v@)
}

impl View for Definition {
    type V = DefModel;

    open spec fn view(&self) -> DefModel {
        DefModel {
            role: self.role,
            body: match self.body {
                DefinitionBody::Record(items) => BodyModel::Record(items@),
                DefinitionBody::VariantSet(variants) => BodyModel::VariantSet(
                    variants_view(variants),
                ),
            },
        }
    }
}

/// A field value, as assembled by a caller or produced by a decode.
#[derive(Debug, Clone, PartialEq, Eq)]
pub enum Value {
    C8(u8),
    C16(u16),
    C32(u32),
    List(Vec<u8>),
    /// The placeholder at let and padding positions, which carry no
    /// caller-supplied value.
    Nil,
}

/// The mathematical view of a field value.
pub enum ValueModel {
    C8(u8),
    C16(u16),
    C32(u32),
    List(Seq<u8>),
    Nil,
}

impl View for Value {
    type V = ValueModel;

    open spec fn view(&self) -> ValueModel {
        match self {
            Value::C8(x) => ValueModel::C8(*x),
            Value::C16(x) => ValueModel::C16(*x),
            Value::C32(x) => ValueModel::C32(*x),
            Value::List(v) => ValueModel::List(v@),
            Value::Nil => ValueModel::Nil,
        }
    }
}

/// A complete message value: one value per item of the definition, with
/// `Nil` at let and padding positions; for a variant set, the chosen
/// variant's index and its values.
#[derive(Debug, Clone, PartialEq, Eq)]
pub enum MessageValue {
    Record(Vec<Value>),
    Variant(usize, Vec<Value>),
}

/// The mathematical view of a message value.
pub enum MessageModel {
    Record(Seq<ValueModel>),
    Variant(int, Seq<ValueModel>),
}

/// The views of a vector of values, position by position.
pub open spec fn vals_view(vals: Vec<Value>) -> Seq<ValueModel> {
    vals@.map_values(|v: Value| v@)
}

impl View for MessageValue {
    type V = MessageModel;

    open spec fn view(&self) -> MessageModel {
        match self {
            MessageValue::Record(vals) => MessageModel::Record(vals_view(*vals)),
            MessageValue::Variant(idx, vals) => MessageModel::Variant(
                *idx as int,
                vals_view(*vals),
            ),
        }
    }
}

/// Whether the item is carried in the header's metabyte slot.
pub open spec fn is_metabyte_item(it: Item) -> bool {
    match it {
        Item::Field(f) => f.metabyte,
        Item::Let(l) => l.metabyte,
        Item::Unused(_) => false,
    }
}

/// Whether the item is the sequence-number field of a reply or event.
pub open spec fn is_sequence_item(it: Item) -> bool {
    match it {
        Item::Field(f) => f.sequence,
        _ => false,
    }
}

/// Whether the item is written in the header rather than the body.
pub open spec fn is_header_item(it: Item) -> bool {
    is_metabyte_item(it) || is_sequence_item(it)
}

/// Whether the item carries a scalar a formula may reference: a scalar field
/// or a let binding.
pub open spec fn is_scalar_item(it: Item) -> bool {
    match it {
        Item::Field(f) => f.ty matches FieldType::Card(_),
        Item::Let(_) => true,
        Item::Unused(_) => false,
    }
}

/// Whether the definition declares a metabyte item.
pub open spec fn has_metabyte(items: Seq<Item>) -> bool {
    exists|i: int| 0 <= i < items.len() && is_metabyte_item(items[i])
}

/// The index of the metabyte item; meaningful only under `has_metabyte` and
/// the well-formedness condition that there is at most one.
pub open spec fn metabyte_idx(items: Seq<Item>) -> int {
    choose|i: int| 0 <= i < items.len() && is_metabyte_item(items[i])
}

/// Whether the definition declares a sequence item.
pub open spec fn has_sequence(items: Seq<Item>) -> bool {
    exists|i: int| 0 <= i < items.len() && is_sequence_item(items[i])
}

/// The index of the sequence item; meaningful only under `has_sequence` and
/// well-formedness.
pub open spec fn sequence_idx(items: Seq<Item>) -> int {
    choose|i: int| 0 <= i < items.len() && is_sequence_item(items[i])
}

/// The per-item structural conditions: context and pad formulas reference
/// earlier items only — decode is a strict left-to-right single pass — and
/// header-slot items have the one-byte or two-byte shape the slot holds.
pub open spec fn item_wf(items: Seq<Item>, i: int) -> bool {
    match items[i] {
        Item::Field(f) => match f.ty {
            FieldType::Card(w) => {
                &&& f.context is None
                &&& (f.metabyte ==> w == IntWidth::W1 && !f.sequence)
                &&& (f.sequence ==> w == IntWidth::W2 && !f.metabyte)
            },
            FieldType::ByteList => {
                &&& !f.metabyte
                &&& !f.sequence
                &&& f.context matches Some(c) && c < i && is_scalar_item(items[c as int])
            },
        },
        Item::Let(l) => {
            &&& l.source < items.len()
            &&& items[l.source as int] matches Item::Field(f) && f.ty == FieldType::ByteList
            &&& (l.metabyte ==> l.width == IntWidth::W1)
        },
        Item::Unused(u) => match u {
            Unused::PadOf(p) => p < i && items[p as int] matches Item::Field(_),
            _ => true,
        },
    }
}

/// Whether at most one item of the sequence claims the metabyte slot.
pub open spec fn one_metabyte_at_most(items: Seq<Item>) -> bool {
    forall|i: int, j: int|
        0 <= i < items.len() && 0 <= j < items.len() && is_metabyte_item(items[i])
            && is_metabyte_item(items[j]) ==> i == j
}

/// Whether at most one item of the sequence claims the sequence number.
pub open spec fn one_sequence_at_most(items: Seq<Item>) -> bool {
    forall|i: int, j: int|
        0 <= i < items.len() && 0 <= j < items.len() && is_sequence_item(items[i])
            && is_sequence_item(items[j]) ==> i == j
}

/// The conditions common to every item sequence: per-item structure and at
/// most one metabyte item, at most one sequence item.
pub open spec fn items_wf(items: Seq<Item>) -> bool {
    &&& forall|i: int| 0 <= i < items.len() ==> item_wf(items, i)
    &&& one_metabyte_at_most(items)
    &&& one_sequence_at_most(items)
}

/// The discriminant assigned to a variant: the declared override, or the
/// previous variant's discriminant plus one, starting at zero. Preserved as
/// a per-definition table, never recomputed ad hoc.
pub open spec fn discriminant_at(variants: Seq<VariantModel>, i: int) -> nat
    decreases i,
{
    if i < 0 || i >= variants.len() {
        0
    } else {
        match variants[i].discriminant {
            Some(d) => d as nat,
            None => if i == 0 {
                0
            } else {
                discriminant_at(variants, i - 1) + 1
            },
        }
    }
}

/// What a well-formed definition looks like. The parser refuses anything
/// that breaks these conditions, and every codec contract assumes them.
pub open spec fn def_wf(def: DefModel) -> bool {
    match def.body {
        BodyModel::Record(items) => {
            &&& items_wf(items)
            &&& match def.role {
                Role::Plain => !has_metabyte(items) && !has_sequence(items),
                Role::Request { minor_opcode, .. } => {
                    &&& !has_sequence(items)
                    &&& (minor_opcode is Some ==> !has_metabyte(items))
                },
                Role::Reply => has_sequence(items),
                Role::Event { .. } => has_metabyte(items) ==> has_sequence(items),
            }
        },
        BodyModel::VariantSet(variants) => {
            &&& def.role == Role::Plain
            &&& forall|v: int| 0 <= v < variants.len() ==> items_wf(variants[v].items)
            &&& forall|v: int|
                0 <= v < variants.len() ==> !has_metabyte(variants[v].items) && !has_sequence(
                    variants[v].items,
                )
            &&& forall|v: int|
                0 <= v < variants.len() ==> #[trigger] discriminant_at(variants, v) < 256
            &&& forall|v: int, w: int|
                0 <= v < variants.len() && 0 <= w < variants.len() && v != w
                    ==> discriminant_at(variants, v) != discriminant_at(variants, w)
        },
    }
}

/// The byte length of a list value; zero for anything else.
pub open spec fn list_len(vals: Seq<ValueModel>, i: int) -> nat {
    match vals[i] {
        ValueModel::List(b) => b.len(),
        _ => 0,
    }
}

/// The numeric value of a scalar value; zero for anything else.
pub open spec fn scalar_val(v: ValueModel) -> nat {
    match v {
        ValueModel::C8(x) => x as nat,
        ValueModel::C16(x) => x as nat,
        ValueModel::C32(x) => x as nat,
        _ => 0,
    }
}

/// The scalar a formula sees at item `c` when the whole value is known: a
/// scalar field's value, a list field's length, or — for a let — the length
/// of its source list.
pub open spec fn env_val(items: Seq<Item>, vals: Seq<ValueModel>, c: int) -> nat {
    match items[c] {
        Item::Field(f) => match f.ty {
            FieldType::Card(_) => scalar_val(vals[c]),
            FieldType::ByteList => list_len(vals, c),
        },
        Item::Let(l) => list_len(vals, l.source as int),
        Item::Unused(_) => 0,
    }
}

/// Whether the value at position `i` matches the item declared there: fields
/// hold a value of their declared type, a list's declared context scalar
/// equals its length, let sources fit the let's width, and let and padding
/// positions hold the placeholder.
pub open spec fn val_matches(items: Seq<Item>, vals: Seq<ValueModel>, i: int) -> bool {
    match items[i] {
        Item::Field(f) => match f.ty {
            FieldType::Card(w) => match w {
                IntWidth::W1 => vals[i] is C8,
                IntWidth::W2 => vals[i] is C16,
                IntWidth::W4 => vals[i] is C32,
            },
            FieldType::ByteList => {
                &&& vals[i] is List
                &&& match f.context {
                    Some(c) => env_val(items, vals, c as int) == list_len(vals, i),
                    None => false,
                }
            },
        },
        Item::Let(l) => vals[i] is Nil && list_len(vals, l.source as int) < l.width.bound(),
        Item::Unused(_) => vals[i] is Nil,
    }
}

/// Whether a value vector matches an item sequence position by position.
pub open spec fn vals_wf(items: Seq<Item>, vals: Seq<ValueModel>) -> bool {
    &&& vals.len() == items.len()
    &&& forall|i: int| 0 <= i < items.len() ==> val_matches(items, vals, i)
}

/// Whether one item carries the metabyte flag, as executable code sees it.
fn item_is_metabyte(it: &Item) -> (r: bool)
    ensures
        r == is_metabyte_item(*it),
{
    match it {
        Item::Field(f) => f.metabyte,
        Item::Let(l) => l.metabyte,
        Item::Unused(_) => false,
    }
}

/// Whether one item carries the sequence flag, as executable code sees it.
fn item_is_sequence(it: &Item) -> (r: bool)
    ensures
        r == is_sequence_item(*it),
{
    match it {
        Item::Field(f) => f.sequence,
        _ => false,
    }
}

/// Whether any item carries the metabyte flag.
pub fn any_metabyte(items: &Vec<Item>) -> (r: bool)
    ensures
        r == has_metabyte(items@),
{
    let n = items.len();
    let mut i: usize = 0;
    while i < n
        invariant
            0 <= i <= n,
            n == items@.len(),
            forall|k: int| 0 <= k < i ==> !is_metabyte_item(items@[k]),
        decreases n - i,
    {
        if item_is_metabyte(&items[i]) {
            return true;
        }
        i += 1;
    }
    false
}

/// Whether any item carries the sequence flag.
pub fn any_sequence(items: &Vec<Item>) -> (r: bool)
    ensures
        r == has_sequence(items@),
{
    let n = items.len();
    let mut i: usize = 0;
    while i < n
        invariant
            0 <= i <= n,
            n == items@.len(),
            forall|k: int| 0 <= k < i ==> !is_sequence_item(items@[k]),
        decreases n - i,
    {
        if item_is_sequence(&items[i]) {
            return true;
        }
        i += 1;
    }
    false
}

/// Whether at most one item carries the metabyte flag.
pub fn metabyte_at_most_one(items: &Vec<Item>) -> (r: bool)
    ensures
        r == one_metabyte_at_most(items@),
{
    let n = items.len();
    let mut seen = false;
    let ghost mut first: int = 0;
    let mut i: usize = 0;
    while i < n
        invariant
            0 <= i <= n,
            n == items@.len(),
            seen ==> 0 <= first < i && is_metabyte_item(items@[first]),
            forall|k: int| 0 <= k < i && k != first ==> !is_metabyte_item(items@[k]),
            !seen ==> forall|k: int| 0 <= k < i ==> !is_metabyte_item(items@[k]),
        decreases n - i,
    {
        if item_is_metabyte(&items[i]) {
            if seen {
                proof {
                    assert(is_metabyte_item(items@[first]) && is_metabyte_item(items@[i as int])
                        && first != i as int);
                }
                return false;
            }
            seen = true;
            proof {
                first = i as int;
            }
        }
        i += 1;
    }
    true
}

/// Whether at most one item carries the sequence flag.
pub fn sequence_at_most_one(items: &Vec<Item>) -> (r: bool)
    ensures
        r == one_sequence_at_most(items@),
{
    let n = items.len();
    let mut seen = false;
    let ghost mut first: int = 0;
    let mut i: usize = 0;
    while i < n
        invariant
            0 <= i <= n,
            n == items@.len(),
            seen ==> 0 <= first < i && is_sequence_item(items@[first]),
            forall|k: int| 0 <= k < i && k != first ==> !is_sequence_item(items@[k]),
            !seen ==> forall|k: int| 0 <= k < i ==> !is_sequence_item(items@[k]),
        decreases n - i,
    {
        if item_is_sequence(&items[i]) {
            if seen {
                proof {
                    assert(is_sequence_item(items@[first]) && is_sequence_item(items@[i as int])
                        && first != i as int);
                }
                return false;
            }
            seen = true;
            proof {
                first = i as int;
            }
        }
        i += 1;
    }
    true
}

/// Whether one item meets the per-item structural conditions at position `i`.
fn item_wf_exec(items: &Vec<Item>, i: usize) -> (r: bool)
    requires
        i < items@.len(),
    ensures
        r == item_wf(items@, i as int),
{
    match &items[i] {
        Item::Field(f) => match f.ty {
            FieldType::Card(w) => {
                let ctx_none = match f.context {
                    Some(_) => false,
                    None => true,
                };
                ctx_none && (!f.metabyte || (w == IntWidth::W1 && !f.sequence)) && (!f.sequence
                    || (w == IntWidth::W2 && !f.metabyte))
            },
            FieldType::ByteList => {
                if f.metabyte || f.sequence {
                    false
                } else {
                    match f.context {
                        Some(c) => {
                            c < i && (match &items[c] {
                                Item::Field(cf) => cf.ty matches FieldType::Card(_),
                                Item::Let(_) => true,
                                Item::Unused(_) => false,
                            })
                        },
                        None => false,
                    }
                }
            },
        },
        Item::Let(l) => {
            l.source < items.len() && (match &items[l.source] {
                Item::Field(sf) => sf.ty == FieldType::ByteList,
                _ => false,
            }) && (!l.metabyte || l.width == IntWidth::W1)
        },
        Item::Unused(u) => match u {
            Unused::PadOf(p) => {
                *p < i && (match &items[*p] {
                    Item::Field(_) => true,
                    _ => false,
                })
            },
            _ => true,
        },
    }
}

/// Whether every item meets the per-item conditions and the metabyte and
/// sequence flags are each carried at most once.
pub fn items_wf_exec(items: &Vec<Item>) -> (r: bool)
    ensures
        r == items_wf(items@),
{
    let n = items.len();
    let mut i: usize = 0;
    while i < n
        invariant
            0 <= i <= n,
            n == items@.len(),
            forall|k: int| 0 <= k < i ==> item_wf(items@, k),
        decreases n - i,
    {
        if !item_wf_exec(items, i) {
            return false;
        }
        i += 1;
    }
    metabyte_at_most_one(items) && sequence_at_most_one(items)
}

/// Whether a whole definition is well-formed: the validation every codec
/// contract assumes and the parser enforces.
pub fn check_wf(def: &Definition) -> (r: bool)
    ensures
        r == def_wf(def@),
{
    match &def.body {
        DefinitionBody::Record(items) => {
            if !items_wf_exec(items) {
                return false;
            }
            match def.role {
                Role::Plain => !any_metabyte(items) && !any_sequence(items),
                Role::Request { minor_opcode, .. } => {
                    if any_sequence(items) {
                        false
                    } else {
                        match minor_opcode {
                            Some(_) => !any_metabyte(items),
                            None => true,
                        }
                    }
                },
                Role::Reply => any_sequence(items),
                Role::Event { .. } => !any_metabyte(items) || any_sequence(items),
            }
        },
        DefinitionBody::VariantSet(variants) => {
            if !(def.role == Role::Plain) {
                return false;
            }
            let ghost vs = variants_view(*variants);
            let n = variants.len();
            let mut i: usize = 0;
            while i < n
                invariant
                    0 <= i <= n,
                    n == variants@.len(),
                    vs == variants_view(*variants),
                    def@.body == BodyModel::VariantSet(vs),
                    forall|v: int|
                        0 <= v < i ==> items_wf(#[trigger] vs[v].items) && !has_metabyte(
                            vs[v].items) && !has_sequence(vs[v].items),
                decreases n - i,
            {
                let v = &variants[i];
                proof {
                    assert(vs[i as int].items == v.items@);
                }
                if !items_wf_exec(&v.items) {
                    proof {
                        assert(def@.body == BodyModel::VariantSet(vs));
                        assert(vs.len() == variants@.len());
                        assert(0 <= i < vs.len());
                        assert(!items_wf(vs[i as int].items));
                        assert(!def_wf(def@));
                    }
                    return false;
                }
                if any_metabyte(&v.items) || any_sequence(&v.items) {
                    proof {
                        assert(has_metabyte(vs[i as int].items) || has_sequence(
                            vs[i as int].items));
                        assert(!def_wf(def@));
                    }
                    return false;
                }
                i += 1;
            }
            // the discriminant table: each entry one byte, all distinct
            let mut table: Vec<u8> = Vec::new();
            let mut d: u32 = 0;
            let mut k: usize = 0;
            while k < n
                invariant
                    0 <= k <= n,
                    n == variants@.len(),
                    vs == variants_view(*variants),
                    def@.body == BodyModel::VariantSet(vs),
                    table@.len() == k,
                    forall|v: int|
                        0 <= v < k ==> table@[v] as nat == #[trigger] discriminant_at(vs, v),
                    forall|v: int|
                        0 <= v < k ==> #[trigger] discriminant_at(vs, v) < 256,
                    k > 0 ==> d as nat == discriminant_at(vs, k - 1),
                decreases n - k,
            {
                proof {
                    assert(vs[k as int].discriminant == variants@[k as int].discriminant);
                }
                let next: u32 = match variants[k].discriminant {
                    Some(x) => x as u32,
                    None => if k == 0 {
                        0
                    } else {
                        d + 1
                    },
                };
                proof {
                    assert(next as nat == discriminant_at(vs, k as int));
                }
                if next > 255 {
                    proof {
                        assert(discriminant_at(vs, k as int) >= 256);
                        assert(!def_wf(def@));
                    }
                    return false;
                }
                table.push(next as u8);
                d = next;
                k += 1;
            }
            let mut a: usize = 0;
            while a < n
                invariant
                    0 <= a <= n,
                    n == variants@.len(),
                    vs == variants_view(*variants),
                    def@.body == BodyModel::VariantSet(vs),
                    table@.len() == n,
                    forall|v: int|
                        0 <= v < n ==> table@[v] as nat == #[trigger] discriminant_at(vs, v),
                    forall|v: int, w: int|
                        0 <= v < a && 0 <= w < n && v != w ==> discriminant_at(vs, v)
                            != discriminant_at(vs, w),
                decreases n - a,
            {
                let mut b: usize = 0;
                while b < n
                    invariant
                        0 <= a < n,
                        0 <= b <= n,
                        n == variants@.len(),
                        vs == variants_view(*variants),
                        def@.body == BodyModel::VariantSet(vs),
                        table@.len() == n,
                        forall|v: int|
                            0 <= v < n ==> table@[v] as nat == #[trigger] discriminant_at(vs, v),
                        forall|w: int|
                            0 <= w < b && a as int != w ==> discriminant_at(vs, a as int)
                                != discriminant_at(vs, w),
                    decreases n - b,
                {
                    if b != a && table[a] == table[b] {
                        proof {
                            assert(discriminant_at(vs, a as int) == discriminant_at(vs, b as int));
                            assert(a as int != b as int);
                            assert(!def_wf(def@));
                        }
                        return false;
                    }
                    b += 1;
                }
                a += 1;
            }
            true
        },
    }
}

/// In a well-formed sequence a metabyte item is the metabyte item: the index
/// the specification functions pick is the one where it stands.
pub proof fn lemma_metabyte_unique(items: Seq<Item>, i: int)
    requires
        items_wf(items),
        0 <= i < items.len(),
        is_metabyte_item(items[i]),
    ensures
        has_metabyte(items),
        metabyte_idx(items) == i,
{
    assert(has_metabyte(items));
    let j = metabyte_idx(items);
    assert(0 <= j < items.len() && is_metabyte_item(items[j]));
}

/// In a well-formed sequence a sequence item is the sequence item.
pub proof fn lemma_sequence_unique(items: Seq<Item>, i: int)
    requires
        items_wf(items),
        0 <= i < items.len(),
        is_sequence_item(items[i]),
    ensures
        has_sequence(items),
        sequence_idx(items) == i,
{
    assert(has_sequence(items));
    let j = sequence_idx(items);
    assert(0 <= j < items.len() && is_sequence_item(items[j]));
}

} // verus!
