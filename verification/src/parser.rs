//! The attribute and formula parser: declarative per-item markers in source
//! text — the metabyte position, the sequence-number marker, context
//! formulas and derived-value formulas — become the schema model. Parsing
//! is total and deterministic over its input and has no effect beyond the
//! returned model; it fails, with the failure named, on more than one
//! metabyte marker, a sequence marker outside a reply or event, or a
//! formula referencing an undeclared name.
//!
//! The grammar is whitespace-separated words: a role — `plain`,
//! `request <major> [minor <minor>]`, `reply`, `event <code>` — then
//! `record` or `variants`, then items, then `end`. Items are `field8`,
//! `field16`, `field32`, a `list` with a context — `ctx ( <item> )` or
//! `ctx = <item>` — `let8 <field>`, `let16 <field>`, `let32 <field>`,
//! `unused`, `pad <count>`, `align`, and `padof <field>`; `metabyte` or
//! `sequence` may precede an item. Each variant opens with
//! `variant <discriminant>` or `variant auto`. Names are item positions.
//! The grammar's reference is `spec_parse`: the executable parser returns
//! exactly what it says, acceptance, model and error alike.

use vstd::prelude::*;
use crate::schema::{
    any_sequence, check_wf, def_wf, has_metabyte, has_sequence, item_wf, items_wf,
    metabyte_at_most_one, one_metabyte_at_most, variants_view, BodyModel, DefModel, Definition,
    DefinitionBody, Field, FieldType, IntWidth, Item, LetItem, Role, Unused, Variant,
    VariantModel,
};
use vstd::string::{StringSliceAdditionalSpecFns, StrSliceExecFns};

verus! {

/// A parse failure, reported at the declaration site.
#[derive(Debug, Clone, Copy, PartialEq, Eq, Structural)]
pub enum ParseError {
    /// The text does not follow the schema grammar.
    Syntax,
    /// More than one item claims the metabyte slot.
    MultipleMetabyte,
    /// A sequence marker outside a reply or event definition.
    MisplacedSequence,
    /// A formula references an undeclared name, or one declared later where
    /// only earlier names may stand.
    UnknownName,
    /// The declaration breaks another well-formedness condition.
    Invalid,
}

/// A source formula: an expression over the names — positions — of sibling
/// items.
#[derive(Debug, Clone, Copy, PartialEq, Eq, Structural)]
pub enum Source {
    /// The scalar value of the named item.
    ValueOf(usize),
    /// The byte length of the named list field.
    LengthOf(usize),
    /// The padding of the named field to a 4-byte boundary.
    PadOf(usize),
}

/// The marker placing an element in the header's metabyte position.
#[derive(Debug, Clone, Copy, PartialEq, Eq, Structural)]
pub struct MetabyteAttribute;

/// The marker naming a field as the sequence number of a reply or event.
#[derive(Debug, Clone, Copy, PartialEq, Eq, Structural)]
pub struct SequenceAttribute;

/// The context provided within a [`ContextAttribute`]: parenthesised, or
/// after an equals sign.
#[derive(Debug, Clone, Copy, PartialEq, Eq, Structural)]
pub enum Context {
    Paren { source: Source },
    Equals { source: Source },
}

impl Context {
    /// The formula the context provides, whichever form carried it.
    pub open spec fn source_spec(&self) -> Source {
        match self {
            Context::Paren { source } => *source,
            Context::Equals { source } => *source,
        }
    }

    /// Report the formula the context provides.
    pub fn source(&self) -> (r: &Source)
        ensures
            *r == self.source_spec(),
    {
        match self {
            Context::Paren { source } => source,
            Context::Equals { source } => source,
        }
    }
}

/// The marker providing the count a field's read routine needs.
#[derive(Debug, Clone, Copy, PartialEq, Eq, Structural)]
pub struct ContextAttribute {
    /// The provided context.
    pub context: Context,
}

/// Whether a byte is ASCII whitespace for the grammar: space, tab, line
/// feed or carriage return.
pub open spec fn is_space(b: u8) -> bool {
    b == 32 || b == 9 || b == 10 || b == 13
}

/// The words of a byte sequence from position `i` on, with `cur` the word
/// under construction and `acc` the words already complete: maximal runs of
/// non-whitespace bytes.
pub open spec fn tokens_from(bytes: Seq<u8>, i: int, cur: Seq<u8>, acc: Seq<Seq<u8>>) -> Seq<
    Seq<u8>,
>
    decreases bytes.len() - i,
{
    if i < 0 || i >= bytes.len() {
        if cur.len() > 0 {
            acc.push(cur)
        } else {
            acc
        }
    } else if is_space(bytes[i]) {
        if cur.len() > 0 {
            tokens_from(bytes, i + 1, Seq::empty(), acc.push(cur))
        } else {
            tokens_from(bytes, i + 1, Seq::empty(), acc)
        }
    } else {
        tokens_from(bytes, i + 1, cur.push(bytes[i]), acc)
    }
}

/// The words of a byte sequence: the text split on ASCII whitespace.
pub open spec fn spec_tokens(bytes: Seq<u8>) -> Seq<Seq<u8>> {
    tokens_from(bytes, 0, Seq::empty(), Seq::empty())
}

/// The views of a vector of tokens, position by position.
pub open spec fn toks_view(toks: Vec<Vec<u8>>) -> Seq<Seq<u8>> {
    toks@.map_values(|t: Vec<u8>| t@)
}

/// Split the text's bytes on ASCII whitespace.
fn tokenize(text: &str) -> (r: Vec<Vec<u8>>)
    ensures
        toks_view(r) == spec_tokens(text.spec_bytes()),
{
    let bytes = text.as_bytes_vec();
    let n = bytes.len();
    let mut toks: Vec<Vec<u8>> = Vec::new();
    let mut cur: Vec<u8> = Vec::new();
    let mut i: usize = 0;
    proof {
        assert(toks_view(toks) =~= Seq::<Seq<u8>>::empty());
    }
    while i < n
        invariant
            0 <= i <= n,
            n == bytes@.len(),
            bytes@ == text.spec_bytes(),
            spec_tokens(bytes@) == tokens_from(bytes@, i as int, cur@, toks_view(toks)),
        decreases n - i,
    {
        let ghost pre_toks = toks_view(toks);
        let ghost pre_cur = cur@;
        let b = bytes[i];
        if b == 32 || b == 9 || b == 10 || b == 13 {
            if cur.len() > 0 {
                toks.push(cur);
                cur = Vec::new();
                proof {
                    assert(toks_view(toks) =~= pre_toks.push(pre_cur));
                    assert(cur@ =~= Seq::<u8>::empty());
                    assert(tokens_from(bytes@, i as int, pre_cur, pre_toks) == tokens_from(
                        bytes@, i + 1, Seq::empty(), pre_toks.push(pre_cur)));
                }
            } else {
                proof {
                    assert(pre_cur =~= Seq::<u8>::empty());
                    assert(tokens_from(bytes@, i as int, pre_cur, pre_toks) == tokens_from(
                        bytes@, i + 1, Seq::empty(), pre_toks));
                }
            }
        } else {
            cur.push(b);
            proof {
                assert(tokens_from(bytes@, i as int, pre_cur, pre_toks) == tokens_from(
                    bytes@, i + 1, pre_cur.push(b), pre_toks));
            }
        }
        i += 1;
    }
    if cur.len() > 0 {
        let ghost pre_toks = toks_view(toks);
        let ghost pre_cur = cur@;
        toks.push(cur);
        proof {
            assert(toks_view(toks) =~= pre_toks.push(pre_cur));
        }
    }
    toks
}

/// Whether a token spells the given word.
pub open spec fn is_word(t: Seq<u8>, s: &str) -> bool {
    t == s.spec_bytes()
}

/// Report whether a token spells the given word.
fn tok_eq(t: &Vec<u8>, s: &str) -> (r: bool)
    ensures
        r == is_word(t@, s),
{
    let sb = s.as_bytes();
    let n = t.len();
    if n != sb.len() {
        return false;
    }
    let mut i: usize = 0;
    while i < n
        invariant
            0 <= i <= n,
            n == t@.len(),
            n == sb@.len(),
            sb@ == s.spec_bytes(),
            forall|k: int| 0 <= k < i ==> t@[k] == sb@[k],
        decreases n - i,
    {
        if t[i] != sb[i] {
            proof {
                assert(t@ != sb@);
            }
            return false;
        }
        i += 1;
    }
    proof {
        assert(t@ =~= sb@);
    }
    true
}

/// The number a token's bytes from position `i` spell in decimal, continued
/// from an accumulator; nothing if a byte is no digit or the value leaves
/// the 32-bit range.
pub open spec fn num_from(t: Seq<u8>, i: int, acc: nat) -> Option<u32>
    decreases t.len() - i,
{
    if i < 0 || i >= t.len() {
        Some(acc as u32)
    } else if t[i] < 48 || t[i] > 57 {
        None
    } else if acc * 10 + (t[i] - 48) > 0xFFFF_FFFF {
        None
    } else {
        num_from(t, i + 1, (acc * 10 + (t[i] - 48)) as nat)
    }
}

/// The number a token spells in decimal, if it is one that fits.
pub open spec fn spec_num(t: Seq<u8>) -> Option<u32> {
    if t.len() == 0 {
        None
    } else {
        num_from(t, 0, 0)
    }
}

/// Read a token as a decimal number, if it is one that fits.
fn parse_num(t: &Vec<u8>) -> (r: Option<u32>)
    ensures
        r == spec_num(t@),
{
    let n = t.len();
    if n == 0 {
        return None;
    }
    let mut acc: u64 = 0;
    let mut i: usize = 0;
    while i < n
        invariant
            0 <= i <= n,
            n == t@.len(),
            acc <= 0xFFFF_FFFF,
            num_from(t@, 0, 0) == num_from(t@, i as int, acc as nat),
        decreases n - i,
    {
        let b = t[i];
        if b < 48 || b > 57 {
            return None;
        }
        acc = acc * 10 + ((b - 48) as u64);
        if acc > 0xFFFF_FFFF {
            return None;
        }
        i += 1;
    }
    Some(acc as u32)
}

/// What reading an item's body at position `p` yields, the markers and the
/// context already gathered: the item word, its arguments, and the position
/// after them.
pub open spec fn spec_item_body(
    toks: Seq<Seq<u8>>,
    p: int,
    declared: int,
    metabyte: bool,
    sequence: bool,
    ctx: Option<usize>,
) -> Result<(Item, int), ParseError> {
    let n = toks.len() as int;
    if p >= n {
        Err(ParseError::Syntax)
    } else {
        let t = toks[p];
        if is_word(t, "field8") || is_word(t, "field16") || is_word(t, "field32") {
            if ctx is Some {
                Err(ParseError::Syntax)
            } else {
                let w = if is_word(t, "field8") {
                    IntWidth::W1
                } else if is_word(t, "field16") {
                    IntWidth::W2
                } else {
                    IntWidth::W4
                };
                Ok((
                    Item::Field(Field { ty: FieldType::Card(w), metabyte, sequence, context: None }),
                    p + 1,
                ))
            }
        } else if is_word(t, "list") {
            match ctx {
                None => Err(ParseError::Syntax),
                Some(c) => if metabyte || sequence {
                    Err(ParseError::Syntax)
                } else {
                    Ok((
                        Item::Field(
                            Field {
                                ty: FieldType::ByteList,
                                metabyte: false,
                                sequence: false,
                                context: Some(c),
                            },
                        ),
                        p + 1,
                    ))
                },
            }
        } else if is_word(t, "let8") || is_word(t, "let16") || is_word(t, "let32") {
            if ctx is Some || sequence {
                Err(ParseError::Syntax)
            } else if n - p < 2 {
                Err(ParseError::Syntax)
            } else {
                match spec_num(toks[p + 1]) {
                    None => Err(ParseError::Syntax),
                    Some(x) => {
                        let w = if is_word(t, "let8") {
                            IntWidth::W1
                        } else if is_word(t, "let16") {
                            IntWidth::W2
                        } else {
                            IntWidth::W4
                        };
                        Ok((Item::Let(LetItem { width: w, source: x as usize, metabyte }), p + 2))
                    },
                }
            }
        } else if is_word(t, "unused") {
            if ctx is Some || metabyte || sequence {
                Err(ParseError::Syntax)
            } else {
                Ok((Item::Unused(Unused::Unit), p + 1))
            }
        } else if is_word(t, "pad") {
            if ctx is Some || metabyte || sequence {
                Err(ParseError::Syntax)
            } else if n - p < 2 {
                Err(ParseError::Syntax)
            } else {
                match spec_num(toks[p + 1]) {
                    None => Err(ParseError::Syntax),
                    Some(x) => Ok((Item::Unused(Unused::Run(x)), p + 2)),
                }
            }
        } else if is_word(t, "align") {
            if ctx is Some || metabyte || sequence {
                Err(ParseError::Syntax)
            } else {
                Ok((Item::Unused(Unused::AlignTo4), p + 1))
            }
        } else if is_word(t, "padof") {
            if ctx is Some || metabyte || sequence {
                Err(ParseError::Syntax)
            } else if n - p < 2 {
                Err(ParseError::Syntax)
            } else {
                match spec_num(toks[p + 1]) {
                    None => Err(ParseError::Syntax),
                    Some(x) => if x as int >= declared {
                        Err(ParseError::UnknownName)
                    } else {
                        Ok((Item::Unused(Unused::PadOf(x as usize)), p + 2))
                    },
                }
            }
        } else {
            Err(ParseError::Syntax)
        }
    }
}

/// What reading one item starting at `pos` yields, `declared` items already
/// standing before it: an optional metabyte or sequence marker, an optional
/// context attribute — whose name must be declared and earlier — then the
/// item word.
pub open spec fn spec_parse_item(toks: Seq<Seq<u8>>, pos: int, declared: int) -> Result<
    (Item, int),
    ParseError,
> {
    let n = toks.len() as int;
    if pos < 0 || pos >= n {
        Err(ParseError::Syntax)
    } else {
        let mb = is_word(toks[pos], "metabyte");
        let sq = !mb && is_word(toks[pos], "sequence");
        let p = if mb || sq {
            pos + 1
        } else {
            pos
        };
        if p >= n {
            Err(ParseError::Syntax)
        } else if is_word(toks[p], "ctx") {
            let q = p + 1;
            if q >= n {
                Err(ParseError::Syntax)
            } else if is_word(toks[q], "(") {
                if n - q < 3 {
                    Err(ParseError::Syntax)
                } else {
                    match spec_num(toks[q + 1]) {
                        None => Err(ParseError::Syntax),
                        Some(k) => if !is_word(toks[q + 2], ")") {
                            Err(ParseError::Syntax)
                        } else if k as int >= declared {
                            Err(ParseError::UnknownName)
                        } else {
                            spec_item_body(toks, q + 3, declared, mb, sq, Some(k as usize))
                        },
                    }
                }
            } else if is_word(toks[q], "=") {
                if n - q < 2 {
                    Err(ParseError::Syntax)
                } else {
                    match spec_num(toks[q + 1]) {
                        None => Err(ParseError::Syntax),
                        Some(k) => if k as int >= declared {
                            Err(ParseError::UnknownName)
                        } else {
                            spec_item_body(toks, q + 2, declared, mb, sq, Some(k as usize))
                        },
                    }
                }
            } else {
                Err(ParseError::Syntax)
            }
        } else {
            spec_item_body(toks, p, declared, mb, sq, None)
        }
    }
}

/// Read one item starting at `pos`, `declared` items already standing
/// before it. Context and pad formulas may only reference those; a let's
/// source is validated once the whole sequence is known.
fn parse_one_item(toks: &Vec<Vec<u8>>, pos: usize, declared: usize) -> (r: Result<
    (Item, usize),
    ParseError,
>)
    requires
        pos < toks@.len(),
    ensures
        (match r {
            Ok(p) => spec_parse_item(toks_view(*toks), pos as int, declared as int)
                == Ok::<(Item, int), ParseError>((p.0, p.1 as int)),
            Err(e) => spec_parse_item(toks_view(*toks), pos as int, declared as int)
                == Err::<(Item, int), ParseError>(e),
        }),
        r matches Ok(p) ==> pos < p.1 <= toks@.len(),
{
    let ghost tv = toks_view(*toks);
    proof {
        assert(forall|i: int| 0 <= i < toks@.len() ==> tv[i] == #[trigger] toks@[i]@);
    }
    let n = toks.len();
    let mut p = pos;
    let mut metabyte = false;
    let mut sequence = false;
    if tok_eq(&toks[p], "metabyte") {
        metabyte = true;
        p += 1;
    } else if tok_eq(&toks[p], "sequence") {
        sequence = true;
        p += 1;
    }
    if p >= n {
        return Err(ParseError::Syntax);
    }
    let mut ctx: Option<usize> = None;
    if tok_eq(&toks[p], "ctx") {
        p += 1;
        if p >= n {
            return Err(ParseError::Syntax);
        }
        let att: ContextAttribute;
        if tok_eq(&toks[p], "(") {
            if n - p < 3 {
                return Err(ParseError::Syntax);
            }
            let k = match parse_num(&toks[p + 1]) {
                Some(x) => x,
                None => {
                    return Err(ParseError::Syntax);
                },
            };
            if !tok_eq(&toks[p + 2], ")") {
                return Err(ParseError::Syntax);
            }
            att = ContextAttribute { context: Context::Paren { source: Source::ValueOf(k as usize) } };
            p += 3;
        } else if tok_eq(&toks[p], "=") {
            if n - p < 2 {
                return Err(ParseError::Syntax);
            }
            let k = match parse_num(&toks[p + 1]) {
                Some(x) => x,
                None => {
                    return Err(ParseError::Syntax);
                },
            };
            att = ContextAttribute { context: Context::Equals { source: Source::ValueOf(k as usize) } };
            p += 2;
        } else {
            return Err(ParseError::Syntax);
        }
        match att.context.source() {
            Source::ValueOf(k) => {
                if *k >= declared {
                    return Err(ParseError::UnknownName);
                }
                ctx = Some(*k);
            },
            _ => {
                return Err(ParseError::Syntax);
            },
        }
        if p >= n {
            return Err(ParseError::Syntax);
        }
    }
    let t = &toks[p];
    if tok_eq(t, "field8") || tok_eq(t, "field16") || tok_eq(t, "field32") {
        if ctx.is_some() {
            return Err(ParseError::Syntax);
        }
        let w = if tok_eq(t, "field8") {
            IntWidth::W1
        } else if tok_eq(t, "field16") {
            IntWidth::W2
        } else {
            IntWidth::W4
        };
        Ok((
            Item::Field(Field { ty: FieldType::Card(w), metabyte, sequence, context: None }),
            p + 1,
        ))
    } else if tok_eq(t, "list") {
        let c = match ctx {
            Some(c) => c,
            None => {
                return Err(ParseError::Syntax);
            },
        };
        if metabyte || sequence {
            return Err(ParseError::Syntax);
        }
        Ok((
            Item::Field(
                Field { ty: FieldType::ByteList, metabyte: false, sequence: false, context: Some(c) },
            ),
            p + 1,
        ))
    } else if tok_eq(t, "let8") || tok_eq(t, "let16") || tok_eq(t, "let32") {
        if ctx.is_some() || sequence {
            return Err(ParseError::Syntax);
        }
        if n - p < 2 {
            return Err(ParseError::Syntax);
        }
        let src = match parse_num(&toks[p + 1]) {
            Some(x) => Source::LengthOf(x as usize),
            None => {
                return Err(ParseError::Syntax);
            },
        };
        let w = if tok_eq(t, "let8") {
            IntWidth::W1
        } else if tok_eq(t, "let16") {
            IntWidth::W2
        } else {
            IntWidth::W4
        };
        match src {
            Source::LengthOf(k) => Ok((
                Item::Let(LetItem { width: w, source: k, metabyte }),
                p + 2,
            )),
            _ => Err(ParseError::Syntax),
        }
    } else if tok_eq(t, "unused") {
        if ctx.is_some() || metabyte || sequence {
            return Err(ParseError::Syntax);
        }
        Ok((Item::Unused(Unused::Unit), p + 1))
    } else if tok_eq(t, "pad") {
        if ctx.is_some() || metabyte || sequence {
            return Err(ParseError::Syntax);
        }
        if n - p < 2 {
            return Err(ParseError::Syntax);
        }
        match parse_num(&toks[p + 1]) {
            Some(x) => Ok((Item::Unused(Unused::Run(x)), p + 2)),
            None => Err(ParseError::Syntax),
        }
    } else if tok_eq(t, "align") {
        if ctx.is_some() || metabyte || sequence {
            return Err(ParseError::Syntax);
        }
        Ok((Item::Unused(Unused::AlignTo4), p + 1))
    } else if tok_eq(t, "padof") {
        if ctx.is_some() || metabyte || sequence {
            return Err(ParseError::Syntax);
        }
        if n - p < 2 {
            return Err(ParseError::Syntax);
        }
        match parse_num(&toks[p + 1]) {
            Some(x) => {
                let src = Source::PadOf(x as usize);
                match src {
                    Source::PadOf(k) => {
                        if k >= declared {
                            return Err(ParseError::UnknownName);
                        }
                        Ok((Item::Unused(Unused::PadOf(k)), p + 2))
                    },
                    _ => Err(ParseError::Syntax),
                }
            },
            None => Err(ParseError::Syntax),
        }
    } else {
        Err(ParseError::Syntax)
    }
}

/// Whether some let of the sequence references an undeclared name.
pub open spec fn bad_let_source(items: Seq<Item>) -> bool {
    exists|i: int|
        0 <= i < items.len() && match #[trigger] items[i] {
            Item::Let(l) => l.source >= items.len(),
            _ => false,
        }
}

/// Check whether some let's source fails to name a declared item.
fn bad_lets(items: &Vec<Item>) -> (r: bool)
    ensures
        r == bad_let_source(items@),
{
    let n = items.len();
    let mut i: usize = 0;
    while i < n
        invariant
            0 <= i <= n,
            n == items@.len(),
            forall|k: int|
                0 <= k < i ==> match #[trigger] items@[k] {
                    Item::Let(l) => l.source < items@.len(),
                    _ => true,
                },
        decreases n - i,
    {
        match &items[i] {
            Item::Let(l) => {
                if l.source >= n {
                    return true;
                }
            },
            _ => {},
        }
        i += 1;
    }
    false
}

/// Whether some item sequence of the definition claims the metabyte slot
/// more than once.
pub open spec fn has_duplicate_metabyte(def: DefModel) -> bool {
    match def.body {
        BodyModel::Record(items) => !one_metabyte_at_most(items),
        BodyModel::VariantSet(variants) => exists|v: int|
            0 <= v < variants.len() && !one_metabyte_at_most(#[trigger] variants[v].items),
    }
}

/// Whether a sequence marker stands where no header carries one: in a plain
/// record, in a request, or inside a variant.
pub open spec fn has_misplaced_sequence(def: DefModel) -> bool {
    match def.body {
        BodyModel::Record(items) => has_sequence(items) && !(def.role is Reply
            || def.role matches Role::Event { .. }),
        BodyModel::VariantSet(variants) => exists|v: int|
            0 <= v < variants.len() && has_sequence(#[trigger] variants[v].items),
    }
}

/// Whether some let of the definition references an undeclared name.
pub open spec fn has_unknown_let_source(def: DefModel) -> bool {
    match def.body {
        BodyModel::Record(items) => bad_let_source(items),
        BodyModel::VariantSet(variants) => exists|v: int|
            0 <= v < variants.len() && bad_let_source(#[trigger] variants[v].items),
    }
}

/// What validating a definition yields: the three conditions the
/// declaration rules call out, in the order the validator checks them, then
/// any other break of well-formedness, else success.
pub open spec fn spec_validate(def: DefModel) -> Result<(), ParseError> {
    if has_duplicate_metabyte(def) {
        Err(ParseError::MultipleMetabyte)
    } else if has_misplaced_sequence(def) {
        Err(ParseError::MisplacedSequence)
    } else if has_unknown_let_source(def) {
        Err(ParseError::UnknownName)
    } else if !def_wf(def) {
        Err(ParseError::Invalid)
    } else {
        Ok(())
    }
}

/// An undeclared let source breaks the per-item conditions.
proof fn lemma_bad_let_source_not_wf(items: Seq<Item>)
    requires
        bad_let_source(items),
    ensures
        !items_wf(items),
{
    let i = choose|i: int|
        0 <= i < items.len() && match #[trigger] items[i] {
            Item::Let(l) => l.source >= items.len(),
            _ => false,
        };
    if items_wf(items) {
        assert(item_wf(items, i));
    }
}

/// Validation succeeds exactly on the well-formed definitions: each of the
/// three named conditions breaks well-formedness on its own.
pub proof fn lemma_validate_ok_iff_wf(def: DefModel)
    ensures
        spec_validate(def) is Ok <==> def_wf(def),
{
    if def_wf(def) {
        match def.body {
            BodyModel::Record(items) => {
                assert(!has_duplicate_metabyte(def));
                assert(!has_misplaced_sequence(def));
                if has_unknown_let_source(def) {
                    lemma_bad_let_source_not_wf(items);
                }
            },
            BodyModel::VariantSet(variants) => {
                if has_duplicate_metabyte(def) {
                    let v = choose|v: int|
                        0 <= v < variants.len() && !one_metabyte_at_most(
                            #[trigger] variants[v].items);
                    assert(items_wf(variants[v].items));
                }
                if has_misplaced_sequence(def) {
                    let v = choose|v: int|
                        0 <= v < variants.len() && has_sequence(#[trigger] variants[v].items);
                    assert(!has_metabyte(variants[v].items) && !has_sequence(variants[v].items));
                }
                if has_unknown_let_source(def) {
                    let v = choose|v: int|
                        0 <= v < variants.len() && bad_let_source(#[trigger] variants[v].items);
                    lemma_bad_let_source_not_wf(variants[v].items);
                    assert(items_wf(variants[v].items));
                }
            },
        }
    }
}

/// Whether any item sequence of the definition claims the metabyte slot
/// more than once, as executable code sees it.
fn dup_metabyte(def: &Definition) -> (r: bool)
    ensures
        r == has_duplicate_metabyte(def@),
{
    match &def.body {
        DefinitionBody::Record(items) => !metabyte_at_most_one(items),
        DefinitionBody::VariantSet(variants) => {
            let ghost vs = variants_view(*variants);
            let n = variants.len();
            let mut v: usize = 0;
            while v < n
                invariant
                    0 <= v <= n,
                    n == variants@.len(),
                    vs == variants_view(*variants),
                    def@.body == BodyModel::VariantSet(vs),
                    forall|k: int| 0 <= k < v ==> one_metabyte_at_most(#[trigger] vs[k].items),
                decreases n - v,
            {
                let var = &variants[v];
                proof {
                    assert(vs[v as int].items == var.items@);
                }
                if !metabyte_at_most_one(&var.items) {
                    return true;
                }
                v += 1;
            }
            false
        },
    }
}

/// Whether a sequence marker stands where no header carries one, as
/// executable code sees it.
fn misplaced_sequence(def: &Definition) -> (r: bool)
    ensures
        r == has_misplaced_sequence(def@),
{
    match &def.body {
        DefinitionBody::Record(items) => {
            let seq_allowed = match def.role {
                Role::Reply => true,
                Role::Event { .. } => true,
                _ => false,
            };
            any_sequence(items) && !seq_allowed
        },
        DefinitionBody::VariantSet(variants) => {
            let ghost vs = variants_view(*variants);
            let n = variants.len();
            let mut v: usize = 0;
            while v < n
                invariant
                    0 <= v <= n,
                    n == variants@.len(),
                    vs == variants_view(*variants),
                    def@.body == BodyModel::VariantSet(vs),
                    forall|k: int| 0 <= k < v ==> !has_sequence(#[trigger] vs[k].items),
                decreases n - v,
            {
                let var = &variants[v];
                proof {
                    assert(vs[v as int].items == var.items@);
                }
                if any_sequence(&var.items) {
                    return true;
                }
                v += 1;
            }
            false
        },
    }
}

/// Whether some let of the definition references an undeclared name, as
/// executable code sees it.
fn unknown_let_source(def: &Definition) -> (r: bool)
    ensures
        r == has_unknown_let_source(def@),
{
    match &def.body {
        DefinitionBody::Record(items) => bad_lets(items),
        DefinitionBody::VariantSet(variants) => {
            let ghost vs = variants_view(*variants);
            let n = variants.len();
            let mut v: usize = 0;
            while v < n
                invariant
                    0 <= v <= n,
                    n == variants@.len(),
                    vs == variants_view(*variants),
                    def@.body == BodyModel::VariantSet(vs),
                    forall|k: int| 0 <= k < v ==> !bad_let_source(#[trigger] vs[k].items),
                decreases n - v,
            {
                let var = &variants[v];
                proof {
                    assert(vs[v as int].items == var.items@);
                }
                if bad_lets(&var.items) {
                    return true;
                }
                v += 1;
            }
            false
        },
    }
}

/// Validate a definition as the declaration rules demand: succeed exactly
/// on the well-formed definitions, and name the failure for each condition
/// the rules call out — a second metabyte marker, a sequence marker without
/// a header slot to carry it, a formula referencing an undeclared name —
/// with the checking order deciding which is reported when several hold.
pub fn validate(def: &Definition) -> (r: Result<(), ParseError>)
    ensures
        r == spec_validate(def@),
        r is Ok <==> def_wf(def@),
{
    proof {
        lemma_validate_ok_iff_wf(def@);
    }
    if dup_metabyte(def) {
        return Err(ParseError::MultipleMetabyte);
    }
    if misplaced_sequence(def) {
        return Err(ParseError::MisplacedSequence);
    }
    if unknown_let_source(def) {
        return Err(ParseError::UnknownName);
    }
    if !check_wf(def) {
        return Err(ParseError::Invalid);
    }
    Ok(())
}

/// What reading the role prefix yields: the role and the position after it.
pub open spec fn spec_parse_role(toks: Seq<Seq<u8>>) -> Result<(Role, int), ParseError> {
    let n = toks.len() as int;
    if n == 0 {
        Err(ParseError::Syntax)
    } else if is_word(toks[0], "plain") {
        Ok((Role::Plain, 1))
    } else if is_word(toks[0], "request") {
        if n < 2 {
            Err(ParseError::Syntax)
        } else {
            match spec_num(toks[1]) {
                None => Err(ParseError::Syntax),
                Some(x) => if x > 255 {
                    Err(ParseError::Syntax)
                } else if 2 < n && is_word(toks[2], "minor") {
                    if n < 4 {
                        Err(ParseError::Syntax)
                    } else {
                        match spec_num(toks[3]) {
                            None => Err(ParseError::Syntax),
                            Some(y) => if y > 255 {
                                Err(ParseError::Syntax)
                            } else {
                                Ok((
                                    Role::Request {
                                        major_opcode: x as u8,
                                        minor_opcode: Some(y as u8),
                                    },
                                    4,
                                ))
                            },
                        }
                    }
                } else {
                    Ok((Role::Request { major_opcode: x as u8, minor_opcode: None }, 2))
                },
            }
        }
    } else if is_word(toks[0], "reply") {
        Ok((Role::Reply, 1))
    } else if is_word(toks[0], "event") {
        if n < 2 {
            Err(ParseError::Syntax)
        } else {
            match spec_num(toks[1]) {
                None => Err(ParseError::Syntax),
                Some(x) => if x > 255 {
                    Err(ParseError::Syntax)
                } else {
                    Ok((Role::Event { code: x as u8 }, 2))
                },
            }
        }
    } else {
        Err(ParseError::Syntax)
    }
}

/// What reading record items from `pos` up to the closing word yields: the
/// items and the position after the closing word.
pub open spec fn spec_parse_record_items(toks: Seq<Seq<u8>>, pos: int, acc: Seq<Item>) -> Result<
    (Seq<Item>, int),
    ParseError,
>
    decreases toks.len() - pos,
{
    if pos < 0 || pos >= toks.len() {
        Err(ParseError::Syntax)
    } else if is_word(toks[pos], "end") {
        Ok((acc, pos + 1))
    } else {
        match spec_parse_item(toks, pos, acc.len() as int) {
            Err(e) => Err(e),
            Ok(p) => if pos < p.1 <= toks.len() {
                spec_parse_record_items(toks, p.1, acc.push(p.0))
            } else {
                Err(ParseError::Syntax)
            },
        }
    }
}

/// What reading one variant's items yields: they run to the next variant
/// opener or the closing word, which stays unconsumed.
pub open spec fn spec_parse_variant_items(toks: Seq<Seq<u8>>, pos: int, acc: Seq<Item>) -> Result<
    (Seq<Item>, int),
    ParseError,
>
    decreases toks.len() - pos,
{
    if pos < 0 || pos >= toks.len() || is_word(toks[pos], "end") || is_word(
        toks[pos],
        "variant",
    ) {
        Ok((acc, pos))
    } else {
        match spec_parse_item(toks, pos, acc.len() as int) {
            Err(e) => Err(e),
            Ok(p) => if pos < p.1 <= toks.len() {
                spec_parse_variant_items(toks, p.1, acc.push(p.0))
            } else {
                Err(ParseError::Syntax)
            },
        }
    }
}

/// What reading the variant list from `pos` yields: each variant opens with
/// its word and a discriminant — explicit or automatic — then carries its
/// items, and the list closes with the closing word.
pub open spec fn spec_parse_variants(
    toks: Seq<Seq<u8>>,
    pos: int,
    acc: Seq<VariantModel>,
) -> Result<(Seq<VariantModel>, int), ParseError>
    decreases toks.len() - pos,
{
    if pos < 0 || pos >= toks.len() {
        Err(ParseError::Syntax)
    } else if is_word(toks[pos], "end") {
        Ok((acc, pos + 1))
    } else if !is_word(toks[pos], "variant") {
        Err(ParseError::Syntax)
    } else if pos + 1 >= toks.len() {
        Err(ParseError::Syntax)
    } else {
        let dr: Result<Option<u8>, ParseError> = if is_word(toks[pos + 1], "auto") {
            Ok(None)
        } else {
            match spec_num(toks[pos + 1]) {
                None => Err(ParseError::Syntax),
                Some(x) => if x > 255 {
                    Err(ParseError::Syntax)
                } else {
                    Ok(Some(x as u8))
                },
            }
        };
        match dr {
            Err(e) => Err(e),
            Ok(disc) => match spec_parse_variant_items(toks, pos + 2, Seq::empty()) {
                Err(e) => Err(e),
                Ok(p) => if pos + 2 <= p.1 <= toks.len() {
                    spec_parse_variants(
                        toks,
                        p.1,
                        acc.push(VariantModel { discriminant: disc, items: p.0 }),
                    )
                } else {
                    Err(ParseError::Syntax)
                },
            },
        }
    }
}

/// What parsing a token sequence yields: a role, a record or variant-set
/// body that uses every remaining token, then the validation of the model.
pub open spec fn spec_parse_toks(toks: Seq<Seq<u8>>) -> Result<DefModel, ParseError> {
    match spec_parse_role(toks) {
        Err(e) => Err(e),
        Ok(rp) => {
            if rp.1 >= toks.len() {
                Err(ParseError::Syntax)
            } else if is_word(toks[rp.1], "record") {
                match spec_parse_record_items(toks, rp.1 + 1, Seq::empty()) {
                    Err(e) => Err(e),
                    Ok(p) => if p.1 != toks.len() {
                        Err(ParseError::Syntax)
                    } else {
                        let d = DefModel { role: rp.0, body: BodyModel::Record(p.0) };
                        match spec_validate(d) {
                            Ok(_) => Ok(d),
                            Err(e) => Err(e),
                        }
                    },
                }
            } else if is_word(toks[rp.1], "variants") {
                match spec_parse_variants(toks, rp.1 + 1, Seq::empty()) {
                    Err(e) => Err(e),
                    Ok(p) => if p.1 != toks.len() {
                        Err(ParseError::Syntax)
                    } else {
                        let d = DefModel { role: rp.0, body: BodyModel::VariantSet(p.0) };
                        match spec_validate(d) {
                            Ok(_) => Ok(d),
                            Err(e) => Err(e),
                        }
                    },
                }
            } else {
                Err(ParseError::Syntax)
            }
        },
    }
}

/// What parsing source text yields: the text split into words on
/// whitespace, then the declaration grammar over the words. This is the
/// reference the executable parser is held to.
pub open spec fn spec_parse(bytes: Seq<u8>) -> Result<DefModel, ParseError> {
    spec_parse_toks(spec_tokens(bytes))
}

/// Parse one definition from source text. The grammar is exactly
/// `spec_parse` over the text's bytes: whatever it accepts comes back as
/// that model — well-formed, validation included — and whatever it refuses
/// comes back as the named parse error.
#[verifier::rlimit(100)]
#[verifier::spinoff_prover]
pub fn parse(text: &str) -> (r: Result<Definition, ParseError>)
    ensures
        (match r {
            Ok(d) => spec_parse(text.spec_bytes()) == Ok::<DefModel, ParseError>(d@),
            Err(e) => spec_parse(text.spec_bytes()) == Err::<DefModel, ParseError>(e),
        }),
        r matches Ok(d) ==> def_wf(d@),
{
    let toks = tokenize(text);
    let ghost tv = toks_view(toks);
    let n = toks.len();
    proof {
        assert(tv == spec_tokens(text.spec_bytes()));
        assert(forall|i: int| 0 <= i < toks@.len() ==> tv[i] == #[trigger] toks@[i]@);
    }
    let mut pos: usize = 0;
    if pos >= n {
        return Err(ParseError::Syntax);
    }
    let role: Role;
    if tok_eq(&toks[pos], "plain") {
        role = Role::Plain;
        pos += 1;
    } else if tok_eq(&toks[pos], "request") {
        pos += 1;
        if pos >= n {
            return Err(ParseError::Syntax);
        }
        let major = match parse_num(&toks[pos]) {
            Some(x) => {
                if x > 255 {
                    return Err(ParseError::Syntax);
                }
                x as u8
            },
            None => {
                return Err(ParseError::Syntax);
            },
        };
        pos += 1;
        let mut minor: Option<u8> = None;
        if pos < n && tok_eq(&toks[pos], "minor") {
            pos += 1;
            if pos >= n {
                return Err(ParseError::Syntax);
            }
            minor = match parse_num(&toks[pos]) {
                Some(x) => {
                    if x > 255 {
                        return Err(ParseError::Syntax);
                    }
                    Some(x as u8)
                },
                None => {
                    return Err(ParseError::Syntax);
                },
            };
            pos += 1;
        }
        role = Role::Request { major_opcode: major, minor_opcode: minor };
    } else if tok_eq(&toks[pos], "reply") {
        role = Role::Reply;
        pos += 1;
    } else if tok_eq(&toks[pos], "event") {
        pos += 1;
        if pos >= n {
            return Err(ParseError::Syntax);
        }
        let code = match parse_num(&toks[pos]) {
            Some(x) => {
                if x > 255 {
                    return Err(ParseError::Syntax);
                }
                x as u8
            },
            None => {
                return Err(ParseError::Syntax);
            },
        };
        pos += 1;
        role = Role::Event { code };
    } else {
        return Err(ParseError::Syntax);
    }
    proof {
        assert(spec_parse_role(tv) == Ok::<(Role, int), ParseError>((role, pos as int)));
    }
    let ghost role_end = pos as int;
    if pos >= n {
        return Err(ParseError::Syntax);
    }
    if tok_eq(&toks[pos], "record") {
        pos += 1;
        let ghost rs = pos as int;
        let mut items: Vec<Item> = Vec::new();
        let mut closed = false;
        let mut fail: Option<ParseError> = None;
        proof {
            assert(items@ =~= Seq::<Item>::empty());
        }
        while pos < n
            invariant_except_break
                fail is None,
                !closed,
                spec_parse_record_items(tv, rs, Seq::empty()) == spec_parse_record_items(
                    tv, pos as int, items@),
            invariant
                pos <= n,
                n == toks@.len(),
                tv == toks_view(toks),
            ensures
                pos <= n,
                closed ==> spec_parse_record_items(tv, rs, Seq::empty())
                    == Ok::<(Seq<Item>, int), ParseError>((items@, pos as int)),
                !closed ==> (match fail {
                    Some(e) => spec_parse_record_items(tv, rs, Seq::empty())
                        == Err::<(Seq<Item>, int), ParseError>(e),
                    None => spec_parse_record_items(tv, rs, Seq::empty())
                        == Err::<(Seq<Item>, int), ParseError>(ParseError::Syntax),
                }),
            decreases n - pos,
        {
            proof {
                assert(tv[pos as int] == toks@[pos as int]@);
            }
            if tok_eq(&toks[pos], "end") {
                pos += 1;
                closed = true;
                break;
            }
            match parse_one_item(&toks, pos, items.len()) {
                Ok(p) => {
                    items.push(p.0);
                    pos = p.1;
                },
                Err(e) => {
                    fail = Some(e);
                    break;
                },
            }
        }
        if !closed {
            let e = match fail {
                Some(e) => e,
                None => ParseError::Syntax,
            };
            proof {
                assert(spec_parse_toks(tv) == Err::<DefModel, ParseError>(e));
            }
            return Err(e);
        }
        if pos != n {
            proof {
                assert(spec_parse_toks(tv) == Err::<DefModel, ParseError>(ParseError::Syntax));
            }
            return Err(ParseError::Syntax);
        }
        let def = Definition { role, body: DefinitionBody::Record(items) };
        match validate(&def) {
            Ok(_) => {
                proof {
                    assert(spec_parse_toks(tv) == Ok::<DefModel, ParseError>(def@));
                }
                Ok(def)
            },
            Err(e) => {
                proof {
                    assert(spec_parse_toks(tv) == Err::<DefModel, ParseError>(e));
                }
                Err(e)
            },
        }
    } else if tok_eq(&toks[pos], "variants") {
        pos += 1;
        let ghost vstart = pos as int;
        let mut variants: Vec<Variant> = Vec::new();
        let mut closed = false;
        let mut fail: Option<ParseError> = None;
        proof {
            assert(variants_view(variants) =~= Seq::<VariantModel>::empty());
        }
        while pos < n
            invariant_except_break
                fail is None,
                !closed,
                spec_parse_variants(tv, vstart, Seq::empty()) == spec_parse_variants(
                    tv, pos as int, variants_view(variants)),
            invariant
                pos <= n,
                n == toks@.len(),
                tv == toks_view(toks),
            ensures
                pos <= n,
                closed ==> spec_parse_variants(tv, vstart, Seq::empty())
                    == Ok::<(Seq<VariantModel>, int), ParseError>(
                    (variants_view(variants), pos as int)),
                !closed ==> (match fail {
                    Some(e) => spec_parse_variants(tv, vstart, Seq::empty())
                        == Err::<(Seq<VariantModel>, int), ParseError>(e),
                    None => spec_parse_variants(tv, vstart, Seq::empty())
                        == Err::<(Seq<VariantModel>, int), ParseError>(ParseError::Syntax),
                }),
            decreases n - pos,
        {
            let ghost head = pos as int;
            let ghost vv_head = variants_view(variants);
            proof {
                assert(tv[head] == toks@[head]@);
            }
            if tok_eq(&toks[pos], "end") {
                pos += 1;
                closed = true;
                break;
            }
            if !tok_eq(&toks[pos], "variant") {
                fail = Some(ParseError::Syntax);
                break;
            }
            pos += 1;
            if pos >= n {
                fail = Some(ParseError::Syntax);
                break;
            }
            proof {
                assert(tv[head + 1] == toks@[head + 1]@);
            }
            let disc: Option<u8>;
            if tok_eq(&toks[pos], "auto") {
                disc = None;
                pos += 1;
            } else {
                match parse_num(&toks[pos]) {
                    Some(x) => {
                        if x > 255 {
                            fail = Some(ParseError::Syntax);
                            break;
                        }
                        disc = Some(x as u8);
                        pos += 1;
                    },
                    None => {
                        fail = Some(ParseError::Syntax);
                        break;
                    },
                }
            }
            proof {
                assert((if is_word(tv[head + 1], "auto") {
                    Ok(None)
                } else {
                    match spec_num(tv[head + 1]) {
                        None => Err(ParseError::Syntax),
                        Some(x) => if x > 255 {
                            Err(ParseError::Syntax)
                        } else {
                            Ok(Some(x as u8))
                        },
                    }
                }) == Ok::<Option<u8>, ParseError>(disc));
            }
            let mut items: Vec<Item> = Vec::new();
            let ghost istart = pos as int;
            let mut ifail: Option<ParseError> = None;
            proof {
                assert(items@ =~= Seq::<Item>::empty());
            }
            while pos < n && !tok_eq(&toks[pos], "end") && !tok_eq(&toks[pos], "variant")
                invariant_except_break
                    ifail is None,
                    spec_parse_variant_items(tv, istart, Seq::empty())
                        == spec_parse_variant_items(tv, pos as int, items@),
                invariant
                    istart <= pos <= n,
                    n == toks@.len(),
                    tv == toks_view(toks),
                ensures
                    istart <= pos <= n,
                    ifail matches Some(e) ==> spec_parse_variant_items(tv, istart, Seq::empty())
                        == Err::<(Seq<Item>, int), ParseError>(e),
                    ifail is None ==> spec_parse_variant_items(tv, istart, Seq::empty())
                        == Ok::<(Seq<Item>, int), ParseError>((items@, pos as int)),
                decreases n - pos,
            {
                proof {
                    assert(tv[pos as int] == toks@[pos as int]@);
                }
                match parse_one_item(&toks, pos, items.len()) {
                    Ok(p) => {
                        items.push(p.0);
                        pos = p.1;
                    },
                    Err(e) => {
                        ifail = Some(e);
                        break;
                    },
                }
            }
            match ifail {
                Some(e) => {
                    proof {
                        assert(spec_parse_variants(tv, head, vv_head)
                            == Err::<(Seq<VariantModel>, int), ParseError>(e));
                    }
                    fail = Some(e);
                    break;
                },
                None => {},
            }
            let ghost iseq = items@;
            let ghost pre_vv = variants_view(variants);
            variants.push(Variant { discriminant: disc, items });
            proof {
                assert(variants_view(variants) =~= pre_vv.push(
                    VariantModel { discriminant: disc, items: iseq }));
                assert(spec_parse_variants(tv, head, vv_head) == spec_parse_variants(
                    tv, pos as int, variants_view(variants)));
            }
        }
        if !closed {
            let e = match fail {
                Some(e) => e,
                None => ParseError::Syntax,
            };
            proof {
                assert(spec_parse_toks(tv) == Err::<DefModel, ParseError>(e));
            }
            return Err(e);
        }
        if pos != n {
            proof {
                assert(spec_parse_toks(tv) == Err::<DefModel, ParseError>(ParseError::Syntax));
            }
            return Err(ParseError::Syntax);
        }
        let def = Definition { role, body: DefinitionBody::VariantSet(variants) };
        match validate(&def) {
            Ok(_) => {
                proof {
                    assert(spec_parse_toks(tv) == Ok::<DefModel, ParseError>(def@));
                }
                Ok(def)
            },
            Err(e) => {
                proof {
                    assert(spec_parse_toks(tv) == Err::<DefModel, ParseError>(e));
                }
                Err(e)
            },
        }
    } else {
        return Err(ParseError::Syntax);
    }
}

} // verus!
