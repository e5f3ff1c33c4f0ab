//! Mathematical model of the codec: ghost counterparts of the dynamic
//! values, record shapes and records, and the decode/encode rules stated
//! over them. Executable code's contracts are phrased in terms of these.
use vstd::prelude::*;
use crate::value::Kind;
use crate::error::Expected;

verus! {

/// Ghost form of a dynamic tagged value.
#[verifier::ext_equal]
pub enum ValueM {
    Int(int),
    Str(Seq<char>),
    Arr(Seq<ValueM>),
    Dict(Seq<EntryM>),
    SetV(Seq<ValueM>),
}

/// Ghost form of one dictionary entry.
#[verifier::ext_equal]
pub struct EntryM {
    pub key: Seq<char>,
    pub val: ValueM,
}

/// Ghost form of a record shape.
#[verifier::ext_equal]
pub enum ShapeM {
    Int,
    Str,
    Raw,
    ArrayOf(Box<ShapeM>),
    SetOf(Box<ShapeM>),
    Unit,
    Named(Seq<FieldM>),
    Positional(Seq<ShapeM>),
    Enum(Seq<VariantM>),
}

/// Ghost form of one named field declaration.
#[verifier::ext_equal]
pub struct FieldM {
    pub name: Seq<char>,
    pub shape: ShapeM,
}

/// Ghost form of one enum variant declaration.
#[verifier::ext_equal]
pub struct VariantM {
    pub name: Seq<char>,
    pub shape: ShapeM,
}

/// Ghost form of a decoded record.
#[verifier::ext_equal]
pub enum RecordM {
    Int(int),
    Str(Seq<char>),
    Raw(ValueM),
    ListOf(Seq<RecordM>),
    SetOf(Seq<RecordM>),
    Unit,
    Named(Seq<FieldRecM>),
    Positional(Seq<RecordM>),
    Variant { name: Seq<char>, payload: Box<RecordM> },
}

/// Ghost form of one decoded named field.
#[verifier::ext_equal]
pub struct FieldRecM {
    pub name: Seq<char>,
    pub value: RecordM,
}

/// Ghost form of a decode failure.
#[verifier::ext_equal]
#[allow(inconsistent_fields)]
pub enum ErrM {
    KindMismatch { expected: Expected, actual: Kind },
    ArityMismatch { expected: int, actual: int },
    MissingField { name: Seq<char> },
    UnknownVariant { name: Seq<char> },
    EmptyEnum,
    AmbiguousDictionary,
}

/// The tag of a dynamic value.
pub open spec fn kind_of_m(v: ValueM) -> Kind {
    match v {
        ValueM::Int(_) => Kind::Int,
        ValueM::Str(_) => Kind::Str,
        ValueM::Arr(_) => Kind::Array,
        ValueM::Dict(_) => Kind::Dict,
        ValueM::SetV(_) => Kind::SetV,
    }
}

/// First entry of `entries` whose key is `key`, if any.
pub open spec fn dict_lookup_m(entries: Seq<EntryM>, key: Seq<char>) -> Option<ValueM>
    decreases entries.len(),
{
    if entries.len() == 0 {
        None
    } else if entries[0].key == key {
        Some(entries[0].val)
    } else {
        dict_lookup_m(entries.drop_first(), key)
    }
}

/// A variant of this shape is encoded as its bare tag string.
pub open spec fn bare_eligible(s: ShapeM) -> bool {
    match s {
        ShapeM::Unit => true,
        ShapeM::Positional(ss) => ss.len() == 0,
        _ => false,
    }
}

/// A variant of this shape is encoded as a single-entry dictionary.
pub open spec fn dict_eligible(s: ShapeM) -> bool {
    match s {
        ShapeM::Named(_) => true,
        ShapeM::Positional(ss) => ss.len() >= 1,
        _ => false,
    }
}

pub open spec fn has_bare(variants: Seq<VariantM>) -> bool {
    exists|i: int| 0 <= i < variants.len() && bare_eligible(#[trigger] variants[i].shape)
}

pub open spec fn has_dict(variants: Seq<VariantM>) -> bool {
    exists|i: int| 0 <= i < variants.len() && dict_eligible(#[trigger] variants[i].shape)
}

/// What a non-empty enum expects of a value that fits none of its rules.
/// An enum whose variants are neither unit-like nor data-carrying can only
/// arise from an ill-formed shape; it keeps the widest expectation.
pub open spec fn enum_expectation(variants: Seq<VariantM>) -> Expected {
    if has_bare(variants) && has_dict(variants) {
        Expected::BareTagOrSingletonDict
    } else if has_dict(variants) {
        Expected::SingletonDict
    } else if has_bare(variants) {
        Expected::BareTag
    } else {
        Expected::BareTagOrSingletonDict
    }
}

/// The record a bare tag constructs for a variant of shape `s`.
pub open spec fn bare_payload(s: ShapeM) -> RecordM {
    if s is Unit {
        RecordM::Unit
    } else {
        RecordM::Positional(Seq::empty())
    }
}

} // verus!

verus! {

/// Structural parse: how a dynamic value decodes against a shape.
///
/// Unit and zero-field shapes accept any value; a one-field positional
/// shape decodes straight from the whole value; everything else checks the
/// value's tag first and fails fast on the first mismatch.
pub open spec fn decode_m(v: ValueM, s: ShapeM) -> Result<RecordM, ErrM>
    decreases s, 1int,
{
    match s {
        ShapeM::Int => match v {
            ValueM::Int(i) => Ok(RecordM::Int(i)),
            _ => Err(ErrM::KindMismatch { expected: Expected::Exactly(Kind::Int), actual: kind_of_m(v) }),
        },
        ShapeM::Str => match v {
            ValueM::Str(t) => Ok(RecordM::Str(t)),
            _ => Err(ErrM::KindMismatch { expected: Expected::Exactly(Kind::Str), actual: kind_of_m(v) }),
        },
        ShapeM::Raw => Ok(RecordM::Raw(v)),
        ShapeM::ArrayOf(t) => match v {
            ValueM::Arr(elems) => match decode_elems_m(elems, *t) {
                Ok(rs) => Ok(RecordM::ListOf(rs)),
                Err(e) => Err(e),
            },
            _ => Err(ErrM::KindMismatch { expected: Expected::Exactly(Kind::Array), actual: kind_of_m(v) }),
        },
        ShapeM::SetOf(t) => match v {
            ValueM::SetV(elems) => match decode_elems_m(elems, *t) {
                Ok(rs) => Ok(RecordM::SetOf(rs)),
                Err(e) => Err(e),
            },
            _ => Err(ErrM::KindMismatch { expected: Expected::Exactly(Kind::SetV), actual: kind_of_m(v) }),
        },
        ShapeM::Unit => Ok(RecordM::Unit),
        ShapeM::Named(fields) => if fields.len() == 0 {
            Ok(RecordM::Named(Seq::empty()))
        } else {
            match v {
                ValueM::Dict(entries) => match decode_fields_m(entries, fields) {
                    Ok(frs) => Ok(RecordM::Named(frs)),
                    Err(e) => Err(e),
                },
                _ => Err(ErrM::KindMismatch { expected: Expected::Exactly(Kind::Dict), actual: kind_of_m(v) }),
            }
        },
        ShapeM::Positional(ss) => if ss.len() == 0 {
            Ok(RecordM::Positional(Seq::empty()))
        } else if ss.len() == 1 {
            match decode_m(v, ss[0]) {
                Ok(r) => Ok(RecordM::Positional(seq![r])),
                Err(e) => Err(e),
            }
        } else {
            match v {
                ValueM::Arr(elems) => if elems.len() == ss.len() {
                    match decode_tuple_m(elems, ss) {
                        Ok(rs) => Ok(RecordM::Positional(rs)),
                        Err(e) => Err(e),
                    }
                } else {
                    Err(ErrM::ArityMismatch { expected: ss.len() as int, actual: elems.len() as int })
                },
                _ => Err(ErrM::KindMismatch { expected: Expected::Exactly(Kind::Array), actual: kind_of_m(v) }),
            }
        },
        ShapeM::Enum(variants) => decode_enum_m(v, variants),
    }
}

/// Decode every element of an array or set value against one element shape.
pub open spec fn decode_elems_m(elems: Seq<ValueM>, t: ShapeM) -> Result<Seq<RecordM>, ErrM>
    decreases t, 2int, elems.len(),
{
    if elems.len() == 0 {
        Ok(Seq::empty())
    } else {
        match decode_m(elems[0], t) {
            Ok(r) => match decode_elems_m(elems.drop_first(), t) {
                Ok(rs) => Ok(seq![r] + rs),
                Err(e) => Err(e),
            },
            Err(e) => Err(e),
        }
    }
}

/// Decode the positions of an array value against a tuple of shapes,
/// position by position. Decoding checks the arity first, so both
/// sequences run out together.
pub open spec fn decode_tuple_m(elems: Seq<ValueM>, ss: Seq<ShapeM>) -> Result<Seq<RecordM>, ErrM>
    decreases ss, 2int,
{
    if ss.len() == 0 {
        Ok(Seq::empty())
    } else if elems.len() == 0 {
        Ok(Seq::empty())
    } else {
        match decode_m(elems[0], ss[0]) {
            Ok(r) => match decode_tuple_m(elems.drop_first(), ss.drop_first()) {
                Ok(rs) => Ok(seq![r] + rs),
                Err(e) => Err(e),
            },
            Err(e) => Err(e),
        }
    }
}

/// Resolve and decode each declared field, in declaration order, from a
/// dictionary's entries. The first missing field or failing field decode
/// is the overall failure.
pub open spec fn decode_fields_m(entries: Seq<EntryM>, fields: Seq<FieldM>) -> Result<Seq<FieldRecM>, ErrM>
    decreases fields, 2int,
{
    if fields.len() == 0 {
        Ok(Seq::empty())
    } else {
        match dict_lookup_m(entries, fields[0].name) {
            None => Err(ErrM::MissingField { name: fields[0].name }),
            Some(w) => match decode_m(w, fields[0].shape) {
                Ok(r) => match decode_fields_m(entries, fields.drop_first()) {
                    Ok(frs) => Ok(seq![FieldRecM { name: fields[0].name, value: r }] + frs),
                    Err(e) => Err(e),
                },
                Err(e) => Err(e),
            },
        }
    }
}

/// Decode a bare tag string against the variant list: the first
/// unit-like variant of that name, if the enum declares one. A tag that
/// picks no variant falls back to the enum's class-level expectation.
pub open spec fn decode_tag_m(name: Seq<char>, variants: Seq<VariantM>) -> Option<RecordM>
    decreases variants, 2int,
{
    if variants.len() == 0 {
        None
    } else if variants[0].name == name && bare_eligible(variants[0].shape) {
        Some(RecordM::Variant { name, payload: Box::new(bare_payload(variants[0].shape)) })
    } else {
        decode_tag_m(name, variants.drop_first())
    }
}

/// Decode a single dictionary entry `key: w` against the variant list: the
/// first variant whose name matches the key must carry data, and `w` then
/// decodes against that variant's own shape.
pub open spec fn decode_keyed_m(w: ValueM, key: Seq<char>, variants: Seq<VariantM>) -> Result<RecordM, ErrM>
    decreases variants, 2int,
{
    if variants.len() == 0 {
        Err(ErrM::UnknownVariant { name: key })
    } else if variants[0].name == key {
        if dict_eligible(variants[0].shape) {
            match decode_m(w, variants[0].shape) {
                Ok(p) => Ok(RecordM::Variant { name: key, payload: Box::new(p) }),
                Err(e) => Err(e),
            }
        } else {
            Err(ErrM::UnknownVariant { name: key })
        }
    } else {
        decode_keyed_m(w, key, variants.drop_first())
    }
}

/// Variant disambiguation: a bare tag string picks a unit-like variant; a
/// single-entry dictionary keyed by a variant's name carries that
/// variant's payload; anything else fails.
pub open spec fn decode_enum_m(v: ValueM, variants: Seq<VariantM>) -> Result<RecordM, ErrM>
    decreases variants, 3int,
{
    if variants.len() == 0 {
        Err(ErrM::EmptyEnum)
    } else {
        match v {
            ValueM::Str(name) => match decode_tag_m(name, variants) {
                Some(r) => Ok(r),
                None => Err(
                    ErrM::KindMismatch { expected: enum_expectation(variants), actual: Kind::Str },
                ),
            },
            ValueM::Dict(entries) => if !has_dict(variants) {
                Err(ErrM::KindMismatch { expected: enum_expectation(variants), actual: Kind::Dict })
            } else if entries.len() != 1 {
                if entries.len() > 1 {
                    Err(ErrM::AmbiguousDictionary)
                } else {
                    Err(ErrM::KindMismatch { expected: enum_expectation(variants), actual: Kind::Dict })
                }
            } else {
                decode_keyed_m(entries[0].val, entries[0].key, variants)
            },
            _ => Err(ErrM::KindMismatch { expected: enum_expectation(variants), actual: kind_of_m(v) }),
        }
    }
}

} // verus!

verus! {

/// A record that a bare tag stands for: the unit record or the empty
/// positional record.
pub open spec fn bare_record(r: RecordM) -> bool {
    match r {
        RecordM::Unit => true,
        RecordM::Positional(rs) => rs.len() == 0,
        _ => false,
    }
}

/// Structural serialize: the dynamic value a record encodes to. The
/// mirror of `decode_m`: named fields build a dictionary in declaration
/// order, two or more positional fields build an array, a single
/// positional field passes through, unit-like records and variants take
/// their conventional forms.
pub open spec fn encode_m(r: RecordM) -> ValueM
    decreases r, 1int,
{
    match r {
        RecordM::Int(i) => ValueM::Int(i),
        RecordM::Str(t) => ValueM::Str(t),
        RecordM::Raw(v) => v,
        RecordM::ListOf(rs) => ValueM::Arr(encode_list_m(rs)),
        RecordM::SetOf(rs) => ValueM::SetV(encode_list_m(rs)),
        RecordM::Unit => ValueM::Dict(Seq::empty()),
        RecordM::Named(frs) => ValueM::Dict(encode_fields_m(frs)),
        RecordM::Positional(rs) => if rs.len() == 1 {
            encode_m(rs[0])
        } else {
            ValueM::Arr(encode_list_m(rs))
        },
        RecordM::Variant { name, payload } => if bare_record(*payload) {
            ValueM::Str(name)
        } else {
            ValueM::Dict(seq![EntryM { key: name, val: encode_m(*payload) }])
        },
    }
}

/// Encode every element of a list or set record.
pub open spec fn encode_list_m(rs: Seq<RecordM>) -> Seq<ValueM>
    decreases rs, 2int,
{
    if rs.len() == 0 {
        Seq::empty()
    } else {
        seq![encode_m(rs[0])] + encode_list_m(rs.drop_first())
    }
}

/// Encode the named fields of a record as dictionary entries, in
/// declaration order.
pub open spec fn encode_fields_m(frs: Seq<FieldRecM>) -> Seq<EntryM>
    decreases frs, 2int,
{
    if frs.len() == 0 {
        Seq::empty()
    } else {
        seq![EntryM { key: frs[0].name, val: encode_m(frs[0].value) }] + encode_fields_m(frs.drop_first())
    }
}

/// A well-formed shape: field names unique per named shape, variant names
/// unique per enum, and every variant's shape itself unit, named or
/// positional.
pub open spec fn wf_shape(s: ShapeM) -> bool
    decreases s, 1int,
{
    match s {
        ShapeM::Int => true,
        ShapeM::Str => true,
        ShapeM::Raw => true,
        ShapeM::ArrayOf(t) => wf_shape(*t),
        ShapeM::SetOf(t) => wf_shape(*t),
        ShapeM::Unit => true,
        ShapeM::Named(fields) => {
            &&& forall|i: int, j: int| 0 <= i < j < fields.len() ==> (#[trigger] fields[i]).name != (#[trigger] fields[j]).name
            &&& wf_fields(fields)
        },
        ShapeM::Positional(ss) => wf_shapes(ss),
        ShapeM::Enum(variants) => {
            &&& forall|i: int, j: int| 0 <= i < j < variants.len() ==> (#[trigger] variants[i]).name != (#[trigger] variants[j]).name
            &&& wf_variants(variants)
        },
    }
}

pub open spec fn wf_fields(fields: Seq<FieldM>) -> bool
    decreases fields, 2int,
{
    if fields.len() == 0 {
        true
    } else {
        wf_shape(fields[0].shape) && wf_fields(fields.drop_first())
    }
}

pub open spec fn wf_shapes(ss: Seq<ShapeM>) -> bool
    decreases ss, 2int,
{
    if ss.len() == 0 {
        true
    } else {
        wf_shape(ss[0]) && wf_shapes(ss.drop_first())
    }
}

/// A variant's payload shape must itself be a record shape: unit, named
/// fields or positional fields.
pub open spec fn variant_shape_ok(s: ShapeM) -> bool {
    match s {
        ShapeM::Unit => true,
        ShapeM::Named(_) => true,
        ShapeM::Positional(_) => true,
        _ => false,
    }
}

pub open spec fn wf_variants(variants: Seq<VariantM>) -> bool
    decreases variants, 2int,
{
    if variants.len() == 0 {
        true
    } else {
        variant_shape_ok(variants[0].shape) && wf_shape(variants[0].shape)
            && wf_variants(variants.drop_first())
    }
}

/// A record is well-formed for a shape when its structure follows the
/// shape field for field, position for position, and its variant names
/// are declared.
pub open spec fn wf_record(r: RecordM, s: ShapeM) -> bool
    decreases r, 1int, 0int,
{
    match r {
        RecordM::Int(_) => s is Int,
        RecordM::Str(_) => s is Str,
        RecordM::Raw(_) => s is Raw,
        RecordM::ListOf(rs) => match s {
            ShapeM::ArrayOf(t) => wf_list(rs, *t),
            _ => false,
        },
        RecordM::SetOf(rs) => match s {
            ShapeM::SetOf(t) => wf_list(rs, *t),
            _ => false,
        },
        RecordM::Unit => s is Unit,
        RecordM::Named(frs) => match s {
            ShapeM::Named(fields) => frs.len() == fields.len() && wf_named(frs, fields),
            _ => false,
        },
        RecordM::Positional(rs) => match s {
            ShapeM::Positional(ss) => rs.len() == ss.len() && wf_tuple(rs, ss),
            _ => false,
        },
        RecordM::Variant { name, payload } => match s {
            ShapeM::Enum(variants) => wf_variant_rec(*payload, name, variants),
            _ => false,
        },
    }
}

pub open spec fn wf_list(rs: Seq<RecordM>, t: ShapeM) -> bool
    decreases rs, 2int,
{
    if rs.len() == 0 {
        true
    } else {
        wf_record(rs[0], t) && wf_list(rs.drop_first(), t)
    }
}

pub open spec fn wf_named(frs: Seq<FieldRecM>, fields: Seq<FieldM>) -> bool
    decreases frs, 2int,
{
    if frs.len() == 0 || fields.len() == 0 {
        true
    } else {
        frs[0].name == fields[0].name && wf_record(frs[0].value, fields[0].shape)
            && wf_named(frs.drop_first(), fields.drop_first())
    }
}

pub open spec fn wf_tuple(rs: Seq<RecordM>, ss: Seq<ShapeM>) -> bool
    decreases rs, 2int,
{
    if rs.len() == 0 || ss.len() == 0 {
        true
    } else {
        wf_record(rs[0], ss[0]) && wf_tuple(rs.drop_first(), ss.drop_first())
    }
}

/// The variant payload `p` under name `name` follows the first declared
/// variant of that name.
pub open spec fn wf_variant_rec(p: RecordM, name: Seq<char>, variants: Seq<VariantM>) -> bool
    decreases p, 2int, variants.len(),
{
    if variants.len() == 0 {
        false
    } else if variants[0].name == name {
        wf_record(p, variants[0].shape)
    } else {
        wf_variant_rec(p, name, variants.drop_first())
    }
}

} // verus!

verus! {

pub broadcast proof fn lemma_encode_list_m(rs: Seq<RecordM>)
    ensures
        (#[trigger] encode_list_m(rs)).len() == rs.len(),
        forall|i: int| 0 <= i < rs.len() ==> encode_list_m(rs)[i] == encode_m(rs[i]),
    decreases rs.len(),
{
    if rs.len() > 0 {
        lemma_encode_list_m(rs.drop_first());
    }
}

pub broadcast proof fn lemma_encode_fields_m(frs: Seq<FieldRecM>)
    ensures
        (#[trigger] encode_fields_m(frs)).len() == frs.len(),
        forall|i: int| 0 <= i < frs.len() ==> encode_fields_m(frs)[i] == (EntryM {
            key: frs[i].name,
            val: encode_m(frs[i].value),
        }),
    decreases frs.len(),
{
    if frs.len() > 0 {
        lemma_encode_fields_m(frs.drop_first());
    }
}

} // verus!
