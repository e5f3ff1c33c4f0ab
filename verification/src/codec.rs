//! The codec itself: `decode` parses a dynamic value against a shape,
//! `encode` serializes a record back to a dynamic value. Contracts state
//! exactly the mathematical decode/encode of the model module.
use vstd::prelude::*;
use crate::error::{DecodeError, Expected};
use crate::model::{RecordM, ErrM, EntryM, FieldRecM, ValueM, FieldM, VariantM,
    encode_m, encode_list_m, encode_fields_m, lemma_encode_list_m, lemma_encode_fields_m,
    bare_record, bare_payload, bare_eligible, dict_eligible, has_bare, has_dict,
    enum_expectation, dict_lookup_m,
    decode_m, decode_elems_m, decode_tuple_m, decode_fields_m, decode_enum_m,
    decode_tag_m, decode_keyed_m};
use crate::record::{Record, FieldRec, record_model, records_model, field_recs_model,
    lemma_records_model, lemma_field_recs_model};
use crate::shape::{Shape, Field, Variant, shape_model, shapes_model, fields_model,
    variants_model, lemma_shapes_model, lemma_fields_model, lemma_variants_model};
use crate::value::{Value, Entry, Kind, value_model, values_model, entries_model,
    lemma_values_model, lemma_entries_model};

verus! {

broadcast use
    lemma_values_model,
    lemma_entries_model,
    lemma_shapes_model,
    lemma_fields_model,
    lemma_variants_model,
    lemma_records_model,
    lemma_field_recs_model,
    lemma_encode_list_m,
    lemma_encode_fields_m;

/// The model of a decode outcome.
pub open spec fn decoded(res: Result<Record, DecodeError>) -> Result<RecordM, ErrM> {
    match res {
        Ok(r) => Ok(r@),
        Err(e) => Err(e@),
    }
}

spec fn decoded_list(res: Result<Vec<Record>, DecodeError>) -> Result<Seq<RecordM>, ErrM> {
    match res {
        Ok(rs) => Ok(records_model(rs@)),
        Err(e) => Err(e@),
    }
}

spec fn decoded_fields(res: Result<Vec<FieldRec>, DecodeError>) -> Result<Seq<FieldRecM>, ErrM> {
    match res {
        Ok(frs) => Ok(field_recs_model(frs@)),
        Err(e) => Err(e@),
    }
}

/// Structural serialize: the mirror of `decode`. Total: every record
/// encodes to exactly the value `encode_m` gives of its model.
pub fn encode(r: &Record) -> (v: Value)
    ensures
        v@ == encode_m(r@),
    decreases *r, 1int,
{
    match r {
        Record::Int(i) => Value::Int(*i),
        Record::Str(t) => Value::Str(t.clone()),
        Record::Raw(w) => w.duplicate(),
        Record::ListOf(rs) => Value::Array(encode_list(rs)),
        Record::SetOf(rs) => Value::SetV(encode_list(rs)),
        Record::Unit => Value::Dict(Vec::new()),
        Record::Named(frs) => Value::Dict(encode_fields(frs)),
        Record::Positional(rs) => {
            proof {
                lemma_records_model(rs@);
            }
            if rs.len() == 1 {
                encode(&rs[0])
            } else {
                Value::Array(encode_list(rs))
            }
        },
        Record::Variant { name, payload } => {
            if is_bare_record(payload) {
                Value::Str(name.clone())
            } else {
                let e = Entry { key: name.clone(), val: encode(&**payload) };
                let ghost em = e@;
                let mut entries: Vec<Entry> = Vec::new();
                entries.push(e);
                proof {
                    assert(entries_model(entries@) =~= seq![em]);
                }
                Value::Dict(entries)
            }
        },
    }
}

/// Whether this record is what a bare enum tag stands for.
fn is_bare_record(r: &Record) -> (b: bool)
    ensures
        b == bare_record(r@),
{
    match r {
        Record::Unit => true,
        Record::Positional(rs) => {
            proof {
                lemma_records_model(rs@);
            }
            rs.len() == 0
        },
        _ => false,
    }
}

fn encode_list(rs: &Vec<Record>) -> (out: Vec<Value>)
    ensures
        values_model(out@) == encode_list_m(records_model(rs@)),
    decreases rs@, 2int,
{
    let mut out: Vec<Value> = Vec::new();
    for i in 0..rs.len()
        invariant
            out@.len() == i,
            forall|j: int| 0 <= j < i ==> value_model(#[trigger] out@[j]) == encode_m(
                record_model(rs@[j]),
            ),
    {
        out.push(encode(&rs[i]));
    }
    proof {
        assert(values_model(out@) =~= encode_list_m(records_model(rs@)));
    }
    out
}

fn encode_fields(frs: &Vec<FieldRec>) -> (out: Vec<Entry>)
    ensures
        entries_model(out@) == encode_fields_m(field_recs_model(frs@)),
    decreases frs@, 2int,
{
    let mut out: Vec<Entry> = Vec::new();
    for i in 0..frs.len()
        invariant
            out@.len() == i,
            forall|j: int| 0 <= j < i ==> #[trigger] out@[j]@ == (EntryM {
                key: frs@[j].name@,
                val: encode_m(record_model(frs@[j].value)),
            }),
    {
        let f = &frs[i];
        out.push(Entry { key: f.name.clone(), val: encode(&f.value) });
    }
    proof {
        assert forall|j: int| 0 <= j < frs@.len() implies entries_model(out@)[j]
            == encode_fields_m(field_recs_model(frs@))[j] by {
            assert(out@[j]@ == (EntryM {
                key: frs@[j].name@,
                val: encode_m(record_model(frs@[j].value)),
            }));
        }
        assert(entries_model(out@) =~= encode_fields_m(field_recs_model(frs@)));
    }
    out
}

} // verus!

verus! {

spec fn prepend_list(pre: Seq<RecordM>, rest: Result<Seq<RecordM>, ErrM>) -> Result<
    Seq<RecordM>,
    ErrM,
> {
    match rest {
        Ok(rs) => Ok(pre + rs),
        Err(e) => Err(e),
    }
}

spec fn prepend_fields(pre: Seq<FieldRecM>, rest: Result<Seq<FieldRecM>, ErrM>) -> Result<
    Seq<FieldRecM>,
    ErrM,
> {
    match rest {
        Ok(frs) => Ok(pre + frs),
        Err(e) => Err(e),
    }
}

proof fn lemma_prepend_list_empty(rest: Result<Seq<RecordM>, ErrM>)
    ensures
        prepend_list(Seq::empty(), rest) == rest,
{
    match rest {
        Ok(rs) => {
            assert(Seq::empty() + rs =~= rs);
        },
        Err(_) => {},
    }
}

proof fn lemma_prepend_list_push(pre: Seq<RecordM>, r: RecordM, rest: Result<Seq<RecordM>, ErrM>)
    ensures
        prepend_list(pre, prepend_list(seq![r], rest)) == prepend_list(pre.push(r), rest),
{
    match rest {
        Ok(rs) => {
            assert(pre + (seq![r] + rs) =~= pre.push(r) + rs);
        },
        Err(_) => {},
    }
}

proof fn lemma_prepend_fields_empty(rest: Result<Seq<FieldRecM>, ErrM>)
    ensures
        prepend_fields(Seq::empty(), rest) == rest,
{
    match rest {
        Ok(frs) => {
            assert(Seq::empty() + frs =~= frs);
        },
        Err(_) => {},
    }
}

proof fn lemma_prepend_fields_push(
    pre: Seq<FieldRecM>,
    f: FieldRecM,
    rest: Result<Seq<FieldRecM>, ErrM>,
)
    ensures
        prepend_fields(pre, prepend_fields(seq![f], rest)) == prepend_fields(pre.push(f), rest),
{
    match rest {
        Ok(frs) => {
            assert(pre + (seq![f] + frs) =~= pre.push(f) + frs);
        },
        Err(_) => {},
    }
}

/// Resolve one named field: the first entry whose key matches, if any.
/// `None` stands for the "missing field" failure.
pub fn resolve_named<'a>(entries: &'a Vec<Entry>, key: &String) -> (res: Option<&'a Value>)
    ensures
        match res {
            Some(w) => dict_lookup_m(entries_model(entries@), key@) == Some(w@),
            None => dict_lookup_m(entries_model(entries@), key@) is None,
        },
{
    proof {
        lemma_entries_model(entries@);
    }
    let ghost em = entries_model(entries@);
    proof {
        assert(em.skip(0) =~= em);
    }
    for i in 0..entries.len()
        invariant
            dict_lookup_m(em, key@) == dict_lookup_m(em.skip(i as int), key@),
            em == entries_model(entries@),
            em.len() == entries@.len(),
            forall|j: int| 0 <= j < entries@.len() ==> em[j] == (EntryM {
                key: entries@[j].key@,
                val: value_model(entries@[j].val),
            }),
    {
        proof {
            assert(em.skip(i as int)[0] == em[i as int]);
        }
        if entries[i].key == *key {
            return Some(&entries[i].val);
        }
        proof {
            assert(em.skip(i as int).drop_first() =~= em.skip(i + 1int));
        }
    }
    proof {
        assert(em.skip(entries@.len() as int) =~= Seq::<EntryM>::empty());
    }
    None
}

} // verus!

verus! {

/// Resolve one positional field: the element at `index`, if the array is
/// long enough. `None` stands for the "index out of bounds" failure,
/// reachable only when arity was not checked first.
pub fn resolve_positional<'a>(elems: &'a Vec<Value>, index: usize) -> (res: Option<&'a Value>)
    ensures
        index < elems@.len() ==> (res matches Some(w) && w@ == value_model(elems@[index as int])),
        index >= elems@.len() ==> res is None,
{
    if index < elems.len() {
        Some(&elems[index])
    } else {
        None
    }
}

fn decode_elems(elems: &Vec<Value>, t: &Shape) -> (res: Result<Vec<Record>, DecodeError>)
    ensures
        decoded_list(res) == decode_elems_m(values_model(elems@), t@),
    decreases *t, 2int,
{
    let ghost vm = values_model(elems@);
    let ghost tm = t@;
    proof {
        lemma_values_model(elems@);
        assert(vm.skip(0) =~= vm);
        lemma_prepend_list_empty(decode_elems_m(vm, tm));
    }
    let mut out: Vec<Record> = Vec::new();
    for i in 0..elems.len()
        invariant
            out@.len() == i,
            vm == values_model(elems@),
            tm == t@,
            vm.len() == elems@.len(),
            forall|j: int| 0 <= j < elems@.len() ==> vm[j] == value_model(#[trigger] elems@[j]),
            decode_elems_m(vm, tm) == prepend_list(
                records_model(out@),
                decode_elems_m(vm.skip(i as int), tm),
            ),
    {
        proof {
            assert(vm.skip(i as int)[0] == vm[i as int]);
            assert(vm.skip(i as int).drop_first() =~= vm.skip(i + 1int));
        }
        match decode(&elems[i], t) {
            Ok(r) => {
                proof {
                    lemma_records_model(out@);
                    lemma_records_model(out@.push(r));
                    assert(records_model(out@.push(r)) =~= records_model(out@).push(r@));
                    lemma_prepend_list_push(
                        records_model(out@),
                        r@,
                        decode_elems_m(vm.skip(i + 1int), tm),
                    );
                }
                out.push(r);
            },
            Err(e) => {
                return Err(e);
            },
        }
    }
    proof {
        assert(vm.skip(elems@.len() as int) =~= Seq::<ValueM>::empty());
        assert(records_model(out@) + Seq::<RecordM>::empty() =~= records_model(out@));
    }
    Ok(out)
}

fn decode_tuple(elems: &Vec<Value>, ss: &Vec<Shape>) -> (res: Result<Vec<Record>, DecodeError>)
    requires
        elems@.len() == ss@.len(),
    ensures
        decoded_list(res) == decode_tuple_m(values_model(elems@), shapes_model(ss@)),
    decreases ss@, 2int,
{
    let ghost vm = values_model(elems@);
    let ghost sm = shapes_model(ss@);
    proof {
        lemma_values_model(elems@);
        lemma_shapes_model(ss@);
        assert(vm.skip(0) =~= vm);
        assert(sm.skip(0) =~= sm);
        lemma_prepend_list_empty(decode_tuple_m(vm, sm));
    }
    let mut out: Vec<Record> = Vec::new();
    for i in 0..elems.len()
        invariant
            out@.len() == i,
            elems@.len() == ss@.len(),
            vm == values_model(elems@),
            sm == shapes_model(ss@),
            vm.len() == elems@.len(),
            sm.len() == ss@.len(),
            forall|j: int| 0 <= j < elems@.len() ==> vm[j] == value_model(#[trigger] elems@[j]),
            forall|j: int| 0 <= j < ss@.len() ==> sm[j] == shape_model(#[trigger] ss@[j]),
            decode_tuple_m(vm, sm) == prepend_list(
                records_model(out@),
                decode_tuple_m(vm.skip(i as int), sm.skip(i as int)),
            ),
    {
        proof {
            assert(vm.skip(i as int)[0] == vm[i as int]);
            assert(sm.skip(i as int)[0] == sm[i as int]);
            assert(vm.skip(i as int).drop_first() =~= vm.skip(i + 1int));
            assert(sm.skip(i as int).drop_first() =~= sm.skip(i + 1int));
        }
        match decode(&elems[i], &ss[i]) {
            Ok(r) => {
                proof {
                    lemma_records_model(out@);
                    lemma_records_model(out@.push(r));
                    assert(records_model(out@.push(r)) =~= records_model(out@).push(r@));
                    lemma_prepend_list_push(
                        records_model(out@),
                        r@,
                        decode_tuple_m(vm.skip(i + 1int), sm.skip(i + 1int)),
                    );
                }
                out.push(r);
            },
            Err(e) => {
                return Err(e);
            },
        }
    }
    proof {
        assert(vm.skip(elems@.len() as int) =~= Seq::<ValueM>::empty());
        assert(records_model(out@) + Seq::<RecordM>::empty() =~= records_model(out@));
    }
    Ok(out)
}

fn decode_fields(entries: &Vec<Entry>, fields: &Vec<Field>) -> (res: Result<
    Vec<FieldRec>,
    DecodeError,
>)
    ensures
        decoded_fields(res) == decode_fields_m(entries_model(entries@), fields_model(fields@)),
    decreases fields@, 2int,
{
    let ghost em = entries_model(entries@);
    let ghost fm = fields_model(fields@);
    proof {
        lemma_fields_model(fields@);
        assert(fm.skip(0) =~= fm);
        lemma_prepend_fields_empty(decode_fields_m(em, fm));
    }
    let mut out: Vec<FieldRec> = Vec::new();
    for i in 0..fields.len()
        invariant
            out@.len() == i,
            em == entries_model(entries@),
            fm == fields_model(fields@),
            fm.len() == fields@.len(),
            forall|j: int| 0 <= j < fields@.len() ==> fm[j] == (FieldM {
                name: (#[trigger] fields@[j]).name@,
                shape: shape_model(fields@[j].shape),
            }),
            decode_fields_m(em, fm) == prepend_fields(
                field_recs_model(out@),
                decode_fields_m(em, fm.skip(i as int)),
            ),
    {
        proof {
            assert(fm.skip(i as int)[0] == fm[i as int]);
            assert(fm.skip(i as int).drop_first() =~= fm.skip(i + 1int));
        }
        let f = &fields[i];
        match resolve_named(entries, &f.name) {
            None => {
                return Err(DecodeError::MissingField { name: f.name.clone() });
            },
            Some(w) => match decode(w, &f.shape) {
                Ok(r) => {
                    let fr = FieldRec { name: f.name.clone(), value: r };
                    let ghost frm = fr@;
                    proof {
                        lemma_field_recs_model(out@);
                        lemma_field_recs_model(out@.push(fr));
                        assert(field_recs_model(out@.push(fr)) =~= field_recs_model(
                            out@,
                        ).push(frm));
                        lemma_prepend_fields_push(
                            field_recs_model(out@),
                            frm,
                            decode_fields_m(em, fm.skip(i + 1int)),
                        );
                    }
                    out.push(fr);
                },
                Err(e) => {
                    return Err(e);
                },
            },
        }
    }
    proof {
        assert(fm.skip(fields@.len() as int) =~= Seq::<FieldM>::empty());
        assert(field_recs_model(out@) + Seq::<FieldRecM>::empty() =~= field_recs_model(out@));
    }
    Ok(out)
}

} // verus!

verus! {

/// Whether a variant of this shape is taken by a bare tag string.
fn shape_is_bare(s: &Shape) -> (b: bool)
    ensures
        b == bare_eligible(s@),
{
    match s {
        Shape::Unit => true,
        Shape::Positional(ss) => {
            proof {
                lemma_shapes_model(ss@);
            }
            ss.len() == 0
        },
        _ => false,
    }
}

/// Whether a variant of this shape is taken by a single-entry dictionary.
fn shape_is_dict(s: &Shape) -> (b: bool)
    ensures
        b == dict_eligible(s@),
{
    match s {
        Shape::Named(_) => true,
        Shape::Positional(ss) => {
            proof {
                lemma_shapes_model(ss@);
            }
            ss.len() >= 1
        },
        _ => false,
    }
}

fn variants_have_bare(variants: &Vec<Variant>) -> (b: bool)
    ensures
        b == has_bare(variants_model(variants@)),
{
    let ghost wm = variants_model(variants@);
    proof {
        lemma_variants_model(variants@);
    }
    for i in 0..variants.len()
        invariant
            wm == variants_model(variants@),
            wm.len() == variants@.len(),
            forall|j: int| 0 <= j < variants@.len() ==> wm[j] == (VariantM {
                name: (#[trigger] variants@[j]).name@,
                shape: shape_model(variants@[j].shape),
            }),
            forall|j: int| 0 <= j < i ==> !bare_eligible((#[trigger] wm[j]).shape),
    {
        if shape_is_bare(&variants[i].shape) {
            proof {
                assert(bare_eligible(wm[i as int].shape));
            }
            return true;
        }
    }
    false
}

fn variants_have_dict(variants: &Vec<Variant>) -> (b: bool)
    ensures
        b == has_dict(variants_model(variants@)),
{
    let ghost wm = variants_model(variants@);
    proof {
        lemma_variants_model(variants@);
    }
    for i in 0..variants.len()
        invariant
            wm == variants_model(variants@),
            wm.len() == variants@.len(),
            forall|j: int| 0 <= j < variants@.len() ==> wm[j] == (VariantM {
                name: (#[trigger] variants@[j]).name@,
                shape: shape_model(variants@[j].shape),
            }),
            forall|j: int| 0 <= j < i ==> !dict_eligible((#[trigger] wm[j]).shape),
    {
        if shape_is_dict(&variants[i].shape) {
            proof {
                assert(dict_eligible(wm[i as int].shape));
            }
            return true;
        }
    }
    false
}

/// What this enum would have expected of an input that fits no rule.
fn enum_expected(variants: &Vec<Variant>) -> (e: Expected)
    ensures
        e == enum_expectation(variants_model(variants@)),
{
    let bare = variants_have_bare(variants);
    let dict = variants_have_dict(variants);
    if bare && dict {
        Expected::BareTagOrSingletonDict
    } else if dict {
        Expected::SingletonDict
    } else if bare {
        Expected::BareTag
    } else {
        Expected::BareTagOrSingletonDict
    }
}

/// The record a bare tag constructs for a variant of shape `s`.
fn bare_record_of(s: &Shape) -> (r: Record)
    ensures
        r@ == bare_payload(s@),
{
    match s {
        Shape::Unit => Record::Unit,
        _ => {
            let out: Vec<Record> = Vec::new();
            proof {
                assert(records_model(out@) =~= Seq::<RecordM>::empty());
            }
            Record::Positional(out)
        },
    }
}

/// Variant disambiguation: a bare tag string picks a unit-like variant; a
/// single-entry dictionary keyed by a variant's name carries that
/// variant's payload.
#[verifier::loop_isolation(false)]
fn decode_enum(v: &Value, variants: &Vec<Variant>) -> (res: Result<Record, DecodeError>)
    ensures
        decoded(res) == decode_enum_m(v@, variants_model(variants@)),
    decreases variants@, 2int,
{
    let ghost wm = variants_model(variants@);
    proof {
        lemma_variants_model(variants@);
    }
    if variants.len() == 0 {
        return Err(DecodeError::EmptyEnum);
    }
    match v {
        Value::Str(name) => {
            proof {
                assert(wm.skip(0) =~= wm);
            }
            for i in 0..variants.len()
                invariant
                    wm == variants_model(variants@),
                    wm.len() == variants@.len(),
                    forall|j: int| 0 <= j < variants@.len() ==> wm[j] == (VariantM {
                        name: (#[trigger] variants@[j]).name@,
                        shape: shape_model(variants@[j].shape),
                    }),
                    decode_tag_m(name@, wm) == decode_tag_m(name@, wm.skip(i as int)),
            {
                proof {
                    assert(wm.skip(i as int)[0] == wm[i as int]);
                    assert(wm.skip(i as int).drop_first() =~= wm.skip(i + 1int));
                }
                if variants[i].name == *name {
                    if shape_is_bare(&variants[i].shape) {
                        let payload = bare_record_of(&variants[i].shape);
                        return Ok(
                            Record::Variant { name: name.clone(), payload: Box::new(payload) },
                        );
                    }
                }
            }
            proof {
                assert(wm.skip(variants@.len() as int) =~= Seq::<VariantM>::empty());
            }
            Err(
                DecodeError::KindMismatch { expected: enum_expected(variants), actual: Kind::Str },
            )
        },
        Value::Dict(entries) => {
            proof {
                lemma_entries_model(entries@);
            }
            if !variants_have_dict(variants) {
                return Err(
                    DecodeError::KindMismatch {
                        expected: enum_expected(variants),
                        actual: Kind::Dict,
                    },
                );
            }
            if entries.len() > 1 {
                return Err(DecodeError::AmbiguousDictionary);
            }
            if entries.len() == 0 {
                return Err(
                    DecodeError::KindMismatch {
                        expected: enum_expected(variants),
                        actual: Kind::Dict,
                    },
                );
            }
            proof {
                assert(wm.skip(0) =~= wm);
            }
            let key = &entries[0].key;
            let w = &entries[0].val;
            for i in 0..variants.len()
                invariant
                    wm == variants_model(variants@),
                    wm.len() == variants@.len(),
                    entries@.len() == 1,
                    key == &entries@[0].key,
                    w == &entries@[0].val,
                    forall|j: int| 0 <= j < variants@.len() ==> wm[j] == (VariantM {
                        name: (#[trigger] variants@[j]).name@,
                        shape: shape_model(variants@[j].shape),
                    }),
                    decode_keyed_m(w@, key@, wm) == decode_keyed_m(w@, key@, wm.skip(i as int)),
            {
                proof {
                    assert(wm.skip(i as int)[0] == wm[i as int]);
                    assert(wm.skip(i as int).drop_first() =~= wm.skip(i + 1int));
                }
                if variants[i].name == *key {
                    if shape_is_dict(&variants[i].shape) {
                        match decode(w, &variants[i].shape) {
                            Ok(p) => {
                                return Ok(
                                    Record::Variant {
                                        name: key.clone(),
                                        payload: Box::new(p),
                                    },
                                );
                            },
                            Err(e) => {
                                return Err(e);
                            },
                        }
                    } else {
                        return Err(DecodeError::UnknownVariant { name: key.clone() });
                    }
                }
            }
            proof {
                assert(wm.skip(variants@.len() as int) =~= Seq::<VariantM>::empty());
            }
            Err(DecodeError::UnknownVariant { name: key.clone() })
        },
        _ => Err(
            DecodeError::KindMismatch { expected: enum_expected(variants), actual: v.kind() },
        ),
    }
}

/// Structural parse: decode the dynamic value `v` against the shape `s`.
///
/// The result is exactly what the model's decode gives: the decoded
/// record on success, and on failure the innermost failing rule's error,
/// unchanged.
pub fn decode(v: &Value, s: &Shape) -> (res: Result<Record, DecodeError>)
    ensures
        decoded(res) == decode_m(v@, s@),
    decreases *s, 1int,
{
    match s {
        Shape::Int => match v {
            Value::Int(i) => Ok(Record::Int(*i)),
            _ => Err(
                DecodeError::KindMismatch {
                    expected: Expected::Exactly(Kind::Int),
                    actual: v.kind(),
                },
            ),
        },
        Shape::Str => match v {
            Value::Str(t) => Ok(Record::Str(t.clone())),
            _ => Err(
                DecodeError::KindMismatch {
                    expected: Expected::Exactly(Kind::Str),
                    actual: v.kind(),
                },
            ),
        },
        Shape::Raw => Ok(Record::Raw(v.duplicate())),
        Shape::ArrayOf(t) => match v {
            Value::Array(elems) => match decode_elems(elems, t) {
                Ok(rs) => Ok(Record::ListOf(rs)),
                Err(e) => Err(e),
            },
            _ => Err(
                DecodeError::KindMismatch {
                    expected: Expected::Exactly(Kind::Array),
                    actual: v.kind(),
                },
            ),
        },
        Shape::SetOf(t) => match v {
            Value::SetV(elems) => match decode_elems(elems, t) {
                Ok(rs) => Ok(Record::SetOf(rs)),
                Err(e) => Err(e),
            },
            _ => Err(
                DecodeError::KindMismatch {
                    expected: Expected::Exactly(Kind::SetV),
                    actual: v.kind(),
                },
            ),
        },
        Shape::Unit => Ok(Record::Unit),
        Shape::Named(fields) => {
            proof {
                lemma_fields_model(fields@);
            }
            if fields.len() == 0 {
                let out: Vec<FieldRec> = Vec::new();
                proof {
                    assert(field_recs_model(out@) =~= Seq::<FieldRecM>::empty());
                }
                Ok(Record::Named(out))
            } else {
                match v {
                    Value::Dict(entries) => match decode_fields(entries, fields) {
                        Ok(frs) => Ok(Record::Named(frs)),
                        Err(e) => Err(e),
                    },
                    _ => Err(
                        DecodeError::KindMismatch {
                            expected: Expected::Exactly(Kind::Dict),
                            actual: v.kind(),
                        },
                    ),
                }
            }
        },
        Shape::Positional(ss) => {
            proof {
                lemma_shapes_model(ss@);
            }
            if ss.len() == 0 {
                let out: Vec<Record> = Vec::new();
                proof {
                    assert(records_model(out@) =~= Seq::<RecordM>::empty());
                }
                Ok(Record::Positional(out))
            } else if ss.len() == 1 {
                match decode(v, &ss[0]) {
                    Ok(r) => {
                        let ghost rm = r@;
                        let mut out: Vec<Record> = Vec::new();
                        out.push(r);
                        proof {
                            assert(records_model(out@) =~= seq![rm]);
                        }
                        Ok(Record::Positional(out))
                    },
                    Err(e) => Err(e),
                }
            } else {
                match v {
                    Value::Array(elems) => {
                        proof {
                            lemma_values_model(elems@);
                        }
                        if elems.len() == ss.len() {
                            match decode_tuple(elems, ss) {
                                Ok(rs) => Ok(Record::Positional(rs)),
                                Err(e) => Err(e),
                            }
                        } else {
                            Err(
                                DecodeError::ArityMismatch {
                                    expected: ss.len(),
                                    actual: elems.len(),
                                },
                            )
                        }
                    },
                    _ => Err(
                        DecodeError::KindMismatch {
                            expected: Expected::Exactly(Kind::Array),
                            actual: v.kind(),
                        },
                    ),
                }
            }
        },
        Shape::Enum(variants) => decode_enum(v, variants),
    }
}

} // verus!
