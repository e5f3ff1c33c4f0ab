//! The codec's laws, proved over the model: permissive zero-field shapes,
//! the exact arity failure, newtype passthrough, the empty enum's
//! permanent failure, and the decode/encode round trip.
use vstd::prelude::*;
use crate::model::{ValueM, EntryM, ShapeM, FieldM, VariantM, RecordM, FieldRecM, ErrM,
    decode_m, decode_elems_m, decode_tuple_m, decode_fields_m, decode_enum_m, decode_tag_m,
    decode_keyed_m, dict_lookup_m, encode_m, encode_list_m, encode_fields_m,
    lemma_encode_list_m, lemma_encode_fields_m, bare_record, bare_eligible, dict_eligible,
    bare_payload, has_dict, wf_shape, wf_fields, wf_shapes, wf_variants, wf_record,
    wf_list, wf_named, wf_tuple, wf_variant_rec, variant_shape_ok};

verus! {

/// Permissiveness: a unit shape, an empty named-fields shape and an empty
/// positional-fields shape each decode successfully from every input
/// value, discarding it.
pub proof fn lemma_permissiveness(v: ValueM, s: ShapeM)
    requires
        (s is Unit) || (s matches ShapeM::Named(fields) && fields.len() == 0) || (s
            matches ShapeM::Positional(ss) && ss.len() == 0),
    ensures
        decode_m(v, s) is Ok,
{
}

/// Arity: a positional shape of declared arity two or more, decoding an
/// array of any other length, fails with exactly that arity mismatch,
/// whatever the elements hold.
pub proof fn lemma_arity_mismatch(elems: Seq<ValueM>, ss: Seq<ShapeM>)
    requires
        ss.len() >= 2,
        elems.len() != ss.len(),
    ensures
        decode_m(ValueM::Arr(elems), ShapeM::Positional(ss)) == Err::<RecordM, ErrM>(
            ErrM::ArityMismatch { expected: ss.len() as int, actual: elems.len() as int },
        ),
{
}

/// Newtype passthrough: a positional shape of arity one decodes the whole
/// input value directly against its single field's shape, wrapped in the
/// one-field record; no array is expected.
pub proof fn lemma_newtype_passthrough(v: ValueM, s: ShapeM)
    ensures
        decode_m(v, ShapeM::Positional(seq![s])) == (match decode_m(v, s) {
            Ok(r) => Ok::<RecordM, ErrM>(RecordM::Positional(seq![r])),
            Err(e) => Err::<RecordM, ErrM>(e),
        }),
{
}

/// Empty enum: an enum that declares no variants refuses every input
/// value with the same permanent failure.
pub proof fn lemma_empty_enum(v: ValueM, variants: Seq<VariantM>)
    requires
        variants.len() == 0,
    ensures
        decode_m(v, ShapeM::Enum(variants)) == Err::<RecordM, ErrM>(ErrM::EmptyEnum),
{
    assert(decode_m(v, ShapeM::Enum(variants)) == decode_enum_m(v, variants));
    assert(decode_enum_m(v, variants) == Err::<RecordM, ErrM>(ErrM::EmptyEnum));
}

} // verus!

verus! {

proof fn lemma_wf_fields_index(fields: Seq<FieldM>)
    requires
        wf_fields(fields),
    ensures
        forall|j: int| 0 <= j < fields.len() ==> wf_shape((#[trigger] fields[j]).shape),
    decreases fields.len(),
{
    if fields.len() > 0 {
        lemma_wf_fields_index(fields.drop_first());
        assert forall|j: int| 0 <= j < fields.len() implies wf_shape(
            (#[trigger] fields[j]).shape,
        ) by {
            if j > 0 {
                assert(fields.drop_first()[j - 1] == fields[j]);
            }
        }
    }
}

proof fn lemma_wf_shapes_index(ss: Seq<ShapeM>)
    requires
        wf_shapes(ss),
    ensures
        forall|j: int| 0 <= j < ss.len() ==> wf_shape(#[trigger] ss[j]),
    decreases ss.len(),
{
    if ss.len() > 0 {
        lemma_wf_shapes_index(ss.drop_first());
        assert forall|j: int| 0 <= j < ss.len() implies wf_shape(#[trigger] ss[j]) by {
            if j > 0 {
                assert(ss.drop_first()[j - 1] == ss[j]);
            }
        }
    }
}

proof fn lemma_wf_named_index(frs: Seq<FieldRecM>, fields: Seq<FieldM>)
    requires
        frs.len() == fields.len(),
        wf_named(frs, fields),
    ensures
        forall|j: int| 0 <= j < frs.len() ==> (#[trigger] frs[j]).name == fields[j].name,
        forall|j: int| 0 <= j < frs.len() ==> wf_record((#[trigger] frs[j]).value, fields[j].shape),
    decreases frs.len(),
{
    if frs.len() > 0 {
        lemma_wf_named_index(frs.drop_first(), fields.drop_first());
        assert forall|j: int| 0 <= j < frs.len() implies (#[trigger] frs[j]).name
            == fields[j].name && wf_record(frs[j].value, fields[j].shape) by {
            if j > 0 {
                assert(frs.drop_first()[j - 1] == frs[j]);
                assert(fields.drop_first()[j - 1] == fields[j]);
            }
        }
    }
}

proof fn lemma_wf_tuple_index(rs: Seq<RecordM>, ss: Seq<ShapeM>)
    requires
        rs.len() == ss.len(),
        wf_tuple(rs, ss),
    ensures
        forall|j: int| 0 <= j < rs.len() ==> wf_record(#[trigger] rs[j], ss[j]),
    decreases rs.len(),
{
    if rs.len() > 0 {
        lemma_wf_tuple_index(rs.drop_first(), ss.drop_first());
        assert forall|j: int| 0 <= j < rs.len() implies wf_record(#[trigger] rs[j], ss[j]) by {
            if j > 0 {
                assert(rs.drop_first()[j - 1] == rs[j]);
                assert(ss.drop_first()[j - 1] == ss[j]);
            }
        }
    }
}

/// In a dictionary whose keys before position `j` all differ from the key
/// at `j`, lookup of that key finds exactly entry `j`.
proof fn lemma_dict_lookup_at(entries: Seq<EntryM>, j: int)
    requires
        0 <= j < entries.len(),
        forall|k: int| 0 <= k < j ==> (#[trigger] entries[k]).key != entries[j].key,
    ensures
        dict_lookup_m(entries, entries[j].key) == Some(entries[j].val),
    decreases j,
{
    if j > 0 {
        assert(entries[0].key != entries[j].key);
        assert forall|k: int| 0 <= k < j - 1 implies (#[trigger] entries.drop_first()[k]).key
            != entries.drop_first()[j - 1].key by {
            assert(entries.drop_first()[k] == entries[k + 1]);
            assert(entries.drop_first()[j - 1] == entries[j]);
        }
        lemma_dict_lookup_at(entries.drop_first(), j - 1);
        assert(entries.drop_first()[j - 1] == entries[j]);
    }
}

} // verus!

verus! {

/// A bare-encoded variant payload decodes back from its tag: scanning the
/// declared variants for a unit-like variant named `name` finds one whose
/// bare record is exactly `p`.
proof fn lemma_round_trip_tag(p: RecordM, name: Seq<char>, variants: Seq<VariantM>)
    requires
        wf_variant_rec(p, name, variants),
        wf_variants(variants),
        bare_record(p),
    ensures
        decode_tag_m(name, variants) == Some(RecordM::Variant { name, payload: Box::new(p) }),
    decreases variants.len(),
{
    if variants[0].name == name {
        assert(wf_record(p, variants[0].shape));
        match p {
            RecordM::Unit => {
                assert(variants[0].shape is Unit);
            },
            RecordM::Positional(rs) => {
                assert(variants[0].shape matches ShapeM::Positional(ss) && ss.len() == rs.len());
                assert(rs =~= Seq::<RecordM>::empty());
                assert(p =~= RecordM::Positional(Seq::empty()));
            },
            _ => {
                assert(false);
            },
        }
        assert(bare_eligible(variants[0].shape));
        assert(bare_payload(variants[0].shape) == p);
    } else {
        lemma_round_trip_tag(p, name, variants.drop_first());
    }
}

} // verus!

verus! {

/// A dictionary-encoded variant payload decodes back through its keyed
/// entry: scanning the declared variants for the key finds a
/// data-carrying variant against whose shape the payload round-trips.
proof fn lemma_round_trip_keyed(p: RecordM, name: Seq<char>, variants: Seq<VariantM>)
    requires
        wf_variant_rec(p, name, variants),
        wf_variants(variants),
        !bare_record(p),
    ensures
        has_dict(variants),
        decode_keyed_m(encode_m(p), name, variants) == Ok::<RecordM, ErrM>(
            RecordM::Variant { name, payload: Box::new(p) },
        ),
    decreases p, 1int, variants.len(),
{
    if variants[0].name == name {
        assert(wf_record(p, variants[0].shape));
        assert(variant_shape_ok(variants[0].shape));
        match variants[0].shape {
            ShapeM::Unit => {
                assert(p is Unit);
                assert(false);
            },
            ShapeM::Named(_) => {},
            ShapeM::Positional(ss) => {
                assert(p matches RecordM::Positional(rs) && rs.len() == ss.len());
            },
            _ => {
                assert(false);
            },
        }
        assert(dict_eligible(variants[0].shape));
        lemma_round_trip(p, variants[0].shape);
    } else {
        lemma_round_trip_keyed(p, name, variants.drop_first());
        let i = choose|i: int|
            0 <= i < variants.drop_first().len() && dict_eligible(
                #[trigger] variants.drop_first()[i].shape,
            );
        assert(variants.drop_first()[i] == variants[i + 1]);
        assert(dict_eligible(variants[i + 1].shape));
    }
}

proof fn lemma_round_trip_list(rs: Seq<RecordM>, t: ShapeM)
    requires
        wf_shape(t),
        wf_list(rs, t),
    ensures
        decode_elems_m(encode_list_m(rs), t) == Ok::<Seq<RecordM>, ErrM>(rs),
    decreases rs, 1int, 0int,
{
    lemma_encode_list_m(rs);
    if rs.len() == 0 {
        assert(encode_list_m(rs) =~= Seq::<ValueM>::empty());
        assert(rs =~= Seq::<RecordM>::empty());
    } else {
        lemma_round_trip(rs[0], t);
        lemma_round_trip_list(rs.drop_first(), t);
        let es = encode_list_m(rs);
        lemma_encode_list_m(rs.drop_first());
        assert(es.drop_first() =~= encode_list_m(rs.drop_first()));
        assert(seq![rs[0]] + rs.drop_first() =~= rs);
    }
}

proof fn lemma_round_trip_tuple(rs: Seq<RecordM>, ss: Seq<ShapeM>)
    requires
        rs.len() == ss.len(),
        wf_shapes(ss),
        wf_tuple(rs, ss),
    ensures
        decode_tuple_m(encode_list_m(rs), ss) == Ok::<Seq<RecordM>, ErrM>(rs),
    decreases rs, 1int, 0int,
{
    lemma_encode_list_m(rs);
    if rs.len() == 0 {
        assert(encode_list_m(rs) =~= Seq::<ValueM>::empty());
        assert(rs =~= Seq::<RecordM>::empty());
    } else {
        lemma_wf_shapes_index(ss);
        lemma_round_trip(rs[0], ss[0]);
        lemma_round_trip_tuple(rs.drop_first(), ss.drop_first());
        let es = encode_list_m(rs);
        lemma_encode_list_m(rs.drop_first());
        assert(es.drop_first() =~= encode_list_m(rs.drop_first()));
        assert(seq![rs[0]] + rs.drop_first() =~= rs);
    }
}

proof fn lemma_round_trip_fields(entries: Seq<EntryM>, frs: Seq<FieldRecM>, fields: Seq<FieldM>)
    requires
        frs.len() == fields.len(),
        wf_named(frs, fields),
        wf_fields(fields),
        forall|j: int| 0 <= j < fields.len() ==> dict_lookup_m(
            entries,
            (#[trigger] fields[j]).name,
        ) == Some(encode_m(frs[j].value)),
    ensures
        decode_fields_m(entries, fields) == Ok::<Seq<FieldRecM>, ErrM>(frs),
    decreases frs, 1int, 0int,
{
    if fields.len() == 0 {
        assert(frs =~= Seq::<FieldRecM>::empty());
    } else {
        assert(dict_lookup_m(entries, fields[0].name) == Some(encode_m(frs[0].value)));
        lemma_round_trip(frs[0].value, fields[0].shape);
        assert forall|j: int| 0 <= j < fields.drop_first().len() implies dict_lookup_m(
            entries,
            (#[trigger] fields.drop_first()[j]).name,
        ) == Some(encode_m(frs.drop_first()[j].value)) by {
            assert(fields.drop_first()[j] == fields[j + 1]);
            assert(frs.drop_first()[j] == frs[j + 1]);
        }
        lemma_round_trip_fields(entries, frs.drop_first(), fields.drop_first());
        assert((FieldRecM { name: fields[0].name, value: frs[0].value }) == frs[0]);
        assert(seq![frs[0]] + frs.drop_first() =~= frs);
    }
}

/// Round trip: every well-formed record, encoded and then decoded against
/// its well-formed shape, comes back unchanged.
pub proof fn lemma_round_trip(r: RecordM, s: ShapeM)
    requires
        wf_shape(s),
        wf_record(r, s),
    ensures
        decode_m(encode_m(r), s) == Ok::<RecordM, ErrM>(r),
    decreases r, 0int, 0int,
{
    match r {
        RecordM::Int(_) => {},
        RecordM::Str(_) => {},
        RecordM::Raw(_) => {},
        RecordM::Unit => {},
        RecordM::ListOf(rs) => match s {
            ShapeM::ArrayOf(t) => {
                lemma_round_trip_list(rs, *t);
            },
            _ => {
                assert(false);
            },
        },
        RecordM::SetOf(rs) => match s {
            ShapeM::SetOf(t) => {
                lemma_round_trip_list(rs, *t);
            },
            _ => {
                assert(false);
            },
        },
        RecordM::Named(frs) => match s {
            ShapeM::Named(fields) => {
                if fields.len() == 0 {
                    assert(frs =~= Seq::<FieldRecM>::empty());
                    assert(r =~= RecordM::Named(Seq::<FieldRecM>::empty()));
                } else {
                    let entries = encode_fields_m(frs);
                    lemma_encode_fields_m(frs);
                    lemma_wf_named_index(frs, fields);
                    lemma_wf_fields_index(fields);
                    assert forall|j: int| 0 <= j < fields.len() implies dict_lookup_m(
                        entries,
                        (#[trigger] fields[j]).name,
                    ) == Some(encode_m(frs[j].value)) by {
                        assert(entries[j].key == frs[j].name);
                        assert forall|k: int| 0 <= k < j implies (#[trigger] entries[k]).key
                            != entries[j].key by {
                            assert(entries[k].key == frs[k].name);
                            assert(frs[k].name == fields[k].name);
                        }
                        lemma_dict_lookup_at(entries, j);
                    }
                    lemma_round_trip_fields(entries, frs, fields);
                }
            },
            _ => {
                assert(false);
            },
        },
        RecordM::Positional(rs) => match s {
            ShapeM::Positional(ss) => {
                if ss.len() == 0 {
                    assert(rs =~= Seq::<RecordM>::empty());
                    assert(r =~= RecordM::Positional(Seq::<RecordM>::empty()));
                } else if ss.len() == 1 {
                    lemma_wf_shapes_index(ss);
                    lemma_wf_tuple_index(rs, ss);
                    lemma_round_trip(rs[0], ss[0]);
                    assert(seq![rs[0]] =~= rs);
                } else {
                    lemma_encode_list_m(rs);
                    lemma_round_trip_tuple(rs, ss);
                }
            },
            _ => {
                assert(false);
            },
        },
        RecordM::Variant { name, payload } => match s {
            ShapeM::Enum(variants) => {
                assert(variants.len() != 0);
                if bare_record(*payload) {
                    lemma_round_trip_tag(*payload, name, variants);
                    assert(encode_m(r) == ValueM::Str(name));
                    assert(decode_m(encode_m(r), s) == decode_enum_m(ValueM::Str(name), variants));
                    assert(decode_tag_m(name, variants) == Some(
                        RecordM::Variant { name, payload: Box::new(*payload) },
                    ));
                    assert(Box::new(*payload) == payload);
                    assert(r == (RecordM::Variant { name, payload: Box::new(*payload) }));
                    assert(decode_m(encode_m(r), s) == Ok::<RecordM, ErrM>(r));
                } else {
                    lemma_round_trip_keyed(*payload, name, variants);
                    let entries = seq![EntryM { key: name, val: encode_m(*payload) }];
                    assert(entries[0] == (EntryM { key: name, val: encode_m(*payload) }));
                    assert(entries.len() == 1);
                    assert(encode_m(r) == ValueM::Dict(entries));
                    assert(decode_m(encode_m(r), s) == decode_enum_m(ValueM::Dict(entries), variants));
                    assert(decode_enum_m(ValueM::Dict(entries), variants) == decode_keyed_m(
                        encode_m(*payload),
                        name,
                        variants,
                    ));
                    assert(Box::new(*payload) == payload);
                    assert(r == (RecordM::Variant { name, payload: Box::new(*payload) }));
                    assert(decode_m(encode_m(r), s) == Ok::<RecordM, ErrM>(r));
                }
            },
            _ => {
                assert(false);
            },
        },
    }
}

} // verus!


