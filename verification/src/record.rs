//! Decoded records: the native side of the codec. A record mirrors the
//! shape it was decoded against, field for field.
use vstd::prelude::*;
use crate::model::{RecordM, FieldRecM, ShapeM, VariantM, wf_record, wf_list, wf_named, wf_tuple, wf_variant_rec};
use crate::value::Value;
use crate::shape::{Shape, Field, Variant, shape_model, fields_model, shapes_model, variants_model,
    lemma_fields_model, lemma_shapes_model, lemma_variants_model};

verus! {

/// A native record produced by decoding, or handed to encoding.
#[derive(Debug)]
pub enum Record {
    /// A primitive integer field value.
    Int(i64),
    /// A primitive string field value.
    Str(String),
    /// A dynamic value kept verbatim.
    Raw(Value),
    /// The elements of an array field.
    ListOf(Vec<Record>),
    /// The elements of a set field.
    SetOf(Vec<Record>),
    /// The unit record.
    Unit,
    /// A record of named fields, in declaration order.
    Named(Vec<FieldRec>),
    /// A record of positional fields.
    Positional(Vec<Record>),
    /// One variant of an enum, by its declared name, with its payload.
    Variant { name: String, payload: Box<Record> },
}

/// One decoded named field.
#[derive(Debug)]
pub struct FieldRec {
    pub name: String,
    pub value: Record,
}

pub open spec fn record_model(r: Record) -> RecordM
    decreases r, 1int,
{
    match r {
        Record::Int(i) => RecordM::Int(i as int),
        Record::Str(t) => RecordM::Str(t@),
        Record::Raw(v) => RecordM::Raw(v@),
        Record::ListOf(rs) => RecordM::ListOf(records_model(rs@)),
        Record::SetOf(rs) => RecordM::SetOf(records_model(rs@)),
        Record::Unit => RecordM::Unit,
        Record::Named(frs) => RecordM::Named(field_recs_model(frs@)),
        Record::Positional(rs) => RecordM::Positional(records_model(rs@)),
        Record::Variant { name, payload } => RecordM::Variant {
            name: name@,
            payload: Box::new(record_model(*payload)),
        },
    }
}

pub open spec fn records_model(rs: Seq<Record>) -> Seq<RecordM>
    decreases rs, 0int,
{
    if rs.len() == 0 {
        Seq::empty()
    } else {
        seq![record_model(rs[0])] + records_model(rs.drop_first())
    }
}

pub open spec fn field_recs_model(frs: Seq<FieldRec>) -> Seq<FieldRecM>
    decreases frs, 0int,
{
    if frs.len() == 0 {
        Seq::empty()
    } else {
        seq![FieldRecM { name: frs[0].name@, value: record_model(frs[0].value) }]
            + field_recs_model(frs.drop_first())
    }
}

impl View for Record {
    type V = RecordM;

    open spec fn view(&self) -> RecordM {
        record_model(*self)
    }
}

impl View for FieldRec {
    type V = FieldRecM;

    open spec fn view(&self) -> FieldRecM {
        FieldRecM { name: self.name@, value: self.value@ }
    }
}

} // verus!

verus! {

pub broadcast proof fn lemma_records_model(rs: Seq<Record>)
    ensures
        (#[trigger] records_model(rs)).len() == rs.len(),
        forall|i: int| 0 <= i < rs.len() ==> records_model(rs)[i] == record_model(rs[i]),
    decreases rs.len(),
{
    if rs.len() > 0 {
        lemma_records_model(rs.drop_first());
    }
}

pub broadcast proof fn lemma_field_recs_model(frs: Seq<FieldRec>)
    ensures
        (#[trigger] field_recs_model(frs)).len() == frs.len(),
        forall|i: int| 0 <= i < frs.len() ==> field_recs_model(frs)[i] == (FieldRecM {
            name: frs[i].name@,
            value: record_model(frs[i].value),
        }),
    decreases frs.len(),
{
    if frs.len() > 0 {
        lemma_field_recs_model(frs.drop_first());
    }
}

} // verus!

verus! {

/// A distinct tag for each record constructor, to tell models apart.
spec fn record_tag(r: RecordM) -> int {
    match r {
        RecordM::Int(_) => 0,
        RecordM::Str(_) => 1,
        RecordM::Raw(_) => 2,
        RecordM::ListOf(_) => 3,
        RecordM::SetOf(_) => 4,
        RecordM::Unit => 5,
        RecordM::Named(_) => 6,
        RecordM::Positional(_) => 7,
        RecordM::Variant { .. } => 8,
    }
}

impl Record {
    /// Structural equality of two records.
    pub fn equals(&self, other: &Record) -> (r: bool)
        ensures
            r == (self@ == other@),
        decreases *self, 1int,
    {
        match self {
            Record::Int(i) => match other {
                Record::Int(j) => *i == *j,
                _ => {
                    proof {
                        assert(record_tag(self@) != record_tag(other@));
                    }
                    false
                },
            },
            Record::Str(s) => match other {
                Record::Str(t) => *s == *t,
                _ => {
                    proof {
                        assert(record_tag(self@) != record_tag(other@));
                    }
                    false
                },
            },
            Record::Raw(v) => match other {
                Record::Raw(w) => v.equals(w),
                _ => {
                    proof {
                        assert(record_tag(self@) != record_tag(other@));
                    }
                    false
                },
            },
            Record::ListOf(xs) => match other {
                Record::ListOf(ys) => records_equal(xs, ys),
                _ => {
                    proof {
                        assert(record_tag(self@) != record_tag(other@));
                    }
                    false
                },
            },
            Record::SetOf(xs) => match other {
                Record::SetOf(ys) => records_equal(xs, ys),
                _ => {
                    proof {
                        assert(record_tag(self@) != record_tag(other@));
                    }
                    false
                },
            },
            Record::Unit => match other {
                Record::Unit => true,
                _ => {
                    proof {
                        assert(record_tag(self@) != record_tag(other@));
                    }
                    false
                },
            },
            Record::Named(xs) => match other {
                Record::Named(ys) => field_recs_equal(xs, ys),
                _ => {
                    proof {
                        assert(record_tag(self@) != record_tag(other@));
                    }
                    false
                },
            },
            Record::Positional(xs) => match other {
                Record::Positional(ys) => records_equal(xs, ys),
                _ => {
                    proof {
                        assert(record_tag(self@) != record_tag(other@));
                    }
                    false
                },
            },
            Record::Variant { name, payload } => match other {
                Record::Variant { name: name2, payload: payload2 } => {
                    if *name == *name2 {
                        (**payload).equals(&**payload2)
                    } else {
                        false
                    }
                },
                _ => {
                    proof {
                        assert(record_tag(self@) != record_tag(other@));
                    }
                    false
                },
            },
        }
    }
}

#[verifier::loop_isolation(false)]
fn records_equal(xs: &Vec<Record>, ys: &Vec<Record>) -> (r: bool)
    ensures
        r == (records_model(xs@) == records_model(ys@)),
    decreases xs@, 2int,
{
    proof {
        lemma_records_model(xs@);
        lemma_records_model(ys@);
    }
    if xs.len() != ys.len() {
        proof {
            assert(records_model(xs@).len() != records_model(ys@).len());
        }
        return false;
    }
    for i in 0..xs.len()
        invariant
            forall|j: int| 0 <= j < i ==> record_model(#[trigger] xs@[j]) == record_model(ys@[j]),
    {
        if !xs[i].equals(&ys[i]) {
            proof {
                assert(records_model(xs@)[i as int] == record_model(xs@[i as int]));
                assert(records_model(ys@)[i as int] == record_model(ys@[i as int]));
            }
            return false;
        }
    }
    proof {
        assert(records_model(xs@) =~= records_model(ys@));
    }
    true
}

#[verifier::loop_isolation(false)]
fn field_recs_equal(xs: &Vec<FieldRec>, ys: &Vec<FieldRec>) -> (r: bool)
    ensures
        r == (field_recs_model(xs@) == field_recs_model(ys@)),
    decreases xs@, 2int,
{
    proof {
        lemma_field_recs_model(xs@);
        lemma_field_recs_model(ys@);
    }
    if xs.len() != ys.len() {
        proof {
            assert(field_recs_model(xs@).len() != field_recs_model(ys@).len());
        }
        return false;
    }
    for i in 0..xs.len()
        invariant
            forall|j: int| 0 <= j < i ==> #[trigger] xs@[j]@ == ys@[j]@,
    {
        proof {
            assert(field_recs_model(xs@)[i as int] == (FieldRecM {
                name: xs@[i as int].name@,
                value: record_model(xs@[i as int].value),
            }));
            assert(field_recs_model(ys@)[i as int] == (FieldRecM {
                name: ys@[i as int].name@,
                value: record_model(ys@[i as int].value),
            }));
        }
        if !(xs[i].name == ys[i].name) {
            return false;
        }
        if !xs[i].value.equals(&ys[i].value) {
            return false;
        }
    }
    proof {
        assert forall|j: int| 0 <= j < xs@.len() implies field_recs_model(xs@)[j]
            == field_recs_model(ys@)[j] by {
            assert(xs@[j]@ == ys@[j]@);
        }
        assert(field_recs_model(xs@) =~= field_recs_model(ys@));
    }
    true
}

} // verus!

verus! {

/// A distinct tag for each shape constructor, to tell models apart.
spec fn shape_tag(s: ShapeM) -> int {
    match s {
        ShapeM::Int => 0,
        ShapeM::Str => 1,
        ShapeM::Raw => 2,
        ShapeM::ArrayOf(_) => 3,
        ShapeM::SetOf(_) => 4,
        ShapeM::Unit => 5,
        ShapeM::Named(_) => 6,
        ShapeM::Positional(_) => 7,
        ShapeM::Enum(_) => 8,
    }
}

#[verifier::loop_isolation(false)]
fn list_matches(rs: &Vec<Record>, t: &Shape) -> (b: bool)
    ensures
        b == wf_list(records_model(rs@), t@),
    decreases rs@, 2int,
{
    let ghost rm = records_model(rs@);
    proof {
        lemma_records_model(rs@);
        assert(rm.skip(0) =~= rm);
    }
    for i in 0..rs.len()
        invariant
            wf_list(rm, t@) == wf_list(rm.skip(i as int), t@),
    {
        proof {
            assert(rm.skip(i as int)[0] == rm[i as int]);
            assert(rm.skip(i as int).drop_first() =~= rm.skip(i + 1int));
        }
        if !rs[i].matches_shape(t) {
            return false;
        }
    }
    proof {
        assert(rm.skip(rs@.len() as int) =~= Seq::<RecordM>::empty());
    }
    true
}

#[verifier::loop_isolation(false)]
fn named_matches(frs: &Vec<FieldRec>, fields: &Vec<Field>) -> (b: bool)
    requires
        frs@.len() == fields@.len(),
    ensures
        b == wf_named(field_recs_model(frs@), fields_model(fields@)),
    decreases frs@, 2int,
{
    let ghost rm = field_recs_model(frs@);
    let ghost fm = fields_model(fields@);
    proof {
        lemma_field_recs_model(frs@);
        lemma_fields_model(fields@);
        assert(rm.skip(0) =~= rm);
        assert(fm.skip(0) =~= fm);
    }
    for i in 0..frs.len()
        invariant
            wf_named(rm, fm) == wf_named(rm.skip(i as int), fm.skip(i as int)),
    {
        proof {
            assert(rm.skip(i as int)[0] == rm[i as int]);
            assert(fm.skip(i as int)[0] == fm[i as int]);
            assert(rm.skip(i as int).drop_first() =~= rm.skip(i + 1int));
            assert(fm.skip(i as int).drop_first() =~= fm.skip(i + 1int));
        }
        if !(frs[i].name == fields[i].name) {
            return false;
        }
        if !frs[i].value.matches_shape(&fields[i].shape) {
            return false;
        }
    }
    proof {
        assert(rm.skip(frs@.len() as int) =~= Seq::<FieldRecM>::empty());
    }
    true
}

#[verifier::loop_isolation(false)]
fn tuple_matches(rs: &Vec<Record>, ss: &Vec<Shape>) -> (b: bool)
    requires
        rs@.len() == ss@.len(),
    ensures
        b == wf_tuple(records_model(rs@), shapes_model(ss@)),
    decreases rs@, 2int,
{
    let ghost rm = records_model(rs@);
    let ghost sm = shapes_model(ss@);
    proof {
        lemma_records_model(rs@);
        lemma_shapes_model(ss@);
        assert(rm.skip(0) =~= rm);
        assert(sm.skip(0) =~= sm);
    }
    for i in 0..rs.len()
        invariant
            wf_tuple(rm, sm) == wf_tuple(rm.skip(i as int), sm.skip(i as int)),
    {
        proof {
            assert(rm.skip(i as int)[0] == rm[i as int]);
            assert(sm.skip(i as int)[0] == sm[i as int]);
            assert(rm.skip(i as int).drop_first() =~= rm.skip(i + 1int));
            assert(sm.skip(i as int).drop_first() =~= sm.skip(i + 1int));
        }
        if !rs[i].matches_shape(&ss[i]) {
            return false;
        }
    }
    proof {
        assert(rm.skip(rs@.len() as int) =~= Seq::<RecordM>::empty());
    }
    true
}

#[verifier::loop_isolation(false)]
fn variant_matches(p: &Record, name: &String, variants: &Vec<Variant>) -> (b: bool)
    ensures
        b == wf_variant_rec(p@, name@, variants_model(variants@)),
    decreases *p, 2int,
{
    let ghost wm = variants_model(variants@);
    proof {
        lemma_variants_model(variants@);
        assert(wm.skip(0) =~= wm);
    }
    for i in 0..variants.len()
        invariant
            wf_variant_rec(p@, name@, wm) == wf_variant_rec(p@, name@, wm.skip(i as int)),
    {
        proof {
            assert(wm.skip(i as int)[0] == wm[i as int]);
            assert(wm.skip(i as int).drop_first() =~= wm.skip(i + 1int));
        }
        if variants[i].name == *name {
            return p.matches_shape(&variants[i].shape);
        }
    }
    proof {
        assert(wm.skip(variants@.len() as int) =~= Seq::<VariantM>::empty());
    }
    false
}

impl Record {
    /// Whether this record follows the shape, field for field: the
    /// hypothesis under which encoding and decoding round-trip.
    pub fn matches_shape(&self, s: &Shape) -> (b: bool)
        ensures
            b == wf_record(self@, s@),
        decreases *self, 1int,
    {
        match self {
            Record::Int(_) => match s {
                Shape::Int => true,
                _ => {
                    proof {
                        assert(shape_tag(s@) != 0);
                    }
                    false
                },
            },
            Record::Str(_) => match s {
                Shape::Str => true,
                _ => {
                    proof {
                        assert(shape_tag(s@) != 1);
                    }
                    false
                },
            },
            Record::Raw(_) => match s {
                Shape::Raw => true,
                _ => {
                    proof {
                        assert(shape_tag(s@) != 2);
                    }
                    false
                },
            },
            Record::ListOf(rs) => match s {
                Shape::ArrayOf(t) => list_matches(rs, t),
                _ => {
                    proof {
                        assert(shape_tag(s@) != 3);
                    }
                    false
                },
            },
            Record::SetOf(rs) => match s {
                Shape::SetOf(t) => list_matches(rs, t),
                _ => {
                    proof {
                        assert(shape_tag(s@) != 4);
                    }
                    false
                },
            },
            Record::Unit => match s {
                Shape::Unit => true,
                _ => {
                    proof {
                        assert(shape_tag(s@) != 5);
                    }
                    false
                },
            },
            Record::Named(frs) => match s {
                Shape::Named(fields) => {
                    proof {
                        lemma_field_recs_model(frs@);
                        lemma_fields_model(fields@);
                    }
                    frs.len() == fields.len() && named_matches(frs, fields)
                },
                _ => {
                    proof {
                        assert(shape_tag(s@) != 6);
                    }
                    false
                },
            },
            Record::Positional(rs) => match s {
                Shape::Positional(ss) => {
                    proof {
                        lemma_records_model(rs@);
                        lemma_shapes_model(ss@);
                    }
                    rs.len() == ss.len() && tuple_matches(rs, ss)
                },
                _ => {
                    proof {
                        assert(shape_tag(s@) != 7);
                    }
                    false
                },
            },
            Record::Variant { name, payload } => match s {
                Shape::Enum(variants) => variant_matches(&**payload, name, variants),
                _ => {
                    proof {
                        assert(shape_tag(s@) != 8);
                    }
                    false
                },
            },
        }
    }
}

} // verus!
