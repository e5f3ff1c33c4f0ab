//! Record shapes: the static descriptor that drives decoding and
//! encoding. Fixed at declaration time, never produced by the codec.
use vstd::prelude::*;
use crate::model::{ShapeM, FieldM, VariantM, wf_shape, wf_fields, wf_shapes, wf_variants, variant_shape_ok};

verus! {

/// The declared shape of a record.
#[derive(Debug)]
pub enum Shape {
    /// A primitive integer field.
    Int,
    /// A primitive string field.
    Str,
    /// A field that takes any dynamic value verbatim.
    Raw,
    /// An array of elements that share one shape.
    ArrayOf(Box<Shape>),
    /// A set of elements that share one shape.
    SetOf(Box<Shape>),
    /// A record that carries no data.
    Unit,
    /// A record of named fields, in declaration order, names unique.
    Named(Vec<Field>),
    /// A record of positional fields; its arity is the declared length.
    Positional(Vec<Shape>),
    /// A choice among named variants, names unique.
    Enum(Vec<Variant>),
}

/// One named field declaration.
#[derive(Debug)]
pub struct Field {
    pub name: String,
    pub shape: Shape,
}

/// One enum variant declaration.
#[derive(Debug)]
pub struct Variant {
    pub name: String,
    pub shape: Shape,
}

pub open spec fn shape_model(s: Shape) -> ShapeM
    decreases s, 1int,
{
    match s {
        Shape::Int => ShapeM::Int,
        Shape::Str => ShapeM::Str,
        Shape::Raw => ShapeM::Raw,
        Shape::ArrayOf(t) => ShapeM::ArrayOf(Box::new(shape_model(*t))),
        Shape::SetOf(t) => ShapeM::SetOf(Box::new(shape_model(*t))),
        Shape::Unit => ShapeM::Unit,
        Shape::Named(fields) => ShapeM::Named(fields_model(fields@)),
        Shape::Positional(ss) => ShapeM::Positional(shapes_model(ss@)),
        Shape::Enum(variants) => ShapeM::Enum(variants_model(variants@)),
    }
}

pub open spec fn fields_model(fields: Seq<Field>) -> Seq<FieldM>
    decreases fields, 0int,
{
    if fields.len() == 0 {
        Seq::empty()
    } else {
        seq![FieldM { name: fields[0].name@, shape: shape_model(fields[0].shape) }]
            + fields_model(fields.drop_first())
    }
}

pub open spec fn shapes_model(ss: Seq<Shape>) -> Seq<ShapeM>
    decreases ss, 0int,
{
    if ss.len() == 0 {
        Seq::empty()
    } else {
        seq![shape_model(ss[0])] + shapes_model(ss.drop_first())
    }
}

pub open spec fn variants_model(variants: Seq<Variant>) -> Seq<VariantM>
    decreases variants, 0int,
{
    if variants.len() == 0 {
        Seq::empty()
    } else {
        seq![VariantM { name: variants[0].name@, shape: shape_model(variants[0].shape) }]
            + variants_model(variants.drop_first())
    }
}

impl View for Shape {
    type V = ShapeM;

    open spec fn view(&self) -> ShapeM {
        shape_model(*self)
    }
}

impl View for Field {
    type V = FieldM;

    open spec fn view(&self) -> FieldM {
        FieldM { name: self.name@, shape: self.shape@ }
    }
}

impl View for Variant {
    type V = VariantM;

    open spec fn view(&self) -> VariantM {
        VariantM { name: self.name@, shape: self.shape@ }
    }
}

} // verus!

verus! {

pub broadcast proof fn lemma_fields_model(fields: Seq<Field>)
    ensures
        (#[trigger] fields_model(fields)).len() == fields.len(),
        forall|i: int| 0 <= i < fields.len() ==> fields_model(fields)[i] == (FieldM {
            name: fields[i].name@,
            shape: shape_model(fields[i].shape),
        }),
    decreases fields.len(),
{
    if fields.len() > 0 {
        lemma_fields_model(fields.drop_first());
    }
}

pub broadcast proof fn lemma_shapes_model(ss: Seq<Shape>)
    ensures
        (#[trigger] shapes_model(ss)).len() == ss.len(),
        forall|i: int| 0 <= i < ss.len() ==> shapes_model(ss)[i] == shape_model(ss[i]),
    decreases ss.len(),
{
    if ss.len() > 0 {
        lemma_shapes_model(ss.drop_first());
    }
}

pub broadcast proof fn lemma_variants_model(variants: Seq<Variant>)
    ensures
        (#[trigger] variants_model(variants)).len() == variants.len(),
        forall|i: int| 0 <= i < variants.len() ==> variants_model(variants)[i] == (VariantM {
            name: variants[i].name@,
            shape: shape_model(variants[i].shape),
        }),
    decreases variants.len(),
{
    if variants.len() > 0 {
        lemma_variants_model(variants.drop_first());
    }
}

} // verus!

verus! {

#[verifier::loop_isolation(false)]
fn field_names_distinct(fields: &Vec<Field>) -> (b: bool)
    ensures
        b == (forall|i: int, j: int|
            0 <= i < j < fields_model(fields@).len() ==> (#[trigger] fields_model(fields@)[i]).name
                != (#[trigger] fields_model(fields@)[j]).name),
{
    let ghost fm = fields_model(fields@);
    proof {
        lemma_fields_model(fields@);
    }
    for i in 0..fields.len()
        invariant
            forall|p: int, q: int|
                0 <= p < q < i ==> (#[trigger] fields@[p]).name@ != (#[trigger] fields@[q]).name@,
    {
        for j in 0..i
            invariant
                i < fields@.len(),
                forall|p: int, q: int|
                    0 <= p < q < i ==> (#[trigger] fields@[p]).name@ != (#[trigger] fields@[q]).name@,
                forall|p: int| 0 <= p < j ==> (#[trigger] fields@[p]).name@ != fields@[i as int].name@,
        {
            if fields[j].name == fields[i].name {
                proof {
                    assert(fm[j as int].name == fm[i as int].name);
                }
                return false;
            }
        }
    }
    proof {
        assert forall|i: int, j: int| 0 <= i < j < fm.len() implies (#[trigger] fm[i]).name
            != (#[trigger] fm[j]).name by {
            assert(fields@[i].name@ != fields@[j].name@);
        }
    }
    true
}

#[verifier::loop_isolation(false)]
fn variant_names_distinct(variants: &Vec<Variant>) -> (b: bool)
    ensures
        b == (forall|i: int, j: int|
            0 <= i < j < variants_model(variants@).len() ==> (#[trigger] variants_model(
                variants@,
            )[i]).name != (#[trigger] variants_model(variants@)[j]).name),
{
    let ghost wm = variants_model(variants@);
    proof {
        lemma_variants_model(variants@);
    }
    for i in 0..variants.len()
        invariant
            forall|p: int, q: int|
                0 <= p < q < i ==> (#[trigger] variants@[p]).name@ != (#[trigger] variants@[q]).name@,
    {
        for j in 0..i
            invariant
                i < variants@.len(),
                forall|p: int, q: int|
                    0 <= p < q < i ==> (#[trigger] variants@[p]).name@ != (#[trigger] variants@[q]).name@,
                forall|p: int|
                    0 <= p < j ==> (#[trigger] variants@[p]).name@ != variants@[i as int].name@,
        {
            if variants[j].name == variants[i].name {
                proof {
                    assert(wm[j as int].name == wm[i as int].name);
                }
                return false;
            }
        }
    }
    proof {
        assert forall|i: int, j: int| 0 <= i < j < wm.len() implies (#[trigger] wm[i]).name
            != (#[trigger] wm[j]).name by {
            assert(variants@[i].name@ != variants@[j].name@);
        }
    }
    true
}

#[verifier::loop_isolation(false)]
fn fields_well_formed(fields: &Vec<Field>) -> (b: bool)
    ensures
        b == wf_fields(fields_model(fields@)),
    decreases fields@, 2int,
{
    let ghost fm = fields_model(fields@);
    proof {
        lemma_fields_model(fields@);
        assert(fm.skip(0) =~= fm);
    }
    for i in 0..fields.len()
        invariant
            wf_fields(fm) == wf_fields(fm.skip(i as int)),
    {
        proof {
            assert(fm.skip(i as int)[0] == fm[i as int]);
            assert(fm.skip(i as int).drop_first() =~= fm.skip(i + 1int));
        }
        if !fields[i].shape.well_formed() {
            return false;
        }
    }
    proof {
        assert(fm.skip(fields@.len() as int) =~= Seq::<FieldM>::empty());
    }
    true
}

#[verifier::loop_isolation(false)]
fn shapes_well_formed(ss: &Vec<Shape>) -> (b: bool)
    ensures
        b == wf_shapes(shapes_model(ss@)),
    decreases ss@, 2int,
{
    let ghost sm = shapes_model(ss@);
    proof {
        lemma_shapes_model(ss@);
        assert(sm.skip(0) =~= sm);
    }
    for i in 0..ss.len()
        invariant
            wf_shapes(sm) == wf_shapes(sm.skip(i as int)),
    {
        proof {
            assert(sm.skip(i as int)[0] == sm[i as int]);
            assert(sm.skip(i as int).drop_first() =~= sm.skip(i + 1int));
        }
        if !ss[i].well_formed() {
            return false;
        }
    }
    proof {
        assert(sm.skip(ss@.len() as int) =~= Seq::<ShapeM>::empty());
    }
    true
}

/// Whether this shape may stand as an enum variant's payload shape.
fn shape_fits_variant(s: &Shape) -> (b: bool)
    ensures
        b == variant_shape_ok(s@),
{
    match s {
        Shape::Unit => true,
        Shape::Named(_) => true,
        Shape::Positional(_) => true,
        _ => false,
    }
}

#[verifier::loop_isolation(false)]
fn variants_well_formed(variants: &Vec<Variant>) -> (b: bool)
    ensures
        b == wf_variants(variants_model(variants@)),
    decreases variants@, 2int,
{
    let ghost wm = variants_model(variants@);
    proof {
        lemma_variants_model(variants@);
        assert(wm.skip(0) =~= wm);
    }
    for i in 0..variants.len()
        invariant
            wf_variants(wm) == wf_variants(wm.skip(i as int)),
    {
        proof {
            assert(wm.skip(i as int)[0] == wm[i as int]);
            assert(wm.skip(i as int).drop_first() =~= wm.skip(i + 1int));
        }
        if !shape_fits_variant(&variants[i].shape) {
            return false;
        }
        if !variants[i].shape.well_formed() {
            return false;
        }
    }
    proof {
        assert(wm.skip(variants@.len() as int) =~= Seq::<VariantM>::empty());
    }
    true
}

impl Shape {
    /// Whether this shape is well-formed: named-field names unique, enum
    /// variant names unique, and every variant's shape itself a record
    /// shape.
    pub fn well_formed(&self) -> (b: bool)
        ensures
            b == wf_shape(self@),
        decreases *self, 1int,
    {
        match self {
            Shape::Int => true,
            Shape::Str => true,
            Shape::Raw => true,
            Shape::Unit => true,
            Shape::ArrayOf(t) => t.well_formed(),
            Shape::SetOf(t) => t.well_formed(),
            Shape::Named(fields) => {
                proof {
                    lemma_fields_model(fields@);
                }
                let distinct = field_names_distinct(fields);
                distinct && fields_well_formed(fields)
            },
            Shape::Positional(ss) => shapes_well_formed(ss),
            Shape::Enum(variants) => {
                proof {
                    lemma_variants_model(variants@);
                }
                let distinct = variant_names_distinct(variants);
                distinct && variants_well_formed(variants)
            },
        }
    }
}

} // verus!
