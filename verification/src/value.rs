//! The dynamic tagged value: a closed union of integer, string, array,
//! dictionary and set, with dictionaries as ordered key/value entry lists.
use vstd::prelude::*;
use crate::model::{ValueM, EntryM, kind_of_m};

verus! {

/// The tag of a dynamic value.
#[derive(Clone, Copy, Debug, PartialEq, Eq, Structural)]
pub enum Kind {
    Int,
    Str,
    Array,
    Dict,
    SetV,
}

/// A dynamic tagged value.
#[derive(Debug)]
pub enum Value {
    Int(i64),
    Str(String),
    Array(Vec<Value>),
    Dict(Vec<Entry>),
    SetV(Vec<Value>),
}

/// One key/value entry of a dictionary value.
#[derive(Debug)]
pub struct Entry {
    pub key: String,
    pub val: Value,
}

pub open spec fn value_model(v: Value) -> ValueM
    decreases v, 1int,
{
    match v {
        Value::Int(i) => ValueM::Int(i as int),
        Value::Str(s) => ValueM::Str(s@),
        Value::Array(elems) => ValueM::Arr(values_model(elems@)),
        Value::Dict(entries) => ValueM::Dict(entries_model(entries@)),
        Value::SetV(elems) => ValueM::SetV(values_model(elems@)),
    }
}

pub open spec fn values_model(vs: Seq<Value>) -> Seq<ValueM>
    decreases vs, 0int,
{
    if vs.len() == 0 {
        Seq::empty()
    } else {
        seq![value_model(vs[0])] + values_model(vs.drop_first())
    }
}

pub open spec fn entries_model(es: Seq<Entry>) -> Seq<EntryM>
    decreases es, 0int,
{
    if es.len() == 0 {
        Seq::empty()
    } else {
        seq![EntryM { key: es[0].key@, val: value_model(es[0].val) }] + entries_model(es.drop_first())
    }
}

impl View for Value {
    type V = ValueM;

    open spec fn view(&self) -> ValueM {
        value_model(*self)
    }
}

impl View for Entry {
    type V = EntryM;

    open spec fn view(&self) -> EntryM {
        EntryM { key: self.key@, val: self.val@ }
    }
}

} // verus!

verus! {

pub broadcast proof fn lemma_values_model(vs: Seq<Value>)
    ensures
        (#[trigger] values_model(vs)).len() == vs.len(),
        forall|i: int| 0 <= i < vs.len() ==> values_model(vs)[i] == value_model(vs[i]),
    decreases vs.len(),
{
    if vs.len() > 0 {
        lemma_values_model(vs.drop_first());
    }
}

pub broadcast proof fn lemma_entries_model(es: Seq<Entry>)
    ensures
        (#[trigger] entries_model(es)).len() == es.len(),
        forall|i: int| 0 <= i < es.len() ==> entries_model(es)[i] == (EntryM {
            key: es[i].key@,
            val: value_model(es[i].val),
        }),
    decreases es.len(),
{
    if es.len() > 0 {
        lemma_entries_model(es.drop_first());
    }
}

} // verus!

verus! {

impl Value {
    /// The tag of this value.
    pub fn kind(&self) -> (k: Kind)
        ensures
            k == kind_of_m(self@),
    {
        match self {
            Value::Int(_) => Kind::Int,
            Value::Str(_) => Kind::Str,
            Value::Array(_) => Kind::Array,
            Value::Dict(_) => Kind::Dict,
            Value::SetV(_) => Kind::SetV,
        }
    }

    /// A structurally equal copy of this value.
    pub fn duplicate(&self) -> (r: Value)
        ensures
            r@ == self@,
        decreases *self, 1int,
    {
        match self {
            Value::Int(i) => Value::Int(*i),
            Value::Str(s) => Value::Str(s.clone()),
            Value::Array(elems) => Value::Array(duplicate_values(elems)),
            Value::Dict(entries) => Value::Dict(duplicate_entries(entries)),
            Value::SetV(elems) => Value::SetV(duplicate_values(elems)),
        }
    }
}

fn duplicate_values(vs: &Vec<Value>) -> (r: Vec<Value>)
    ensures
        values_model(r@) == values_model(vs@),
    decreases vs@, 2int,
{
    let mut out: Vec<Value> = Vec::new();
    for i in 0..vs.len()
        invariant
            out@.len() == i,
            forall|j: int| 0 <= j < i ==> value_model(#[trigger] out@[j]) == value_model(vs@[j]),
    {
        out.push(vs[i].duplicate());
    }
    proof {
        broadcast use lemma_values_model;

        assert(values_model(out@) =~= values_model(vs@));
    }
    out
}

fn duplicate_entries(es: &Vec<Entry>) -> (r: Vec<Entry>)
    ensures
        entries_model(r@) == entries_model(es@),
    decreases es@, 2int,
{
    let mut out: Vec<Entry> = Vec::new();
    for i in 0..es.len()
        invariant
            out@.len() == i,
            forall|j: int| 0 <= j < i ==> #[trigger] out@[j]@ == es@[j]@,
    {
        let e = &es[i];
        out.push(Entry { key: e.key.clone(), val: e.val.duplicate() });
    }
    proof {
        broadcast use lemma_entries_model;

        assert forall|j: int| 0 <= j < es@.len() implies entries_model(out@)[j] == entries_model(
            es@,
        )[j] by {
            assert(out@[j]@ == es@[j]@);
        }
        assert(entries_model(out@) =~= entries_model(es@));
    }
    out
}

} // verus!

verus! {

impl Value {
    /// Structural equality of two dynamic values.
    pub fn equals(&self, other: &Value) -> (r: bool)
        ensures
            r == (self@ == other@),
        decreases *self, 1int,
    {
        match self {
            Value::Int(i) => match other {
                Value::Int(j) => *i == *j,
                _ => {
                    proof {
                        assert(kind_of_m(self@) != kind_of_m(other@));
                    }
                    false
                },
            },
            Value::Str(s) => match other {
                Value::Str(t) => *s == *t,
                _ => {
                    proof {
                        assert(kind_of_m(self@) != kind_of_m(other@));
                    }
                    false
                },
            },
            Value::Array(xs) => match other {
                Value::Array(ys) => values_equal(xs, ys),
                _ => {
                    proof {
                        assert(kind_of_m(self@) != kind_of_m(other@));
                    }
                    false
                },
            },
            Value::Dict(es) => match other {
                Value::Dict(fs) => entries_equal(es, fs),
                _ => {
                    proof {
                        assert(kind_of_m(self@) != kind_of_m(other@));
                    }
                    false
                },
            },
            Value::SetV(xs) => match other {
                Value::SetV(ys) => values_equal(xs, ys),
                _ => {
                    proof {
                        assert(kind_of_m(self@) != kind_of_m(other@));
                    }
                    false
                },
            },
        }
    }
}

#[verifier::loop_isolation(false)]
fn values_equal(xs: &Vec<Value>, ys: &Vec<Value>) -> (r: bool)
    ensures
        r == (values_model(xs@) == values_model(ys@)),
    decreases xs@, 2int,
{
    proof {
        lemma_values_model(xs@);
        lemma_values_model(ys@);
    }
    if xs.len() != ys.len() {
        proof {
            assert(values_model(xs@).len() != values_model(ys@).len());
        }
        return false;
    }
    for i in 0..xs.len()
        invariant
            forall|j: int| 0 <= j < i ==> value_model(#[trigger] xs@[j]) == value_model(ys@[j]),
    {
        if !xs[i].equals(&ys[i]) {
            proof {
                assert(values_model(xs@)[i as int] == value_model(xs@[i as int]));
                assert(values_model(ys@)[i as int] == value_model(ys@[i as int]));
            }
            return false;
        }
    }
    proof {
        assert(values_model(xs@) =~= values_model(ys@));
    }
    true
}

#[verifier::loop_isolation(false)]
fn entries_equal(es: &Vec<Entry>, fs: &Vec<Entry>) -> (r: bool)
    ensures
        r == (entries_model(es@) == entries_model(fs@)),
    decreases es@, 2int,
{
    proof {
        lemma_entries_model(es@);
        lemma_entries_model(fs@);
    }
    if es.len() != fs.len() {
        proof {
            assert(entries_model(es@).len() != entries_model(fs@).len());
        }
        return false;
    }
    for i in 0..es.len()
        invariant
            forall|j: int| 0 <= j < i ==> #[trigger] es@[j]@ == fs@[j]@,
    {
        proof {
            assert(entries_model(es@)[i as int] == (EntryM {
                key: es@[i as int].key@,
                val: value_model(es@[i as int].val),
            }));
            assert(entries_model(fs@)[i as int] == (EntryM {
                key: fs@[i as int].key@,
                val: value_model(fs@[i as int].val),
            }));
        }
        if !(es[i].key == fs[i].key) {
            return false;
        }
        if !es[i].val.equals(&fs[i].val) {
            return false;
        }
    }
    proof {
        assert forall|j: int| 0 <= j < es@.len() implies entries_model(es@)[j] == entries_model(
            fs@,
        )[j] by {
            assert(es@[j]@ == fs@[j]@);
        }
        assert(entries_model(es@) =~= entries_model(fs@));
    }
    true
}

} // verus!
