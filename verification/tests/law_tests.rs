use structural_codec::codec::{decode, encode, resolve_named, resolve_positional};
use structural_codec::error::{DecodeError, Expected};
use structural_codec::record::{FieldRec, Record};
use structural_codec::shape::{Field, Shape, Variant};
use structural_codec::value::{Entry, Kind, Value};

fn two_field_shape() -> Shape {
    Shape::Named(vec![
        Field { name: "a".to_string(), shape: Shape::Int },
        Field { name: "b".to_string(), shape: Shape::Int },
    ])
}

#[test]
fn test_variant_dispatch() {
    let shape = Shape::Enum(vec![
        Variant { name: "A".to_string(), shape: Shape::Unit },
        Variant {
            name: "B".to_string(),
            shape: Shape::Named(vec![Field { name: "x".to_string(), shape: Shape::Int }]),
        },
    ]);
    let a = decode(&Value::Str("A".to_string()), &shape).unwrap();
    assert!(a.equals(&Record::Variant { name: "A".to_string(), payload: Box::new(Record::Unit) }));

    let payload = Value::Dict(vec![Entry { key: "x".to_string(), val: Value::Int(3) }]);
    let v = Value::Dict(vec![Entry { key: "B".to_string(), val: payload }]);
    let b = decode(&v, &shape).unwrap();
    let expected = Record::Variant {
        name: "B".to_string(),
        payload: Box::new(Record::Named(vec![FieldRec {
            name: "x".to_string(),
            value: Record::Int(3),
        }])),
    };
    assert!(b.equals(&expected));

    assert_eq!(
        decode(&Value::Str("C".to_string()), &shape).unwrap_err(),
        DecodeError::KindMismatch {
            expected: Expected::BareTagOrSingletonDict,
            actual: Kind::Str,
        },
    );

    let two_entries = Value::Dict(vec![
        Entry { key: "A".to_string(), val: Value::Int(0) },
        Entry { key: "B".to_string(), val: Value::Int(1) },
    ]);
    assert_eq!(decode(&two_entries, &shape).unwrap_err(), DecodeError::AmbiguousDictionary);

    // A dictionary key must name a declared, data-carrying variant.
    let unknown_key = Value::Dict(vec![Entry { key: "C".to_string(), val: Value::Int(0) }]);
    assert_eq!(
        decode(&unknown_key, &shape).unwrap_err(),
        DecodeError::UnknownVariant { name: "C".to_string() },
    );
    let unit_key = Value::Dict(vec![Entry { key: "A".to_string(), val: Value::Int(0) }]);
    assert_eq!(
        decode(&unit_key, &shape).unwrap_err(),
        DecodeError::UnknownVariant { name: "A".to_string() },
    );
}

#[test]
fn test_named_fields_end_to_end() {
    let shape = two_field_shape();
    let v = Value::Dict(vec![
        Entry { key: "a".to_string(), val: Value::Int(1) },
        Entry { key: "b".to_string(), val: Value::Int(2) },
    ]);
    let r = decode(&v, &shape).unwrap();
    let expected = Record::Named(vec![
        FieldRec { name: "a".to_string(), value: Record::Int(1) },
        FieldRec { name: "b".to_string(), value: Record::Int(2) },
    ]);
    assert!(r.equals(&expected));

    let missing = Value::Dict(vec![Entry { key: "a".to_string(), val: Value::Int(1) }]);
    assert_eq!(
        decode(&missing, &shape).unwrap_err(),
        DecodeError::MissingField { name: "b".to_string() },
    );
}

#[test]
fn test_arity_mismatch_exact() {
    let shape = Shape::Positional(vec![Shape::Int, Shape::Int]);
    let v = Value::Array(vec![Value::Int(0), Value::Int(1), Value::Int(2)]);
    assert_eq!(
        decode(&v, &shape).unwrap_err(),
        DecodeError::ArityMismatch { expected: 2, actual: 3 },
    );
}

#[test]
fn test_kind_mismatch() {
    let r = decode(&Value::Str("five".to_string()), &Shape::Int).unwrap_err();
    assert_eq!(r, DecodeError::KindMismatch { expected: Expected::Exactly(Kind::Int), actual: Kind::Str });

    let r = decode(&Value::Int(5), &two_field_shape()).unwrap_err();
    assert_eq!(r, DecodeError::KindMismatch { expected: Expected::Exactly(Kind::Dict), actual: Kind::Int });
}

#[test]
fn test_permissive_shapes() {
    let inputs = vec![
        Value::Int(7),
        Value::Str("anything".to_string()),
        Value::Array(vec![Value::Int(1)]),
        Value::Dict(vec![Entry { key: "k".to_string(), val: Value::Int(1) }]),
        Value::SetV(vec![Value::Int(1)]),
    ];
    for v in &inputs {
        assert!(decode(v, &Shape::Unit).is_ok());
        assert!(decode(v, &Shape::Named(vec![])).is_ok());
        assert!(decode(v, &Shape::Positional(vec![])).is_ok());
    }
}

#[test]
fn test_newtype_passthrough_no_array() {
    // Arity one decodes from the bare value, not from a one-element array.
    let shape = Shape::Positional(vec![Shape::Int]);
    let r = decode(&Value::Int(9), &shape).unwrap();
    assert!(r.equals(&Record::Positional(vec![Record::Int(9)])));
}

#[test]
fn test_encode_forms() {
    assert!(encode(&Record::Unit).equals(&Value::Dict(vec![])));

    let named = Record::Named(vec![
        FieldRec { name: "a".to_string(), value: Record::Int(1) },
        FieldRec { name: "b".to_string(), value: Record::Int(2) },
    ]);
    let expected = Value::Dict(vec![
        Entry { key: "a".to_string(), val: Value::Int(1) },
        Entry { key: "b".to_string(), val: Value::Int(2) },
    ]);
    assert!(encode(&named).equals(&expected));

    let bare = Record::Variant { name: "A".to_string(), payload: Box::new(Record::Unit) };
    assert!(encode(&bare).equals(&Value::Str("A".to_string())));

    let data = Record::Variant {
        name: "B".to_string(),
        payload: Box::new(Record::Positional(vec![Record::Int(1), Record::Int(2)])),
    };
    let expected = Value::Dict(vec![Entry {
        key: "B".to_string(),
        val: Value::Array(vec![Value::Int(1), Value::Int(2)]),
    }]);
    assert!(encode(&data).equals(&expected));
}

#[test]
fn test_round_trip_nested() {
    let shape = Shape::Enum(vec![
        Variant { name: "Leaf".to_string(), shape: Shape::Unit },
        Variant {
            name: "Node".to_string(),
            shape: Shape::Named(vec![
                Field { name: "label".to_string(), shape: Shape::Str },
                Field { name: "items".to_string(), shape: Shape::ArrayOf(Box::new(Shape::Int)) },
            ]),
        },
    ]);
    let r = Record::Variant {
        name: "Node".to_string(),
        payload: Box::new(Record::Named(vec![
            FieldRec { name: "label".to_string(), value: Record::Str("n1".to_string()) },
            FieldRec {
                name: "items".to_string(),
                value: Record::ListOf(vec![Record::Int(10), Record::Int(20)]),
            },
        ])),
    };
    let v = encode(&r);
    let back = decode(&v, &shape).unwrap();
    assert!(back.equals(&r));

    let bare = Record::Variant { name: "Leaf".to_string(), payload: Box::new(Record::Unit) };
    let back = decode(&encode(&bare), &shape).unwrap();
    assert!(back.equals(&bare));
}

#[test]
fn test_empty_enum_all_kinds() {
    let shape = Shape::Enum(vec![]);
    let inputs = vec![
        Value::Int(0),
        Value::Str("A".to_string()),
        Value::Array(vec![]),
        Value::Dict(vec![]),
        Value::SetV(vec![]),
    ];
    for v in &inputs {
        assert_eq!(decode(v, &shape).unwrap_err(), DecodeError::EmptyEnum);
    }
}

#[test]
fn test_error_messages() {
    let e = DecodeError::ArityMismatch { expected: 2, actual: 13 };
    assert_eq!(e.message(), "expected an array of length 2, got length 13");

    let e = DecodeError::KindMismatch { expected: Expected::Exactly(Kind::Dict), actual: Kind::Int };
    assert_eq!(e.message(), "expected a dictionary, got an integer");

    let e = DecodeError::MissingField { name: "b".to_string() };
    assert_eq!(e.message(), "missing field b");

    let e = DecodeError::UnknownVariant { name: "C".to_string() };
    assert_eq!(e.message(), "unknown variant C");

    assert_eq!(DecodeError::EmptyEnum.message(), "cannot instantiate an empty enum");
    assert_eq!(
        DecodeError::AmbiguousDictionary.message(),
        "expected a dictionary with exactly one entry",
    );

    let e = DecodeError::KindMismatch {
        expected: Expected::BareTagOrSingletonDict,
        actual: Kind::SetV,
    };
    assert_eq!(e.message(), "expected a string or a dictionary with one entry, got a set");
}

#[test]
fn test_well_formed_shapes() {
    assert!(two_field_shape().well_formed());

    let dup = Shape::Named(vec![
        Field { name: "a".to_string(), shape: Shape::Int },
        Field { name: "a".to_string(), shape: Shape::Str },
    ]);
    assert!(!dup.well_formed());

    let dup_variants = Shape::Enum(vec![
        Variant { name: "A".to_string(), shape: Shape::Unit },
        Variant { name: "A".to_string(), shape: Shape::Unit },
    ]);
    assert!(!dup_variants.well_formed());

    let bad_variant = Shape::Enum(vec![Variant { name: "A".to_string(), shape: Shape::Int }]);
    assert!(!bad_variant.well_formed());

    let nested = Shape::ArrayOf(Box::new(Shape::Enum(vec![Variant {
        name: "A".to_string(),
        shape: Shape::Unit,
    }])));
    assert!(nested.well_formed());
}

#[test]
fn test_matches_shape() {
    let shape = two_field_shape();
    let good = Record::Named(vec![
        FieldRec { name: "a".to_string(), value: Record::Int(1) },
        FieldRec { name: "b".to_string(), value: Record::Int(2) },
    ]);
    assert!(good.matches_shape(&shape));

    let wrong_name = Record::Named(vec![
        FieldRec { name: "a".to_string(), value: Record::Int(1) },
        FieldRec { name: "c".to_string(), value: Record::Int(2) },
    ]);
    assert!(!wrong_name.matches_shape(&shape));

    let wrong_kind = Record::Named(vec![
        FieldRec { name: "a".to_string(), value: Record::Int(1) },
        FieldRec { name: "b".to_string(), value: Record::Str("x".to_string()) },
    ]);
    assert!(!wrong_kind.matches_shape(&shape));

    let not_named = Record::Int(5);
    assert!(!not_named.matches_shape(&shape));
}

#[test]
fn test_resolvers() {
    let entries = vec![
        Entry { key: "a".to_string(), val: Value::Int(1) },
        Entry { key: "b".to_string(), val: Value::Int(2) },
        Entry { key: "a".to_string(), val: Value::Int(9) },
    ];
    let hit = resolve_named(&entries, &"a".to_string()).unwrap();
    assert!(hit.equals(&Value::Int(1)));
    assert!(resolve_named(&entries, &"c".to_string()).is_none());

    let elems = vec![Value::Int(5), Value::Int(6)];
    let hit = resolve_positional(&elems, 1).unwrap();
    assert!(hit.equals(&Value::Int(6)));
    assert!(resolve_positional(&elems, 2).is_none());
}

#[test]
fn test_decimal_edges() {
    let e = DecodeError::ArityMismatch { expected: 0, actual: 1000 };
    assert_eq!(e.message(), "expected an array of length 0, got length 1000");
}

#[test]
fn test_newtype_no_array_unwrapping() {
    // Arity one never unwraps an array: the whole array value itself is
    // decoded against the single field's shape.
    let shape = Shape::Positional(vec![Shape::Int]);
    let v = Value::Array(vec![Value::Int(9)]);
    assert_eq!(
        decode(&v, &shape).unwrap_err(),
        DecodeError::KindMismatch { expected: Expected::Exactly(Kind::Int), actual: Kind::Array },
    );
}

#[test]
fn test_newtype_variant_payload() {
    // A one-field positional variant takes its payload bare, not wrapped
    // in a one-element array.
    let shape = Shape::Enum(vec![
        Variant { name: "A".to_string(), shape: Shape::Unit },
        Variant { name: "B".to_string(), shape: Shape::Positional(vec![Shape::Int]) },
    ]);
    let v = Value::Dict(vec![Entry { key: "B".to_string(), val: Value::Int(3) }]);
    let b = decode(&v, &shape).unwrap();
    let expected = Record::Variant {
        name: "B".to_string(),
        payload: Box::new(Record::Positional(vec![Record::Int(3)])),
    };
    assert!(b.equals(&expected));

    let round = decode(&encode(&expected), &shape).unwrap();
    assert!(round.equals(&expected));
}

#[test]
fn test_enum_expectations() {
    let mixed = Shape::Enum(vec![
        Variant { name: "A".to_string(), shape: Shape::Unit },
        Variant {
            name: "B".to_string(),
            shape: Shape::Named(vec![Field { name: "x".to_string(), shape: Shape::Int }]),
        },
    ]);
    // An empty dictionary fits neither enum rule.
    assert_eq!(
        decode(&Value::Dict(vec![]), &mixed).unwrap_err(),
        DecodeError::KindMismatch {
            expected: Expected::BareTagOrSingletonDict,
            actual: Kind::Dict,
        },
    );
    assert_eq!(
        decode(&Value::Int(0), &mixed).unwrap_err(),
        DecodeError::KindMismatch {
            expected: Expected::BareTagOrSingletonDict,
            actual: Kind::Int,
        },
    );
    // A string that names a data-carrying variant is no bare tag either:
    // the failure depends only on the declared variant classes.
    assert_eq!(
        decode(&Value::Str("B".to_string()), &mixed).unwrap_err(),
        DecodeError::KindMismatch {
            expected: Expected::BareTagOrSingletonDict,
            actual: Kind::Str,
        },
    );

    let all_bare = Shape::Enum(vec![Variant { name: "A".to_string(), shape: Shape::Unit }]);
    assert_eq!(
        decode(&Value::Dict(vec![]), &all_bare).unwrap_err(),
        DecodeError::KindMismatch { expected: Expected::BareTag, actual: Kind::Dict },
    );

    let all_data = Shape::Enum(vec![Variant {
        name: "B".to_string(),
        shape: Shape::Named(vec![Field { name: "x".to_string(), shape: Shape::Int }]),
    }]);
    assert_eq!(
        decode(&Value::Str("B".to_string()), &all_data).unwrap_err(),
        DecodeError::KindMismatch { expected: Expected::SingletonDict, actual: Kind::Str },
    );
}
