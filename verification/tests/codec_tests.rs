use structural_codec::codec::{decode, encode};
use structural_codec::record::Record;
use structural_codec::shape::{Field, Shape, Variant};
use structural_codec::value::{Entry, Value};

#[test]
fn test_empty_enum() {
    assert!(decode(&Value::Int(0), &Shape::Enum(vec![])).is_err());
}

#[test]
fn test_unit_struct() {
    let _ = decode(&Value::Int(0), &Shape::Unit).unwrap();
    let _ = decode(&Value::Int(0), &Shape::Named(vec![])).unwrap();
    let _ = decode(&Value::Int(0), &Shape::Positional(vec![])).unwrap();
}

#[test]
fn test_tuple_struct() {
    let v = Value::Array(vec![Value::Int(0), Value::Int(1)]);
    let shape = Shape::Positional(vec![Shape::Int, Shape::Int]);
    let _ = decode(&v, &shape).unwrap();
}

#[test]
fn test_tuple_struct_wrong_arity() {
    let shape = Shape::Positional(vec![Shape::Int, Shape::Int]);
    let short_v = Value::Array(vec![Value::Int(0)]);
    let long_v = Value::Array(vec![Value::Int(0), Value::Int(1), Value::Int(2)]);
    assert!(decode(&short_v, &shape).is_err());
    assert!(decode(&long_v, &shape).is_err());
}

#[test]
fn test_struct() {
    let shape = Shape::Named(vec![
        Field { name: "a".to_string(), shape: Shape::Int },
        Field { name: "b".to_string(), shape: Shape::Int },
        Field { name: "c".to_string(), shape: Shape::ArrayOf(Box::new(Shape::Int)) },
        Field { name: "d".to_string(), shape: Shape::SetOf(Box::new(Shape::Int)) },
    ]);
    let arr = Value::Array(vec![Value::Int(3), Value::Int(4)]);
    let set = Value::SetV(vec![Value::Int(5), Value::Int(6)]);
    let v = Value::Dict(vec![
        Entry { key: "a".to_string(), val: Value::Int(1) },
        Entry { key: "b".to_string(), val: Value::Int(2) },
        Entry { key: "c".to_string(), val: arr },
        Entry { key: "d".to_string(), val: set },
    ]);
    let _ = decode(&v, &shape).unwrap();
}

#[test]
fn test_simple_enum() {
    let shape = Shape::Enum(vec![
        Variant { name: "A".to_string(), shape: Shape::Unit },
        Variant { name: "B".to_string(), shape: Shape::Unit },
    ]);
    let a = decode(&Value::Str("A".to_string()), &shape).unwrap();
    let expected = Record::Variant { name: "A".to_string(), payload: Box::new(Record::Unit) };
    assert!(a.equals(&expected));
    assert!(decode(&Value::Str("C".to_string()), &shape).is_err())
}

#[test]
fn test_newtype_struct() {
    let x = Record::Positional(vec![Record::Int(2)]);
    let shape = Shape::Positional(vec![Shape::Int]);
    let v: Value = encode(&x);
    let y = decode(&v, &shape).unwrap();
    assert!(x.equals(&y));
}

#[test]
fn test_from_value() {
    let v = Value::Int(2);
    let shape = Shape::Positional(vec![Shape::Raw]);
    let n = decode(&v.duplicate(), &shape).unwrap();
    match n {
        Record::Positional(items) => {
            assert_eq!(items.len(), 1);
            match &items[0] {
                Record::Raw(inner) => assert!(v.equals(inner)),
                other => panic!("expected a raw record, got {:?}", other),
            }
        },
        other => panic!("expected a positional record, got {:?}", other),
    }
}
