use wirefilter_scheme::types::{Array, LhsValue, Type, TypeMismatchError};

#[test]
fn array_rejects_a_value_of_another_type() {
    let r = Array::try_from_vec(Type::Int, vec![LhsValue::Int(1), LhsValue::Bool(true), LhsValue::bytes_of("x")]);
    assert_eq!(r, Err(TypeMismatchError { expected: Type::Int, actual: Type::Bool }));
}

#[test]
fn array_keeps_its_values() {
    let a = Array::try_from_vec(Type::Bytes, vec![LhsValue::bytes_of("x"), LhsValue::bytes_of("yz")]).unwrap();
    assert_eq!(a.len(), 2);
    assert_eq!(a.value_type(), Type::Bytes);
    assert_eq!(a.get(1), Some(&LhsValue::Bytes(b"yz".to_vec())));
    assert_eq!(a.get(2), None);
    assert_eq!(a.into_vec(), vec![LhsValue::bytes_of("x"), LhsValue::bytes_of("yz")]);
}

#[test]
fn nested_array_type() {
    let inner = Array::try_from_vec(Type::Int, vec![LhsValue::Int(3)]).unwrap();
    let v = LhsValue::Array(inner);
    assert_eq!(v.get_type(), Type::Array(Box::new(Type::Int)));
    let outer = Array::try_from_vec(Type::Array(Box::new(Type::Int)), vec![v.duplicate()]).unwrap();
    assert_eq!(outer.len(), 1);
    assert!(v.same_value(&v.duplicate()));
}

#[test]
fn values_compare_by_content() {
    assert!(LhsValue::bytes_of("ab").same_value(&LhsValue::Bytes(vec![b'a', b'b'])));
    assert!(!LhsValue::bytes_of("ab").same_value(&LhsValue::bytes_of("ac")));
    assert!(!LhsValue::Int(1).same_value(&LhsValue::Bool(true)));
    let a = LhsValue::Array(Array::new(Type::Int));
    let b = LhsValue::Array(Array::new(Type::Bytes));
    assert!(!a.same_value(&b));
}

#[test]
fn types_compare_structurally() {
    let t = Type::MapOf(Box::new(Type::Array(Box::new(Type::Ip))));
    assert!(t.same_as(&t.duplicate()));
    assert!(!t.same_as(&Type::MapOf(Box::new(Type::Array(Box::new(Type::Int))))));
    assert_eq!(t.clone(), t);
}
