use std::sync::Arc;

use wirefilter_scheme::functions::lookup::LookupFunction;
use wirefilter_scheme::functions::FunctionDefinition;
use wirefilter_scheme::lex::LexErrorKind;
use wirefilter_scheme::list_matcher::ListDefinition;
use wirefilter_scheme::scheme::{
    FieldIndex, FieldRef, FunctionRef, IdentifierRedefinitionError, Scheme, SchemeBuilder, SchemeStore,
    UnknownFieldError, UnknownFunctionError,
};
use wirefilter_scheme::types::Type;

fn sample_scheme() -> Scheme {
    SchemeBuilder::from_fields(vec![
        ("x", Type::Bytes),
        ("x.y.z0", Type::Int),
        ("is_TCP", Type::Bool),
        ("map", Type::MapOf(Box::new(Type::Bytes))),
    ])
    .build()
}

fn rest(input: &str, end: usize) -> String {
    input.chars().skip(end).collect()
}

fn same_field(a: &FieldRef<'_>, b: &FieldRef<'_>) -> bool {
    a.index() == b.index() && a.name() == b.name() && Arc::ptr_eq(a.scheme_store(), b.scheme_store())
}

struct NoList;

impl ListDefinition for NoList {}

struct Constant;

impl FunctionDefinition for Constant {
    fn arg_count(&self) -> (usize, Option<usize>) {
        (0, Some(0))
    }

    fn return_type(&self, _param_types: &[Type]) -> Type {
        Type::Int
    }
}

#[test]
fn test_field() {
    let scheme = &sample_scheme();

    let (f, end) = FieldRef::lex_with("x;", scheme).unwrap();
    assert!(same_field(&f, &scheme.get_field("x").unwrap()));
    assert_eq!(rest("x;", end), ";");

    let (f, end) = FieldRef::lex_with("x.y.z0-", scheme).unwrap();
    assert!(same_field(&f, &scheme.get_field("x.y.z0").unwrap()));
    assert_eq!(rest("x.y.z0-", end), "-");

    let (f, end) = FieldRef::lex_with("is_TCP", scheme).unwrap();
    assert!(same_field(&f, &scheme.get_field("is_TCP").unwrap()));
    assert_eq!(rest("is_TCP", end), "");

    match FieldRef::lex_with("x..y", scheme) {
        Err(err) => assert_eq!(err, (LexErrorKind::ExpectedName("identifier character"), 2, 2)),
        Ok(_) => panic!("an empty name part was accepted"),
    }

    match FieldRef::lex_with("x.#", scheme) {
        Err(err) => assert_eq!(err, (LexErrorKind::ExpectedName("identifier character"), 2, 1)),
        Ok(_) => panic!("a bad name character was accepted"),
    }

    match FieldRef::lex_with("x.y.z;", scheme) {
        Err(err) => assert_eq!(err, (LexErrorKind::UnknownField(UnknownFieldError), 0, 5)),
        Ok(_) => panic!("an unknown field was accepted"),
    }
}

#[test]
fn test_field_type_override() {
    let mut builder = SchemeBuilder::from_fields(vec![("foo", Type::Int)]);

    match builder.add_field("foo", Type::Bytes) {
        Err(IdentifierRedefinitionError::Field(e)) => assert_eq!(e.name(), "foo"),
        other => panic!("unexpected result {:?}", other),
    }
}

#[test]
fn test_field_lex_indexes() {
    assert_eq!(FieldIndex::lex("0"), Ok((FieldIndex::ArrayIndex(0), 1)));
    assert_eq!(
        FieldIndex::lex("-1"),
        Err((LexErrorKind::ExpectedLiteral("expected positive integer as index"), 0, 2))
    );

    assert_eq!(FieldIndex::lex("\"cookies\""), Ok((FieldIndex::MapKey("cookies".into()), 9)));
}

#[test]
fn test_scheme_iter_fields() {
    let scheme = &sample_scheme();

    let mut fields = scheme.fields();
    fields.sort_by(|f1, f2| f1.name().cmp(&f2.name()));

    let expected = vec![
        scheme.get_field("is_TCP").unwrap(),
        scheme.get_field("map").unwrap(),
        scheme.get_field("x").unwrap(),
        scheme.get_field("x.y.z0").unwrap(),
    ];
    assert_eq!(fields.len(), expected.len());
    for (f, e) in fields.iter().zip(expected.iter()) {
        assert!(same_field(f, e));
    }
}

#[test]
fn fields_come_in_registration_order_with_their_types() {
    let scheme = sample_scheme();
    let names: Vec<String> = scheme.fields().iter().map(|f| f.name()).collect();
    assert_eq!(names, vec!["x", "x.y.z0", "is_TCP", "map"]);
    assert_eq!(scheme.field_count(), 4);
    let f = scheme.get_field("map").unwrap();
    assert_eq!(f.get_type(), Type::MapOf(Box::new(Type::Bytes)));
    assert!(!f.optional());
    assert_eq!(f.index(), 3);
    assert!(scheme.get_field("nope").is_err());
}

#[test]
fn optional_fields_and_functions() {
    let mut builder = SchemeBuilder::new();
    builder.add_optional_field("opt", Type::Ip).unwrap();
    builder.add_function("lookup", LookupFunction::new()).unwrap();
    builder.add_function("answer", Constant).unwrap();
    let scheme = builder.build();
    let f = scheme.get_field("opt").unwrap();
    assert!(f.optional());
    assert_eq!(f.get_type(), Type::Ip);
    assert_eq!(scheme.function_count(), 2);
    let names: Vec<String> = scheme.functions().iter().map(|f| f.name()).collect();
    assert_eq!(names, vec!["lookup", "answer"]);
    assert_eq!(scheme.get_function("answer").unwrap().index(), 1);
    assert!(matches!(scheme.get_function("opt"), Err(UnknownFunctionError)));
    assert!(matches!(scheme.get_field("lookup"), Err(UnknownFieldError)));

    let (g, end) = FunctionRef::lex_with("lookup(", &scheme).unwrap();
    assert_eq!(g.name(), "lookup");
    assert_eq!(end, 6);
    match FunctionRef::lex_with("opt", &scheme) {
        Err(err) => assert_eq!(err, (LexErrorKind::UnknownFunction(UnknownFunctionError), 0, 3)),
        Ok(_) => panic!("a field was lexed as a function"),
    }
}

#[test]
fn a_name_is_registered_once() {
    let mut builder = SchemeBuilder::new();
    builder.add_function("f", Constant).unwrap();
    match builder.add_field("f", Type::Int) {
        Err(IdentifierRedefinitionError::Function(e)) => assert_eq!(e.name(), "f"),
        other => panic!("unexpected result {:?}", other),
    }
    match builder.add_function("f", LookupFunction::new()) {
        Err(IdentifierRedefinitionError::Function(e)) => assert_eq!(e.name(), "f"),
        other => panic!("unexpected result {:?}", other),
    }
    builder.add_field("g", Type::Int).unwrap();
    match builder.add_function("g", Constant) {
        Err(IdentifierRedefinitionError::Field(e)) => assert_eq!(e.name(), "g"),
        other => panic!("unexpected result {:?}", other),
    }
    let scheme = builder.build();
    assert_eq!(scheme.field_count(), 1);
    assert_eq!(scheme.function_count(), 1);
}

#[test]
fn lists_are_registered_once_per_type() {
    let mut builder = SchemeBuilder::new();
    builder.add_list(Type::Bytes, NoList).unwrap();
    builder.add_list(Type::Int, NoList).unwrap();
    match builder.add_list(Type::Bytes, NoList) {
        Err(e) => assert_eq!(e.ty(), &Type::Bytes),
        Ok(()) => panic!("a list was registered twice"),
    }
    let scheme = builder.build();
    assert_eq!(scheme.list_count(), 2);
    let list = scheme.get_list(&Type::Int).unwrap();
    assert_eq!(list.get_type(), Type::Int);
    assert!(scheme.get_list(&Type::Ip).is_none());
    let types: Vec<Type> = scheme.lists().iter().map(|l| l.get_type()).collect();
    assert_eq!(types, vec![Type::Bytes, Type::Int]);
}

#[test]
fn nil_not_equal_behavior_round_trip() {
    let scheme = SchemeBuilder::new().build();
    assert!(scheme.nil_not_equal_behavior());

    let mut builder = SchemeBuilder::new();
    builder.set_nil_not_equal_behavior(true);
    assert!(builder.build().nil_not_equal_behavior());

    let mut builder = SchemeBuilder::new();
    builder.set_nil_not_equal_behavior(false);
    assert!(!builder.build().nil_not_equal_behavior());
}

#[test]
fn shared_store_is_shared_by_builders_and_schemes() {
    let store = Arc::new(SchemeStore::new(false));
    let mut builder1 = SchemeBuilder::new_with_scheme_store(store.clone());
    builder1.add_field("ip.src", Type::Ip).unwrap();
    builder1.add_field("port", Type::Int).unwrap();
    let scheme1 = builder1.build();
    assert_eq!(store.field_count(), 2);
    assert!(Arc::ptr_eq(scheme1.scheme_store(), &store));

    let mut builder2 = SchemeBuilder::new_with_scheme_store(store.clone());
    builder2.add_field("port", Type::Int).unwrap();
    builder2.add_field("ip.protocol", Type::Int).unwrap();
    match builder2.add_field("ip.src", Type::Bytes) {
        Err(IdentifierRedefinitionError::FieldTypeMismatch(e)) => {
            assert_eq!(e.name(), "ip.src");
            assert_eq!(e.expected(), &Type::Ip);
            assert_eq!(e.got(), &Type::Bytes);
        },
        other => panic!("unexpected result {:?}", other),
    }
    let scheme2 = builder2.build();
    assert!(Arc::ptr_eq(scheme2.scheme_store(), &store));

    assert_eq!(scheme1.get_field("port").unwrap().index(), scheme2.get_field("port").unwrap().index());
    assert!(scheme1.get_field("ip.protocol").is_err());
    assert!(scheme2.get_field("ip.protocol").is_ok());
    assert!(scheme2.get_field("ip.src").is_err());
    assert_eq!(scheme2.field_count(), 2);
    assert_eq!(store.field_count(), 3);
    assert_eq!(store.get_field_index("ip.protocol"), Some(2));
    assert_eq!(store.index(2).name(), "ip.protocol");
    assert!(store.get(3).is_none());
    assert_eq!(scheme2.get_field("ip.protocol").unwrap().name(), "ip.protocol");
    assert_eq!(scheme2.get_field("ip.protocol").unwrap().get_type(), Type::Int);
}

#[test]
fn a_second_builder_sees_the_first_ones_fields() {
    let store = Arc::new(SchemeStore::new(false));
    let mut b1 = SchemeBuilder::new_with_scheme_store(store.clone());
    assert_eq!(b1.add_field("port", Type::Int), Ok(()));
    let mut b2 = SchemeBuilder::new_with_scheme_store(store.clone());
    match b2.add_field("port", Type::Bytes) {
        Err(IdentifierRedefinitionError::FieldTypeMismatch(e)) => {
            assert_eq!(e.name(), "port");
            assert_eq!(e.expected(), &Type::Int);
            assert_eq!(e.got(), &Type::Bytes);
        },
        other => panic!("unexpected result {:?}", other),
    }
    assert_eq!(store.field_count(), 1);
    assert!(b2.build().get_field("port").is_err());
}

#[test]
fn shared_functions_and_lists() {
    let store = Arc::new(SchemeStore::new(true));
    let mut b1 = SchemeBuilder::new_with_scheme_store(store.clone());
    b1.add_function("f", Constant).unwrap();
    b1.add_list(Type::Int, NoList).unwrap();
    let mut b2 = SchemeBuilder::new_with_scheme_store(store.clone());
    b2.add_function("g", Constant).unwrap();
    b2.add_function("f", LookupFunction::new()).unwrap();
    b2.add_list(Type::Int, NoList).unwrap();
    let s2 = b2.build();
    assert_eq!(store.function_count(), 2);
    assert_eq!(store.list_count(), 1);
    assert_eq!(s2.get_function("f").unwrap().index(), 0);
    assert_eq!(s2.get_function("g").unwrap().index(), 1);
    assert_eq!(s2.get_list(&Type::Int).unwrap().get_type(), Type::Int);
    assert!(!s2.nil_not_equal_behavior());
}

#[test]
fn owned_fields_and_functions() {
    let mut builder = SchemeBuilder::new();
    builder.add_field("a", Type::Bool).unwrap();
    builder.add_function("f", Constant).unwrap();
    let scheme = builder.build();
    let field = scheme.get_field("a").unwrap().to_owned();
    assert_eq!(field.name(), "a");
    assert_eq!(field.get_type(), Type::Bool);
    assert_eq!(field.as_ref().index(), 0);
    let function = scheme.get_function("f").unwrap().to_owned();
    assert_eq!(function.name(), "f");
    assert_eq!(function.as_ref().index(), 0);
}

#[test]
fn field_index_forms() {
    assert_eq!(FieldIndex::lex("*"), Ok((FieldIndex::MapEach, 1)));
    assert_eq!(FieldIndex::lex("42]"), Ok((FieldIndex::ArrayIndex(42), 2)));
    assert_eq!(FieldIndex::lex("0x10"), Ok((FieldIndex::ArrayIndex(16), 4)));
    assert_eq!(FieldIndex::lex("\"a\\x41\""), Ok((FieldIndex::MapKey("aA".into()), 7)));
    assert!(FieldIndex::lex("4294967296").is_err());
    assert!(FieldIndex::lex("\"abc").is_err());
}

#[test]
fn nil_behavior_is_the_last_setting() {
    let mut builder = SchemeBuilder::new();
    builder.set_nil_not_equal_behavior(false);
    assert_eq!(builder.add_field("a", Type::Int), Ok(()));
    builder.set_nil_not_equal_behavior(true);
    assert_eq!(builder.add_field("b", Type::Bytes), Ok(()));
    builder.set_nil_not_equal_behavior(false);
    let scheme = builder.build();
    assert!(!scheme.nil_not_equal_behavior());
    assert!(scheme.get_field("a").is_ok());
    assert!(scheme.get_field("c").is_err());
}

#[test]
fn a_fresh_builder_refuses_a_name_twice() {
    let mut builder = SchemeBuilder::new();
    assert_eq!(builder.add_field("foo", Type::Int), Ok(()));
    match builder.add_field("foo", Type::Bytes) {
        Err(IdentifierRedefinitionError::Field(e)) => assert_eq!(e.name(), "foo"),
        other => panic!("unexpected result {:?}", other),
    }
}
