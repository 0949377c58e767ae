use wirefilter_scheme::functions::lookup::{lookup_impl, LookupFunction};
use wirefilter_scheme::functions::FunctionDefinition;
use wirefilter_scheme::types::{Array, LhsValue, Type};

fn bytes_array(items: &[&str]) -> Array {
    let values: Vec<LhsValue> = items.iter().map(|s| LhsValue::bytes_of(s)).collect();
    Array::try_from_vec(Type::Bytes, values).unwrap()
}

#[test]
fn test_lookup_fn_basic() {
    let lookup_arr = LhsValue::Array(bytes_array(&["Accept", "Content-Type"]));
    let return_arr = LhsValue::Array(bytes_array(&["json", "html"]));
    let args = vec![Ok(LhsValue::bytes_of("Content-Type")), Ok(lookup_arr), Ok(return_arr)];
    let result = lookup_impl(args);

    let expected = bytes_array(&["html"]);
    assert_eq!(result, Some(LhsValue::Array(expected)));
}

#[test]
fn test_lookup_fn_multi_search() {
    let lookup_arr = LhsValue::Array(bytes_array(&["a", "b", "c"]));
    let return_arr = LhsValue::Array(bytes_array(&["1", "2", "3"]));
    let args = vec![
        Ok(LhsValue::bytes_of("a")),
        Ok(LhsValue::bytes_of("c")),
        Ok(lookup_arr),
        Ok(return_arr),
    ];
    let result = lookup_impl(args);

    let expected = bytes_array(&["1", "3"]);
    assert_eq!(result, Some(LhsValue::Array(expected)));
}

#[test]
fn test_lookup_fn_not_found() {
    let lookup_arr = LhsValue::Array(bytes_array(&["a", "b"]));
    let return_arr = LhsValue::Array(bytes_array(&["1", "2"]));
    let args = vec![Ok(LhsValue::bytes_of("z")), Ok(lookup_arr), Ok(return_arr)];
    let result = lookup_impl(args);

    let expected = Array::new(Type::Bytes);
    assert_eq!(result, Some(LhsValue::Array(expected)));
}

#[test]
fn lookup_absent_search_array_gives_nothing() {
    let return_arr = LhsValue::Array(bytes_array(&["1", "2"]));
    let args = vec![
        Ok(LhsValue::bytes_of("a")),
        Err(Type::Array(Box::new(Type::Bytes))),
        Ok(return_arr),
    ];
    assert_eq!(lookup_impl(args), None);
}

#[test]
fn lookup_absent_return_array_gives_nothing() {
    let lookup_arr = LhsValue::Array(bytes_array(&["a", "b"]));
    let args = vec![
        Ok(LhsValue::bytes_of("a")),
        Ok(lookup_arr),
        Err(Type::Array(Box::new(Type::Int))),
    ];
    assert_eq!(lookup_impl(args), None);
}

#[test]
fn lookup_skips_absent_search_values_and_repeats_matches() {
    let lookup_arr = LhsValue::Array(bytes_array(&["a", "b", "a"]));
    let return_arr = LhsValue::Array(Array::try_from_vec(Type::Int, vec![LhsValue::Int(1), LhsValue::Int(2), LhsValue::Int(3)]).unwrap());
    let args = vec![Err(Type::Bytes), Ok(LhsValue::bytes_of("a")), Ok(lookup_arr), Ok(return_arr)];
    let expected = Array::try_from_vec(Type::Int, vec![LhsValue::Int(1), LhsValue::Int(3)]).unwrap();
    assert_eq!(lookup_impl(args), Some(LhsValue::Array(expected)));
}

#[test]
fn lookup_ignores_positions_past_the_return_array() {
    let lookup_arr = LhsValue::Array(bytes_array(&["a", "b", "c"]));
    let return_arr = LhsValue::Array(bytes_array(&["1"]));
    let args = vec![Ok(LhsValue::bytes_of("c")), Ok(LhsValue::bytes_of("a")), Ok(lookup_arr), Ok(return_arr)];
    assert_eq!(lookup_impl(args), Some(LhsValue::Array(bytes_array(&["1"]))));
}

#[test]
fn lookup_compares_values_of_other_types() {
    let lookup_arr = LhsValue::Array(Array::try_from_vec(Type::Int, vec![LhsValue::Int(7), LhsValue::Int(8)]).unwrap());
    let return_arr = LhsValue::Array(Array::try_from_vec(Type::Bool, vec![LhsValue::Bool(false), LhsValue::Bool(true)]).unwrap());
    let args = vec![Ok(LhsValue::Int(8)), Ok(LhsValue::bytes_of("7")), Ok(lookup_arr), Ok(return_arr)];
    let expected = Array::try_from_vec(Type::Bool, vec![LhsValue::Bool(true)]).unwrap();
    assert_eq!(lookup_impl(args), Some(LhsValue::Array(expected)));
}

#[test]
fn lookup_function_signature() {
    let f = LookupFunction::new();
    assert_eq!(f.arg_count(), (3, None));
    assert_eq!(f.return_type(&[]), Type::Array(Box::new(Type::Bytes)));
    let params = [Type::Bytes, Type::Array(Box::new(Type::Bytes)), Type::Array(Box::new(Type::Int))];
    assert_eq!(f.return_type(&params), Type::Array(Box::new(Type::Int)));
}

#[test]
fn lookup_absent_search_array_ignores_the_last_argument() {
    let args = vec![
        Ok(LhsValue::bytes_of("a")),
        Err(Type::Array(Box::new(Type::Bytes))),
        Ok(LhsValue::bytes_of("not an array")),
    ];
    assert_eq!(lookup_impl(args), None);
}
