use v8_derive::errors::Error;
use v8_derive::into::IntoValue;
use v8_derive::json::{from_json, is_finite, to_json, Json, Number};
use v8_derive::value::{BigInt, Value};

fn text(s: &str) -> Value {
    Value::String(s.to_string())
}

#[test]
fn a_nested_structure_converts_to_json_and_back() {
    // {"a":[1,2,{"b":"x"}],"c":null}
    let value = Value::Object(vec![
        (
            "a".to_string(),
            Value::Array(vec![
                Value::Int32(1),
                Value::Int32(2),
                Value::Object(vec![("b".to_string(), text("x"))]),
            ]),
        ),
        ("c".to_string(), Value::Null),
    ]);
    let json = to_json(&value).unwrap();
    assert_eq!(
        json,
        Json::Object(vec![
            (
                "a".to_string(),
                Json::Array(vec![
                    Json::Number(Number::PosInt(1)),
                    Json::Number(Number::PosInt(2)),
                    Json::Object(vec![("b".to_string(), Json::String("x".to_string()))]),
                ]),
            ),
            ("c".to_string(), Json::Null),
        ])
    );
    assert_eq!(from_json(json), value);
}

#[test]
fn a_scalar_converts_to_its_json_form() {
    assert_eq!(to_json(&text("s")), Ok(Json::String("s".to_string())));
    assert_eq!(to_json(&Value::Int32(5)), Ok(Json::Number(Number::PosInt(5))));
    assert_eq!(to_json(&Value::Int32(0)), Ok(Json::Number(Number::PosInt(0))));
    assert_eq!(to_json(&Value::Int32(-5)), Ok(Json::Number(Number::NegInt(-5))));
    assert_eq!(to_json(&Value::Int32(i32::MIN)), Ok(Json::Number(Number::NegInt(i32::MIN as i64))));
    assert_eq!(
        to_json(&Value::UInt32(u32::MAX)),
        Ok(Json::Number(Number::PosInt(u32::MAX as u64)))
    );
    assert_eq!(to_json(&Value::Boolean(true)), Ok(Json::Bool(true)));
    assert_eq!(to_json(&Value::Null), Ok(Json::Null));
}

#[test]
fn a_big_integer_converts_by_its_low_64_bits() {
    let big = |negative: bool, words: Vec<u64>| Value::BigInt(BigInt { negative, words });
    assert_eq!(to_json(&big(false, vec![7])), Ok(Json::Number(Number::PosInt(7))));
    assert_eq!(to_json(&big(true, vec![7])), Ok(Json::Number(Number::NegInt(-7))));
    assert_eq!(to_json(&big(false, vec![7, 1])), Ok(Json::Number(Number::PosInt(7))));
    assert_eq!(to_json(&big(false, vec![u64::MAX])), Ok(Json::Number(Number::NegInt(-1))));
}

#[test]
fn a_double_converts_to_a_number_where_it_is_finite() {
    for x in [0.0f64, -0.0, 1.5, f64::MIN, f64::MAX, f64::MIN_POSITIVE, 5e-324] {
        assert!(is_finite(x.to_bits()));
        assert_eq!(
            to_json(&Value::Float64(x.to_bits())),
            Ok(Json::Number(Number::Float(x.to_bits())))
        );
    }
    for x in [f64::NAN, f64::INFINITY, f64::NEG_INFINITY] {
        assert!(!is_finite(x.to_bits()));
        assert_eq!(to_json(&Value::Float64(x.to_bits())), Ok(Json::Null));
    }
}

#[test]
fn an_unsupported_kind_fails() {
    assert_eq!(to_json(&Value::Undefined), Err(Error::UnsupportedValueType));
    assert_eq!(to_json(&Value::Mapping(vec![])), Err(Error::UnsupportedValueType));
    assert_eq!(to_json(&Value::Other), Err(Error::UnsupportedValueType));
    assert_eq!(to_json(&Value::Unresolved), Err(Error::UnsupportedValueType));
}

#[test]
fn an_element_that_the_runtime_did_not_hand_out_becomes_null() {
    let array = Value::Array(vec![Value::Int32(1), Value::Unresolved, Value::Boolean(true)]);
    assert_eq!(
        to_json(&array),
        Ok(Json::Array(vec![Json::Number(Number::PosInt(1)), Json::Null, Json::Bool(true)]))
    );
}

#[test]
fn a_property_that_the_runtime_did_not_hand_out_fails_the_object() {
    let object = Value::Object(vec![
        ("a".to_string(), Value::Int32(1)),
        ("b".to_string(), Value::Unresolved),
        ("c".to_string(), Value::Undefined),
    ]);
    assert_eq!(to_json(&object), Err(Error::ExpectedObject));
}

#[test]
fn a_json_array_fails_with_the_failure_of_its_first_bad_element() {
    let array = Value::Array(vec![Value::Int32(1), Value::Undefined, Value::Other]);
    assert_eq!(to_json(&array), Err(Error::UnsupportedValueType));
    let object = Value::Object(vec![
        ("a".to_string(), Value::Int32(1)),
        ("b".to_string(), Value::Array(vec![Value::Mapping(vec![])])),
    ]);
    assert_eq!(to_json(&object), Err(Error::UnsupportedValueType));
}

#[test]
fn an_empty_array_and_an_empty_object_convert_to_their_like() {
    assert_eq!(to_json(&Value::Array(vec![])), Ok(Json::Array(vec![])));
    assert_eq!(to_json(&Value::Object(vec![])), Ok(Json::Object(vec![])));
    assert_eq!(from_json(Json::Array(vec![])), Value::Array(vec![]));
    assert_eq!(from_json(Json::Object(vec![])), Value::Object(vec![]));
}

#[test]
fn a_json_number_is_rebuilt_as_the_narrowest_kind() {
    let rebuilt = |n: Number| from_json(Json::Number(n));
    assert_eq!(rebuilt(Number::PosInt(0)), Value::Int32(0));
    assert_eq!(rebuilt(Number::PosInt(i32::MAX as u64)), Value::Int32(i32::MAX));
    assert_eq!(rebuilt(Number::PosInt(i32::MAX as u64 + 1)), Value::UInt32(i32::MAX as u32 + 1));
    assert_eq!(rebuilt(Number::PosInt(u32::MAX as u64)), Value::UInt32(u32::MAX));
    assert_eq!(
        rebuilt(Number::PosInt(u32::MAX as u64 + 1)),
        Value::BigInt(BigInt { negative: false, words: vec![u32::MAX as u64 + 1] })
    );
    assert_eq!(rebuilt(Number::NegInt(-1)), Value::Int32(-1));
    assert_eq!(rebuilt(Number::NegInt(i32::MIN as i64)), Value::Int32(i32::MIN));
    assert_eq!(
        rebuilt(Number::NegInt(i32::MIN as i64 - 1)),
        Value::BigInt(BigInt { negative: true, words: vec![i32::MAX as u64 + 2] })
    );
    assert_eq!(rebuilt(Number::Float(1.5f64.to_bits())), Value::Float64(1.5f64.to_bits()));
    assert_eq!(Number::Float(7).into_value(), Value::Float64(7));
}

#[test]
fn a_json_tree_comes_back_from_the_runtime() {
    let tree = || {
        Json::Object(vec![
            ("n".to_string(), Json::Number(Number::NegInt(i64::MIN))),
            ("p".to_string(), Json::Number(Number::PosInt(i64::MAX as u64))),
            ("u".to_string(), Json::Number(Number::PosInt(3_000_000_000))),
            ("x".to_string(), Json::Number(Number::Float(2.5f64.to_bits()))),
            ("s".to_string(), Json::String("text".to_string())),
            ("l".to_string(), Json::Array(vec![Json::Bool(false), Json::Null, Json::Array(vec![])])),
            ("o".to_string(), Json::Object(vec![("".to_string(), Json::Object(vec![]))])),
        ])
    };
    assert_eq!(to_json(&from_json(tree())), Ok(tree()));
    assert_eq!(to_json(&tree().into_value()), Ok(tree()));
}

#[test]
fn a_member_set_twice_counts_once() {
    let json = Json::Object(vec![
        ("a".to_string(), Json::Bool(true)),
        ("b".to_string(), Json::Null),
        ("a".to_string(), Json::Bool(false)),
    ]);
    assert_eq!(
        from_json(json),
        Value::Object(vec![("a".to_string(), Value::Boolean(false)), ("b".to_string(), Value::Null)])
    );
}

#[test]
fn an_integer_number_holds_no_sign_where_it_has_none() {
    assert_eq!(Number::from_i64(0), Number::PosInt(0));
    assert_eq!(Number::from_i64(i64::MAX), Number::PosInt(i64::MAX as u64));
    assert_eq!(Number::from_i64(-1), Number::NegInt(-1));
    assert_eq!(Number::from_i64(i64::MIN), Number::NegInt(i64::MIN));
}

#[test]
fn an_object_whose_properties_are_not_named_fails_the_bridge() {
    assert_eq!(to_json(&Value::OpaqueObject), Err(Error::FailedToGetPropertyNames));
    let array = Value::Array(vec![Value::Null, Value::OpaqueObject]);
    assert_eq!(to_json(&array), Err(Error::FailedToGetPropertyNames));
}
