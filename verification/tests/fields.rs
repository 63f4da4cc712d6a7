use v8_derive::errors::Error;
use v8_derive::helpers::{
    get_field_as, get_optional_field_as, lookup_field, try_as_bool, try_as_i32, try_as_string,
    try_as_vec,
};
use v8_derive::value::{Value, MAX_STRING_LENGTH};

fn person() -> Value {
    Value::Object(vec![
        ("name".to_string(), Value::String("Ada".to_string())),
        ("age".to_string(), Value::Int32(36)),
        ("nickname".to_string(), Value::Null),
        ("motto".to_string(), Value::Undefined),
        ("admin".to_string(), Value::Boolean(true)),
        ("scores".to_string(), Value::Array(vec![Value::Int32(1), Value::Int32(2)])),
    ])
}

#[test]
fn a_required_field_is_looked_up_and_decoded() {
    assert_eq!(get_field_as("name", &person(), try_as_string), Ok("Ada".to_string()));
    assert_eq!(get_field_as("age", &person(), try_as_i32), Ok(36));
    assert_eq!(get_field_as("admin", &person(), try_as_bool), Ok(true));
    assert_eq!(get_field_as("scores", &person(), try_as_vec::<i32>), Ok(vec![1, 2]));
}

#[test]
fn a_field_lookup_returns_the_raw_value() {
    let object = person();
    assert_eq!(lookup_field("age", &object), Ok(&Value::Int32(36)));
    assert_eq!(lookup_field("nickname", &object), Ok(&Value::Null));
    assert_eq!(lookup_field("motto", &object), Ok(&Value::Undefined));
}

#[test]
fn a_missing_required_field_fails_with_field_not_found() {
    assert_eq!(
        get_field_as("email", &person(), try_as_string),
        Err(Error::FieldNotFound("email".to_string()))
    );
    assert_eq!(
        get_field_as("Name", &person(), try_as_string),
        Err(Error::FieldNotFound("Name".to_string()))
    );
    assert_eq!(
        get_field_as("", &Value::Object(vec![]), try_as_string),
        Err(Error::FieldNotFound(String::new()))
    );
}

#[test]
fn a_field_of_the_wrong_kind_fails_as_its_decoder_does() {
    assert_eq!(get_field_as("admin", &person(), try_as_string), Err(Error::ExpectedString));
    assert_eq!(get_field_as("name", &person(), try_as_i32), Err(Error::ExpectedI32));
    assert_eq!(get_field_as("nickname", &person(), try_as_string), Err(Error::ExpectedString));
}

#[test]
fn a_field_of_a_value_that_is_no_object_fails_with_expected_object() {
    for value in [
        Value::Undefined,
        Value::Null,
        Value::Boolean(true),
        Value::Int32(1),
        Value::UInt32(1),
        Value::Float64(0),
        Value::String("name".to_string()),
        Value::Other,
        Value::Unresolved,
    ] {
        assert_eq!(get_field_as("name", &value, try_as_string), Err(Error::ExpectedObject));
        assert_eq!(
            get_optional_field_as("name", &value, try_as_string),
            Err(Error::ExpectedObject)
        );
    }
}

#[test]
fn an_array_and_a_keyed_collection_have_no_named_property() {
    let array = Value::Array(vec![Value::Int32(1)]);
    let mapping =
        Value::Mapping(vec![(Value::String("name".to_string()), Value::String("x".to_string()))]);
    assert_eq!(
        get_field_as("0", &array, try_as_i32),
        Err(Error::FieldNotFound("0".to_string()))
    );
    assert_eq!(
        get_field_as("name", &mapping, try_as_string),
        Err(Error::FieldNotFound("name".to_string()))
    );
    assert_eq!(get_optional_field_as("name", &mapping, try_as_string), Ok(None));
}

#[test]
fn an_optional_field_that_is_missing_has_no_value() {
    let object = Value::Object(vec![("other".to_string(), Value::Int32(5))]);
    assert_eq!(get_optional_field_as("k", &object, try_as_i32), Ok(None));
    assert_eq!(get_optional_field_as("k", &Value::Object(vec![]), try_as_i32), Ok(None));
}

#[test]
fn an_optional_field_that_is_null_has_no_value() {
    let object = Value::Object(vec![("k".to_string(), Value::Null)]);
    assert_eq!(get_optional_field_as("k", &object, try_as_i32), Ok(None));
    let object = Value::Object(vec![("k".to_string(), Value::Undefined)]);
    assert_eq!(get_optional_field_as("k", &object, try_as_i32), Ok(None));
}

#[test]
fn an_optional_field_that_is_present_has_its_value() {
    let object = Value::Object(vec![("k".to_string(), Value::Int32(5))]);
    assert_eq!(get_optional_field_as("k", &object, try_as_i32), Ok(Some(5)));
}

#[test]
fn an_optional_field_of_the_wrong_kind_fails_as_its_decoder_does() {
    let object = Value::Object(vec![("k".to_string(), Value::String("5".to_string()))]);
    assert_eq!(get_optional_field_as("k", &object, try_as_i32), Err(Error::ExpectedI32));
}

#[test]
fn the_first_property_of_a_name_is_the_one_found() {
    let object = Value::Object(vec![
        ("k".to_string(), Value::Int32(1)),
        ("k".to_string(), Value::Int32(2)),
    ]);
    assert_eq!(get_field_as("k", &object, try_as_i32), Ok(1));
}

#[test]
fn a_name_that_the_runtime_cannot_hold_is_an_invalid_field() {
    let longest = "a".repeat(MAX_STRING_LENGTH);
    let object = Value::Object(vec![("k".to_string(), Value::Int32(1))]);
    assert!(matches!(
        get_field_as(&longest, &object, try_as_i32),
        Err(Error::FieldNotFound(_))
    ));
    let too_long = "a".repeat(MAX_STRING_LENGTH + 1);
    match get_field_as(&too_long, &object, try_as_i32) {
        Err(Error::InvalidField(name)) => assert_eq!(name.len(), MAX_STRING_LENGTH + 1),
        other => panic!("{:?}", other.map(|_| ()).map_err(|e| e.message().len())),
    }
    assert!(matches!(
        get_optional_field_as(&too_long, &object, try_as_i32),
        Err(Error::InvalidField(_))
    ));
    // the kind is tested before the name
    assert_eq!(get_field_as(&too_long, &Value::Null, try_as_i32), Err(Error::ExpectedObject));
}

#[test]
fn a_property_that_the_runtime_did_not_hand_out_is_not_found() {
    let object = Value::Object(vec![
        ("k".to_string(), Value::Unresolved),
        ("l".to_string(), Value::Int32(1)),
    ]);
    assert_eq!(lookup_field("k", &object), Err(Error::FieldNotFound("k".to_string())));
    assert_eq!(
        get_field_as("k", &object, try_as_i32),
        Err(Error::FieldNotFound("k".to_string()))
    );
    assert_eq!(get_optional_field_as("k", &object, try_as_i32), Ok(None));
    assert_eq!(get_field_as("l", &object, try_as_i32), Ok(1));
}

#[test]
fn an_object_whose_properties_are_not_named_has_no_field() {
    assert_eq!(
        get_field_as("k", &Value::OpaqueObject, try_as_i32),
        Err(Error::FieldNotFound("k".to_string()))
    );
    assert_eq!(get_optional_field_as("k", &Value::OpaqueObject, try_as_i32), Ok(None));
}
