use v8_derive::helpers::try_as_i32;
use v8_derive::host_map::{HostMap, StringMap};
use v8_derive::into::{IntoObject, IntoValue};
use v8_derive::value::Value;
use v8_derive::TryFromValue;

#[test]
fn can_convert_into_an_array() {
    let array = vec![1, 2, 3, 4, 5];
    let array_value = array.into_value();

    // take the value as an array
    let array = match &array_value {
        Value::Array(items) => items,
        _ => panic!("Expected an array"),
    };
    assert_eq!(array.len(), 5);
    for i in 0..5 {
        let value = &array[i];
        assert_eq!(try_as_i32(value).unwrap(), i as i32 + 1);
    }
}

#[test]
fn can_convert_into_a_js_map() {
    let map: StringMap<i32> = StringMap::from_entries(vec![
        ("one".to_string(), 1),
        ("two".to_string(), 2),
        ("three".to_string(), 3),
    ]);

    // Convert the map into a keyed collection
    let map_value: Value = map.into_value();
    assert!(matches!(map_value, Value::Mapping(_)));

    // decode the value as a map
    let map = StringMap::<i32>::try_from_value(&map_value).expect("Expected a map");
    assert_eq!(map.len(), 3);
    assert_eq!(map.get("one"), Some(&1));
}

#[test]
fn can_convert_into_a_js_object() {
    let map: StringMap<i32> = StringMap::from_entries(vec![
        ("one".to_string(), 1),
        ("two".to_string(), 2),
        ("three".to_string(), 3),
    ]);

    // Convert the map into a plain object
    let obj_value: Value = map.into_object();
    assert!(matches!(obj_value, Value::Object(_)));

    // decode the value as a map
    let map = StringMap::<i32>::try_from_value(&obj_value).expect("Expected a map");
    assert_eq!(map.len(), 3);
    assert_eq!(map.get("one"), Some(&1));
}

#[test]
fn can_convert_non_str_keys_into_a_js_object() {
    let map: HostMap<i32, String> = HostMap {
        entries: vec![(1, "one".to_string()), (2, "two".to_string()), (3, "three".to_string())],
    };

    // Convert the map into a plain object
    let obj_value: Value = map.into_object();
    assert!(matches!(obj_value, Value::Object(_)));

    // decode the value as a map
    let map = StringMap::<String>::try_from_value(&obj_value).expect("Expected a map");
    assert_eq!(map.len(), 3);
    assert_eq!(map.get("1"), Some(&"one".to_string()));
}

#[test]
fn can_convert_non_str_keys_into_a_js_map() {
    let map: HostMap<i32, String> = HostMap {
        entries: vec![(1, "one".to_string()), (2, "two".to_string()), (3, "three".to_string())],
    };

    // Convert the map into a keyed collection
    let obj_value: Value = map.into_value();
    assert!(matches!(obj_value, Value::Mapping(_)));

    // decode the value as a map
    let map = StringMap::<String>::try_from_value(&obj_value).expect("Expected a map");
    assert_eq!(map.len(), 3);
    assert_eq!(map.get("1"), Some(&"one".to_string()));
}

#[test]
fn can_convert_into_a_string_type_js_map() {
    let map: StringMap<String> = StringMap::from_entries(vec![
        ("one".to_string(), "1".to_string()),
        ("two".to_string(), "2".to_string()),
        ("three".to_string(), "3".to_string()),
    ]);

    // Convert the map into a keyed collection
    let map_value: Value = map.into_value();

    // decode the value as a map
    let map = StringMap::<String>::try_from_value(&map_value).expect("Expected a map");
    assert_eq!(map.len(), 3);
    assert_eq!(map.get("one"), Some(&"1".to_string()));
}

#[test]
fn a_scalar_is_encoded_as_its_own_kind() {
    assert_eq!(true.into_value(), Value::Boolean(true));
    assert_eq!((-7i8).into_value(), Value::Int32(-7));
    assert_eq!(i32::MIN.into_value(), Value::Int32(i32::MIN));
    assert_eq!(u32::MAX.into_value(), Value::UInt32(u32::MAX));
    assert_eq!("hé".to_string().into_value(), Value::String("hé".to_string()));
    assert_eq!(String::new().into_value(), Value::String(String::new()));
}

#[test]
fn an_absent_option_is_encoded_as_null() {
    assert_eq!(None::<i32>.into_value(), Value::Null);
    assert_eq!(Some(5i32).into_value(), Value::Int32(5));
    assert_eq!(Some("x".to_string()).into_value(), Value::String("x".to_string()));
}

#[test]
fn an_empty_list_is_encoded_as_an_empty_array() {
    assert_eq!(Vec::<i32>::new().into_value(), Value::Array(vec![]));
}

#[test]
fn a_nested_list_is_encoded_element_by_element() {
    let lists = vec![vec![1u32], vec![], vec![2, 3]];
    assert_eq!(
        lists.into_value(),
        Value::Array(vec![
            Value::Array(vec![Value::UInt32(1)]),
            Value::Array(vec![]),
            Value::Array(vec![Value::UInt32(2), Value::UInt32(3)]),
        ])
    );
}

#[test]
fn a_keyed_collection_keeps_each_key_in_its_own_kind() {
    let map: HostMap<i32, bool> = HostMap { entries: vec![(2, true), (-1, false)] };
    assert_eq!(
        map.into_value(),
        Value::Mapping(vec![
            (Value::Int32(2), Value::Boolean(true)),
            (Value::Int32(-1), Value::Boolean(false)),
        ])
    );
}

#[test]
fn a_plain_object_names_each_property_by_the_text_of_its_key() {
    let map: HostMap<i32, bool> = HostMap { entries: vec![(2, true), (-1, false)] };
    assert_eq!(
        map.into_object(),
        Value::Object(vec![
            ("2".to_string(), Value::Boolean(true)),
            ("-1".to_string(), Value::Boolean(false)),
        ])
    );
}

#[test]
fn a_later_entry_of_the_same_name_replaces_the_property() {
    let map: HostMap<String, i32> = HostMap {
        entries: vec![("a".to_string(), 1), ("b".to_string(), 2), ("a".to_string(), 3)],
    };
    assert_eq!(
        map.into_object(),
        Value::Object(vec![
            ("a".to_string(), Value::Int32(3)),
            ("b".to_string(), Value::Int32(2)),
        ])
    );
}

#[test]
fn keys_of_different_kinds_with_one_text_set_one_property() {
    let map: HostMap<Option<String>, i32> = HostMap {
        entries: vec![(None, 1), (Some("null".to_string()), 2)],
    };
    assert_eq!(map.into_object(), Value::Object(vec![("null".to_string(), Value::Int32(2))]));
}

#[test]
fn an_entry_whose_key_has_no_text_sets_no_property() {
    let map: HostMap<Vec<i32>, i32> = HostMap { entries: vec![(vec![1], 1), (vec![], 2)] };
    assert_eq!(map.into_object(), Value::Object(vec![]));
}

#[test]
fn a_string_map_is_encoded_in_the_order_of_its_keys() {
    let mut map: StringMap<u32> = StringMap::new();
    map.insert("b".to_string(), 1);
    map.insert("a".to_string(), 2);
    map.insert("b".to_string(), 3);
    assert_eq!(
        map.into_value(),
        Value::Mapping(vec![
            (Value::String("b".to_string()), Value::UInt32(3)),
            (Value::String("a".to_string()), Value::UInt32(2)),
        ])
    );
}
