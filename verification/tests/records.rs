use v8_derive::errors::{Error, ErrorModel};
use v8_derive::generator::{
    into_value, try_from_value, FieldDecl, FieldDecoder, PathArguments, PathSegment, RecordDecl,
    ScalarKind, TypeExpr, TypePath,
};
use v8_derive::helpers::{
    get_field_as, get_optional_field_as, try_as_bool, try_as_i32, try_as_string,
};
use v8_derive::host_map::StringMap;
use v8_derive::into::{object_set, IntoValue};
use v8_derive::value::{Value, ValueModel};
use v8_derive::{DeepView, TryFromValue};

// A record type of the host, with its decoder and its encoder written out as
// the plans of the generator lay them down.
#[derive(Debug, PartialEq, Clone)]
struct Person {
    name: String,
    age: i32,
    nickname: Option<String>,
    admin: bool,
}

impl DeepView for Person {
    type V = ();

    fn deep_view(&self) {}
}

impl TryFromValue for Person {
    fn decoded(_: ValueModel) -> Result<(), ErrorModel> {
        Ok(())
    }

    fn try_from_value(input: &Value) -> Result<Self, Error> {
        Ok(Person {
            name: get_field_as("name", input, try_as_string)?,
            age: get_field_as("age", input, try_as_i32)?,
            nickname: get_optional_field_as("nickname", input, try_as_string)?,
            admin: get_field_as("admin", input, try_as_bool)?,
        })
    }
}

impl IntoValue for Person {
    fn encoded(self) -> ValueModel {
        ValueModel::Other
    }

    fn into_value(self) -> Value {
        let mut props = Vec::new();
        object_set(&mut props, "name".to_string(), self.name.into_value());
        object_set(&mut props, "age".to_string(), self.age.into_value());
        object_set(&mut props, "nickname".to_string(), self.nickname.into_value());
        object_set(&mut props, "admin".to_string(), self.admin.into_value());
        Value::Object(props)
    }
}

fn named(ident: &str) -> TypeExpr {
    TypeExpr::Path(TypePath {
        qualified: false,
        segments: vec![PathSegment { ident: ident.to_string(), arguments: PathArguments::Empty }],
    })
}

fn ada() -> Person {
    Person { name: "Ada".to_string(), age: 36, nickname: None, admin: true }
}

fn alan() -> Person {
    Person { name: "Alan".to_string(), age: 41, nickname: Some("Al".to_string()), admin: false }
}

#[test]
fn the_written_out_decoder_follows_the_plan() {
    let record = RecordDecl {
        ident: "Person".to_string(),
        fields: vec![
            FieldDecl { ident: Some("name".to_string()), ty: named("String") },
            FieldDecl { ident: Some("age".to_string()), ty: named("i32") },
            FieldDecl {
                ident: Some("nickname".to_string()),
                ty: TypeExpr::Path(TypePath {
                    qualified: false,
                    segments: vec![PathSegment {
                        ident: "Option".to_string(),
                        arguments: PathArguments::AngleBracketed(vec![
                            v8_derive::generator::GenericArgument::Type(named("String")),
                        ]),
                    }],
                }),
            },
            FieldDecl { ident: Some("admin".to_string()), ty: named("bool") },
        ],
    };
    let steps: Vec<(String, &str, &str)> = try_from_value(&record)
        .fields
        .iter()
        .map(|step: &FieldDecoder| (step.name.clone(), step.lookup(), step.kind.helper()))
        .collect();
    assert_eq!(
        steps,
        vec![
            ("name".to_string(), "get_field_as", "try_as_string"),
            ("age".to_string(), "get_field_as", "try_as_i32"),
            ("nickname".to_string(), "get_optional_field_as", "try_as_string"),
            ("admin".to_string(), "get_field_as", "try_as_bool"),
        ]
    );
    assert_eq!(try_from_value(&record).fields[2].kind, ScalarKind::String);
    assert_eq!(into_value(&record).fields, vec!["name", "age", "nickname", "admin"]);
}

#[test]
fn a_record_is_encoded_as_a_plain_object() {
    assert_eq!(
        alan().into_value(),
        Value::Object(vec![
            ("name".to_string(), Value::String("Alan".to_string())),
            ("age".to_string(), Value::Int32(41)),
            ("nickname".to_string(), Value::String("Al".to_string())),
            ("admin".to_string(), Value::Boolean(false)),
        ])
    );
}

#[test]
fn a_record_comes_back_from_its_encoding() {
    for person in [ada(), alan()] {
        assert_eq!(Person::try_from_value(&person.clone().into_value()), Ok(person));
    }
}

#[test]
fn a_record_is_decoded_from_an_object_with_more_properties() {
    let value = Value::Object(vec![
        ("extra".to_string(), Value::Other),
        ("admin".to_string(), Value::Boolean(true)),
        ("age".to_string(), Value::Int32(36)),
        ("name".to_string(), Value::String("Ada".to_string())),
    ]);
    assert_eq!(Person::try_from_value(&value), Ok(ada()));
}

#[test]
fn a_record_fails_with_the_failure_of_its_first_bad_field() {
    let value = Value::Object(vec![
        ("name".to_string(), Value::String("Ada".to_string())),
        ("admin".to_string(), Value::Int32(1)),
    ]);
    assert_eq!(Person::try_from_value(&value), Err(Error::FieldNotFound("age".to_string())));
    let value = Value::Object(vec![
        ("name".to_string(), Value::Boolean(true)),
        ("age".to_string(), Value::Int32(36)),
        ("admin".to_string(), Value::Boolean(true)),
    ]);
    assert_eq!(Person::try_from_value(&value), Err(Error::ExpectedString));
    assert_eq!(Person::try_from_value(&Value::Null), Err(Error::ExpectedObject));
}

#[test]
fn records_are_decoded_inside_sequences_and_mappings() {
    let people = vec![ada(), alan()];
    let value = people.clone().into_value();
    assert_eq!(Vec::<Person>::try_from_value(&value), Ok(people));

    let staff = StringMap::from_entries(vec![
        ("first".to_string(), ada()),
        ("second".to_string(), alan()),
    ]);
    let back = StringMap::<Person>::try_from_value(&staff.into_value()).unwrap();
    assert_eq!(back.len(), 2);
    assert_eq!(back.get("second"), Some(&alan()));
}

// The double that the engine decoded by its bits.
fn double_of(input: &Value) -> Result<f64, Error> {
    v8_derive::helpers::try_as_f64(input).map(f64::from_bits)
}

// The single-precision number of the double that the engine decoded.
fn single_of(input: &Value) -> Result<f32, Error> {
    v8_derive::helpers::try_as_f64(input).map(|bits| f64::from_bits(bits) as f32)
}

#[test]
fn a_field_of_a_floating_type_is_decoded_from_the_bits_of_a_double() {
    let reading = Value::Object(vec![
        ("celsius".to_string(), Value::Float64(21.5f64.to_bits())),
        ("weight".to_string(), Value::Float64(0.1f64.to_bits())),
        ("count".to_string(), Value::Int32(3)),
    ]);
    assert_eq!(get_field_as("celsius", &reading, double_of), Ok(21.5));
    assert_eq!(get_field_as("weight", &reading, single_of), Ok(0.1f32));
    assert_eq!(get_optional_field_as("celsius", &reading, single_of), Ok(Some(21.5f32)));
    assert_eq!(get_optional_field_as("kelvin", &reading, double_of), Ok(None));
    assert_eq!(get_field_as("count", &reading, double_of), Err(Error::ExpectedF64));
}
