use v8_derive::generator::{
    get_ident, into_value, option_type, quote_get_field_as, same_text, try_from_value,
    DecoderPlan, EncoderPlan, FieldDecl, FieldDecoder, GenericArgument, PathArguments,
    PathSegment, RecordDecl, ScalarKind, TypeExpr, TypePath,
};

fn segment(ident: &str) -> PathSegment {
    PathSegment { ident: ident.to_string(), arguments: PathArguments::Empty }
}

fn generic(ident: &str, args: Vec<GenericArgument>) -> PathSegment {
    PathSegment { ident: ident.to_string(), arguments: PathArguments::AngleBracketed(args) }
}

fn path(segments: Vec<PathSegment>) -> TypeExpr {
    TypeExpr::Path(TypePath { qualified: false, segments })
}

fn named(ident: &str) -> TypeExpr {
    path(vec![segment(ident)])
}

fn option_of(inner: TypeExpr) -> TypeExpr {
    path(vec![generic("Option", vec![GenericArgument::Type(inner)])])
}

fn field(ident: &str, ty: TypeExpr) -> FieldDecl {
    FieldDecl { ident: Some(ident.to_string()), ty }
}

fn step(name: &str, kind: ScalarKind, optional: bool) -> FieldDecoder {
    FieldDecoder { name: name.to_string(), kind, optional }
}

#[test]
fn every_type_of_the_table_resolves_to_its_scalar() {
    let table = [
        ("String", ScalarKind::String, "try_as_string"),
        ("bool", ScalarKind::Boolean, "try_as_bool"),
        ("i32", ScalarKind::Int32, "try_as_i32"),
        ("i64", ScalarKind::Int64, "try_as_i64"),
        ("f64", ScalarKind::Float64, "try_as_f64"),
        ("f32", ScalarKind::Float32, "try_as_f32"),
        ("u32", ScalarKind::UInt32, "try_as_u32"),
    ];
    for (ident, kind, helper) in table {
        assert_eq!(ScalarKind::of_ident(ident), Some(kind));
        assert_eq!(kind.helper(), helper);
        let declared = field("x", named(ident));
        assert_eq!(quote_get_field_as(ident, "x", &declared, false), Some(step("x", kind, false)));
        assert_eq!(quote_get_field_as(ident, "x", &declared, true), Some(step("x", kind, true)));
    }
    for ident in ["", "string", "Bool", "i8", "u64", "usize", "Vec", "Option", "str", "i32 "] {
        assert_eq!(ScalarKind::of_ident(ident), None);
    }
}

#[test]
fn a_step_names_its_lookup() {
    assert_eq!(step("x", ScalarKind::Int32, false).lookup(), "get_field_as");
    assert_eq!(step("x", ScalarKind::Int32, true).lookup(), "get_optional_field_as");
}

#[test]
fn an_optional_wrapper_is_unwrapped_once() {
    let inner = named("i32");
    let ty = option_of(named("i32"));
    assert_eq!(option_type(&ty), Some(&inner));

    let long = path(vec![
        segment("std"),
        segment("option"),
        generic("Option", vec![GenericArgument::Type(named("String"))]),
    ]);
    assert_eq!(option_type(&long), Some(&named("String")));
    let core = path(vec![
        segment("core"),
        segment("option"),
        generic("Option", vec![GenericArgument::Type(named("bool"))]),
    ]);
    assert_eq!(option_type(&core), Some(&named("bool")));

    let nested = option_of(option_of(named("i32")));
    assert_eq!(option_type(&nested), Some(&option_of(named("i32"))));
}

#[test]
fn a_type_that_is_no_optional_wrapper_has_nothing_inside() {
    let arg = || vec![GenericArgument::Type(named("i32"))];
    let not_wrappers = vec![
        TypeExpr::Other,
        named("i32"),
        named("Option"),
        path(vec![]),
        path(vec![generic("Vec", arg())]),
        path(vec![generic("Option", vec![])]),
        path(vec![generic("Option", vec![GenericArgument::Other])]),
        path(vec![generic(
            "Option",
            vec![GenericArgument::Type(named("i32")), GenericArgument::Type(named("i32"))],
        )]),
        path(vec![PathSegment {
            ident: "Option".to_string(),
            arguments: PathArguments::Parenthesized,
        }]),
        path(vec![segment("option"), generic("Option", arg())]),
        path(vec![segment("alloc"), segment("option"), generic("Option", arg())]),
        path(vec![segment("std"), segment("opt"), generic("Option", arg())]),
        path(vec![segment("a"), segment("std"), segment("option"), generic("Option", arg())]),
        path(vec![generic("Option", arg()), segment("Item")]),
        TypeExpr::Path(TypePath { qualified: true, segments: vec![generic("Option", arg())] }),
    ];
    for ty in not_wrappers {
        assert_eq!(option_type(&ty), None, "{:?}", ty);
    }
}

#[test]
fn a_type_is_matched_by_its_first_segment() {
    let type_path = TypePath { qualified: false, segments: vec![segment("std"), segment("String")] };
    assert_eq!(get_ident(&type_path), "std");
    let type_path = TypePath { qualified: false, segments: vec![segment("i32")] };
    assert_eq!(get_ident(&type_path), "i32");
}

#[test]
fn an_optional_field_resolves_through_the_type_it_wraps() {
    let declared = field("age", option_of(named("u32")));
    assert_eq!(
        quote_get_field_as("Option", "age", &declared, false),
        Some(step("age", ScalarKind::UInt32, true))
    );
    // an optional of an optional matches nothing
    let declared = field("age", option_of(option_of(named("u32"))));
    assert_eq!(quote_get_field_as("Option", "age", &declared, false), None);
    // nor does an optional of a type outside the table
    let declared = field("age", option_of(named("u64")));
    assert_eq!(quote_get_field_as("Option", "age", &declared, false), None);
    let declared = field("age", option_of(TypeExpr::Other));
    assert_eq!(quote_get_field_as("Option", "age", &declared, false), None);
    let declared = field("age", option_of(path(vec![])));
    assert_eq!(quote_get_field_as("Option", "age", &declared, false), None);
    // the wrapped type is matched by its first segment, as any type is
    let declared = field("age", option_of(path(vec![segment("std"), segment("u32")])));
    assert_eq!(quote_get_field_as("Option", "age", &declared, false), None);
    // the name decides, not the declared type
    let declared = field("age", named("u32"));
    assert_eq!(quote_get_field_as("Option", "age", &declared, false), None);
    assert_eq!(quote_get_field_as("Thing", "age", &declared, false), None);
}

#[test]
fn a_record_is_decoded_field_by_field() {
    let record = RecordDecl {
        ident: "Person".to_string(),
        fields: vec![
            field("name", named("String")),
            field("age", named("i32")),
            field("nickname", option_of(named("String"))),
            field("score", named("f64")),
        ],
    };
    assert_eq!(
        try_from_value(&record),
        DecoderPlan {
            record: "Person".to_string(),
            fields: vec![
                step("name", ScalarKind::String, false),
                step("age", ScalarKind::Int32, false),
                step("nickname", ScalarKind::String, true),
                step("score", ScalarKind::Float64, false),
            ],
        }
    );
    assert_eq!(
        into_value(&record),
        EncoderPlan {
            record: "Person".to_string(),
            fields: vec![
                "name".to_string(),
                "age".to_string(),
                "nickname".to_string(),
                "score".to_string(),
            ],
        }
    );
}

#[test]
fn a_field_of_an_unsupported_type_is_left_out_without_an_error() {
    let with = RecordDecl {
        ident: "Point".to_string(),
        fields: vec![
            field("x", named("i32")),
            field("tag", TypeExpr::Other),
            field("y", named("i32")),
        ],
    };
    let without = RecordDecl {
        ident: "Point".to_string(),
        fields: vec![field("x", named("i32")), field("y", named("i32"))],
    };
    assert_eq!(try_from_value(&with), try_from_value(&without));
    assert_eq!(into_value(&with), into_value(&without));
    assert_eq!(
        into_value(&with),
        EncoderPlan { record: "Point".to_string(), fields: vec!["x".to_string(), "y".to_string()] }
    );
    assert!(!into_value(&with).fields.contains(&"tag".to_string()));
}

#[test]
fn a_field_outside_the_table_is_left_out_of_the_decoder_alone() {
    let record = RecordDecl {
        ident: "Order".to_string(),
        fields: vec![
            field("id", named("u64")),
            field("lines", path(vec![generic("Vec", vec![GenericArgument::Type(named("i32"))])])),
            field("customer", named("Customer")),
            field("total", path(vec![segment("std"), segment("primitive"), segment("i32")])),
            field("paid", named("bool")),
        ],
    };
    assert_eq!(
        try_from_value(&record),
        DecoderPlan {
            record: "Order".to_string(),
            fields: vec![step("paid", ScalarKind::Boolean, false)],
        }
    );
    assert_eq!(
        into_value(&record).fields,
        vec!["id", "lines", "customer", "total", "paid"]
    );
}

#[test]
fn a_field_without_a_name_is_left_out() {
    let record = RecordDecl {
        ident: "Pair".to_string(),
        fields: vec![
            FieldDecl { ident: None, ty: named("i32") },
            FieldDecl { ident: None, ty: named("String") },
        ],
    };
    assert_eq!(try_from_value(&record), DecoderPlan { record: "Pair".to_string(), fields: vec![] });
    assert_eq!(into_value(&record), EncoderPlan { record: "Pair".to_string(), fields: vec![] });
}

#[test]
fn a_record_without_fields_has_empty_plans() {
    let record = RecordDecl { ident: "Unit".to_string(), fields: vec![] };
    assert_eq!(try_from_value(&record).fields, vec![]);
    assert_eq!(into_value(&record).fields, Vec::<String>::new());
    assert_eq!(try_from_value(&record).record, "Unit");
}

#[test]
fn a_path_without_segments_matches_nothing() {
    let record = RecordDecl { ident: "Odd".to_string(), fields: vec![field("x", path(vec![]))] };
    assert_eq!(try_from_value(&record).fields, vec![]);
    assert_eq!(into_value(&record).fields, vec!["x"]);
}

#[test]
fn two_strings_are_the_same_by_their_characters() {
    assert!(same_text("", ""));
    assert!(same_text("Option", "Option"));
    assert!(!same_text("Option", "option"));
    assert!(!same_text("Option", "Option "));
}
