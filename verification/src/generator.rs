//! The generator: from the declaration of a record type to the plan of its
//! decoder and of its encoder.
//!
//! A declaration is read as syntax only. A field's type is matched by the
//! name of its first path segment against a fixed table of scalar types; a
//! field whose type the table does not hold is left out of the decoder without
//! a word.

use vstd::prelude::*;

verus! {

/// A type as it is written in a declaration.
#[derive(Debug, PartialEq, Eq)]
pub enum TypeExpr {
    /// A path, such as `i32` or `std::option::Option<String>`.
    Path(TypePath),
    /// Any other form of type: a tuple, a reference, an array.
    Other,
}

/// A path that names a type.
#[derive(Debug, PartialEq, Eq)]
pub struct TypePath {
    /// Whether the path is qualified by a self type, as in `<T as Trait>::Item`.
    pub qualified: bool,
    pub segments: Vec<PathSegment>,
}

/// One segment of a path: a name and what is written behind it.
#[derive(Debug, PartialEq, Eq)]
pub struct PathSegment {
    pub ident: String,
    pub arguments: PathArguments,
}

/// What is written behind the name of a path segment.
#[derive(Debug, PartialEq, Eq)]
pub enum PathArguments {
    /// Nothing.
    Empty,
    /// `<A, B>`
    AngleBracketed(Vec<GenericArgument>),
    /// `(A, B) -> C`
    Parenthesized,
}

/// One argument between angle brackets.
#[derive(Debug, PartialEq, Eq)]
pub enum GenericArgument {
    Type(TypeExpr),
    /// A lifetime, a constant, a binding.
    Other,
}

/// One field of a record: its name, where it has one, and its declared type.
#[derive(Debug, PartialEq, Eq)]
pub struct FieldDecl {
    pub ident: Option<String>,
    pub ty: TypeExpr,
}

/// The declaration of a record type: its name and its fields in order.
#[derive(Debug, PartialEq, Eq)]
pub struct RecordDecl {
    pub ident: String,
    pub fields: Vec<FieldDecl>,
}

/// The scalar types of the table.
#[derive(Debug, Clone, Copy, PartialEq, Eq, Structural)]
pub enum ScalarKind {
    String,
    Boolean,
    Int32,
    Int64,
    Float64,
    Float32,
    UInt32,
}

/// How one field is decoded: under which name it is looked up, by which
/// scalar helper, and whether its absence is an error.
#[derive(Debug, PartialEq, Eq)]
pub struct FieldDecoder {
    pub name: String,
    pub kind: ScalarKind,
    pub optional: bool,
}

/// The mathematical content of a [`FieldDecoder`].
pub struct FieldDecoderModel {
    pub name: Seq<char>,
    pub kind: ScalarKind,
    pub optional: bool,
}

impl View for FieldDecoder {
    type V = FieldDecoderModel;

    open spec fn view(&self) -> FieldDecoderModel {
        FieldDecoderModel { name: self.name@, kind: self.kind, optional: self.optional }
    }
}

/// The decoder of a record type: one step for each field that it fills, in the
/// order of the declaration.
#[derive(Debug, PartialEq, Eq)]
pub struct DecoderPlan {
    pub record: String,
    pub fields: Vec<FieldDecoder>,
}

/// The encoder of a record type: the names of the properties that it sets, in
/// the order of the declaration.
#[derive(Debug, PartialEq, Eq)]
pub struct EncoderPlan {
    pub record: String,
    pub fields: Vec<String>,
}

/// The table: the scalar type that a type name stands for.
pub open spec fn scalar_kind(ident: Seq<char>) -> Option<ScalarKind> {
    if ident == "String"@ {
        Some(ScalarKind::String)
    } else if ident == "bool"@ {
        Some(ScalarKind::Boolean)
    } else if ident == "i32"@ {
        Some(ScalarKind::Int32)
    } else if ident == "i64"@ {
        Some(ScalarKind::Int64)
    } else if ident == "f64"@ {
        Some(ScalarKind::Float64)
    } else if ident == "f32"@ {
        Some(ScalarKind::Float32)
    } else if ident == "u32"@ {
        Some(ScalarKind::UInt32)
    } else {
        None
    }
}

/// The type inside an optional wrapper, where `ty` is one: an unqualified path
/// `Option<T>`, `std::option::Option<T>` or `core::option::Option<T>` with
/// exactly one argument, which is a type.
pub open spec fn option_inner(ty: TypeExpr) -> Option<TypeExpr> {
    match ty {
        TypeExpr::Path(path) => {
            let segments = path.segments@;
            if path.qualified {
                None
            } else if segments.len() == 0 || segments.last().ident@ != "Option"@ {
                None
            } else if !(segments.len() == 1 || (segments.len() == 3 && (segments[0].ident@
                == "core"@ || segments[0].ident@ == "std"@) && segments[1].ident@ == "option"@)) {
                None
            } else {
                match segments.last().arguments {
                    PathArguments::AngleBracketed(args) => if args@.len() != 1 {
                        None
                    } else {
                        match args@[0] {
                            GenericArgument::Type(inner) => Some(inner),
                            GenericArgument::Other => None,
                        }
                    },
                    _ => None,
                }
            }
        },
        TypeExpr::Other => None,
    }
}

/// The name by which a type is matched against the table: that of the first
/// segment of its path.
pub open spec fn leading_ident(ty: TypeExpr) -> Option<Seq<char>> {
    match ty {
        TypeExpr::Path(path) => if path.segments@.len() == 0 {
            None
        } else {
            Some(path.segments@[0].ident@)
        },
        TypeExpr::Other => None,
    }
}

/// How a field of declared type name `ident` is decoded under the name
/// `identifier`.
///
/// A name of the table gives its scalar, optional as asked. `Option` gives the
/// scalar of the type that the field's declared type wraps, optional in any
/// case; the wrapped type is matched against the table once, so an optional of
/// an optional matches nothing. Any other name matches nothing.
pub open spec fn resolve_field(
    ident: Seq<char>,
    identifier: Seq<char>,
    field: FieldDecl,
    optional: bool,
) -> Option<FieldDecoderModel> {
    match scalar_kind(ident) {
        Some(kind) => Some(FieldDecoderModel { name: identifier, kind, optional }),
        None => if ident == "Option"@ {
            match option_inner(field.ty) {
                Some(inner) => match leading_ident(inner) {
                    Some(inner_ident) => match scalar_kind(inner_ident) {
                        Some(kind) => Some(
                            FieldDecoderModel { name: identifier, kind, optional: true },
                        ),
                        None => None,
                    },
                    None => None,
                },
                None => None,
            }
        } else {
            None
        },
    }
}

/// The decoding step of one field, where it has one: the field is named and
/// its declared type resolves through the table.
pub open spec fn field_decoder(field: FieldDecl) -> Option<FieldDecoderModel> {
    match field.ident {
        Some(name) => match leading_ident(field.ty) {
            Some(ident) => resolve_field(ident, name@, field, false),
            None => None,
        },
        None => None,
    }
}

/// The decoding steps of a list of fields: those of the fields that have one,
/// in the order of the fields.
pub open spec fn field_decoders(fields: Seq<FieldDecl>) -> Seq<FieldDecoderModel>
    decreases fields.len(),
{
    if fields.len() == 0 {
        Seq::empty()
    } else {
        match field_decoder(fields.last()) {
            Some(step) => field_decoders(fields.drop_last()).push(step),
            None => field_decoders(fields.drop_last()),
        }
    }
}

/// The property that the encoder sets for one field, where it sets one: the
/// field is named and its declared type is a path.
pub open spec fn field_property(field: FieldDecl) -> Option<Seq<char>> {
    match field.ident {
        Some(name) => match field.ty {
            TypeExpr::Path(_) => Some(name@),
            TypeExpr::Other => None,
        },
        None => None,
    }
}

/// The properties that the encoder sets for a list of fields, in the order of
/// the fields.
pub open spec fn field_properties(fields: Seq<FieldDecl>) -> Seq<Seq<char>>
    decreases fields.len(),
{
    if fields.len() == 0 {
        Seq::empty()
    } else {
        match field_property(fields.last()) {
            Some(name) => field_properties(fields.drop_last()).push(name),
            None => field_properties(fields.drop_last()),
        }
    }
}

/// The views of a list of decoding steps, in order.
pub open spec fn decoders_view(steps: Seq<FieldDecoder>) -> Seq<FieldDecoderModel> {
    Seq::new(steps.len(), |i: int| steps[i]@)
}

/// The views of a list of names, in order.
pub open spec fn names_view(names: Seq<String>) -> Seq<Seq<char>> {
    Seq::new(names.len(), |i: int| names[i]@)
}

/// Whether two strings hold the same characters.
pub fn same_text(a: &str, b: &str) -> (same: bool)
    ensures
        same == (a@ == b@),
{
    a.to_owned() == b.to_owned()
}

impl ScalarKind {
    /// The scalar type that the type name `ident` stands for in the table.
    pub fn of_ident(ident: &str) -> (kind: Option<ScalarKind>)
        ensures
            kind == scalar_kind(ident@),
    {
        if same_text(ident, "String") {
            Some(ScalarKind::String)
        } else if same_text(ident, "bool") {
            Some(ScalarKind::Boolean)
        } else if same_text(ident, "i32") {
            Some(ScalarKind::Int32)
        } else if same_text(ident, "i64") {
            Some(ScalarKind::Int64)
        } else if same_text(ident, "f64") {
            Some(ScalarKind::Float64)
        } else if same_text(ident, "f32") {
            Some(ScalarKind::Float32)
        } else if same_text(ident, "u32") {
            Some(ScalarKind::UInt32)
        } else {
            None
        }
    }

    /// The name of the scalar helper that decodes this kind.
    pub open spec fn helper_name(self) -> Seq<char> {
        match self {
            ScalarKind::String => "try_as_string"@,
            ScalarKind::Boolean => "try_as_bool"@,
            ScalarKind::Int32 => "try_as_i32"@,
            ScalarKind::Int64 => "try_as_i64"@,
            ScalarKind::Float64 => "try_as_f64"@,
            ScalarKind::Float32 => "try_as_f32"@,
            ScalarKind::UInt32 => "try_as_u32"@,
        }
    }

    /// The name of the scalar helper that decodes this kind.
    pub fn helper(&self) -> (name: &'static str)
        ensures
            name@ == self.helper_name(),
    {
        match self {
            ScalarKind::String => "try_as_string",
            ScalarKind::Boolean => "try_as_bool",
            ScalarKind::Int32 => "try_as_i32",
            ScalarKind::Int64 => "try_as_i64",
            ScalarKind::Float64 => "try_as_f64",
            ScalarKind::Float32 => "try_as_f32",
            ScalarKind::UInt32 => "try_as_u32",
        }
    }
}

impl FieldDecoder {
    /// The name of the lookup that this step makes: the one that takes absence
    /// for "no value", or the one that takes it for an error.
    pub open spec fn lookup_name(optional: bool) -> Seq<char> {
        if optional {
            "get_optional_field_as"@
        } else {
            "get_field_as"@
        }
    }

    /// The name of the lookup that this step makes.
    pub fn lookup(&self) -> (name: &'static str)
        ensures
            name@ == Self::lookup_name(self.optional),
    {
        if self.optional {
            "get_optional_field_as"
        } else {
            "get_field_as"
        }
    }
}

/// The type inside an optional wrapper, where `ty` is one.
pub fn option_type(ty: &TypeExpr) -> (inner: Option<&TypeExpr>)
    ensures
        match inner {
            Some(found) => option_inner(*ty) == Some(*found),
            None => option_inner(*ty) is None,
        },
{
    let path = match ty {
        TypeExpr::Path(path) => path,
        TypeExpr::Other => {
            return None;
        },
    };
    if path.qualified {
        return None;
    }
    let count = path.segments.len();
    if count == 0 {
        return None;
    }
    let last = &path.segments[count - 1];
    if !same_text(last.ident.as_str(), "Option") {
        return None;
    }
    if !(count == 1 || (count == 3 && (same_text(path.segments[0].ident.as_str(), "core")
        || same_text(path.segments[0].ident.as_str(), "std")) && same_text(
        path.segments[1].ident.as_str(),
        "option",
    ))) {
        return None;
    }
    let args = match &last.arguments {
        PathArguments::AngleBracketed(args) => args,
        _ => {
            return None;
        },
    };
    if args.len() != 1 {
        return None;
    }
    match &args[0] {
        GenericArgument::Type(inner) => Some(inner),
        GenericArgument::Other => None,
    }
}

/// The name by which a path is matched against the table: that of its first
/// segment.
pub fn get_ident(type_path: &TypePath) -> (ident: &String)
    requires
        type_path.segments@.len() > 0,
    ensures
        *ident == type_path.segments@[0].ident,
{
    &type_path.segments[0].ident
}

/// The decoding step of a field of declared type name `ident`, under the name
/// `identifier`, where the table gives one.
pub fn quote_get_field_as(
    ident: &str,
    identifier: &str,
    field: &FieldDecl,
    optional: bool,
) -> (step: Option<FieldDecoder>)
    ensures
        match step {
            Some(found) => resolve_field(ident@, identifier@, *field, optional) == Some(found@),
            None => resolve_field(ident@, identifier@, *field, optional) is None,
        },
{
    match ScalarKind::of_ident(ident) {
        Some(kind) => Some(FieldDecoder { name: identifier.to_owned(), kind, optional }),
        None => {
            if !same_text(ident, "Option") {
                return None;
            }
            let inner = match option_type(&field.ty) {
                Some(inner) => inner,
                None => {
                    return None;
                },
            };
            let type_path = match inner {
                TypeExpr::Path(type_path) => type_path,
                TypeExpr::Other => {
                    return None;
                },
            };
            if type_path.segments.len() == 0 {
                return None;
            }
            let inner_ident = get_ident(type_path);
            match ScalarKind::of_ident(inner_ident.as_str()) {
                Some(kind) => Some(
                    FieldDecoder { name: identifier.to_owned(), kind, optional: true },
                ),
                None => None,
            }
        },
    }
}

/// The decoder of a record type.
///
/// It has one step for each named field whose declared type resolves through
/// the table, in the order of the declaration, and none for any other field.
pub fn try_from_value(input: &RecordDecl) -> (plan: DecoderPlan)
    ensures
        plan.record@ == input.ident@,
        decoders_view(plan.fields@) == field_decoders(input.fields@),
{
    let mut steps: Vec<FieldDecoder> = Vec::new();
    let mut i: usize = 0;
    while i < input.fields.len()
        invariant
            i <= input.fields.len(),
            decoders_view(steps@) == field_decoders(input.fields@.take(i as int)),
        decreases input.fields.len() - i,
    {
        let field = &input.fields[i];
        proof {
            assert(input.fields@.take(i + 1).drop_last() =~= input.fields@.take(i as int));
        }
        let step = match &field.ident {
            Some(identifier) => match &field.ty {
                TypeExpr::Path(type_path) => {
                    if type_path.segments.len() == 0 {
                        None
                    } else {
                        let ident = get_ident(type_path);
                        quote_get_field_as(ident.as_str(), identifier.as_str(), field, false)
                    }
                },
                TypeExpr::Other => None,
            },
            None => None,
        };
        match step {
            Some(found) => {
                steps.push(found);
            },
            None => {},
        }
        i += 1;
    }
    proof {
        assert(input.fields@.take(i as int) =~= input.fields@);
    }
    DecoderPlan { record: input.ident.clone(), fields: steps }
}

/// The encoder of a record type.
///
/// It sets one property for each named field whose declared type is a path,
/// under the field's name and in the order of the declaration, and none for
/// any other field.
pub fn into_value(input: &RecordDecl) -> (plan: EncoderPlan)
    ensures
        plan.record@ == input.ident@,
        names_view(plan.fields@) == field_properties(input.fields@),
{
    let mut names: Vec<String> = Vec::new();
    let mut i: usize = 0;
    while i < input.fields.len()
        invariant
            i <= input.fields.len(),
            names_view(names@) == field_properties(input.fields@.take(i as int)),
        decreases input.fields.len() - i,
    {
        let field = &input.fields[i];
        proof {
            assert(input.fields@.take(i + 1).drop_last() =~= input.fields@.take(i as int));
        }
        match &field.ident {
            Some(identifier) => match &field.ty {
                TypeExpr::Path(_) => {
                    let name = identifier.clone();
                    names.push(name);
                },
                TypeExpr::Other => {},
            },
            None => {},
        }
        i += 1;
    }
    proof {
        assert(input.fields@.take(i as int) =~= input.fields@);
    }
    EncoderPlan { record: input.ident.clone(), fields: names }
}

} // verus!
