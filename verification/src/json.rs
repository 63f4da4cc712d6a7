//! The bridge from a dynamic value to a canonical JSON tree.

use crate::errors::{result_view, Error, ErrorModel};
use crate::into::{encoded_string, object_of, object_set, IntoValue};
use crate::seqs::{collect, lemma_collect_fails, lemma_collect_step, pairs_map};
use crate::value::{
    lemma_view_array, lemma_view_object, properties_view, representable, values_view, wrap_i64,
    BigInt, Value, ValueModel,
};
use vstd::prelude::*;

verus! {

/// A JSON number: an integer, held without sign where it has none, or a finite
/// double, held as the bits of its binary64 form.
#[derive(Debug, Clone, Copy, PartialEq, Eq)]
pub enum Number {
    PosInt(u64),
    NegInt(i64),
    Float(u64),
}

/// The mathematical content of a [`Number`].
pub enum NumberModel {
    Integer(int),
    Float(u64),
}

impl View for Number {
    type V = NumberModel;

    open spec fn view(&self) -> NumberModel {
        match self {
            Number::PosInt(u) => NumberModel::Integer(*u as int),
            Number::NegInt(i) => NumberModel::Integer(*i as int),
            Number::Float(bits) => NumberModel::Float(*bits),
        }
    }
}

impl Number {
    /// The number that holds the integer `x`: without sign where `x` has none.
    pub fn from_i64(x: i64) -> (n: Number)
        ensures
            n@ == NumberModel::Integer(x as int),
            x < 0 ==> n == Number::NegInt(x),
            x >= 0 ==> n == Number::PosInt(x as u64),
    {
        if x < 0 {
            Number::NegInt(x)
        } else {
            Number::PosInt(x as u64)
        }
    }
}

/// A canonical JSON value. An object lists its members in the order in which
/// they were set; where a key occurs twice, the later member is the one that
/// counts.
#[derive(Debug, PartialEq, Eq)]
pub enum Json {
    Null,
    Bool(bool),
    Number(Number),
    String(String),
    Array(Vec<Json>),
    Object(Vec<(String, Json)>),
}

/// The mathematical content of a [`Json`]: an object is a mapping from key to
/// value, in no order.
pub enum JsonModel {
    Null,
    Bool(bool),
    Number(NumberModel),
    String(Seq<char>),
    Array(Seq<JsonModel>),
    Object(Map<Seq<char>, JsonModel>),
}

/// The mathematical content of a JSON tree.
pub open spec fn json_model_of(j: Json) -> JsonModel
    decreases j,
{
    match j {
        Json::Null => JsonModel::Null,
        Json::Bool(b) => JsonModel::Bool(b),
        Json::Number(n) => JsonModel::Number(n@),
        Json::String(s) => JsonModel::String(s@),
        Json::Array(items) => JsonModel::Array(
            Seq::new(
                items@.len(),
                |i: int|
                    if 0 <= i < items@.len() {
                        json_model_of(items@[i])
                    } else {
                        JsonModel::Null
                    },
            ),
        ),
        Json::Object(members) => JsonModel::Object(pairs_map(member_models(members@))),
    }
}

/// The members of an object, each key and value by its mathematical content.
pub open spec fn member_models(members: Seq<(String, Json)>) -> Seq<(Seq<char>, JsonModel)>
    decreases members,
{
    Seq::new(
        members.len(),
        |i: int|
            if 0 <= i < members.len() {
                (members[i].0@, json_model_of(members[i].1))
            } else {
                (Seq::empty(), JsonModel::Null)
            },
    )
}

impl View for Json {
    type V = JsonModel;

    open spec fn view(&self) -> JsonModel {
        json_model_of(*self)
    }
}

/// The views of a list of JSON values, in order.
pub open spec fn jsons_view(items: Seq<Json>) -> Seq<JsonModel> {
    Seq::new(items.len(), |i: int| items[i]@)
}

/// The views of a list of members, in order.
pub open spec fn members_view(members: Seq<(String, Json)>) -> Seq<(Seq<char>, JsonModel)> {
    Seq::new(members.len(), |i: int| (members[i].0@, members[i].1@))
}

/// The view of an array is the list of the views of its elements.
pub proof fn lemma_view_json_array(items: Vec<Json>)
    ensures
        Json::Array(items)@ == JsonModel::Array(jsons_view(items@)),
{
    assert(Json::Array(items)@->Array_0 =~= jsons_view(items@));
}

/// The view of an object is the mapping that its members build.
pub proof fn lemma_view_json_object(members: Vec<(String, Json)>)
    ensures
        Json::Object(members)@ == JsonModel::Object(pairs_map(members_view(members@))),
{
    assert(member_models(members@) =~= members_view(members@));
}

/// Whether the bits of a binary64 stand for a finite number: neither an
/// infinity nor a NaN.
pub open spec fn is_finite_bits(bits: u64) -> bool {
    (bits >> 52) & 0x7ff != 0x7ff
}

/// Whether the bits of a binary64 stand for a finite number.
pub fn is_finite(bits: u64) -> (finite: bool)
    ensures
        finite == is_finite_bits(bits),
{
    (bits >> 52) & 0x7ff != 0x7ff
}

/// The JSON tree of a dynamic value.
///
/// A string, a boolean and null stand for themselves. The three integer kinds
/// become an integer number, a big integer by its low 64 bits. A double becomes
/// a floating number, or null where it is not finite. An array and a plain
/// object are converted member by member, and fail with the failure of their
/// first member that fails. An element that the runtime did not hand out
/// becomes null; a property whose value it did not hand out fails the object
/// with `ExpectedObject`, and an object whose properties it did not name fails
/// with `FailedToGetPropertyNames`. Every other kind is unsupported.
pub open spec fn json_of(v: ValueModel) -> Result<JsonModel, ErrorModel>
    decreases v,
{
    match v {
        ValueModel::String(s) => Ok(JsonModel::String(s)),
        ValueModel::Int32(i) => Ok(JsonModel::Number(NumberModel::Integer(i as int))),
        ValueModel::UInt32(u) => Ok(JsonModel::Number(NumberModel::Integer(u as int))),
        ValueModel::BigInt(b) => Ok(JsonModel::Number(NumberModel::Integer(wrap_i64(b)))),
        ValueModel::Float64(bits) => if is_finite_bits(bits) {
            Ok(JsonModel::Number(NumberModel::Float(bits)))
        } else {
            Ok(JsonModel::Null)
        },
        ValueModel::Boolean(b) => Ok(JsonModel::Bool(b)),
        ValueModel::Null => Ok(JsonModel::Null),
        ValueModel::Array(items) => match collect(elements_to_json(items)) {
            Ok(elements) => Ok(JsonModel::Array(elements)),
            Err(e) => Err(e),
        },
        ValueModel::Object(props) => match collect(members_to_json(props)) {
            Ok(members) => Ok(JsonModel::Object(pairs_map(members))),
            Err(e) => Err(e),
        },
        ValueModel::OpaqueObject => Err(ErrorModel::FailedToGetPropertyNames),
        ValueModel::Undefined => Err(ErrorModel::UnsupportedValueType),
        ValueModel::Mapping(_) => Err(ErrorModel::UnsupportedValueType),
        ValueModel::Other => Err(ErrorModel::UnsupportedValueType),
        ValueModel::Unresolved => Err(ErrorModel::UnsupportedValueType),
    }
}

/// The JSON tree, or the failure, of each element of an array.
pub open spec fn elements_to_json(items: Seq<ValueModel>) -> Seq<Result<JsonModel, ErrorModel>>
    decreases items,
{
    Seq::new(
        items.len(),
        |i: int|
            if 0 <= i < items.len() {
                if items[i] is Unresolved {
                    Ok(JsonModel::Null)
                } else {
                    json_of(items[i])
                }
            } else {
                Err(ErrorModel::UnsupportedValueType)
            },
    )
}

/// The JSON member, or the failure, of each property of an object.
pub open spec fn members_to_json(props: Seq<(Seq<char>, ValueModel)>) -> Seq<
    Result<(Seq<char>, JsonModel), ErrorModel>,
>
    decreases props,
{
    Seq::new(
        props.len(),
        |i: int|
            if 0 <= i < props.len() {
                if props[i].1 is Unresolved {
                    Err(ErrorModel::ExpectedObject)
                } else {
                    match json_of(props[i].1) {
                        Ok(j) => Ok((props[i].0, j)),
                        Err(e) => Err(e),
                    }
                }
            } else {
                Err(ErrorModel::UnsupportedValueType)
            },
    )
}

/// The JSON trees that come back from the runtime as they went: every string
/// and key is one that the runtime can hold, every integer fits 64 bits with
/// its sign, every double is finite.
pub open spec fn plain(j: Json) -> bool
    decreases j,
{
    match j {
        Json::Null => true,
        Json::Bool(_) => true,
        Json::Number(Number::PosInt(u)) => u <= 0x7fff_ffff_ffff_ffff,
        Json::Number(Number::NegInt(_)) => true,
        Json::Number(Number::Float(bits)) => is_finite_bits(bits),
        Json::String(s) => representable(s@),
        Json::Array(items) => forall|i: int| 0 <= i < items@.len() ==> plain(#[trigger] items@[i]),
        Json::Object(members) => forall|i: int|
            0 <= i < members@.len() ==> representable((#[trigger] members@[i]).0@) && plain(
                members@[i].1,
            ),
    }
}

/// Every string of the value, and every name of a property in it, is one that
/// the runtime can hold. That is so of every snapshot of a runtime value.
pub open spec fn strings_fit(v: ValueModel) -> bool
    decreases v,
{
    match v {
        ValueModel::String(s) => representable(s),
        ValueModel::Array(items) => forall|i: int|
            0 <= i < items.len() ==> strings_fit(#[trigger] items[i]),
        ValueModel::Object(props) => forall|i: int|
            0 <= i < props.len() ==> representable((#[trigger] props[i]).0) && strings_fit(
                props[i].1,
            ),
        _ => true,
    }
}

/// Converts a dynamic value to its JSON tree.
#[verifier::loop_isolation(false)]
pub fn to_json(value: &Value) -> (r: Result<Json, Error>)
    ensures
        result_view(r) == json_of(value@),
        r matches Ok(json) ==> strings_fit(value@) ==> plain(json),
    decreases value,
{
    match value {
        Value::String(s) => Ok(Json::String(s.clone())),
        Value::Int32(i) => Ok(Json::Number(Number::from_i64(*i as i64))),
        Value::UInt32(u) => Ok(Json::Number(Number::PosInt(*u as u64))),
        Value::BigInt(b) => Ok(Json::Number(Number::from_i64(b.low_i64()))),
        Value::Float64(bits) => {
            if is_finite(*bits) {
                Ok(Json::Number(Number::Float(*bits)))
            } else {
                Ok(Json::Null)
            }
        },
        Value::Boolean(b) => Ok(Json::Bool(*b)),
        Value::Null => Ok(Json::Null),
        Value::Array(items) => {
            let ghost results = elements_to_json(values_view(items@));
            proof {
                lemma_view_array(*items);
            }
            let mut elements: Vec<Json> = Vec::new();
            let mut i: usize = 0;
            proof {
                assert(jsons_view(elements@) =~= Seq::empty());
            }
            while i < items.len()
                invariant
                    i <= items.len(),
                    collect(results.take(i as int)) == Ok::<Seq<JsonModel>, ErrorModel>(
                        jsons_view(elements@),
                    ),
                    strings_fit(value@) ==> forall|k: int|
                        0 <= k < elements@.len() ==> plain(#[trigger] elements@[k]),
                decreases items.len() - i,
            {
                proof {
                    lemma_collect_step(results, i as int);
                }
                let converted = if items[i].is_unresolved() {
                    Ok(Json::Null)
                } else {
                    to_json(&items[i])
                };
                match converted {
                    Ok(element) => {
                        let ghost before = jsons_view(elements@);
                        elements.push(element);
                        proof {
                            assert(jsons_view(elements@) =~= before.push(element@));
                        }
                    },
                    Err(e) => {
                        proof {
                            lemma_collect_fails(results, i + 1);
                        }
                        return Err(e);
                    },
                }
                i += 1;
            }
            proof {
                assert(results.take(i as int) =~= results);
                lemma_view_json_array(elements);
            }
            Ok(Json::Array(elements))
        },
        Value::Object(props) => {
            let ghost results = members_to_json(properties_view(props@));
            proof {
                lemma_view_object(*props);
            }
            let mut members: Vec<(String, Json)> = Vec::new();
            let mut i: usize = 0;
            proof {
                assert(members_view(members@) =~= Seq::empty());
            }
            while i < props.len()
                invariant
                    i <= props.len(),
                    collect(results.take(i as int)) == Ok::<
                        Seq<(Seq<char>, JsonModel)>,
                        ErrorModel,
                    >(members_view(members@)),
                    strings_fit(value@) ==> forall|k: int|
                        0 <= k < members@.len() ==> representable((#[trigger] members@[k]).0@)
                            && plain(members@[k].1),
                decreases props.len() - i,
            {
                proof {
                    lemma_collect_step(results, i as int);
                }
                let converted = if props[i].1.is_unresolved() {
                    Err(Error::ExpectedObject)
                } else {
                    to_json(&props[i].1)
                };
                match converted {
                    Ok(member) => {
                        let ghost before = members_view(members@);
                        let key = props[i].0.clone();
                        members.push((key, member));
                        proof {
                            assert(members_view(members@) =~= before.push((key@, member@)));
                        }
                    },
                    Err(e) => {
                        proof {
                            lemma_collect_fails(results, i + 1);
                        }
                        return Err(e);
                    },
                }
                i += 1;
            }
            proof {
                assert(results.take(i as int) =~= results);
                lemma_view_json_object(members);
            }
            Ok(Json::Object(members))
        },
        Value::OpaqueObject => Err(Error::FailedToGetPropertyNames),
        _ => Err(Error::UnsupportedValueType),
    }
}

impl IntoValue for Number {
    /// An integer is encoded as the narrowest integer kind that holds it; a
    /// double as a double.
    open spec fn encoded(self) -> ValueModel {
        match self {
            Number::PosInt(u) => if u <= 0x7fff_ffff {
                ValueModel::Int32(u as i32)
            } else if u <= 0xffff_ffff {
                ValueModel::UInt32(u as u32)
            } else {
                ValueModel::BigInt(u as int)
            },
            Number::NegInt(i) => if -0x8000_0000 <= i <= 0x7fff_ffff {
                ValueModel::Int32(i as i32)
            } else {
                ValueModel::BigInt(i as int)
            },
            Number::Float(bits) => ValueModel::Float64(bits),
        }
    }

    fn into_value(self) -> (v: Value) {
        match self {
            Number::PosInt(u) => {
                if u <= 0x7fff_ffff {
                    Value::Int32(u as i32)
                } else if u <= 0xffff_ffff {
                    Value::UInt32(u as u32)
                } else {
                    Value::BigInt(BigInt::from_u64(u))
                }
            },
            Number::NegInt(i) => {
                if -0x8000_0000 <= i && i <= 0x7fff_ffff {
                    Value::Int32(i as i32)
                } else {
                    Value::BigInt(BigInt::from_i64(i))
                }
            },
            Number::Float(bits) => Value::Float64(bits),
        }
    }
}

/// The dynamic value that a JSON tree is rebuilt as: the same shape, each leaf
/// encoded as a scalar of the host, each object built by setting its members
/// in turn.
pub open spec fn json_encoded(j: Json) -> ValueModel
    decreases j,
{
    match j {
        Json::Null => ValueModel::Null,
        Json::Bool(b) => ValueModel::Boolean(b),
        Json::Number(n) => n.encoded(),
        Json::String(s) => encoded_string(s@),
        Json::Array(items) => ValueModel::Array(elements_encoded(items@)),
        Json::Object(members) => ValueModel::Object(object_of(members_encoded(members@))),
    }
}

/// What each element of a JSON array is rebuilt as.
pub open spec fn elements_encoded(items: Seq<Json>) -> Seq<ValueModel>
    decreases items,
{
    Seq::new(
        items.len(),
        |i: int|
            if 0 <= i < items.len() {
                json_encoded(items[i])
            } else {
                ValueModel::Null
            },
    )
}

/// What each member of a JSON object sets: the property of its key to what its
/// value is rebuilt as.
pub open spec fn members_encoded(members: Seq<(String, Json)>) -> Seq<
    (Option<Seq<char>>, ValueModel),
>
    decreases members,
{
    Seq::new(
        members.len(),
        |i: int|
            if 0 <= i < members.len() {
                (encoded_string(members[i].0@).text(), json_encoded(members[i].1))
            } else {
                (None, ValueModel::Null)
            },
    )
}

impl IntoValue for Json {
    open spec fn encoded(self) -> ValueModel {
        json_encoded(self)
    }

    fn into_value(self) -> (v: Value) {
        from_json(self)
    }
}

/// Rebuilds a JSON tree as a dynamic value.
#[verifier::loop_isolation(false)]
pub fn from_json(json: Json) -> (v: Value)
    ensures
        v@ == json_encoded(json),
    decreases json,
{
    match json {
        Json::Null => Value::Null,
        Json::Bool(b) => Value::Boolean(b),
        Json::Number(n) => n.into_value(),
        Json::String(s) => s.into_value(),
        Json::Array(items) => {
            let ghost all = items@;
            let mut elements: Vec<Value> = Vec::new();
            for item in it: items
                invariant
                    it.seq() == all,
                    values_view(elements@) == elements_encoded(all).take(it.index() as int),
            {
                let ghost n = it.index() as int;
                let element = from_json(item);
                elements.push(element);
            }
            proof {
                assert(elements_encoded(all).take(all.len() as int) =~= elements_encoded(all));
                lemma_view_array(elements);
            }
            Value::Array(elements)
        },
        Json::Object(members) => {
            let ghost all = members@;
            let ghost settings = members_encoded(all);
            let mut props: Vec<(String, Value)> = Vec::new();
            for member in it: members
                invariant
                    it.seq() == all,
                    properties_view(props@) == object_of(settings.take(it.index() as int)),
            {
                let ghost n = it.index() as int;
                proof {
                    assert(settings.take(n + 1).drop_last() =~= settings.take(n));
                }
                let (key, value) = member;
                let name = match key.into_value() {
                    Value::String(name) => name,
                    _ => String::new(),
                };
                let value = from_json(value);
                object_set(&mut props, name, value);
            }
            proof {
                assert(settings.take(all.len() as int) =~= settings);
                lemma_view_object(props);
            }
            Value::Object(props)
        },
    }
}

} // verus!
