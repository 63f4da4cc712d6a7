//! The decoders: from a dynamic value to a scalar, a field, a sequence or a
//! mapping of the host.
//!
//! Every scalar decoder asks for one kind and takes no other. Of the two
//! policies for strings, this engine takes the strict one: a string is decoded
//! from a string alone, and a value of any other kind fails with
//! `ExpectedString`. Only the key of a keyed collection is read as a string
//! whatever its kind, as far as its text follows from the value.

use crate::errors::{deep_result, Error, ErrorModel};
use crate::from::TryFromValue;
use crate::host_map::StringMap;
use crate::seqs::{
    collect, collect_present, lemma_collect_fails, lemma_collect_present_fails,
    lemma_collect_present_step, lemma_collect_step, lemma_pairs_map_push, pairs_map,
};
use crate::text::coerce_to_string;
use crate::value::{
    entries_view, find_property, lemma_view_array, lemma_view_mapping, lemma_view_object,
    properties_view, values_view, wrap_i64, Value, ValueModel, MAX_STRING_LENGTH,
};
use vstd::prelude::*;

verus! {

impl ValueModel {
    /// The boolean, of a boolean.
    pub open spec fn as_bool(self) -> Result<bool, ErrorModel> {
        match self {
            ValueModel::Boolean(b) => Ok(b),
            _ => Err(ErrorModel::ExpectedBoolean),
        }
    }

    /// The characters, of a string.
    pub open spec fn as_string(self) -> Result<Seq<char>, ErrorModel> {
        match self {
            ValueModel::String(s) => Ok(s),
            _ => Err(ErrorModel::ExpectedString),
        }
    }

    /// The integer, of a signed 32-bit integer.
    pub open spec fn as_i32(self) -> Result<i32, ErrorModel> {
        match self {
            ValueModel::Int32(i) => Ok(i),
            _ => Err(ErrorModel::ExpectedI32),
        }
    }

    /// The integer, of an unsigned 32-bit integer. Any other kind fails as it
    /// does for a signed one.
    pub open spec fn as_u32(self) -> Result<u32, ErrorModel> {
        match self {
            ValueModel::UInt32(u) => Ok(u),
            _ => Err(ErrorModel::ExpectedI32),
        }
    }

    /// The low 64 bits, of a big integer.
    pub open spec fn as_i64(self) -> Result<i64, ErrorModel> {
        match self {
            ValueModel::BigInt(b) => Ok(wrap_i64(b) as i64),
            _ => Err(ErrorModel::ExpectedI64),
        }
    }

    /// The bits, of a double.
    pub open spec fn as_f64(self) -> Result<u64, ErrorModel> {
        match self {
            ValueModel::Float64(bits) => Ok(bits),
            _ => Err(ErrorModel::ExpectedF64),
        }
    }

    /// The integer, of a signed 32-bit integer that fits eight bits.
    pub open spec fn as_i8(self) -> Result<i8, ErrorModel> {
        match self.as_i32() {
            Ok(i) => if -128 <= i <= 127 {
                Ok(i as i8)
            } else {
                Err(ErrorModel::OutOfRange)
            },
            Err(e) => Err(e),
        }
    }

    /// What an optional field of this name holds: nothing, where the property
    /// is absent or holds null or undefined, and else the raw value.
    pub open spec fn lookup_optional(self, name: Seq<char>) -> Result<
        Option<ValueModel>,
        ErrorModel,
    > {
        match self.lookup(name) {
            Ok(found) => if found.is_null_or_undefined() {
                Ok(None)
            } else {
                Ok(Some(found))
            },
            Err(ErrorModel::FieldNotFound(_)) => Ok(None),
            Err(e) => Err(e),
        }
    }
}

/// A decoded value as the value of an optional field.
pub open spec fn wrap_some<T>(inner: Result<T, Error>) -> Result<Option<T>, Error> {
    match inner {
        Ok(value) => Ok(Some(value)),
        Err(e) => Err(e),
    }
}

/// Field lookup: the raw value of the property `field_name` of `input`.
///
/// Fails with `ExpectedObject` unless `input` is of an object kind, with
/// `InvalidField` where the runtime cannot hold the name as a string, and with
/// `FieldNotFound` where there is no such property, or the runtime did not
/// hand its value out.
#[verifier::loop_isolation(false)]
pub fn lookup_field<'a>(field_name: &str, input: &'a Value) -> (r: Result<&'a Value, Error>)
    ensures
        match r {
            Ok(found) => input@.lookup(field_name@) == Ok::<ValueModel, ErrorModel>(found@),
            Err(e) => input@.lookup(field_name@) == Err::<ValueModel, ErrorModel>(e@),
        },
{
    if !input.is_object_like() {
        return Err(Error::ExpectedObject);
    }
    if field_name.as_bytes().len() > MAX_STRING_LENGTH {
        return Err(Error::InvalidField(field_name.to_owned()));
    }
    match input {
        Value::Object(props) => {
            proof {
                lemma_view_object(*props);
            }
            let ghost all = properties_view(props@);
            let name = field_name.to_owned();
            let mut i: usize = 0;
            proof {
                assert(all.skip(0) =~= all);
            }
            while i < props.len()
                invariant
                    i <= props.len(),
                    all == properties_view(props@),
                    name@ == field_name@,
                    find_property(all, name@) == find_property(all.skip(i as int), name@),
                decreases props.len() - i,
            {
                proof {
                    assert(all.skip(i as int).drop_first() =~= all.skip(i + 1));
                }
                if props[i].0 == name {
                    if props[i].1.is_unresolved() {
                        return Err(Error::FieldNotFound(name));
                    }
                    return Ok(&props[i].1);
                }
                i += 1;
            }
            Err(Error::FieldNotFound(name))
        },
        _ => Err(Error::FieldNotFound(field_name.to_owned())),
    }
}

/// Required field decode: looks the field up and hands what was found to
/// `parse_fn`.
///
/// Where the lookup fails, this is the failure. Else the result is what
/// `parse_fn` returned for the raw value of the property.
pub fn get_field_as<T, F: Fn(&Value) -> Result<T, Error>>(
    field_name: &str,
    input: &Value,
    parse_fn: F,
) -> (r: Result<T, Error>)
    requires
        forall|raw: &Value|
            input@.lookup(field_name@) == Ok::<ValueModel, ErrorModel>(raw@) ==> call_requires(
                parse_fn,
                (raw,),
            ),
    ensures
        match input@.lookup(field_name@) {
            Err(e) => r matches Err(err) && err@ == e,
            Ok(found) => exists|raw: &Value|
                raw@ == found && #[trigger] call_ensures(parse_fn, (raw,), r),
        },
{
    match lookup_field(field_name, input) {
        Ok(raw) => parse_fn(raw),
        Err(e) => Err(e),
    }
}

/// Optional field decode: as the required one, but a property that is absent,
/// or that holds null or undefined, is no error: it decodes to `None`.
pub fn get_optional_field_as<T, F: Fn(&Value) -> Result<T, Error>>(
    field_name: &str,
    input: &Value,
    parse_fn: F,
) -> (r: Result<Option<T>, Error>)
    requires
        forall|raw: &Value|
            input@.lookup_optional(field_name@) == Ok::<Option<ValueModel>, ErrorModel>(
                Some(raw@),
            ) ==> call_requires(parse_fn, (raw,)),
    ensures
        match input@.lookup_optional(field_name@) {
            Err(e) => r matches Err(err) && err@ == e,
            Ok(None) => r matches Ok(None),
            Ok(Some(found)) => exists|raw: &Value, inner: Result<T, Error>|
                raw@ == found && #[trigger] call_ensures(parse_fn, (raw,), inner) && r
                    == wrap_some(inner),
        },
{
    match lookup_field(field_name, input) {
        Ok(raw) => {
            if raw.is_null_or_undefined() {
                return Ok(None);
            }
            let inner = parse_fn(raw);
            match inner {
                Ok(value) => Ok(Some(value)),
                Err(e) => Err(e),
            }
        },
        Err(Error::FieldNotFound(_)) => Ok(None),
        Err(e) => Err(e),
    }
}

/// The boolean of a boolean; `ExpectedBoolean` for any other kind.
pub fn try_as_bool(input: &Value) -> (r: Result<bool, Error>)
    ensures
        deep_result(r) == input@.as_bool(),
{
    match input {
        Value::Boolean(b) => Ok(*b),
        _ => Err(Error::ExpectedBoolean),
    }
}

/// The string of a string; `ExpectedString` for any other kind.
pub fn try_as_string(input: &Value) -> (r: Result<String, Error>)
    ensures
        deep_result(r) == input@.as_string(),
{
    match input {
        Value::String(s) => Ok(s.clone()),
        _ => Err(Error::ExpectedString),
    }
}

/// The integer of a signed 32-bit integer; `ExpectedI32` for any other kind.
pub fn try_as_i32(input: &Value) -> (r: Result<i32, Error>)
    ensures
        deep_result(r) == input@.as_i32(),
{
    match input {
        Value::Int32(i) => Ok(*i),
        _ => Err(Error::ExpectedI32),
    }
}

/// The integer of an unsigned 32-bit integer; `ExpectedI32` for any other kind.
pub fn try_as_u32(input: &Value) -> (r: Result<u32, Error>)
    ensures
        deep_result(r) == input@.as_u32(),
{
    match input {
        Value::UInt32(u) => Ok(*u),
        _ => Err(Error::ExpectedI32),
    }
}

/// The low 64 bits of a big integer; `ExpectedI64` for any other kind. A number
/// that does not fit 64 bits is cut, not refused.
pub fn try_as_i64(input: &Value) -> (r: Result<i64, Error>)
    ensures
        deep_result(r) == input@.as_i64(),
{
    match input {
        Value::BigInt(b) => Ok(b.low_i64()),
        _ => Err(Error::ExpectedI64),
    }
}

/// The bits of a double; `ExpectedF64` for any other kind.
pub fn try_as_f64(input: &Value) -> (r: Result<u64, Error>)
    ensures
        deep_result(r) == input@.as_f64(),
{
    match input {
        Value::Float64(bits) => Ok(*bits),
        _ => Err(Error::ExpectedF64),
    }
}

/// The integer of a signed 32-bit integer that fits eight bits; `OutOfRange`
/// where it does not fit, `ExpectedI32` for any other kind.
pub fn try_as_i8(input: &Value) -> (r: Result<i8, Error>)
    ensures
        deep_result(r) == input@.as_i8(),
{
    match try_as_i32(input) {
        Ok(i) => {
            if -128 <= i && i <= 127 {
                Ok(i as i8)
            } else {
                Err(Error::OutOfRange)
            }
        },
        Err(e) => Err(e),
    }
}

/// What each element of a list decodes to; nothing, for an element that the
/// runtime did not hand out.
pub open spec fn decoded_each<T: TryFromValue>(items: Seq<ValueModel>) -> Seq<
    Option<Result<T::V, ErrorModel>>,
> {
    Seq::new(
        items.len(),
        |i: int|
            if items[i] is Unresolved {
                None
            } else {
                Some(T::decoded(items[i]))
            },
    )
}

/// Sequence decode: the elements of an array, each decoded, in index order; the
/// failure of the first element that fails; `ExpectedArray` for any other kind.
/// An element that the runtime did not hand out is passed over.
pub open spec fn decoded_vec<T: TryFromValue>(v: ValueModel) -> Result<Seq<T::V>, ErrorModel> {
    match v {
        ValueModel::Array(items) => collect_present(decoded_each::<T>(items)),
        _ => Err(ErrorModel::ExpectedArray),
    }
}

/// Sequence decode.
#[verifier::loop_isolation(false)]
pub fn try_as_vec<T: TryFromValue>(input: &Value) -> (r: Result<Vec<T>, Error>)
    ensures
        deep_result(r) == decoded_vec::<T>(input@),
{
    match input {
        Value::Array(items) => {
            proof {
                lemma_view_array(*items);
            }
            let ghost results = decoded_each::<T>(values_view(items@));
            let mut out: Vec<T> = Vec::new();
            let mut i: usize = 0;
            proof {
                assert(out.deep_view() =~= Seq::empty());
            }
            while i < items.len()
                invariant
                    i <= items.len(),
                    results == decoded_each::<T>(values_view(items@)),
                    collect_present(results.take(i as int)) == Ok::<Seq<T::V>, ErrorModel>(
                        out.deep_view(),
                    ),
                decreases items.len() - i,
            {
                proof {
                    lemma_collect_present_step(results, i as int);
                }
                if !items[i].is_unresolved() {
                    match T::try_from_value(&items[i]) {
                        Ok(element) => {
                            let ghost before = out.deep_view();
                            out.push(element);
                            proof {
                                assert(out.deep_view() =~= before.push(element.deep_view()));
                            }
                        },
                        Err(e) => {
                            proof {
                                lemma_collect_present_fails(results, i + 1);
                            }
                            return Err(e);
                        },
                    }
                }
                i += 1;
            }
            proof {
                assert(results.take(i as int) =~= results);
            }
            Ok(out)
        },
        _ => Err(Error::ExpectedArray),
    }
}

/// What one entry of a keyed collection decodes to: its key read as a string,
/// with its value decoded. An entry whose key has no text is unsupported.
pub open spec fn decoded_entry<T: TryFromValue>(key: ValueModel, value: ValueModel) -> Result<
    (Seq<char>, T::V),
    ErrorModel,
> {
    match key.text() {
        Some(name) => match T::decoded(value) {
            Ok(decoded) => Ok((name, decoded)),
            Err(e) => Err(e),
        },
        None => Err(ErrorModel::UnsupportedValueType),
    }
}

/// What each entry of a keyed collection decodes to; nothing, for an entry
/// whose key or value the runtime did not hand out.
pub open spec fn decoded_entries<T: TryFromValue>(entries: Seq<(ValueModel, ValueModel)>) -> Seq<
    Option<Result<(Seq<char>, T::V), ErrorModel>>,
> {
    Seq::new(
        entries.len(),
        |i: int|
            if entries[i].0 is Unresolved || entries[i].1 is Unresolved {
                None
            } else {
                Some(decoded_entry::<T>(entries[i].0, entries[i].1))
            },
    )
}

/// What each property of a plain object decodes to: its name, with its value
/// decoded. A property whose value the runtime did not hand out fails with
/// `FailedToGetPropertyNames`.
pub open spec fn decoded_properties<T: TryFromValue>(props: Seq<(Seq<char>, ValueModel)>) -> Seq<
    Result<(Seq<char>, T::V), ErrorModel>,
> {
    Seq::new(
        props.len(),
        |i: int|
            if props[i].1 is Unresolved {
                Err(ErrorModel::FailedToGetPropertyNames)
            } else {
                match T::decoded(props[i].1) {
                    Ok(value) => Ok((props[i].0, value)),
                    Err(e) => Err(e),
                }
            },
    )
}

/// Mapping decode: the entries of a keyed collection or the properties of a
/// plain object, as one mapping from strings; the failure of the first entry
/// that fails; `ExpectedMap` for any other kind. Where two entries come to the
/// same key, the later one counts. An entry of a keyed collection whose key or
/// value the runtime did not hand out is passed over; an object whose
/// properties the runtime did not name fails with `FailedToGetPropertyNames`.
pub open spec fn decoded_map<T: TryFromValue>(v: ValueModel) -> Result<
    Map<Seq<char>, T::V>,
    ErrorModel,
> {
    match v {
        ValueModel::Mapping(entries) => match collect_present(decoded_entries::<T>(entries)) {
            Ok(pairs) => Ok(pairs_map(pairs)),
            Err(e) => Err(e),
        },
        ValueModel::Object(props) => match collect(decoded_properties::<T>(props)) {
            Ok(pairs) => Ok(pairs_map(pairs)),
            Err(e) => Err(e),
        },
        ValueModel::OpaqueObject => Err(ErrorModel::FailedToGetPropertyNames),
        _ => Err(ErrorModel::ExpectedMap),
    }
}

/// Mapping decode.
#[verifier::loop_isolation(false)]
pub fn try_as_hashmap<T: TryFromValue>(input: &Value) -> (r: Result<StringMap<T>, Error>)
    ensures
        deep_result(r) == decoded_map::<T>(input@),
{
    match input {
        Value::Mapping(entries) => {
            proof {
                lemma_view_mapping(*entries);
            }
            let ghost results = decoded_entries::<T>(entries_view(entries@));
            let ghost mut pairs: Seq<(Seq<char>, T::V)> = Seq::empty();
            let mut out: StringMap<T> = StringMap::new();
            let mut i: usize = 0;
            proof {
                StringMap::lemma_empty_deep(out);
            }
            while i < entries.len()
                invariant
                    i <= entries.len(),
                    results == decoded_entries::<T>(entries_view(entries@)),
                    collect_present(results.take(i as int)) == Ok::<
                        Seq<(Seq<char>, T::V)>,
                        ErrorModel,
                    >(pairs),
                    out.deep_view() == pairs_map(pairs),
                decreases entries.len() - i,
            {
                proof {
                    lemma_collect_present_step(results, i as int);
                }
                if !entries[i].0.is_unresolved() && !entries[i].1.is_unresolved() {
                    let key = match coerce_to_string(&entries[i].0) {
                        Some(key) => key,
                        None => {
                            proof {
                                lemma_collect_present_fails(results, i + 1);
                            }
                            return Err(Error::UnsupportedValueType);
                        },
                    };
                    match T::try_from_value(&entries[i].1) {
                        Ok(value) => {
                            let ghost before = out;
                            out.insert(key, value);
                            proof {
                                StringMap::lemma_insert_deep(before, out, key@, value);
                                lemma_pairs_map_push(pairs, key@, value.deep_view());
                                pairs = pairs.push((key@, value.deep_view()));
                            }
                        },
                        Err(e) => {
                            proof {
                                lemma_collect_present_fails(results, i + 1);
                            }
                            return Err(e);
                        },
                    }
                }
                i += 1;
            }
            proof {
                assert(results.take(i as int) =~= results);
            }
            Ok(out)
        },
        Value::Object(props) => {
            proof {
                lemma_view_object(*props);
            }
            let ghost results = decoded_properties::<T>(properties_view(props@));
            let ghost mut pairs: Seq<(Seq<char>, T::V)> = Seq::empty();
            let mut out: StringMap<T> = StringMap::new();
            let mut i: usize = 0;
            proof {
                StringMap::lemma_empty_deep(out);
            }
            while i < props.len()
                invariant
                    i <= props.len(),
                    results == decoded_properties::<T>(properties_view(props@)),
                    collect(results.take(i as int)) == Ok::<Seq<(Seq<char>, T::V)>, ErrorModel>(
                        pairs,
                    ),
                    out.deep_view() == pairs_map(pairs),
                decreases props.len() - i,
            {
                proof {
                    lemma_collect_step(results, i as int);
                }
                if props[i].1.is_unresolved() {
                    proof {
                        lemma_collect_fails(results, i + 1);
                    }
                    return Err(Error::FailedToGetPropertyNames);
                }
                match T::try_from_value(&props[i].1) {
                    Ok(value) => {
                        let ghost before = out;
                        let key = props[i].0.clone();
                        out.insert(key, value);
                        proof {
                            StringMap::lemma_insert_deep(before, out, key@, value);
                            lemma_pairs_map_push(pairs, key@, value.deep_view());
                            pairs = pairs.push((key@, value.deep_view()));
                        }
                    },
                    Err(e) => {
                        proof {
                            lemma_collect_fails(results, i + 1);
                        }
                        return Err(e);
                    },
                }
                i += 1;
            }
            proof {
                assert(results.take(i as int) =~= results);
            }
            Ok(out)
        },
        Value::OpaqueObject => Err(Error::FailedToGetPropertyNames),
        _ => Err(Error::ExpectedMap),
    }
}

} // verus!
