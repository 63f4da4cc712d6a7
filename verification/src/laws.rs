//! What holds of the engine as a whole: decoding undoes encoding, a mapping
//! comes back whatever the order of its entries, a sequence fails at its first
//! bad element, and a field that the table does not hold changes no plan.

use crate::errors::ErrorModel;
use crate::from::{Float64, TryFromValue};
use crate::generator::{
    field_decoder, field_decoders, field_properties, field_property, FieldDecl, FieldDecoderModel,
};
use crate::helpers::{decoded_each, decoded_entries, decoded_properties, decoded_vec};
use crate::host_map::{deep_pairs, HostMap, StringMap};
use crate::into::{
    encoded_each, encoded_entries, encoded_settings, encoded_string, is_first_named, object_of,
    IntoObject, IntoValue,
};
use crate::json::{
    elements_encoded, elements_to_json, json_encoded, json_of, jsons_view, lemma_view_json_array,
    lemma_view_json_object, members_encoded, members_to_json, members_view, plain, Json,
    JsonModel, Number,
};
use crate::seqs::{
    collect_present, distinct_keys, lemma_collect_present_fails, lemma_collect_present_step,
    lemma_collect_present_values, lemma_collect_values, lemma_pairs_map_push,
    lemma_pairs_map_update, pairs_map,
};
use crate::value::{find_property, representable, word_base, wrap_i64, ValueModel};
use vstd::arithmetic::div_mod::lemma_fundamental_div_mod_converse;
use vstd::prelude::*;

verus! {

/// A signed 64-bit integer is the low 64 bits of itself.
pub proof fn lemma_wrap_i64_fits(x: int)
    requires
        -0x8000_0000_0000_0000 <= x <= 0x7fff_ffff_ffff_ffff,
    ensures
        wrap_i64(x) == x,
{
    if x >= 0 {
        lemma_fundamental_div_mod_converse(x, word_base(), 0, x);
    } else {
        lemma_fundamental_div_mod_converse(x, word_base(), -1, x + word_base());
    }
}

/// A host type for which decoding undoes encoding.
pub trait RoundTrip: TryFromValue + IntoValue {
    /// The values that encoding keeps whole. For a scalar other than a string
    /// these are all its values.
    spec fn faithful(self) -> bool;

    /// Round trip: what a faithful value is encoded as decodes to that value.
    proof fn round_trip(x: Self)
        requires
            x.faithful(),
        ensures
            Self::decoded(x.encoded()) == Ok::<<Self as DeepView>::V, ErrorModel>(x.deep_view()),
    ;

    /// What a value is encoded as is a value: it never stands for one that the
    /// runtime did not hand out.
    proof fn encoded_is_resolved(x: Self)
        ensures
            !(x.encoded() is Unresolved),
    ;
}

impl RoundTrip for bool {
    open spec fn faithful(self) -> bool {
        true
    }

    proof fn round_trip(x: bool) {
    }

    proof fn encoded_is_resolved(x: bool) {
    }
}

impl RoundTrip for i8 {
    open spec fn faithful(self) -> bool {
        true
    }

    proof fn round_trip(x: i8) {
    }

    proof fn encoded_is_resolved(x: i8) {
    }
}

impl RoundTrip for i32 {
    open spec fn faithful(self) -> bool {
        true
    }

    proof fn round_trip(x: i32) {
    }

    proof fn encoded_is_resolved(x: i32) {
    }
}

impl RoundTrip for u32 {
    open spec fn faithful(self) -> bool {
        true
    }

    proof fn round_trip(x: u32) {
    }

    proof fn encoded_is_resolved(x: u32) {
    }
}

impl RoundTrip for i64 {
    open spec fn faithful(self) -> bool {
        true
    }

    proof fn round_trip(x: i64) {
        lemma_wrap_i64_fits(x as int);
    }

    proof fn encoded_is_resolved(x: i64) {
    }
}

impl RoundTrip for Float64 {
    /// A double comes back bit for bit, a NaN and an infinity as any other.
    open spec fn faithful(self) -> bool {
        true
    }

    proof fn round_trip(x: Float64) {
    }

    proof fn encoded_is_resolved(x: Float64) {
    }
}

impl RoundTrip for String {
    /// A string that the runtime cannot hold is encoded as the empty string
    /// and does not come back.
    open spec fn faithful(self) -> bool {
        representable(self@)
    }

    proof fn round_trip(x: String) {
    }

    proof fn encoded_is_resolved(x: String) {
    }
}

impl<T: RoundTrip> RoundTrip for Option<T> {
    /// A value that is encoded as null or undefined comes back as no value.
    open spec fn faithful(self) -> bool {
        match self {
            Some(value) => value.faithful() && !value.encoded().is_null_or_undefined(),
            None => true,
        }
    }

    proof fn round_trip(x: Option<T>) {
        match x {
            Some(value) => {
                T::round_trip(value);
            },
            None => {},
        }
    }

    proof fn encoded_is_resolved(x: Option<T>) {
        match x {
            Some(value) => {
                T::encoded_is_resolved(value);
            },
            None => {},
        }
    }
}

impl<T: RoundTrip> RoundTrip for Vec<T> {
    open spec fn faithful(self) -> bool {
        forall|i: int| 0 <= i < self@.len() ==> (#[trigger] self@[i]).faithful()
    }

    proof fn round_trip(x: Vec<T>) {
        let results = decoded_each::<T>(encoded_each(x@));
        assert forall|i: int| 0 <= i < results.len() implies #[trigger] results[i] == Some(
            Ok::<T::V, ErrorModel>(x.deep_view()[i]),
        ) by {
            T::round_trip(x@[i]);
            T::encoded_is_resolved(x@[i]);
        }
        lemma_collect_present_values(results, x.deep_view());
    }

    proof fn encoded_is_resolved(x: Vec<T>) {
    }
}

/// Optional field: a plain object without the property decodes an optional
/// field of that name to no value, and so does one in which the property holds
/// null or undefined.
pub proof fn lemma_optional_field_without_value(
    props: Seq<(Seq<char>, ValueModel)>,
    name: Seq<char>,
)
    requires
        representable(name),
        match find_property(props, name) {
            Some(found) => found.is_null_or_undefined(),
            None => true,
        },
    ensures
        ValueModel::Object(props).lookup_optional(name) == Ok::<Option<ValueModel>, ErrorModel>(
            None,
        ),
{
}

/// Optional field: a plain object in which the property holds a value that is
/// neither null nor undefined decodes an optional field of that name from that
/// value.
pub proof fn lemma_optional_field_with_value(
    props: Seq<(Seq<char>, ValueModel)>,
    name: Seq<char>,
    found: ValueModel,
)
    requires
        representable(name),
        find_property(props, name) == Some(found),
        !found.is_null_or_undefined(),
        !(found is Unresolved),
    ensures
        ValueModel::Object(props).lookup_optional(name) == Ok::<Option<ValueModel>, ErrorModel>(
            Some(found),
        ),
{
}

/// Error specificity: a required field that a plain object does not have fails
/// with `FieldNotFound`, which carries the name of the field.
pub proof fn lemma_missing_field_is_named(props: Seq<(Seq<char>, ValueModel)>, name: Seq<char>)
    requires
        representable(name),
        find_property(props, name) is None,
    ensures
        ValueModel::Object(props).lookup(name) == Err::<ValueModel, ErrorModel>(
            ErrorModel::FieldNotFound(name),
        ),
{
}

/// Error specificity: a value of any kind but string, decoded as a string,
/// fails with `ExpectedString`.
pub proof fn lemma_only_a_string_is_a_string(v: ValueModel)
    requires
        !(v is String),
    ensures
        v.as_string() == Err::<Seq<char>, ErrorModel>(ErrorModel::ExpectedString),
{
}

/// Sequence boundary: an array without elements decodes to the empty sequence.
pub proof fn lemma_empty_array_decodes<T: TryFromValue>()
    ensures
        decoded_vec::<T>(ValueModel::Array(Seq::empty())) == Ok::<Seq<T::V>, ErrorModel>(
            Seq::empty(),
        ),
{
}

/// The first elements of a list, none of which fails, collect to some values.
pub proof fn lemma_no_failure_collects<T: TryFromValue>(items: Seq<ValueModel>, n: int)
    requires
        0 <= n <= items.len(),
        forall|j: int|
            0 <= j < n ==> (#[trigger] items[j]) is Unresolved || T::decoded(items[j]) is Ok,
    ensures
        collect_present(decoded_each::<T>(items).take(n)) is Ok,
    decreases n,
{
    if n > 0 {
        lemma_no_failure_collects::<T>(items, n - 1);
        lemma_collect_present_step(decoded_each::<T>(items), n - 1);
    }
}

/// Sequence boundary: an array fails with the failure of its first element
/// that fails, whatever follows it.
pub proof fn lemma_array_fails_at_first<T: TryFromValue>(
    items: Seq<ValueModel>,
    index: int,
    failure: ErrorModel,
)
    requires
        0 <= index < items.len(),
        !(items[index] is Unresolved),
        T::decoded(items[index]) == Err::<T::V, ErrorModel>(failure),
        forall|j: int|
            0 <= j < index ==> (#[trigger] items[j]) is Unresolved || T::decoded(items[j]) is Ok,
    ensures
        decoded_vec::<T>(ValueModel::Array(items)) == Err::<Seq<T::V>, ErrorModel>(failure),
{
    let results = decoded_each::<T>(items);
    lemma_no_failure_collects::<T>(items, index);
    lemma_collect_present_step(results, index);
    lemma_collect_present_fails(results, index + 1);
}

/// The decoding steps of two lists of fields, one after the other.
pub proof fn lemma_field_decoders_concat(first: Seq<FieldDecl>, second: Seq<FieldDecl>)
    ensures
        field_decoders(first + second) == field_decoders(first) + field_decoders(second),
    decreases second.len(),
{
    if second.len() > 0 {
        assert((first + second).drop_last() =~= first + second.drop_last());
        lemma_field_decoders_concat(first, second.drop_last());
    }
}

/// The properties that the encoder sets for two lists of fields, one after the
/// other.
pub proof fn lemma_field_properties_concat(first: Seq<FieldDecl>, second: Seq<FieldDecl>)
    ensures
        field_properties(first + second) == field_properties(first) + field_properties(second),
    decreases second.len(),
{
    if second.len() > 0 {
        assert((first + second).drop_last() =~= first + second.drop_last());
        lemma_field_properties_concat(first, second.drop_last());
    }
}

/// Generator omission: a field whose declared type does not resolve through
/// the table leaves the decoder as it is without that field, wherever the field
/// stands in the declaration.
pub proof fn lemma_unsupported_field_is_left_out(
    before: Seq<FieldDecl>,
    field: FieldDecl,
    after: Seq<FieldDecl>,
)
    requires
        field_decoder(field) is None,
    ensures
        field_decoders(before + seq![field] + after) == field_decoders(before + after),
{
    lemma_field_decoders_concat(before + seq![field], after);
    lemma_field_decoders_concat(before, seq![field]);
    lemma_field_decoders_concat(before, after);
    assert(field_decoders(seq![field]) =~= Seq::<FieldDecoderModel>::empty()) by {
        reveal_with_fuel(field_decoders, 2);
    }
}

/// Generator omission: a field that the encoder cannot map, one without a name
/// or with a declared type that is no path, leaves the encoder as it is
/// without that field.
pub proof fn lemma_unmapped_field_sets_nothing(
    before: Seq<FieldDecl>,
    field: FieldDecl,
    after: Seq<FieldDecl>,
)
    requires
        field_property(field) is None,
    ensures
        field_properties(before + seq![field] + after) == field_properties(before + after),
{
    lemma_field_properties_concat(before + seq![field], after);
    lemma_field_properties_concat(before, seq![field]);
    lemma_field_properties_concat(before, after);
    assert(field_properties(seq![field]) =~= Seq::<Seq<char>>::empty()) by {
        reveal_with_fuel(field_properties, 2);
    }
}

/// Where some property has the name, one of them is the first.
pub proof fn lemma_first_named(props: Seq<(Seq<char>, ValueModel)>, name: Seq<char>, at: int)
    requires
        0 <= at < props.len(),
        props[at].0 == name,
    ensures
        exists|i: int| is_first_named(props, name, i),
    decreases at,
{
    if forall|j: int| 0 <= j < at ==> (#[trigger] props[j]).0 != name {
        assert(is_first_named(props, name, at));
    } else {
        let earlier = choose|j: int| 0 <= j < at && (#[trigger] props[j]).0 == name;
        lemma_first_named(props, name, earlier);
    }
}

/// The names and values that a list of settings names, where each has a name:
/// the key of each with the value that stands for it.
pub open spec fn named_pairs<X>(
    settings: Seq<(Option<Seq<char>>, ValueModel)>,
    values: Seq<X>,
) -> Seq<(Seq<char>, X)> {
    Seq::new(settings.len(), |i: int| (settings[i].0->Some_0, values[i]))
}

/// The object that a list of settings builds holds, under each name, the value
/// of the last setting of that name: read back property by property through
/// `read`, it gives the mapping of the settings' names to what their values
/// read as.
pub proof fn lemma_object_of_reads_back<X>(
    settings: Seq<(Option<Seq<char>>, ValueModel)>,
    read: spec_fn(ValueModel) -> Result<X, ErrorModel>,
    values: Seq<X>,
) -> (back: Seq<(Seq<char>, X)>)
    requires
        values.len() == settings.len(),
        forall|i: int|
            0 <= i < settings.len() ==> (#[trigger] settings[i]).0 is Some && read(settings[i].1)
                == Ok::<X, ErrorModel>(values[i]),
    ensures
        back.len() == object_of(settings).len(),
        forall|j: int|
            0 <= j < back.len() ==> (#[trigger] object_of(settings)[j]).0 == back[j].0 && read(
                object_of(settings)[j].1,
            ) == Ok::<X, ErrorModel>(back[j].1),
        distinct_keys(back),
        pairs_map(back) == pairs_map(named_pairs(settings, values)),
    decreases settings.len(),
{
    if settings.len() == 0 {
        Seq::<(Seq<char>, X)>::empty()
    } else {
        let front = settings.drop_last();
        let front_values = values.drop_last();
        let before = lemma_object_of_reads_back(front, read, front_values);
        let props = object_of(front);
        let last = settings[settings.len() - 1];
        let name = last.0->Some_0;
        let value = values.last();
        assert(named_pairs(settings, values).drop_last() =~= named_pairs(front, front_values));
        lemma_pairs_map_push(named_pairs(front, front_values), name, value);
        if exists|i: int| is_first_named(props, name, i) {
            let at = choose|i: int| is_first_named(props, name, i);
            lemma_pairs_map_update(before, at, name, value);
            before.update(at, (name, value))
        } else {
            assert forall|j: int| 0 <= j < props.len() implies (#[trigger] props[j]).0 != name by {
                if props[j].0 == name {
                    lemma_first_named(props, name, j);
                }
            }
            let back = before.push((name, value));
            assert(distinct_keys(back)) by {
                assert forall|a: int, b: int| 0 <= a < b < back.len() implies back[a].0
                    != back[b].0 by {
                    if b == before.len() {
                        assert(props[a].0 == before[a].0);
                    }
                }
            }
            lemma_pairs_map_push(before, name, value);
            back
        }
    }
}

/// The mapping that a list of host entries stands for once its keys are read
/// as strings: the text of each key with the deep view of its value.
pub open spec fn host_pairs<K: IntoValue, T: DeepView>(entries: Seq<(K, T)>) -> Seq<
    (Seq<char>, T::V),
> {
    Seq::new(
        entries.len(),
        |i: int| (entries[i].0.encoded().text()->Some_0, entries[i].1.deep_view()),
    )
}

/// Every key of the entries, once encoded, has a text, and every value is one
/// that encoding keeps whole.
pub open spec fn comes_back<K: IntoValue, T: RoundTrip>(entries: Seq<(K, T)>) -> bool {
    forall|i: int|
        0 <= i < entries.len() ==> (#[trigger] entries[i]).0.encoded().text() is Some
            && entries[i].1.faithful()
}

/// Key coercion through a keyed collection: a host mapping with keys of any
/// kind, encoded as a keyed collection and decoded as a mapping from strings,
/// gives the values of that mapping under the texts of its keys, whatever the
/// order of the entries.
pub proof fn lemma_mapping_round_trip<K: IntoValue, T: RoundTrip>(host: HostMap<K, T>)
    requires
        comes_back(host.entries@),
    ensures
        StringMap::<T>::decoded(host.encoded()) == Ok::<Map<Seq<char>, T::V>, ErrorModel>(
            pairs_map(host_pairs(host.entries@)),
        ),
{
    let entries = host.entries@;
    let results = decoded_entries::<T>(encoded_entries(entries));
    let pairs = host_pairs(entries);
    assert forall|i: int| 0 <= i < results.len() implies #[trigger] results[i] == Some(
        Ok::<(Seq<char>, T::V), ErrorModel>(pairs[i]),
    ) by {
        T::round_trip(entries[i].1);
        T::encoded_is_resolved(entries[i].1);
    }
    lemma_collect_present_values(results, pairs);
}

/// Key coercion through a plain object: a host mapping with keys of any kind,
/// encoded as a plain object and decoded as a mapping from strings, gives the
/// values of that mapping under the texts of its keys, whatever the order of
/// the properties. The keys come back as strings, not as what they were.
pub proof fn lemma_object_round_trip<K: IntoValue, T: RoundTrip>(host: HostMap<K, T>)
    requires
        comes_back(host.entries@),
    ensures
        StringMap::<T>::decoded(host.encoded_object()) == Ok::<Map<Seq<char>, T::V>, ErrorModel>(
            pairs_map(host_pairs(host.entries@)),
        ),
{
    let entries = host.entries@;
    let settings = encoded_settings(entries);
    let values = Seq::new(entries.len(), |i: int| entries[i].1.deep_view());
    let read = |v: ValueModel|
        if v is Unresolved {
            Err(ErrorModel::FailedToGetPropertyNames)
        } else {
            T::decoded(v)
        };
    assert forall|i: int| 0 <= i < settings.len() implies (#[trigger] settings[i]).0 is Some
        && read(settings[i].1) == Ok::<T::V, ErrorModel>(values[i]) by {
        T::round_trip(entries[i].1);
        T::encoded_is_resolved(entries[i].1);
    }
    let back = lemma_object_of_reads_back(settings, read, values);
    let props = object_of(settings);
    let results = decoded_properties::<T>(props);
    lemma_collect_values(results, back);
    assert(named_pairs(settings, values) =~= host_pairs(entries));
}

/// Mapping symmetry: a mapping of the host from strings, encoded as a keyed
/// collection or as a plain object and decoded again, is the mapping that it
/// was, whatever the order of its entries.
pub proof fn lemma_string_map_round_trip<T: RoundTrip>(map: StringMap<T>)
    requires
        forall|i: int|
            0 <= i < map.pairs().len() ==> representable((#[trigger] map.pairs()[i]).0)
                && map.pairs()[i].1.faithful(),
    ensures
        StringMap::<T>::decoded(map.encoded()) == Ok::<Map<Seq<char>, T::V>, ErrorModel>(
            map.deep_view(),
        ),
        StringMap::<T>::decoded(map.encoded_object()) == Ok::<Map<Seq<char>, T::V>, ErrorModel>(
            map.deep_view(),
        ),
{
    let pairs = map.pairs();
    let deep = deep_pairs(pairs);
    let entries = Seq::new(pairs.len(), |i: int| (encoded_string(pairs[i].0), pairs[i].1.encoded()));
    let results = decoded_entries::<T>(entries);
    assert forall|i: int| 0 <= i < results.len() implies #[trigger] results[i] == Some(
        Ok::<(Seq<char>, T::V), ErrorModel>(deep[i]),
    ) by {
        T::round_trip(pairs[i].1);
        T::encoded_is_resolved(pairs[i].1);
    }
    lemma_collect_present_values(results, deep);

    let settings = Seq::new(
        pairs.len(),
        |i: int| (encoded_string(pairs[i].0).text(), pairs[i].1.encoded()),
    );
    let values = Seq::new(pairs.len(), |i: int| pairs[i].1.deep_view());
    let read = |v: ValueModel|
        if v is Unresolved {
            Err(ErrorModel::FailedToGetPropertyNames)
        } else {
            T::decoded(v)
        };
    assert forall|i: int| 0 <= i < settings.len() implies (#[trigger] settings[i]).0 is Some
        && read(settings[i].1) == Ok::<T::V, ErrorModel>(values[i]) by {
        T::round_trip(pairs[i].1);
        T::encoded_is_resolved(pairs[i].1);
    }
    let back = lemma_object_of_reads_back(settings, read, values);
    let props = object_of(settings);
    let read_back = decoded_properties::<T>(props);
    lemma_collect_values(read_back, back);
    assert(named_pairs(settings, values) =~= deep);
}

/// JSON bridge: a plain JSON tree, rebuilt as a dynamic value and converted
/// to JSON again, is the tree that it was; an object by its members, whatever
/// their order.
pub proof fn lemma_json_round_trip(j: Json)
    requires
        plain(j),
    ensures
        json_of(json_encoded(j)) == Ok::<JsonModel, ErrorModel>(j@),
    decreases j,
{
    match j {
        Json::Null => {},
        Json::Bool(_) => {},
        Json::Number(Number::PosInt(u)) => {
            lemma_wrap_i64_fits(u as int);
        },
        Json::Number(Number::NegInt(i)) => {
            lemma_wrap_i64_fits(i as int);
        },
        Json::Number(Number::Float(_)) => {},
        Json::String(_) => {},
        Json::Array(items) => {
            let results = elements_to_json(elements_encoded(items@));
            let values = jsons_view(items@);
            assert forall|i: int| 0 <= i < results.len() implies #[trigger] results[i] == Ok::<
                JsonModel,
                ErrorModel,
            >(values[i]) by {
                lemma_json_round_trip(items@[i]);
            }
            lemma_collect_values(results, values);
            lemma_view_json_array(items);
        },
        Json::Object(members) => {
            let settings = members_encoded(members@);
            let values = Seq::new(members@.len(), |i: int| members@[i].1@);
            let read = |v: ValueModel|
                if v is Unresolved {
                    Err(ErrorModel::ExpectedObject)
                } else {
                    json_of(v)
                };
            assert forall|i: int| 0 <= i < settings.len() implies (#[trigger] settings[i]).0 is Some
                && read(settings[i].1) == Ok::<JsonModel, ErrorModel>(values[i]) by {
                lemma_json_round_trip(members@[i].1);
            }
            let back = lemma_object_of_reads_back(settings, read, values);
            let props = object_of(settings);
            let results = members_to_json(props);
            lemma_collect_values(results, back);
            assert(named_pairs(settings, values) =~= members_view(members@)) by {}
            lemma_view_json_object(members);
        },
    }
}

/// JSON bridge, there and back: where a dynamic value converts to a plain JSON
/// tree, the value that the tree is rebuilt as converts to the same JSON. It
/// is the value that was converted, but for the order of its properties and
/// the kinds of its integers.
pub proof fn lemma_bridge_and_back(v: ValueModel, j: Json)
    requires
        json_of(v) == Ok::<JsonModel, ErrorModel>(j@),
        plain(j),
    ensures
        json_of(json_encoded(j)) == json_of(v),
{
    lemma_json_round_trip(j);
}

/// One target for each encoding of a host mapping: a keyed collection where a
/// value is asked for, a plain object where an object is.
pub proof fn lemma_encoding_picks_one_kind<K: IntoValue, T: IntoValue>(host: HostMap<K, T>)
    ensures
        host.encoded() is Mapping,
        host.encoded_object() is Object,
{
}

} // verus!
