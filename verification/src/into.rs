//! The encoders: from a value of the host to a dynamic value.

use crate::from::Float64;
use crate::host_map::{HostMap, StringMap};
use crate::text::coerce_to_string;
use crate::value::{
    entries_view, lemma_view_array, lemma_view_mapping, lemma_view_object, properties_view,
    representable, values_view, BigInt, Value, ValueModel, MAX_STRING_LENGTH,
};
use vstd::prelude::*;

verus! {

/// A host type that can be encoded as a dynamic value.
///
/// A record type of the host implements it by the plan of its encoder. What
/// is proved of a type through this trait holds as far as its `encoded` says
/// what its `into_value` does: for the types of this crate that is proved, for
/// any other it is taken on trust.
pub trait IntoValue: Sized {
    /// The dynamic value that this host value is encoded as.
    spec fn encoded(self) -> ValueModel;

    /// Encodes this host value.
    fn into_value(self) -> (v: Value)
        ensures
            v@ == self.encoded(),
    ;
}

/// A host mapping that can be encoded as a plain object.
pub trait IntoObject: Sized {
    /// The plain object that this host mapping is encoded as.
    spec fn encoded_object(self) -> ValueModel;

    /// Encodes this host mapping as a plain object.
    fn into_object(self) -> (v: Value)
        ensures
            v@ == self.encoded_object(),
    ;
}

/// The string that the runtime builds from these characters: the string
/// itself, or the empty string where the runtime cannot hold it.
pub open spec fn encoded_string(text: Seq<char>) -> ValueModel {
    if representable(text) {
        ValueModel::String(text)
    } else {
        ValueModel::String(Seq::empty())
    }
}

/// The list of properties after `name` was set to `value`: the first property
/// of that name holds the new value, or, where there is none, a new property
/// stands at the end.
pub open spec fn set_property(
    props: Seq<(Seq<char>, ValueModel)>,
    name: Seq<char>,
    value: ValueModel,
) -> Seq<(Seq<char>, ValueModel)> {
    if exists|i: int| is_first_named(props, name, i) {
        props.update(choose|i: int| is_first_named(props, name, i), (name, value))
    } else {
        props.push((name, value))
    }
}

/// Whether `i` is the index of the first property of the name `name`.
pub open spec fn is_first_named(
    props: Seq<(Seq<char>, ValueModel)>,
    name: Seq<char>,
    i: int,
) -> bool {
    &&& 0 <= i < props.len()
    &&& props[i].0 == name
    &&& forall|j: int| 0 <= j < i ==> (#[trigger] props[j]).0 != name
}

/// The properties of the object that is built by setting, for each entry in
/// turn, the property named by the entry's key to the entry's value. An entry
/// whose key has no text sets nothing.
pub open spec fn object_of(entries: Seq<(Option<Seq<char>>, ValueModel)>) -> Seq<
    (Seq<char>, ValueModel),
>
    decreases entries.len(),
{
    if entries.len() == 0 {
        Seq::empty()
    } else {
        match entries.last().0 {
            Some(name) => set_property(object_of(entries.drop_last()), name, entries.last().1),
            None => object_of(entries.drop_last()),
        }
    }
}

/// Sets the property `name` of a list of properties to `value`.
#[verifier::loop_isolation(false)]
pub fn object_set(props: &mut Vec<(String, Value)>, name: String, value: Value)
    ensures
        properties_view(final(props)@) == set_property(
            properties_view(old(props)@),
            name@,
            value@,
        ),
{
    let ghost before = properties_view(props@);
    let mut i: usize = 0;
    while i < props.len()
        invariant
            i <= props.len(),
            before == properties_view(props@),
            forall|j: int| 0 <= j < i ==> (#[trigger] before[j]).0 != name@,
        decreases props.len() - i,
    {
        if props[i].0 == name {
            proof {
                assert(is_first_named(before, name@, i as int));
            }
            props.set(i, (name, value));
            return ;
        }
        i += 1;
    }
    props.push((name, value));
}

impl IntoValue for bool {
    open spec fn encoded(self) -> ValueModel {
        ValueModel::Boolean(self)
    }

    fn into_value(self) -> (v: Value) {
        Value::Boolean(self)
    }
}

impl IntoValue for i8 {
    open spec fn encoded(self) -> ValueModel {
        ValueModel::Int32(self as i32)
    }

    fn into_value(self) -> (v: Value) {
        Value::Int32(self as i32)
    }
}

impl IntoValue for i32 {
    open spec fn encoded(self) -> ValueModel {
        ValueModel::Int32(self)
    }

    fn into_value(self) -> (v: Value) {
        Value::Int32(self)
    }
}

impl IntoValue for u32 {
    open spec fn encoded(self) -> ValueModel {
        ValueModel::UInt32(self)
    }

    fn into_value(self) -> (v: Value) {
        Value::UInt32(self)
    }
}

impl IntoValue for i64 {
    open spec fn encoded(self) -> ValueModel {
        ValueModel::BigInt(self as int)
    }

    fn into_value(self) -> (v: Value) {
        Value::BigInt(BigInt::from_i64(self))
    }
}

impl IntoValue for Float64 {
    open spec fn encoded(self) -> ValueModel {
        ValueModel::Float64(self.bits)
    }

    fn into_value(self) -> (v: Value) {
        Value::Float64(self.bits)
    }
}

impl IntoValue for String {
    /// A string that the runtime cannot hold is encoded as the empty string:
    /// the one failure that is taken in and not reported.
    open spec fn encoded(self) -> ValueModel {
        encoded_string(self@)
    }

    fn into_value(self) -> (v: Value) {
        if self.as_str().as_bytes().len() <= MAX_STRING_LENGTH {
            Value::String(self)
        } else {
            Value::String(String::new())
        }
    }
}

impl<T: IntoValue> IntoValue for Option<T> {
    open spec fn encoded(self) -> ValueModel {
        match self {
            Some(value) => value.encoded(),
            None => ValueModel::Null,
        }
    }

    fn into_value(self) -> (v: Value) {
        match self {
            Some(value) => value.into_value(),
            None => Value::Null,
        }
    }
}

/// What each element of a list is encoded as.
pub open spec fn encoded_each<T: IntoValue>(items: Seq<T>) -> Seq<ValueModel> {
    Seq::new(items.len(), |i: int| items[i].encoded())
}

impl<T: IntoValue> IntoValue for Vec<T> {
    /// An array with one element for each element of the list, in order.
    open spec fn encoded(self) -> ValueModel {
        ValueModel::Array(encoded_each(self@))
    }

    fn into_value(self) -> (v: Value) {
        let ghost items = self@;
        let mut elements: Vec<Value> = Vec::new();
        for item in it: self
            invariant
                it.seq() == items,
                values_view(elements@) == encoded_each(items.take(it.index() as int)),
        {
            let ghost n = it.index() as int;
            let element = item.into_value();
            elements.push(element);
            proof {
                assert(encoded_each(items.take(n + 1)) =~= encoded_each(items.take(n)).push(
                    items[n].encoded(),
                ));
            }
        }
        proof {
            assert(items.take(items.len() as int) =~= items);
            lemma_view_array(elements);
        }
        Value::Array(elements)
    }
}

/// What each entry of a list is encoded as: its key and its value.
pub open spec fn encoded_entries<K: IntoValue, T: IntoValue>(entries: Seq<(K, T)>) -> Seq<
    (ValueModel, ValueModel),
> {
    Seq::new(entries.len(), |i: int| (entries[i].0.encoded(), entries[i].1.encoded()))
}

/// What each entry of a list sets in a plain object: the property named by the
/// text of its encoded key, where that has one, to its encoded value.
pub open spec fn encoded_settings<K: IntoValue, T: IntoValue>(entries: Seq<(K, T)>) -> Seq<
    (Option<Seq<char>>, ValueModel),
> {
    Seq::new(entries.len(), |i: int| (entries[i].0.encoded().text(), entries[i].1.encoded()))
}

/// Encodes the entries of a host mapping as the entries of a keyed collection.
pub fn entries_into_mapping<K: IntoValue, T: IntoValue>(entries: Vec<(K, T)>) -> (v: Value)
    ensures
        v@ == ValueModel::Mapping(encoded_entries(entries@)),
{
    let ghost all = entries@;
    let mut out: Vec<(Value, Value)> = Vec::new();
    for entry in it: entries
        invariant
            it.seq() == all,
            entries_view(out@) == encoded_entries(all.take(it.index() as int)),
    {
        let ghost n = it.index() as int;
        let (key, value) = entry;
        let key = key.into_value();
        let value = value.into_value();
        out.push((key, value));
        proof {
            assert(encoded_entries(all.take(n + 1)) =~= encoded_entries(all.take(n)).push(
                (all[n].0.encoded(), all[n].1.encoded()),
            ));
        }
    }
    proof {
        assert(all.take(all.len() as int) =~= all);
        lemma_view_mapping(out);
    }
    Value::Mapping(out)
}

/// Encodes the entries of a host mapping as the properties of a plain object.
pub fn entries_into_object<K: IntoValue, T: IntoValue>(entries: Vec<(K, T)>) -> (v: Value)
    ensures
        v@ == ValueModel::Object(object_of(encoded_settings(entries@))),
{
    let ghost all = entries@;
    let mut props: Vec<(String, Value)> = Vec::new();
    for entry in it: entries
        invariant
            it.seq() == all,
            properties_view(props@) == object_of(encoded_settings(all.take(it.index() as int))),
    {
        let ghost n = it.index() as int;
        proof {
            let next = encoded_settings(all.take(n + 1));
            assert(next.drop_last() =~= encoded_settings(all.take(n)));
        }
        let (key, value) = entry;
        let key = key.into_value();
        let value = value.into_value();
        match coerce_to_string(&key) {
            Some(name) => {
                object_set(&mut props, name, value);
            },
            None => {},
        }
    }
    proof {
        assert(all.take(all.len() as int) =~= all);
        lemma_view_object(props);
    }
    Value::Object(props)
}

impl<K: IntoValue, T: IntoValue> IntoValue for HostMap<K, T> {
    /// A keyed collection with one entry for each entry of the mapping, in
    /// order, each key encoded by its own kind.
    open spec fn encoded(self) -> ValueModel {
        ValueModel::Mapping(encoded_entries(self.entries@))
    }

    fn into_value(self) -> (v: Value) {
        entries_into_mapping(self.entries)
    }
}

impl<K: IntoValue, T: IntoValue> IntoObject for HostMap<K, T> {
    /// A plain object in which, for each entry of the mapping in turn, the
    /// property named by the text of the key was set.
    open spec fn encoded_object(self) -> ValueModel {
        ValueModel::Object(object_of(encoded_settings(self.entries@)))
    }

    fn into_object(self) -> (v: Value) {
        entries_into_object(self.entries)
    }
}

impl<T: IntoValue> IntoValue for StringMap<T> {
    /// A keyed collection with one entry for each key of the mapping, in the
    /// order in which the mapping keeps them, each key a string.
    open spec fn encoded(self) -> ValueModel {
        ValueModel::Mapping(
            Seq::new(
                self.pairs().len(),
                |i: int| (encoded_string(self.pairs()[i].0), self.pairs()[i].1.encoded()),
            ),
        )
    }

    fn into_value(self) -> (v: Value) {
        let ghost pairs = self.pairs();
        let entries = self.into_entries();
        let v = entries_into_mapping(entries);
        proof {
            assert(encoded_entries(entries@) =~= Seq::new(
                pairs.len(),
                |i: int| (encoded_string(pairs[i].0), pairs[i].1.encoded()),
            ));
        }
        v
    }
}

impl<T: IntoValue> IntoObject for StringMap<T> {
    /// A plain object with one property for each key of the mapping, in the
    /// order in which the mapping keeps them.
    open spec fn encoded_object(self) -> ValueModel {
        ValueModel::Object(
            object_of(
                Seq::new(
                    self.pairs().len(),
                    |i: int|
                        (encoded_string(self.pairs()[i].0).text(), self.pairs()[i].1.encoded()),
                ),
            ),
        )
    }

    fn into_object(self) -> (v: Value) {
        let ghost pairs = self.pairs();
        let entries = self.into_entries();
        let v = entries_into_object(entries);
        proof {
            assert(encoded_settings(entries@) =~= Seq::new(
                pairs.len(),
                |i: int| (encoded_string(pairs[i].0).text(), pairs[i].1.encoded()),
            ));
        }
        v
    }
}

} // verus!
