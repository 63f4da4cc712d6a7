//! The dynamic value of the scripting runtime, as the engine sees it.
//!
//! A [`Value`] is a snapshot of one runtime value: its kind and what the
//! runtime's accessors give for it. Its view, a [`ValueModel`], is the
//! mathematical tree over which every contract of this crate is stated.

use vstd::arithmetic::div_mod::{lemma_fundamental_div_mod_converse, lemma_small_mod};
use vstd::prelude::*;

verus! {

/// The longest string, in bytes of UTF-8, that the runtime builds.
pub const MAX_STRING_LENGTH: usize = 536_870_888;

/// Whether the runtime can hold a string of these characters.
pub open spec fn representable(text: Seq<char>) -> bool {
    vstd::utf8::encode_utf8(text).len() <= MAX_STRING_LENGTH
}

/// Two to the power 64.
pub open spec fn word_base() -> int {
    0x1_0000_0000_0000_0000
}

/// The number that a sequence of 64-bit words holds, least significant word first.
pub open spec fn words_value(words: Seq<u64>) -> int
    decreases words.len(),
{
    if words.len() == 0 {
        0
    } else {
        words[0] + word_base() * words_value(words.drop_first())
    }
}

/// The signed 64-bit integer that has the low 64 bits of `v` in two's complement.
pub open spec fn wrap_i64(v: int) -> int {
    let low = v % word_base();
    if low < 0x8000_0000_0000_0000 {
        low
    } else {
        low - word_base()
    }
}

/// An integer of any size, as the runtime holds it: a sign and a magnitude in
/// 64-bit words, least significant word first. Its view is the integer itself.
#[derive(Debug, Clone, PartialEq, Eq)]
pub struct BigInt {
    pub negative: bool,
    pub words: Vec<u64>,
}

impl View for BigInt {
    type V = int;

    open spec fn view(&self) -> int {
        if self.negative {
            -words_value(self.words@)
        } else {
            words_value(self.words@)
        }
    }
}

/// The low 64 bits of a number that is given by its lowest word and the words
/// above it depend on the lowest word alone, whatever its sign.
pub proof fn lemma_low_bits(low: int, rest: int, negative: bool)
    requires
        0 <= low < word_base(),
    ensures
        !negative ==> (low + word_base() * rest) % word_base() == low,
        negative && low == 0 ==> (-(low + word_base() * rest)) % word_base() == 0,
        negative && low != 0 ==> (-(low + word_base() * rest)) % word_base() == word_base() - low,
{
    let base = word_base();
    if !negative {
        assert(low + base * rest == rest * base + low) by (nonlinear_arith);
        lemma_fundamental_div_mod_converse(low + base * rest, base, rest, low);
    } else if low == 0 {
        lemma_fundamental_div_mod_converse(-(low + base * rest), base, -rest, 0);
    } else {
        assert(-(low + base * rest) == (-rest - 1) * base + (base - low)) by (nonlinear_arith);
        lemma_fundamental_div_mod_converse(-(low + base * rest), base, -rest - 1, base - low);
    }
}

impl BigInt {
    /// The big integer that holds `x`.
    pub fn from_i64(x: i64) -> (big: BigInt)
        ensures
            big@ == x,
    {
        let magnitude: u64 = if x >= 0 {
            x as u64
        } else if x == i64::MIN {
            0x8000_0000_0000_0000
        } else {
            (-x) as u64
        };
        let mut words: Vec<u64> = Vec::new();
        words.push(magnitude);
        proof {
            assert(words_value(words@) == magnitude) by {
                reveal_with_fuel(words_value, 2);
            }
        }
        BigInt { negative: x < 0, words }
    }

    /// The big integer that holds `x`.
    pub fn from_u64(x: u64) -> (big: BigInt)
        ensures
            big@ == x,
    {
        let mut words: Vec<u64> = Vec::new();
        words.push(x);
        proof {
            assert(words_value(words@) == x) by {
                reveal_with_fuel(words_value, 2);
            }
        }
        BigInt { negative: false, words }
    }

    /// The low 64 bits of the number, read as a signed integer in two's
    /// complement. A number that does not fit is cut, not refused.
    pub fn low_i64(&self) -> (low: i64)
        ensures
            low == wrap_i64(self@),
    {
        if self.words.len() == 0 {
            proof {
                lemma_small_mod(0, word_base() as nat);
            }
            return 0;
        }
        let first: u64 = self.words[0];
        let bits: u64 = if !self.negative || first == 0 {
            first
        } else {
            u64::MAX - first + 1
        };
        proof {
            lemma_low_bits(first as int, words_value(self.words@.drop_first()), self.negative);
        }
        if bits <= 0x7fff_ffff_ffff_ffff {
            bits as i64
        } else {
            ((bits - 0x8000_0000_0000_0000) as i64) + i64::MIN
        }
    }
}

/// A value of the runtime, of exactly one kind.
///
/// A runtime may report more than one numeric kind for one number. A snapshot
/// holds the number in one of them, and a decoder takes it in that kind alone.
#[derive(Debug, PartialEq, Eq)]
pub enum Value {
    Undefined,
    Null,
    Boolean(bool),
    Int32(i32),
    UInt32(u32),
    BigInt(BigInt),
    /// A double, held as the bits of its binary64 form.
    Float64(u64),
    String(String),
    Array(Vec<Value>),
    /// A plain object: its properties in the order in which the runtime names
    /// them.
    Object(Vec<(String, Value)>),
    /// A plain object whose properties the runtime did not name.
    OpaqueObject,
    /// A keyed collection of the runtime: its entries in the order in which the
    /// runtime walks them.
    Mapping(Vec<(Value, Value)>),
    /// Any kind that the engine does not convert.
    Other,
    /// No value: it stands where the runtime failed to hand one out, for an
    /// element of an array, for a key or a value of a keyed collection, or
    /// for the value of a property.
    Unresolved,
}

/// The mathematical content of a [`Value`].
pub enum ValueModel {
    Undefined,
    Null,
    Boolean(bool),
    Int32(i32),
    UInt32(u32),
    BigInt(int),
    Float64(u64),
    String(Seq<char>),
    Array(Seq<ValueModel>),
    Object(Seq<(Seq<char>, ValueModel)>),
    OpaqueObject,
    Mapping(Seq<(ValueModel, ValueModel)>),
    Other,
    Unresolved,
}

/// The mathematical content of a value: the same tree, with every string and
/// list taken by its view and every big integer by the number it holds.
pub open spec fn model_of(v: Value) -> ValueModel
    decreases v,
{
    match v {
        Value::Undefined => ValueModel::Undefined,
        Value::Null => ValueModel::Null,
        Value::Boolean(b) => ValueModel::Boolean(b),
        Value::Int32(i) => ValueModel::Int32(i),
        Value::UInt32(u) => ValueModel::UInt32(u),
        Value::BigInt(b) => ValueModel::BigInt(b@),
        Value::Float64(bits) => ValueModel::Float64(bits),
        Value::String(s) => ValueModel::String(s@),
        Value::Array(items) => ValueModel::Array(
            Seq::new(
                items@.len(),
                |i: int|
                    if 0 <= i < items@.len() {
                        model_of(items@[i])
                    } else {
                        ValueModel::Undefined
                    },
            ),
        ),
        Value::Object(props) => ValueModel::Object(
            Seq::new(
                props@.len(),
                |i: int|
                    if 0 <= i < props@.len() {
                        (props@[i].0@, model_of(props@[i].1))
                    } else {
                        (Seq::empty(), ValueModel::Undefined)
                    },
            ),
        ),
        Value::Mapping(entries) => ValueModel::Mapping(
            Seq::new(
                entries@.len(),
                |i: int|
                    if 0 <= i < entries@.len() {
                        (model_of(entries@[i].0), model_of(entries@[i].1))
                    } else {
                        (ValueModel::Undefined, ValueModel::Undefined)
                    },
            ),
        ),
        Value::OpaqueObject => ValueModel::OpaqueObject,
        Value::Other => ValueModel::Other,
        Value::Unresolved => ValueModel::Unresolved,
    }
}

impl View for Value {
    type V = ValueModel;

    open spec fn view(&self) -> ValueModel {
        model_of(*self)
    }
}

/// The views of a list of values, in order.
pub open spec fn values_view(items: Seq<Value>) -> Seq<ValueModel> {
    Seq::new(items.len(), |i: int| items[i]@)
}

/// The views of a list of named properties, in order.
pub open spec fn properties_view(props: Seq<(String, Value)>) -> Seq<(Seq<char>, ValueModel)> {
    Seq::new(props.len(), |i: int| (props[i].0@, props[i].1@))
}

/// The views of a list of keyed entries, in order.
pub open spec fn entries_view(entries: Seq<(Value, Value)>) -> Seq<(ValueModel, ValueModel)> {
    Seq::new(entries.len(), |i: int| (entries[i].0@, entries[i].1@))
}

/// The view of an array is the list of the views of its elements.
pub proof fn lemma_view_array(items: Vec<Value>)
    ensures
        Value::Array(items)@ == ValueModel::Array(values_view(items@)),
{
    assert(Value::Array(items)@->Array_0 =~= values_view(items@));
}

/// The view of a plain object is the list of its properties' views.
pub proof fn lemma_view_object(props: Vec<(String, Value)>)
    ensures
        Value::Object(props)@ == ValueModel::Object(properties_view(props@)),
{
    assert(Value::Object(props)@->Object_0 =~= properties_view(props@));
}

/// The view of a keyed collection is the list of its entries' views.
pub proof fn lemma_view_mapping(entries: Vec<(Value, Value)>)
    ensures
        Value::Mapping(entries)@ == ValueModel::Mapping(entries_view(entries@)),
{
    assert(Value::Mapping(entries)@->Mapping_0 =~= entries_view(entries@));
}

/// The first value filed under `name` in a list of properties.
pub open spec fn find_property(
    props: Seq<(Seq<char>, ValueModel)>,
    name: Seq<char>,
) -> Option<ValueModel>
    decreases props.len(),
{
    if props.len() == 0 {
        None
    } else if props[0].0 == name {
        Some(props[0].1)
    } else {
        find_property(props.drop_first(), name)
    }
}

impl ValueModel {
    /// Null or undefined: the two states that stand for "no value".
    pub open spec fn is_null_or_undefined(self) -> bool {
        self is Null || self is Undefined
    }

    /// The kinds that the runtime treats as objects: they can be asked for a
    /// property by name.
    pub open spec fn is_object_like(self) -> bool {
        self is Object || self is OpaqueObject || self is Array || self is Mapping
    }

    /// The value of the property `name`. Only a plain object whose properties
    /// the runtime named has named properties here.
    pub open spec fn property(self, name: Seq<char>) -> Option<ValueModel> {
        match self {
            ValueModel::Object(props) => find_property(props, name),
            _ => None,
        }
    }

    /// Field lookup: the raw value of the property `name`, or why there is none.
    /// A property whose value the runtime did not hand out is not found.
    pub open spec fn lookup(self, name: Seq<char>) -> Result<ValueModel, crate::errors::ErrorModel> {
        if !self.is_object_like() {
            Err(crate::errors::ErrorModel::ExpectedObject)
        } else if !representable(name) {
            Err(crate::errors::ErrorModel::InvalidField(name))
        } else {
            match self.property(name) {
                Some(found) => if found is Unresolved {
                    Err(crate::errors::ErrorModel::FieldNotFound(name))
                } else {
                    Ok(found)
                },
                None => Err(crate::errors::ErrorModel::FieldNotFound(name)),
            }
        }
    }
}

impl Value {
    /// Whether this is null or undefined.
    pub fn is_null_or_undefined(&self) -> (r: bool)
        ensures
            r == self@.is_null_or_undefined(),
    {
        match self {
            Value::Null => true,
            Value::Undefined => true,
            _ => false,
        }
    }

    /// Whether this stands for a value that the runtime did not hand out.
    pub fn is_unresolved(&self) -> (r: bool)
        ensures
            r == (self@ is Unresolved),
    {
        match self {
            Value::Unresolved => true,
            _ => false,
        }
    }

    /// Whether the runtime treats this kind as an object.
    pub fn is_object_like(&self) -> (r: bool)
        ensures
            r == self@.is_object_like(),
    {
        match self {
            Value::Object(_) => true,
            Value::OpaqueObject => true,
            Value::Array(_) => true,
            Value::Mapping(_) => true,
            _ => false,
        }
    }
}

/// A copy of a value: the same tree.
#[verifier::loop_isolation(false)]
pub fn copy_of(value: &Value) -> (copy: Value)
    ensures
        copy@ == value@,
    decreases value,
{
    match value {
        Value::Undefined => Value::Undefined,
        Value::Null => Value::Null,
        Value::Boolean(b) => Value::Boolean(*b),
        Value::Int32(i) => Value::Int32(*i),
        Value::UInt32(u) => Value::UInt32(*u),
        Value::BigInt(b) => {
            let words = b.words.clone();
            Value::BigInt(BigInt { negative: b.negative, words })
        },
        Value::Float64(bits) => Value::Float64(*bits),
        Value::String(s) => Value::String(s.clone()),
        Value::Array(items) => {
            let mut copies: Vec<Value> = Vec::new();
            let mut i: usize = 0;
            while i < items.len()
                invariant
                    i <= items.len(),
                    values_view(copies@) == values_view(items@).take(i as int),
                decreases items.len() - i,
            {
                let copy = copy_of(&items[i]);
                copies.push(copy);
                i += 1;
            }
            proof {
                assert(values_view(items@).take(i as int) =~= values_view(items@));
                lemma_view_array(copies);
                lemma_view_array(*items);
            }
            Value::Array(copies)
        },
        Value::Object(props) => {
            let mut copies: Vec<(String, Value)> = Vec::new();
            let mut i: usize = 0;
            while i < props.len()
                invariant
                    i <= props.len(),
                    properties_view(copies@) == properties_view(props@).take(i as int),
                decreases props.len() - i,
            {
                let name = props[i].0.clone();
                let copy = copy_of(&props[i].1);
                copies.push((name, copy));
                i += 1;
            }
            proof {
                assert(properties_view(props@).take(i as int) =~= properties_view(props@));
                lemma_view_object(copies);
                lemma_view_object(*props);
            }
            Value::Object(copies)
        },
        Value::Mapping(entries) => {
            let mut copies: Vec<(Value, Value)> = Vec::new();
            let mut i: usize = 0;
            while i < entries.len()
                invariant
                    i <= entries.len(),
                    entries_view(copies@) == entries_view(entries@).take(i as int),
                decreases entries.len() - i,
            {
                let key = copy_of(&entries[i].0);
                let copy = copy_of(&entries[i].1);
                copies.push((key, copy));
                i += 1;
            }
            proof {
                assert(entries_view(entries@).take(i as int) =~= entries_view(entries@));
                lemma_view_mapping(copies);
                lemma_view_mapping(*entries);
            }
            Value::Mapping(copies)
        },
        Value::OpaqueObject => Value::OpaqueObject,
        Value::Other => Value::Other,
        Value::Unresolved => Value::Unresolved,
    }
}

impl Clone for Value {
    fn clone(&self) -> (copy: Value)
        ensures
            copy@ == self@,
    {
        copy_of(self)
    }
}

} // verus!
