//! Decoding by type: what a host type is decoded from.

use crate::errors::{deep_result, Error, ErrorModel};
use crate::helpers::{
    decoded_map, decoded_vec, try_as_bool, try_as_f64, try_as_hashmap, try_as_i32, try_as_i64,
    try_as_i8, try_as_string, try_as_u32, try_as_vec,
};
use crate::host_map::StringMap;
use crate::value::{Value, ValueModel};
use vstd::prelude::*;

verus! {

/// A host type that can be decoded from a dynamic value.
///
/// A record type of the host implements it by the plan of its decoder. What
/// is proved of a type through this trait holds as far as its `decoded` says
/// what its `try_from_value` does: for the types of this crate that is
/// proved, for any other it is taken on trust.
pub trait TryFromValue: Sized + DeepView {
    /// What a dynamic value decodes to: the deep view of the host value, or the
    /// failure.
    spec fn decoded(v: ValueModel) -> Result<<Self as DeepView>::V, ErrorModel>;

    /// Decodes a dynamic value.
    fn try_from_value(input: &Value) -> (r: Result<Self, Error>)
        ensures
            deep_result(r) == Self::decoded(input@),
    ;
}

/// A double of the host, held as the bits of its binary64 form.
#[derive(Debug, Clone, Copy, PartialEq, Eq, Hash)]
pub struct Float64 {
    pub bits: u64,
}

impl DeepView for Float64 {
    type V = u64;

    open spec fn deep_view(&self) -> u64 {
        self.bits
    }
}

impl TryFromValue for bool {
    open spec fn decoded(v: ValueModel) -> Result<bool, ErrorModel> {
        v.as_bool()
    }

    fn try_from_value(input: &Value) -> (r: Result<bool, Error>) {
        try_as_bool(input)
    }
}

impl TryFromValue for String {
    open spec fn decoded(v: ValueModel) -> Result<Seq<char>, ErrorModel> {
        v.as_string()
    }

    fn try_from_value(input: &Value) -> (r: Result<String, Error>) {
        try_as_string(input)
    }
}

impl TryFromValue for i32 {
    open spec fn decoded(v: ValueModel) -> Result<i32, ErrorModel> {
        v.as_i32()
    }

    fn try_from_value(input: &Value) -> (r: Result<i32, Error>) {
        try_as_i32(input)
    }
}

impl TryFromValue for u32 {
    open spec fn decoded(v: ValueModel) -> Result<u32, ErrorModel> {
        v.as_u32()
    }

    fn try_from_value(input: &Value) -> (r: Result<u32, Error>) {
        try_as_u32(input)
    }
}

impl TryFromValue for i64 {
    open spec fn decoded(v: ValueModel) -> Result<i64, ErrorModel> {
        v.as_i64()
    }

    fn try_from_value(input: &Value) -> (r: Result<i64, Error>) {
        try_as_i64(input)
    }
}

impl TryFromValue for i8 {
    open spec fn decoded(v: ValueModel) -> Result<i8, ErrorModel> {
        v.as_i8()
    }

    fn try_from_value(input: &Value) -> (r: Result<i8, Error>) {
        try_as_i8(input)
    }
}

impl TryFromValue for Float64 {
    open spec fn decoded(v: ValueModel) -> Result<u64, ErrorModel> {
        v.as_f64()
    }

    fn try_from_value(input: &Value) -> (r: Result<Float64, Error>) {
        match try_as_f64(input) {
            Ok(bits) => Ok(Float64 { bits }),
            Err(e) => Err(e),
        }
    }
}

impl<T: TryFromValue> TryFromValue for Option<T> {
    /// Null and undefined decode to no value; any other value decodes as `T`.
    open spec fn decoded(v: ValueModel) -> Result<Option<T::V>, ErrorModel> {
        if v.is_null_or_undefined() {
            Ok(None)
        } else {
            match T::decoded(v) {
                Ok(value) => Ok(Some(value)),
                Err(e) => Err(e),
            }
        }
    }

    fn try_from_value(input: &Value) -> (r: Result<Option<T>, Error>) {
        if input.is_null_or_undefined() {
            Ok(None)
        } else {
            match T::try_from_value(input) {
                Ok(value) => Ok(Some(value)),
                Err(e) => Err(e),
            }
        }
    }
}

impl<T: TryFromValue> TryFromValue for Vec<T> {
    open spec fn decoded(v: ValueModel) -> Result<Seq<T::V>, ErrorModel> {
        decoded_vec::<T>(v)
    }

    fn try_from_value(input: &Value) -> (r: Result<Vec<T>, Error>) {
        try_as_vec::<T>(input)
    }
}

impl<T: TryFromValue> TryFromValue for StringMap<T> {
    open spec fn decoded(v: ValueModel) -> Result<Map<Seq<char>, T::V>, ErrorModel> {
        decoded_map::<T>(v)
    }

    fn try_from_value(input: &Value) -> (r: Result<StringMap<T>, Error>) {
        try_as_hashmap::<T>(input)
    }
}

} // verus!
