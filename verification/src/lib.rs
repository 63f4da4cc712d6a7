//! A typed marshalling engine between the values of a dynamically typed
//! scripting runtime and the values of its host.
//!
//! A dynamic value is held as a [`value::Value`]: a snapshot of its kind and of
//! what the runtime's accessors give for it. Decoding ([`helpers`], [`from`])
//! turns a dynamic value into a host value or a typed failure; encoding
//! ([`into`]) turns a host value into a dynamic value; the bridge ([`json`])
//! converts between dynamic values and canonical JSON trees; the generator
//! ([`generator`]) plans the decoder and the encoder of a record type from its
//! declaration. What holds of them together is stated and proved in [`laws`].
//!
//! A double is held by the bits of its binary64 form throughout: this crate
//! computes nothing with floating point.

pub mod errors;
pub mod from;
pub mod generator;
pub mod helpers;
pub mod host_map;
pub mod into;
pub mod json;
pub mod laws;
pub mod seqs;
pub mod text;
pub mod value;

pub use errors::Error;
pub use from::TryFromValue;
pub use helpers::{
    get_field_as, get_optional_field_as, lookup_field, try_as_bool, try_as_f64, try_as_hashmap,
    try_as_i32, try_as_i64, try_as_i8, try_as_string, try_as_u32, try_as_vec,
};
pub use host_map::{HostMap, StringMap};
pub use into::{IntoObject, IntoValue};
pub use value::{BigInt, Value};
pub use vstd::view::DeepView;
