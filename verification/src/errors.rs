//! The closed set of failures that a conversion can end in.

use vstd::prelude::*;
use vstd::string::*;

verus! {

/// Why a conversion failed. Every variant is final for the call that raised it.
#[derive(Debug, Clone, PartialEq, Eq)]
pub enum Error {
    ExpectedBoolean,
    ExpectedArray,
    ExpectedObject,
    /// A failure reported by the runtime boundary itself, with its cause as text.
    ConversionFailed(String),
    /// The object has no property of this name.
    FieldNotFound(String),
    /// The name cannot be held as a string of the runtime.
    InvalidField(String),
    ExpectedString,
    ExpectedI32,
    ExpectedU32,
    ExpectedI64,
    ExpectedF64,
    OutOfRange,
    ExpectedMap,
    FailedToGetPropertyNames,
    UnsupportedValueType,
}

/// The mathematical content of an [`Error`].
pub enum ErrorModel {
    ExpectedBoolean,
    ExpectedArray,
    ExpectedObject,
    ConversionFailed(Seq<char>),
    FieldNotFound(Seq<char>),
    InvalidField(Seq<char>),
    ExpectedString,
    ExpectedI32,
    ExpectedU32,
    ExpectedI64,
    ExpectedF64,
    OutOfRange,
    ExpectedMap,
    FailedToGetPropertyNames,
    UnsupportedValueType,
}

impl View for Error {
    type V = ErrorModel;

    open spec fn view(&self) -> ErrorModel {
        match self {
            Error::ExpectedBoolean => ErrorModel::ExpectedBoolean,
            Error::ExpectedArray => ErrorModel::ExpectedArray,
            Error::ExpectedObject => ErrorModel::ExpectedObject,
            Error::ConversionFailed(cause) => ErrorModel::ConversionFailed(cause@),
            Error::FieldNotFound(name) => ErrorModel::FieldNotFound(name@),
            Error::InvalidField(name) => ErrorModel::InvalidField(name@),
            Error::ExpectedString => ErrorModel::ExpectedString,
            Error::ExpectedI32 => ErrorModel::ExpectedI32,
            Error::ExpectedU32 => ErrorModel::ExpectedU32,
            Error::ExpectedI64 => ErrorModel::ExpectedI64,
            Error::ExpectedF64 => ErrorModel::ExpectedF64,
            Error::OutOfRange => ErrorModel::OutOfRange,
            Error::ExpectedMap => ErrorModel::ExpectedMap,
            Error::FailedToGetPropertyNames => ErrorModel::FailedToGetPropertyNames,
            Error::UnsupportedValueType => ErrorModel::UnsupportedValueType,
        }
    }
}

impl ErrorModel {
    /// The text shown for this failure.
    pub open spec fn message(self) -> Seq<char> {
        match self {
            ErrorModel::ExpectedBoolean => "Conversion failed; Expected Boolean"@,
            ErrorModel::ExpectedArray => "Conversion failed; Expected Array"@,
            ErrorModel::ExpectedObject => "Conversion failed; Expected Object"@,
            ErrorModel::ConversionFailed(cause) => "Conversion failed "@ + cause,
            ErrorModel::FieldNotFound(name) => "Field "@ + name + " not found"@,
            ErrorModel::InvalidField(name) => "Invalid field name: "@ + name,
            ErrorModel::ExpectedString => "Conversion failed; Expected String"@,
            ErrorModel::ExpectedI32 => "Conversion failed; Expected Int32"@,
            ErrorModel::ExpectedU32 => "Conversion failed; Expected Uint32"@,
            ErrorModel::ExpectedI64 => "Conversion failed; Expected BigInt"@,
            ErrorModel::ExpectedF64 => "Conversion failed; Expected Number"@,
            ErrorModel::OutOfRange => "Conversion failed; Value out of range"@,
            ErrorModel::ExpectedMap => "Conversion failed; Expected Map"@,
            ErrorModel::FailedToGetPropertyNames => "Conversion failed; Failed to get property names"@,
            ErrorModel::UnsupportedValueType => "Conversion failed; Unsupported value type"@,
        }
    }
}

impl Error {
    /// The text shown for this failure.
    pub fn message(&self) -> (text: String)
        ensures
            text@ == self@.message(),
    {
        match self {
            Error::ExpectedBoolean => "Conversion failed; Expected Boolean".to_owned(),
            Error::ExpectedArray => "Conversion failed; Expected Array".to_owned(),
            Error::ExpectedObject => "Conversion failed; Expected Object".to_owned(),
            Error::ConversionFailed(cause) => "Conversion failed ".to_owned().concat(cause.as_str()),
            Error::FieldNotFound(name) => "Field ".to_owned().concat(name.as_str()).concat(
                " not found",
            ),
            Error::InvalidField(name) => "Invalid field name: ".to_owned().concat(name.as_str()),
            Error::ExpectedString => "Conversion failed; Expected String".to_owned(),
            Error::ExpectedI32 => "Conversion failed; Expected Int32".to_owned(),
            Error::ExpectedU32 => "Conversion failed; Expected Uint32".to_owned(),
            Error::ExpectedI64 => "Conversion failed; Expected BigInt".to_owned(),
            Error::ExpectedF64 => "Conversion failed; Expected Number".to_owned(),
            Error::OutOfRange => "Conversion failed; Value out of range".to_owned(),
            Error::ExpectedMap => "Conversion failed; Expected Map".to_owned(),
            Error::FailedToGetPropertyNames =>
                "Conversion failed; Failed to get property names".to_owned(),
            Error::UnsupportedValueType => "Conversion failed; Unsupported value type".to_owned(),
        }
    }
}

/// The view of a result: the view of what it holds, on either side.
pub open spec fn result_view<T: View>(r: Result<T, Error>) -> Result<T::V, ErrorModel> {
    match r {
        Ok(x) => Ok(x@),
        Err(e) => Err(e@),
    }
}

/// The deep view of a result: the deep view of the value, or the view of the
/// failure.
pub open spec fn deep_result<T: DeepView>(r: Result<T, Error>) -> Result<T::V, ErrorModel> {
    match r {
        Ok(x) => Ok(x.deep_view()),
        Err(e) => Err(e@),
    }
}

} // verus!
