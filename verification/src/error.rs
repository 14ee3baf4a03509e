use vstd::prelude::*;

verus! {

/// Why an operation on a [`crate::value::JsonValue`] failed.  Every variant
/// records a caller's wrong assumption about a value's current shape; none is
/// transient or retryable.
#[derive(Debug, PartialEq, Eq)]
pub enum JsonError {
    /// A variant-specific operation was invoked on a value holding a
    /// different variant; the payload names the variant that was expected.
    WrongType(String),
    /// An object lookup addressed a key that the object does not contain;
    /// the payload is that key.
    Undefined(String),
    /// An array lookup addressed a position at or past the array's length.
    ArrayIndexOutOfBounds,
}

/// The mathematical picture of a [`JsonError`]: the same three cases, with
/// text as character sequences.
pub enum ErrorModel {
    WrongType(Seq<char>),
    Undefined(Seq<char>),
    ArrayIndexOutOfBounds,
}

impl View for JsonError {
    type V = ErrorModel;

    open spec fn view(&self) -> ErrorModel {
        match self {
            JsonError::WrongType(name) => ErrorModel::WrongType(name@),
            JsonError::Undefined(key) => ErrorModel::Undefined(key@),
            JsonError::ArrayIndexOutOfBounds => ErrorModel::ArrayIndexOutOfBounds,
        }
    }
}

impl JsonError {
    /// A `WrongType` error naming the variant the caller expected.
    pub fn wrong_type(expected: &str) -> (e: JsonError)
        ensures
            e@ == ErrorModel::WrongType(expected@),
    {
        JsonError::WrongType(expected.to_owned())
    }

    /// An `Undefined` error carrying the key that was not found.
    pub fn undefined(key: &str) -> (e: JsonError)
        ensures
            e@ == ErrorModel::Undefined(key@),
    {
        JsonError::Undefined(key.to_owned())
    }
}

/// The result of every fallible operation on a value.
pub type JsonResult<T> = Result<T, JsonError>;

} // verus!
