//! An in-memory model of JSON-like data: a closed sum of strings, numbers,
//! booleans, null, key-value objects and ordered arrays, with checked
//! navigation, coercion and in-place mutation.

pub mod error;
pub mod model;
pub mod value;
pub mod laws;
