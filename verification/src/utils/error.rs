//! The library's error type.
//!
//! Library-level failures are reported as explicit [`LodashError`] values;
//! user-supplied closures are never intercepted, so their panics unwind
//! unchanged.  Each constructor pins the variant and its fields down, and
//! [`LodashError::message`] renders the exact diagnostic text.

use vstd::prelude::*;
use vstd::string::StringExecFns;

use crate::utils::digits::dec_digits;
use crate::utils::digits::usize_to_string;

verus! {

/// What went wrong inside the library.
#[derive(Debug, Clone, PartialEq)]
pub enum LodashError {
    /// The input data was rejected.
    InvalidInput { message: String },
    /// A value could not be converted between two types.
    TypeConversion { from: String, to: String },
    /// An index lay outside the collection.
    IndexOutOfBounds { index: usize, size: usize },
    /// The operation needs a non-empty collection.
    EmptyCollection,
    /// A predicate function was rejected.
    InvalidPredicate { message: String },
    /// An asynchronous operation failed.
    AsyncError { message: String },
    /// A parallel operation failed.
    ParallelError { message: String },
    /// An operation at the foreign-host boundary failed.
    WasmError { message: String },
    /// An error carried over from a user-provided function.
    Custom { message: String },
}

impl LodashError {
    /// The diagnostic text of the error.
    pub open spec fn message_spec(self) -> Seq<char> {
        match self {
            LodashError::InvalidInput { message } => "Invalid input: "@ + message@,
            LodashError::TypeConversion { from, to } => "Type conversion failed: "@ + from@
                + " -> "@ + to@,
            LodashError::IndexOutOfBounds { index, size } => "Index "@ + dec_digits(index as nat)
                + " is out of bounds for collection of size "@ + dec_digits(size as nat),
            LodashError::EmptyCollection => "Operation requires non-empty collection"@,
            LodashError::InvalidPredicate { message } => "Invalid predicate function: "@
                + message@,
            LodashError::AsyncError { message } => "Async operation failed: "@ + message@,
            LodashError::ParallelError { message } => "Parallel operation failed: "@ + message@,
            LodashError::WasmError { message } => "WASM operation failed: "@ + message@,
            LodashError::Custom { message } => "Custom error: "@ + message@,
        }
    }

    /// Render the diagnostic text of the error.
    pub fn message(&self) -> (r: String)
        ensures
            r@ == self.message_spec(),
    {
        match self {
            LodashError::InvalidInput { message } => {
                let mut r: String = "Invalid input: ".to_owned();
                r.append(message.as_str());
                r
            },
            LodashError::TypeConversion { from, to } => {
                let mut r: String = "Type conversion failed: ".to_owned();
                r.append(from.as_str());
                r.append(" -> ");
                r.append(to.as_str());
                r
            },
            LodashError::IndexOutOfBounds { index, size } => {
                let mut r: String = "Index ".to_owned();
                let index_text = usize_to_string(*index);
                r.append(index_text.as_str());
                r.append(" is out of bounds for collection of size ");
                let size_text = usize_to_string(*size);
                r.append(size_text.as_str());
                r
            },
            LodashError::EmptyCollection => "Operation requires non-empty collection".to_owned(),
            LodashError::InvalidPredicate { message } => {
                let mut r: String = "Invalid predicate function: ".to_owned();
                r.append(message.as_str());
                r
            },
            LodashError::AsyncError { message } => {
                let mut r: String = "Async operation failed: ".to_owned();
                r.append(message.as_str());
                r
            },
            LodashError::ParallelError { message } => {
                let mut r: String = "Parallel operation failed: ".to_owned();
                r.append(message.as_str());
                r
            },
            LodashError::WasmError { message } => {
                let mut r: String = "WASM operation failed: ".to_owned();
                r.append(message.as_str());
                r
            },
            LodashError::Custom { message } => {
                let mut r: String = "Custom error: ".to_owned();
                r.append(message.as_str());
                r
            },
        }
    }

    /// An [`LodashError::InvalidInput`] carrying `message`.
    pub fn invalid_input(message: &str) -> (r: Self)
        ensures
            r matches LodashError::InvalidInput { message: m } && m@ == message@,
    {
        LodashError::InvalidInput { message: message.to_owned() }
    }

    /// A [`LodashError::TypeConversion`] from `from` to `to`.
    pub fn type_conversion(from: &str, to: &str) -> (r: Self)
        ensures
            r matches LodashError::TypeConversion { from: f, to: t } && f@ == from@ && t@ == to@,
    {
        LodashError::TypeConversion { from: from.to_owned(), to: to.to_owned() }
    }

    /// An [`LodashError::IndexOutOfBounds`] for `index` in a collection of
    /// `size` elements.
    pub fn index_out_of_bounds(index: usize, size: usize) -> (r: Self)
        ensures
            r == (LodashError::IndexOutOfBounds { index, size }),
    {
        LodashError::IndexOutOfBounds { index, size }
    }

    /// The [`LodashError::EmptyCollection`] error.
    pub fn empty_collection() -> (r: Self)
        ensures
            r == LodashError::EmptyCollection,
    {
        LodashError::EmptyCollection
    }

    /// An [`LodashError::InvalidPredicate`] carrying `message`.
    pub fn invalid_predicate(message: &str) -> (r: Self)
        ensures
            r matches LodashError::InvalidPredicate { message: m } && m@ == message@,
    {
        LodashError::InvalidPredicate { message: message.to_owned() }
    }

    /// A [`LodashError::Custom`] carrying `message`.
    pub fn custom(message: &str) -> (r: Self)
        ensures
            r matches LodashError::Custom { message: m } && m@ == message@,
    {
        LodashError::Custom { message: message.to_owned() }
    }

    /// An [`LodashError::AsyncError`] carrying `message`.
    pub fn async_error(message: &str) -> (r: Self)
        ensures
            r matches LodashError::AsyncError { message: m } && m@ == message@,
    {
        LodashError::AsyncError { message: message.to_owned() }
    }

    /// A [`LodashError::ParallelError`] carrying `message`.
    pub fn parallel_error(message: &str) -> (r: Self)
        ensures
            r matches LodashError::ParallelError { message: m } && m@ == message@,
    {
        LodashError::ParallelError { message: message.to_owned() }
    }

    /// A [`LodashError::WasmError`] carrying `message`.
    pub fn wasm_error(message: &str) -> (r: Self)
        ensures
            r matches LodashError::WasmError { message: m } && m@ == message@,
    {
        LodashError::WasmError { message: message.to_owned() }
    }
}

/// Converting library results from other error types.
pub trait IntoLodashError<T>: Sized {
    /// What the conversion yields for this value.
    spec fn conversion_ensures(self, r: Result<T, LodashError>) -> bool;

    /// Convert the error, if any, to a [`LodashError`].
    fn into_lodash_error(self) -> (r: Result<T, LodashError>)
        ensures
            self.conversion_ensures(r),
    ;
}

impl<T, E: std::fmt::Display> IntoLodashError<T> for Result<T, E> {
    open spec fn conversion_ensures(self, r: Result<T, LodashError>) -> bool {
        match self {
            Ok(v) => r == Ok::<T, LodashError>(v),
            Err(source) => r matches Err(e) && (e matches LodashError::Custom { message }
                && exists|text: String|
                {
                    &&& #[trigger] vstd::string::to_string_from_display_ensures::<E>(
                        &source,
                        text,
                    )
                    &&& message@ == text@
                }),
        }
    }

    fn into_lodash_error(self) -> (r: Result<T, LodashError>) {
        match self {
            Ok(v) => Ok(v),
            Err(e) => {
                let text = e.to_string();
                Err(LodashError::custom(text.as_str()))
            },
        }
    }
}

} // verus!
