//! The failure taxonomy shared by the identifier normalizer, the source
//! adapters, the edit session and the record store.

use vstd::prelude::*;

verus! {

/// Every way an operation of this crate can fail.
///
/// Identifier and field-value problems are recoverable at the smallest
/// scope (retry one edit, treat one field as unknown); adapter-level
/// structural failures abort one import; storage failures abort the
/// current store operation.
#[derive(Clone, Copy, Debug, PartialEq, Eq, Structural)]
pub enum BookError {
    /// An identifier string has an unexpected shape (right length, not numeric).
    MalformedIdentifier,
    /// A source did not provide an identifier that the operation requires.
    MissingIdentifier,
    /// A field edit carried a value that does not parse for that field.
    InvalidFieldValue,
    /// A field edit named a field outside the fixed editable set.
    UnknownField,
    /// A write would break the storage layer's uniqueness constraints.
    PersistenceError,
    /// A source (network response, container) was structurally unreadable.
    SourceUnavailable,
}

/// The description [`BookError::message`] hands out for each failure.
pub open spec fn spec_message(e: BookError) -> Seq<char> {
    match e {
        BookError::MalformedIdentifier => "identifier string has an unexpected shape"@,
        BookError::MissingIdentifier => "a required identifier is missing from the source"@,
        BookError::InvalidFieldValue => "the value does not parse for that field"@,
        BookError::UnknownField => "no such editable field"@,
        BookError::PersistenceError => "the write would break a storage uniqueness constraint"@,
        BookError::SourceUnavailable => "the source could not be read"@,
    }
}

impl BookError {
    /// A short description of the failure, for reporting to the user.
    pub fn message(&self) -> (m: &'static str)
        ensures
            m@ == spec_message(*self),
    {
        match self {
            BookError::MalformedIdentifier => "identifier string has an unexpected shape",
            BookError::MissingIdentifier => "a required identifier is missing from the source",
            BookError::InvalidFieldValue => "the value does not parse for that field",
            BookError::UnknownField => "no such editable field",
            BookError::PersistenceError => "the write would break a storage uniqueness constraint",
            BookError::SourceUnavailable => "the source could not be read",
        }
    }
}

} // verus!
