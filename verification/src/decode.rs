//! The vocabulary of decoding a document into a record: what a field can be, and
//! how decoding fails.

use vstd::prelude::*;

verus! {

/// Why a document could not be decoded into a record.
#[derive(Debug, Clone, PartialEq, Eq)]
pub enum DecodeError {
    /// The text could not be read as a document. The message is the parser's own.
    Syntax(String),
    /// The document's top-level value is not a record: a block, or a JSON object.
    NotARecord,
    /// The named field is required and absent.
    Missing(&'static str),
    /// The named field is present, but what is written under it is not a value of
    /// the field's type.
    Invalid(&'static str),
}

/// A [`DecodeError`] as a mathematical value.
pub enum Failure {
    Syntax(Seq<char>),
    NotARecord,
    Missing(Seq<char>),
    Invalid(Seq<char>),
}

impl View for DecodeError {
    type V = Failure;

    open spec fn view(&self) -> Failure {
        match *self {
            DecodeError::Syntax(message) => Failure::Syntax(message@),
            DecodeError::NotARecord => Failure::NotARecord,
            DecodeError::Missing(name) => Failure::Missing(name@),
            DecodeError::Invalid(name) => Failure::Invalid(name@),
        }
    }
}

/// What a record holds for one field.
pub enum Field<T> {
    /// No entry has the field's key.
    Absent,
    /// The key has an entry, but not with one value of the field's type.
    Malformed,
    /// The field's value.
    Value(T),
}

/// A field that a record cannot do without.
pub open spec fn required<T>(field: Field<T>, name: Seq<char>) -> Result<T, Failure> {
    match field {
        Field::Absent => Err(Failure::Missing(name)),
        Field::Malformed => Err(Failure::Invalid(name)),
        Field::Value(v) => Ok(v),
    }
}

/// A field that may be left out: an absent field is unset, not zero.
pub open spec fn optional<T>(field: Field<T>, name: Seq<char>) -> Result<Option<T>, Failure> {
    match field {
        Field::Absent => Ok(None),
        Field::Malformed => Err(Failure::Invalid(name)),
        Field::Value(v) => Ok(Some(v)),
    }
}

/// The failure of a decoding step, if it failed.
pub open spec fn failure_of<T>(step: Result<T, Failure>) -> Option<Failure> {
    match step {
        Ok(_) => None,
        Err(e) => Some(e),
    }
}

/// The first of two failures.
pub open spec fn either(first: Option<Failure>, second: Option<Failure>) -> Option<Failure> {
    if first is Some {
        first
    } else {
        second
    }
}

/// Insists on a field: a record cannot do without it.
pub fn require<T>(field: Field<T>, name: &'static str) -> (r: Result<T, DecodeError>)
    ensures
        match required(field, name@) {
            Ok(v) => r == Ok::<T, DecodeError>(v),
            Err(e) => r is Err && r->Err_0@ == e,
        },
{
    match field {
        Field::Absent => Err(DecodeError::Missing(name)),
        Field::Malformed => Err(DecodeError::Invalid(name)),
        Field::Value(v) => Ok(v),
    }
}

/// Accepts a field that may be left out.
pub fn permit<T>(field: Field<T>, name: &'static str) -> (r: Result<Option<T>, DecodeError>)
    ensures
        match optional(field, name@) {
            Ok(v) => r == Ok::<Option<T>, DecodeError>(v),
            Err(e) => r is Err && r->Err_0@ == e,
        },
{
    match field {
        Field::Absent => Ok(None),
        Field::Malformed => Err(DecodeError::Invalid(name)),
        Field::Value(v) => Ok(Some(v)),
    }
}

} // verus!
