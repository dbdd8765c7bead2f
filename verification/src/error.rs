//! Why a statement does not go through, and how that is said.

use vstd::prelude::*;

verus! {

/// Why a statement did not go through.
#[derive(Debug, PartialEq)]
pub enum EngineError {
    /// No table has the name; the name is given.
    UnknownTable(String),
    /// The table has no column of the name; the name is given.
    UnknownColumn(String),
    /// A value is already filed under the primary key; what is said of it.
    UniqueViolation(String),
    /// A literal writes no value of the type it is meant for; what is said
    /// of it.
    ParseError(String),
    /// The column takes no values, its type being not valid; the name of
    /// the column is given.
    TypeMismatch(String),
    /// The statement and the table do not fit; what is said of it.
    Internal(String),
    /// The statement is none that the engine runs; what is said of it.
    Unsupported(String),
}

/// The mathematical content of an [`EngineError`].
pub enum Failure {
    UnknownTable(Seq<char>),
    UnknownColumn(Seq<char>),
    UniqueViolation(Seq<char>),
    ParseError(Seq<char>),
    TypeMismatch(Seq<char>),
    Internal(Seq<char>),
    Unsupported(Seq<char>),
}

impl View for EngineError {
    type V = Failure;

    open spec fn view(&self) -> Failure {
        match self {
            EngineError::UnknownTable(s) => Failure::UnknownTable(s@),
            EngineError::UnknownColumn(s) => Failure::UnknownColumn(s@),
            EngineError::UniqueViolation(s) => Failure::UniqueViolation(s@),
            EngineError::ParseError(s) => Failure::ParseError(s@),
            EngineError::TypeMismatch(s) => Failure::TypeMismatch(s@),
            EngineError::Internal(s) => Failure::Internal(s@),
            EngineError::Unsupported(s) => Failure::Unsupported(s@),
        }
    }
}

/// What a failure says to the user.
pub open spec fn failure_text(failure: Failure) -> Seq<char> {
    match failure {
        Failure::UnknownTable(name) => "unknown table "@ + name,
        Failure::UnknownColumn(name) => "unknown column "@ + name,
        Failure::UniqueViolation(said) => said,
        Failure::ParseError(said) => said,
        Failure::TypeMismatch(name) => "no value can be held in column "@ + name,
        Failure::Internal(said) => said,
        Failure::Unsupported(said) => said,
    }
}

/// What is said of a literal that writes no value of its column's type.
pub open spec fn unreadable_text(literal: Seq<char>) -> Seq<char> {
    "not a value of the column's type: "@ + literal
}

/// What is said of a row with fewer literals than columns are named.
pub open spec fn short_row_text() -> Seq<char> {
    "a row has fewer values than columns are named"@
}

/// What is said where a selected row is missing from a projected column.
pub open spec fn ragged_text() -> Seq<char> {
    "the projected columns differ in length"@
}

impl EngineError {
    /// The error as text for the user.
    pub fn message(&self) -> (r: String)
        ensures
            r@ == failure_text(self@),
    {
        match self {
            EngineError::UnknownTable(name) => {
                let mut said = String::from_str("unknown table ");
                said.append(name.as_str());
                said
            },
            EngineError::UnknownColumn(name) => {
                let mut said = String::from_str("unknown column ");
                said.append(name.as_str());
                said
            },
            EngineError::UniqueViolation(said) => said.clone(),
            EngineError::ParseError(said) => said.clone(),
            EngineError::TypeMismatch(name) => {
                let mut said = String::from_str("no value can be held in column ");
                said.append(name.as_str());
                said
            },
            EngineError::Internal(said) => said.clone(),
            EngineError::Unsupported(said) => said.clone(),
        }
    }
}

/// The error for a literal that writes no value of its column's type.
pub fn unreadable(literal: &str) -> (r: EngineError)
    ensures
        r@ == Failure::ParseError(unreadable_text(literal@)),
{
    let mut said = String::from_str("not a value of the column's type: ");
    said.append(literal);
    EngineError::ParseError(said)
}

} // verus!
