//! The errors of the library.
use vstd::prelude::*;

verus! {

/// What the database refuses.
#[derive(Debug, Clone, Copy, PartialEq, Eq, Structural)]
pub enum DbError {
    /// A row of the same key is already there.
    UniqueViolation,
    /// A query that must give a row gave none.
    RowNotFound,
    /// A limit was below zero.
    NegativeLimit,
    /// A number, a timestamp or an identifier left the range of its column.
    OutOfRange,
    /// The transaction had failed before.
    TransactionAborted,
}

/// An error of the library.
#[derive(Debug, PartialEq, Eq)]
pub enum StrunkError {
    Database(DbError),
    Serialisation(String),
    Config(String),
}

/// The result of an operation of the library.
pub type Result<T> = std::result::Result<T, StrunkError>;

impl DbError {
    /// What the error says.
    pub open spec fn text(self) -> Seq<char> {
        match self {
            DbError::UniqueViolation => "duplicate key value violates unique constraint"@,
            DbError::RowNotFound => "no rows returned by a query that expected to return at least one row"@,
            DbError::NegativeLimit => "LIMIT must not be negative"@,
            DbError::OutOfRange => "value out of range"@,
            DbError::TransactionAborted => "current transaction is aborted"@,
        }
    }
}

impl StrunkError {
    /// What the error says.
    pub open spec fn text(self) -> Seq<char> {
        match self {
            StrunkError::Database(e) => e.text(),
            StrunkError::Serialisation(text) => text@,
            StrunkError::Config(text) => text@,
        }
    }

    /// The message of the error.
    pub fn message(&self) -> (r: String)
        ensures
            r@ == self.text(),
    {
        match self {
            StrunkError::Database(e) => match e {
                DbError::UniqueViolation => "duplicate key value violates unique constraint".to_owned(),
                DbError::RowNotFound => "no rows returned by a query that expected to return at least one row".to_owned(),
                DbError::NegativeLimit => "LIMIT must not be negative".to_owned(),
                DbError::OutOfRange => "value out of range".to_owned(),
                DbError::TransactionAborted => "current transaction is aborted".to_owned(),
            },
            StrunkError::Serialisation(text) => text.clone(),
            StrunkError::Config(text) => text.clone(),
        }
    }
}

} // verus!
