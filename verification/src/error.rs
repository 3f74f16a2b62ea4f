//! What can go wrong in the store.

use crate::text::{dec, decimal_u64};
use vstd::prelude::*;
use vstd::string::*;

verus! {

/// Why the store refused an operation.
#[derive(Debug, PartialEq)]
#[verifier::ext_equal]
pub enum DbError<S = String> {
    /// A value that may occur once occurs already in the named column.
    Unique(S),
    /// A row would point at a master-data row that does not exist.
    ForeignKey,
    /// A row that has to be there is not.
    NoRows,
    /// No projector handles events of this type.
    NoHandler(S),
    /// A column that has to hold a value holds none: its index in the query, and its name.
    Null(u64, S),
    /// A document that has to be a record is something else.
    NotARecord,
    /// A number left the range of its column.
    Overflow,
    /// A rule of the store forbids the operation.
    Refused(S),
}

impl View for DbError {
    type V = DbError<Seq<char>>;

    open spec fn view(&self) -> DbError<Seq<char>> {
        match self {
            DbError::Unique(c) => DbError::Unique(c@),
            DbError::ForeignKey => DbError::ForeignKey,
            DbError::NoRows => DbError::NoRows,
            DbError::NoHandler(t) => DbError::NoHandler(t@),
            DbError::Null(i, c) => DbError::Null(*i, c@),
            DbError::NotARecord => DbError::NotARecord,
            DbError::Overflow => DbError::Overflow,
            DbError::Refused(m) => DbError::Refused(m@),
        }
    }
}

/// The text of an error.
pub open spec fn db_message(e: DbError<Seq<char>>) -> Seq<char> {
    match e {
        DbError::Unique(c) => "UNIQUE constraint failed: "@ + c,
        DbError::ForeignKey => "FOREIGN KEY constraint failed"@,
        DbError::NoRows => "Query returned no rows"@,
        DbError::NoHandler(t) => "projector has no handler for event type: "@ + t,
        DbError::Null(i, c) => "Invalid column type Null at index: "@ + dec(i as int)
            + ", name: "@ + c,
        DbError::NotARecord => "document is not a record"@,
        DbError::Overflow => "integer overflow"@,
        DbError::Refused(m) => m,
    }
}

impl DbError {
    /// The text of the error.
    pub fn message(&self) -> (r: String)
        ensures
            r@ == db_message(self@),
    {
        match self {
            DbError::Unique(c) => "UNIQUE constraint failed: ".to_owned().concat(c.as_str()),
            DbError::ForeignKey => "FOREIGN KEY constraint failed".to_owned(),
            DbError::NoRows => "Query returned no rows".to_owned(),
            DbError::NoHandler(t) => "projector has no handler for event type: ".to_owned().concat(
                t.as_str(),
            ),
            DbError::Null(i, c) => "Invalid column type Null at index: ".to_owned().concat(
                decimal_u64(*i).as_str(),
            ).concat(", name: ").concat(c.as_str()),
            DbError::NotARecord => "document is not a record".to_owned(),
            DbError::Overflow => "integer overflow".to_owned(),
            DbError::Refused(m) => m.clone(),
        }
    }
}

} // verus!
