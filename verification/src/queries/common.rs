//! What reports share.

use crate::error::DbError;
use crate::model::{Fault, Text};
use crate::rows::opt_str;
use crate::text::{lex_le, sorts_before};
use vstd::prelude::*;
use vstd::string::*;

verus! {

/// A date at or after a limit; nothing is where the limit is no date.
pub open spec fn since(date: Text, limit: Option<Text>) -> bool {
    limit matches Some(c) && lex_le(c, date)
}

pub fn is_since(date: &str, limit: Option<&str>) -> (r: bool)
    ensures
        r == since(date@, opt_str(limit)),
{
    match limit {
        Some(c) => !sorts_before(date, c),
        None => false,
    }
}

/// A sum, or that it left its range.
pub open spec fn or_overflow(sum: Option<i64>) -> Result<i64, Fault> {
    match sum {
        Some(v) => Ok(v),
        None => Err(DbError::Overflow),
    }
}

/// A number or an error, by value.
pub open spec fn number_result(r: Result<i64, DbError>) -> Result<i64, Fault> {
    match r {
        Ok(v) => Ok(v),
        Err(e) => Err(e@),
    }
}

} // verus!
