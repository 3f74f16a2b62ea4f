//! Calendar arithmetic, as SQLite does it.

use crate::error::DbError;
use crate::model::Text;
use crate::rows::opt_view;
use crate::text::is_digit;
use vstd::prelude::*;
use vstd::string::*;

verus! {

/// The character is a lower-case letter in either case.
pub open spec fn in_either_case(c: char, letter: char) -> bool {
    c == letter || c as int + 32 == letter as int
}

/// Up to its end, or up to a NUL, where SQLite takes it to end, a text is a word of
/// lower-case letters in any case.
pub open spec fn spells(s: Seq<char>, word: Seq<char>) -> bool {
    &&& word.len() <= s.len()
    &&& forall|i: int| 0 <= i < word.len() ==> in_either_case(#[trigger] s[i], word[i])
    &&& word.len() < s.len() ==> s[word.len() as int] == '\0'
}

/// A text that does not ask for the present moment: what it means, a date or not, does not
/// depend on when it is read.
pub open spec fn steady(s: Seq<char>) -> bool {
    !spells(s, "now"@) && !spells(s, "subsec"@) && !spells(s, "subsecond"@)
}

/// A text that writes a day as year, month and day, all in digits, and no time of day.
pub open spec fn calendar_day(s: Seq<char>) -> bool {
    &&& s.len() == 10
    &&& s[4] == '-'
    &&& s[7] == '-'
    &&& forall|i: int| 0 <= i < 10 && i != 4 && i != 7 ==> is_digit(#[trigger] s[i])
}

/// A day does not ask for the present moment.
pub proof fn lemma_days_are_steady(s: Seq<char>)
    requires
        calendar_day(s),
    ensures
        steady(s),
{
    reveal_strlit("now");
    reveal_strlit("subsec");
    reveal_strlit("subsecond");
    assert(is_digit(s[0]));
    if spells(s, "now"@) {
        assert(in_either_case(s[0], "now"@[0]));
    }
    if spells(s, "subsec"@) {
        assert(in_either_case(s[0], "subsec"@[0]));
    }
    if spells(s, "subsecond"@) {
        assert(in_either_case(s[0], "subsecond"@[0]));
    }
}

/// What SQLite's `date(time, first, second)` gives; nothing where `time` is no date.
pub uninterp spec fn date_shifted(time: Seq<char>, first: Seq<char>, second: Seq<char>) -> Option<
    Seq<char>,
>;

/// What SQLite's `strftime('%Y-%m', time)` gives; nothing where `time` is no date.
pub uninterp spec fn month_of(time: Seq<char>) -> Option<Seq<char>>;

/// What SQLite's `CAST(julianday(later) - julianday(earlier) AS INT)` gives; nothing
/// where one of them is no date.
pub uninterp spec fn days_between(later: Seq<char>, earlier: Seq<char>) -> Option<i64>;

/// Whether SQLite's `julianday(later) - julianday(earlier) <= days` holds; it does not
/// where one of them is no date.
pub uninterp spec fn within_days(later: Seq<char>, earlier: Seq<char>, days: i64) -> bool;

/// The shifts that are asked for.
pub open spec fn known_shift(m: Seq<char>) -> bool {
    m == "-6 months"@ || m == "start of month"@ || m == "-1 month"@ || m == "+0 days"@
}

/// Shifts a date.
///
/// Trusted: `rusqlite::Connection::query_row` on `SELECT date(?1, ?2, ?3)`. Of a steady
/// text the result is called [`date_shifted`]. SQLite reads the clock for the three words
/// that are not steady alone, so of these nothing is claimed. It fails only where no
/// database can be opened in memory or the text is longer than SQLite takes.
#[verifier::external_body]
fn sqlite_date(time: &str, first: &str, second: &str) -> (r: Result<Option<String>, String>)
    requires
        known_shift(first@),
        known_shift(second@),
    ensures
        steady(time@) ==> (r matches Ok(d) ==> opt_view(d) == date_shifted(time@, first@, second@)),
{
    let conn = rusqlite::Connection::open_in_memory().map_err(|e| e.to_string())?;
    conn.query_row("SELECT date(?1, ?2, ?3)", [time, first, second], |r| r.get(0)).map_err(
        |e| e.to_string(),
    )
}

/// The month of a date.
///
/// Trusted: `rusqlite::Connection::query_row` on `SELECT strftime('%Y-%m', ?1)`. Of a
/// steady text the result is called [`month_of`]; of the others, which read the clock,
/// nothing is claimed.
#[verifier::external_body]
fn sqlite_month(time: &str) -> (r: Result<Option<String>, String>)
    ensures
        steady(time@) ==> (r matches Ok(d) ==> opt_view(d) == month_of(time@)),
{
    let conn = rusqlite::Connection::open_in_memory().map_err(|e| e.to_string())?;
    conn.query_row("SELECT strftime('%Y-%m', ?1)", [time], |r| r.get(0)).map_err(
        |e| e.to_string(),
    )
}

/// The whole days between two dates.
///
/// Trusted: `rusqlite::Connection::query_row` on
/// `SELECT CAST(julianday(?1) - julianday(?2) AS INT)`. Of steady texts the result is
/// called [`days_between`]; of the others, which read the clock, nothing is claimed.
#[verifier::external_body]
fn sqlite_days(later: &str, earlier: &str) -> (r: Result<Option<i64>, String>)
    ensures
        steady(later@) && steady(earlier@) ==> (r matches Ok(d) ==> d == days_between(
            later@,
            earlier@,
        )),
{
    let conn = rusqlite::Connection::open_in_memory().map_err(|e| e.to_string())?;
    let sql = "SELECT CAST(julianday(?1) - julianday(?2) AS INT)";
    conn.query_row(sql, [later, earlier], |r| r.get(0)).map_err(|e| e.to_string())
}

/// Whether two dates are at most some days apart.
///
/// Trusted: `rusqlite::Connection::query_row` on
/// `SELECT COALESCE(julianday(?1) - julianday(?2) <= ?3, 0)`. Of steady texts the result
/// is called [`within_days`]; of the others, which read the clock, nothing is claimed.
/// The Julian days of two calendar days differ by a whole number, which the cast in
/// [`sqlite_days`] keeps as it is; so there the result tells whether [`days_between`] is
/// given and at most `days`.
#[verifier::external_body]
fn sqlite_within(later: &str, earlier: &str, days: i64) -> (r: Result<bool, String>)
    ensures
        steady(later@) && steady(earlier@) ==> (r matches Ok(b) ==> b == within_days(
            later@,
            earlier@,
            days,
        )),
        calendar_day(later@) && calendar_day(earlier@) ==> (r matches Ok(b) ==> (b <==> (
        days_between(later@, earlier@) matches Some(d) && d <= days))),
{
    let conn = rusqlite::Connection::open_in_memory().map_err(|e| e.to_string())?;
    let sql = "SELECT COALESCE(julianday(?1) - julianday(?2) <= ?3, 0)";
    conn.query_row(sql, (later, earlier, days), |r| r.get(0)).map_err(
        |e| e.to_string(),
    )
}

/// Six months before a date.
pub open spec fn half_year_before(anchor: Text) -> Option<Text> {
    date_shifted(anchor, "-6 months"@, "+0 days"@)
}

/// The first day of the month before a date's month.
pub open spec fn last_month_start(anchor: Text) -> Option<Text> {
    date_shifted(anchor, "start of month"@, "-1 month"@)
}

/// Finds six months before a date.
pub fn find_half_year_before(anchor: &str) -> (r: Result<Option<String>, DbError>)
    ensures
        steady(anchor@) ==> (r matches Ok(d) ==> opt_view(d) == half_year_before(anchor@)),
        r matches Err(e) ==> e is Refused,
{
    match sqlite_date(anchor, "-6 months", "+0 days") {
        Ok(d) => Ok(d),
        Err(e) => Err(DbError::Refused(e)),
    }
}

/// Finds the first day of the month before a date's month.
pub fn find_last_month_start(anchor: &str) -> (r: Result<Option<String>, DbError>)
    ensures
        steady(anchor@) ==> (r matches Ok(d) ==> opt_view(d) == last_month_start(anchor@)),
        r matches Err(e) ==> e is Refused,
{
    match sqlite_date(anchor, "start of month", "-1 month") {
        Ok(d) => Ok(d),
        Err(e) => Err(DbError::Refused(e)),
    }
}

/// Finds the month of a date.
pub fn find_month(date: &str) -> (r: Result<Option<String>, DbError>)
    ensures
        steady(date@) ==> (r matches Ok(d) ==> opt_view(d) == month_of(date@)),
        r matches Err(e) ==> e is Refused,
{
    match sqlite_month(date) {
        Ok(d) => Ok(d),
        Err(e) => Err(DbError::Refused(e)),
    }
}

/// Finds the whole days between two dates.
pub fn find_days(later: &str, earlier: &str) -> (r: Result<Option<i64>, DbError>)
    ensures
        steady(later@) && steady(earlier@) ==> (r matches Ok(d) ==> d == days_between(
            later@,
            earlier@,
        )),
        r matches Err(e) ==> e is Refused,
{
    match sqlite_days(later, earlier) {
        Ok(d) => Ok(d),
        Err(e) => Err(DbError::Refused(e)),
    }
}

/// Three limits of age in days.
pub type Bands = (i64, i64, i64);

/// How old something is: in days, and in which band.
#[derive(Debug, Clone, Copy, PartialEq, Eq, Structural)]
pub struct Age {
    pub days: Option<i64>,
    pub band: u8,
}

/// The first of three limits that a difference is within, or the band beyond them.
pub open spec fn band_of(first: bool, second: bool, third: bool) -> u8 {
    if first {
        0
    } else if second {
        1
    } else if third {
        2
    } else {
        3
    }
}

/// How old something dated `earlier` is at `later`.
pub open spec fn age_of(later: Text, earlier: Text, bands: Bands) -> Age {
    Age {
        days: days_between(later, earlier),
        band: band_of(
            within_days(later, earlier, bands.0),
            within_days(later, earlier, bands.1),
            within_days(later, earlier, bands.2),
        ),
    }
}

/// The band is that of the days: the first of the limits that they do not pass, or the
/// one beyond.
pub open spec fn banded(a: Age, bands: Bands) -> bool {
    match a.days {
        Some(d) => {
            &&& d <= bands.0 ==> a.band == 0
            &&& bands.0 < d <= bands.1 ==> a.band == 1
            &&& bands.0 < d && bands.1 < d <= bands.2 ==> a.band == 2
            &&& bands.0 < d && bands.1 < d && bands.2 < d ==> a.band == 3
        },
        None => a.band == 3,
    }
}

/// Finds how old something dated `earlier` is at `later`.
pub fn find_age(later: &str, earlier: &str, bands: Bands) -> (r: Result<Age, DbError>)
    ensures
        steady(later@) && steady(earlier@) ==> (r matches Ok(a) ==> a == age_of(
            later@,
            earlier@,
            bands,
        )),
        r matches Ok(a) ==> a.band <= 3,
        calendar_day(later@) && calendar_day(earlier@) ==> (r matches Ok(a) ==> a.days
            == days_between(later@, earlier@) && banded(a, bands)),
        r matches Err(e) ==> e is Refused,
{
    proof {
        if calendar_day(later@) {
            lemma_days_are_steady(later@);
        }
        if calendar_day(earlier@) {
            lemma_days_are_steady(earlier@);
        }
    }
    let days = find_days(later, earlier)?;
    let mut within: [bool; 3] = [false, false, false];
    match sqlite_within(later, earlier, bands.0) {
        Ok(b) => {
            within[0] = b;
        },
        Err(e) => {
            return Err(DbError::Refused(e));
        },
    }
    match sqlite_within(later, earlier, bands.1) {
        Ok(b) => {
            within[1] = b;
        },
        Err(e) => {
            return Err(DbError::Refused(e));
        },
    }
    match sqlite_within(later, earlier, bands.2) {
        Ok(b) => {
            within[2] = b;
        },
        Err(e) => {
            return Err(DbError::Refused(e));
        },
    }
    let band: u8 = if within[0] {
        0
    } else if within[1] {
        1
    } else if within[2] {
        2
    } else {
        3
    };
    Ok(Age { days, band })
}

} // verus!
