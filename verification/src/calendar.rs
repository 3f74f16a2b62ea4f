//! Dates and times of day in UTC.

use crate::text::{
    lemma_lex_back, lemma_lex_front, lemma_padded_len, lemma_padded_sorts, lex_lt, padded,
    padded_decimal, pow10,
};
use vstd::arithmetic::div_mod::{lemma_fundamental_div_mod, lemma_fundamental_div_mod_converse};
use vstd::prelude::*;
use vstd::string::*;

verus! {

/// The year has a 29 February.
pub open spec fn leap(y: int) -> bool {
    y % 4 == 0 && (y % 100 != 0 || y % 400 == 0)
}

/// How many days a month has.
pub open spec fn month_days(y: int, m: int) -> int {
    if m == 2 {
        if leap(y) {
            29
        } else {
            28
        }
    } else if m == 4 || m == 6 || m == 9 || m == 11 {
        30
    } else {
        31
    }
}

/// How many days of a year lie before a month.
pub open spec fn days_before_month(y: int, m: int) -> int
    decreases m,
{
    if m <= 1 {
        0
    } else {
        days_before_month(y, m - 1) + month_days(y, m - 1)
    }
}

/// How many days lie between 1 January of the year one and that of another.
pub open spec fn days_before_year(y: int) -> int {
    365 * (y - 1) + (y - 1) / 4 - (y - 1) / 100 + (y - 1) / 400
}

/// The number of days from 1970-01-01 to a date.
pub open spec fn day_number(y: int, m: int, d: int) -> int {
    days_before_year(y) + days_before_month(y, m) + d - 1 - 719162
}

/// Year, month and day are a date of the calendar.
pub open spec fn valid_date(y: int, m: int, d: int) -> bool {
    1 <= m <= 12 && 1 <= d <= month_days(y, m)
}

/// The date is the one of the given day.
pub open spec fn is_date(date: (int, int, int), day: int) -> bool {
    valid_date(date.0, date.1, date.2) && day_number(date.0, date.1, date.2) == day
}

/// The date of a day, counted from 1970-01-01.
pub open spec fn date_on(day: int) -> (int, int, int) {
    choose|date: (int, int, int)| is_date(date, day)
}

/// A year in at least four characters.
pub open spec fn year_text(y: int) -> Seq<char> {
    if y < 0 {
        "-"@ + padded((-y) as nat, 3)
    } else {
        padded(y as nat, 4)
    }
}

/// A date as `YYYYMMDD`.
pub open spec fn date_text(date: (int, int, int)) -> Seq<char> {
    year_text(date.0) + padded(date.1 as nat, 2) + padded(date.2 as nat, 2)
}

/// The seconds passed in a day as `HHMMSS`.
pub open spec fn clock_text(sec: int) -> Seq<char> {
    padded((sec / 3600) as nat, 2) + padded((sec % 3600 / 60) as nat, 2) + padded(
        (sec % 60) as nat,
        2,
    )
}

/// A Unix time in milliseconds as `YYYYMMDD-HHMMSS`.
pub open spec fn utc_text(unix_ms: int) -> Seq<char> {
    let sec = unix_ms / 1000;
    date_text(date_on(sec / 86400)) + "-"@ + clock_text(sec % 86400)
}

/// Months lie behind one another.
pub proof fn lemma_month_table(y: int)
    ensures
        days_before_month(y, 1) == 0,
        days_before_month(y, 2) == 31,
        days_before_month(y, 3) == 59 + (if leap(y) { 1int } else { 0 }),
        days_before_month(y, 4) == days_before_month(y, 3) + 31,
        days_before_month(y, 5) == days_before_month(y, 3) + 61,
        days_before_month(y, 6) == days_before_month(y, 3) + 92,
        days_before_month(y, 7) == days_before_month(y, 3) + 122,
        days_before_month(y, 8) == days_before_month(y, 3) + 153,
        days_before_month(y, 9) == days_before_month(y, 3) + 184,
        days_before_month(y, 10) == days_before_month(y, 3) + 214,
        days_before_month(y, 11) == days_before_month(y, 3) + 245,
        days_before_month(y, 12) == days_before_month(y, 3) + 275,
        days_before_month(y, 13) == days_before_month(y, 3) + 306,
{
    reveal_with_fuel(days_before_month, 14);
}

/// A year is as long as its months.
proof fn lemma_year_length(y: int)
    ensures
        days_before_year(y + 1) == days_before_year(y) + 365 + (if leap(y) { 1int } else { 0 }),
{
    lemma_next_multiple(y, 4);
    lemma_next_multiple(y, 100);
    lemma_next_multiple(y, 400);
    assert(y % 400 == 0 ==> y % 100 == 0);
    assert(y % 100 == 0 ==> y % 4 == 0);
}

/// The quotient grows where a multiple is reached.
proof fn lemma_next_multiple(y: int, n: int)
    requires
        n == 4 || n == 100 || n == 400,
    ensures
        y / n == (y - 1) / n + (if y % n == 0 { 1int } else { 0 }),
{
    let q = (y - 1) / n;
    let r = (y - 1) % n;
    lemma_fundamental_div_mod(y - 1, n);
    if r == n - 1 {
        assert((q + 1) * n == n * q + n) by (nonlinear_arith);
        lemma_fundamental_div_mod_converse(y, n, q + 1, 0);
    } else {
        assert(q * n == n * q) by (nonlinear_arith);
        lemma_fundamental_div_mod_converse(y, n, q, r + 1);
    }
}

/// A later month begins where an earlier one has ended.
proof fn lemma_months_apart(y: int, m: int, n: int)
    requires
        1 <= m < n,
    ensures
        days_before_month(y, m) + month_days(y, m) <= days_before_month(y, n),
    decreases n,
{
    if m < n - 1 {
        lemma_months_apart(y, m, n - 1);
    }
}

/// A later year begins where an earlier one has ended.
proof fn lemma_years_apart(y: int, z: int)
    requires
        y < z,
    ensures
        days_before_year(y + 1) <= days_before_year(z),
    decreases z - y,
{
    if y + 1 < z {
        lemma_years_apart(y, z - 1);
        lemma_year_length(z - 1);
    }
}

/// `a` is an earlier date than `b`.
pub open spec fn earlier(a: (int, int, int), b: (int, int, int)) -> bool {
    a.0 < b.0 || (a.0 == b.0 && (a.1 < b.1 || (a.1 == b.1 && a.2 < b.2)))
}

/// Earlier dates have smaller numbers.
proof fn lemma_earlier(a: (int, int, int), b: (int, int, int))
    requires
        valid_date(a.0, a.1, a.2),
        valid_date(b.0, b.1, b.2),
        earlier(a, b),
    ensures
        day_number(a.0, a.1, a.2) < day_number(b.0, b.1, b.2),
{
    lemma_month_table(a.0);
    lemma_month_table(b.0);
    if a.0 < b.0 {
        lemma_year_length(a.0);
        lemma_years_apart(a.0, b.0);
        lemma_months_apart(a.0, a.1, 13);
        if b.1 > 1 {
            lemma_months_apart(b.0, 1, b.1);
        }
    } else if a.1 < b.1 {
        lemma_months_apart(a.0, a.1, b.1);
    }
}

/// A day has one date.
pub proof fn lemma_date_on(date: (int, int, int), day: int)
    requires
        is_date(date, day),
    ensures
        date_on(day) == date,
{
    let other = date_on(day);
    assert(is_date(other, day));
    if earlier(date, other) {
        lemma_earlier(date, other);
    } else if earlier(other, date) {
        lemma_earlier(other, date);
    }
}

/// Divides, rounding down.
fn floor_div(a: i64, b: i64) -> (r: (i64, i64))
    requires
        b > 1,
    ensures
        r.0 == a as int / b as int,
        r.1 == a as int % b as int,
{
    if a >= 0 {
        let q: u64 = a as u64 / b as u64;
        let m: u64 = a as u64 % b as u64;
        proof {
            lemma_fundamental_div_mod(a as int, b as int);
        }
        (q as i64, m as i64)
    } else {
        let n: i64 = -(a + 1);
        let q: u64 = n as u64 / b as u64;
        let m: u64 = n as u64 % b as u64;
        proof {
            lemma_fundamental_div_mod(n as int, b as int);
            let k = q as int;
            assert((-k - 1) * b == -(b * k) - b) by (nonlinear_arith);
            lemma_fundamental_div_mod_converse(a as int, b as int, -k - 1, b - 1 - m);
        }
        (-(q as i64) - 1, b - 1 - m as i64)
    }
}

/// The year and the day of the year that a day of an era of 400 years falls in, where years
/// begin on 1 March.
fn year_of_era(doe: u64) -> (r: (u64, u64))
    requires
        doe < 146_097,
    ensures
        r.0 < 400,
        r.1 <= 365,
        doe == 365 * r.0 + r.0 / 4 - r.0 / 100 + r.1,
        r.1 == 365 ==> (r.0 + 1) % 4 == 0 && ((r.0 + 1) % 100 != 0 || (r.0 + 1) % 400 == 0),
{
    let century: u64 = if doe / 36_524 > 3 {
        3
    } else {
        doe / 36_524
    };
    let doc: u64 = doe - 36_524 * century;
    let cycle: u64 = doc / 1_461;
    let dof: u64 = doc - 1_461 * cycle;
    let rest: u64 = if dof / 365 > 3 {
        3
    } else {
        dof / 365
    };
    let doy: u64 = dof - 365 * rest;
    let yoe: u64 = 100 * century + 4 * cycle + rest;
    assert(yoe / 4 == 25 * century + cycle);
    assert(yoe / 100 == century);
    (yoe, doy)
}

/// The month and the day of the month that a day of a year falls in, where years begin on
/// 1 March.
fn month_of_year(doy: u64) -> (r: (u64, u64))
    requires
        doy <= 365,
    ensures
        r.0 < 12,
        doy == (153 * r.0 + 2) / 5 + r.1 - 1,
        1 <= r.1,
        r.1 <= (153 * r.0 + 155) / 5 - (153 * r.0 + 2) / 5,
{
    let mp: u64 = (5 * doy + 2) / 153;
    (mp, doy - (153 * mp + 2) / 5 + 1)
}

/// The date of a day, counted from 1970-01-01.
fn civil_date(day: i64) -> (r: (i64, i64, i64))
    requires
        -1_000_000_000_000 <= day <= 1_000_000_000_000,
    ensures
        is_date((r.0 as int, r.1 as int, r.2 as int), day as int),
        -10_000_000_000 <= r.0 <= 10_000_000_000,
{
    // Years are counted from 1 March, so that a leap day is the last day of its year.
    let z: i64 = day + 719_468;
    let (era, doe): (i64, i64) = floor_div(z, 146_097);
    assert(-10_000_000 <= era <= 10_000_000);
    let (yoe, doy): (u64, u64) = year_of_era(doe as u64);
    let (mp, d): (u64, u64) = month_of_year(doy);
    let y: i64 = yoe as i64 + era * 400;
    let (year, m): (i64, u64) = if mp < 10 {
        (y, mp + 3)
    } else {
        (y + 1, mp - 9)
    };
    proof {
        lemma_march_year(y as int, yoe as int, era as int);
        assert(z == 365 * y + y as int / 4 - y as int / 100 + y as int / 400 + doy);
        lemma_march_date(y as int, doy as int, mp as int, d as int);
    }
    (year, m as i64, d as i64)
}

/// A day of a month of a year that begins on 1 March is a day of the calendar.
proof fn lemma_march_date(y: int, doy: int, mp: int, d: int)
    requires
        0 <= doy <= 365,
        0 <= mp < 12,
        doy == (153 * mp + 2) / 5 + d - 1,
        1 <= d <= (153 * mp + 155) / 5 - (153 * mp + 2) / 5,
        doy == 365 ==> leap(y + 1),
    ensures
        is_date(
            if mp < 10 {
                (y, mp + 3, d)
            } else {
                (y + 1, mp - 9, d)
            },
            365 * y + y / 4 - y / 100 + y / 400 + doy - 719_468,
        ),
{
    lemma_month_table(y);
    lemma_month_table(y + 1);
    lemma_year_length(y);
    lemma_year_length(y + 1);
}

/// A year of an era among all years.
proof fn lemma_march_year(y: int, yoe: int, era: int)
    requires
        0 <= yoe < 400,
        y == yoe + era * 400,
    ensures
        y / 4 == yoe / 4 + 100 * era,
        y / 100 == yoe / 100 + 4 * era,
        y / 400 == era,
        (y + 1) % 4 == (yoe + 1) % 4,
        (y + 1) % 100 == (yoe + 1) % 100,
        (y + 1) % 400 == (yoe + 1) % 400,
{
    lemma_march_part(y, yoe, 100 * era, 4);
    lemma_march_part(y, yoe, 4 * era, 100);
    lemma_march_part(y, yoe, era, 400);
    lemma_march_part(y + 1, yoe + 1, 100 * era, 4);
    lemma_march_part(y + 1, yoe + 1, 4 * era, 100);
    lemma_march_part(y + 1, yoe + 1, era, 400);
    assert(yoe / 400 == 0);
}

/// Whole multiples of a number add to the quotient and leave the remainder.
proof fn lemma_march_part(y: int, yoe: int, k: int, n: int)
    requires
        n > 0,
        y == yoe + k * n,
    ensures
        y / n == yoe / n + k,
        y % n == yoe % n,
{
    vstd::arithmetic::div_mod::lemma_fundamental_div_mod(yoe, n);
    assert(y == (yoe / n + k) * n + yoe % n) by (nonlinear_arith)
        requires
            y == yoe + k * n,
            yoe == n * (yoe / n) + yoe % n,
    ;
    vstd::arithmetic::div_mod::lemma_fundamental_div_mod_converse(y, n, yoe / n + k, yoe % n);
}

/// Formats a Unix time in milliseconds as `YYYYMMDD-HHMMSS` in UTC.
pub fn timestamp_utc(unix_ms: i64) -> (r: String)
    ensures
        r@ == utc_text(unix_ms as int),
{
    let (sec, _): (i64, i64) = floor_div(unix_ms, 1_000);
    let (day, tod): (i64, i64) = floor_div(sec, 86_400);
    let (y, m, d): (i64, i64, i64) = civil_date(day);
    proof {
        lemma_date_on((y as int, m as int, d as int), day as int);
    }
    let year = if y < 0 {
        "-".to_owned().concat(padded_decimal((-y) as u64, 3).as_str())
    } else {
        padded_decimal(y as u64, 4)
    };
    let tod: u64 = tod as u64;
    let date = year.concat(padded_decimal(m as u64, 2).as_str()).concat(
        padded_decimal(d as u64, 2).as_str(),
    );
    let clock = padded_decimal(tod / 3_600, 2).concat(
        padded_decimal(tod % 3_600 / 60, 2).as_str(),
    ).concat(padded_decimal(tod % 60, 2).as_str());
    date.concat("-").concat(clock.as_str())
}

/// Every day from 1970-01-01 on has a date.
proof fn lemma_has_date(day: int)
    requires
        0 <= day,
    ensures
        is_date(date_on(day), day),
    decreases day,
{
    let date = if day == 0 {
        (1970int, 1int, 1int)
    } else {
        lemma_has_date(day - 1);
        let (y, m, d) = date_on(day - 1);
        if d < month_days(y, m) {
            (y, m, d + 1)
        } else if m < 12 {
            (y, m + 1, 1)
        } else {
            lemma_month_table(y);
            lemma_year_length(y);
            (y + 1, 1, 1)
        }
    };
    lemma_month_table(date.0);
    assert(is_date(date, day));
}

/// The days of four-digit years have four-digit years.
proof fn lemma_year_width(day: int)
    requires
        0 <= day < 2_932_897,
    ensures
        0 <= date_on(day).0 <= 9_999,
{
    let date = date_on(day);
    lemma_has_date(day);
    let first = (1970int, 1int, 1int);
    let over = (10_000int, 1int, 1int);
    lemma_month_table(1970);
    lemma_month_table(10_000);
    assert(is_date(first, 0));
    assert(is_date(over, 2_932_897));
    if date.0 < 1970 {
        lemma_earlier(date, first);
    }
    if date.0 >= 10_000 && date != over {
        lemma_earlier(over, date);
    }
}

/// Dates with years of four digits sort as they follow one another.
proof fn lemma_dates_sort(a: (int, int, int), b: (int, int, int))
    requires
        valid_date(a.0, a.1, a.2),
        valid_date(b.0, b.1, b.2),
        0 <= a.0 <= 9_999,
        0 <= b.0 <= 9_999,
    ensures
        date_text(a).len() == 8,
        earlier(a, b) ==> lex_lt(date_text(a), date_text(b)),
{
    lemma_widths();
    lemma_padded_len(a.0 as nat, 4);
    lemma_padded_len(a.1 as nat, 2);
    lemma_padded_len(a.2 as nat, 2);
    lemma_padded_len(b.0 as nat, 4);
    lemma_padded_len(b.1 as nat, 2);
    let y = padded(a.0 as nat, 4);
    let m = padded(a.1 as nat, 2);
    let d = padded(a.2 as nat, 2);
    let v = padded(b.0 as nat, 4);
    let n = padded(b.1 as nat, 2);
    let e = padded(b.2 as nat, 2);
    assert(date_text(a) =~= y + (m + d));
    assert(date_text(b) =~= v + (n + e));
    if a.0 < b.0 {
        lemma_padded_sorts(a.0 as nat, b.0 as nat, 4);
        lemma_lex_front(y, v, m + d, n + e);
    } else if a.0 == b.0 && a.1 < b.1 {
        lemma_padded_sorts(a.1 as nat, b.1 as nat, 2);
        lemma_lex_front(m, n, d, e);
        lemma_lex_back(y, m + d, n + e);
    } else if a.0 == b.0 && a.1 == b.1 && a.2 < b.2 {
        lemma_padded_sorts(a.2 as nat, b.2 as nat, 2);
        lemma_lex_back(m, d, e);
        lemma_lex_back(y, m + d, n + e);
    }
}

/// Powers of ten that bound two and four digits.
proof fn lemma_widths()
    ensures
        pow10(2) == 100,
        pow10(4) == 10_000,
{
    reveal_with_fuel(pow10, 5);
}

/// Times of day sort as they follow one another.
proof fn lemma_clocks_sort(a: int, b: int)
    requires
        0 <= a < b < 86_400,
    ensures
        lex_lt(clock_text(a), clock_text(b)),
{
    lemma_widths();
    let (h, m, s) = ((a / 3600) as nat, (a % 3600 / 60) as nat, (a % 60) as nat);
    let (i, n, t) = ((b / 3600) as nat, (b % 3600 / 60) as nat, (b % 60) as nat);
    assert(a == 3600 * h + 60 * m + s);
    assert(b == 3600 * i + 60 * n + t);
    lemma_padded_len(h, 2);
    lemma_padded_len(i, 2);
    lemma_padded_len(m, 2);
    lemma_padded_len(n, 2);
    let (ht, mt, st) = (padded(h, 2), padded(m, 2), padded(s, 2));
    let (it, nt, tt) = (padded(i, 2), padded(n, 2), padded(t, 2));
    assert(clock_text(a) =~= ht + (mt + st));
    assert(clock_text(b) =~= it + (nt + tt));
    if h < i {
        lemma_padded_sorts(h, i, 2);
        lemma_lex_front(ht, it, mt + st, nt + tt);
    } else {
        if m < n {
            lemma_padded_sorts(m, n, 2);
            lemma_lex_front(mt, nt, st, tt);
        } else {
            lemma_padded_sorts(s, t, 2);
            lemma_lex_back(mt, st, tt);
        }
        lemma_lex_back(ht, mt + st, nt + tt);
    }
}

/// Up to the year 9999, times sort as texts the way they follow one another, to the
/// second.
pub proof fn law_timestamps_sort(a: int, b: int)
    requires
        0 <= a < b < 253_402_300_800_000,
    ensures
        a / 1000 == b / 1000 ==> utc_text(a) == utc_text(b),
        a / 1000 < b / 1000 ==> lex_lt(utc_text(a), utc_text(b)),
{
    let (s, t) = (a / 1000, b / 1000);
    if s < t {
        let (x, y) = (s / 86400, t / 86400);
        let (d, e) = (date_on(x), date_on(y));
        lemma_has_date(x);
        lemma_has_date(y);
        lemma_year_width(x);
        lemma_year_width(y);
        lemma_dates_sort(d, e);
        lemma_dates_sort(e, d);
        let u = "-"@ + clock_text(s % 86400);
        let v = "-"@ + clock_text(t % 86400);
        assert(utc_text(a) =~= date_text(d) + u);
        assert(utc_text(b) =~= date_text(e) + v);
        if x < y {
            if !earlier(d, e) {
                if earlier(e, d) {
                    lemma_earlier(e, d);
                }
            }
            lemma_lex_front(date_text(d), date_text(e), u, v);
        } else {
            lemma_clocks_sort(s % 86400, t % 86400);
            lemma_lex_back("-"@, clock_text(s % 86400), clock_text(t % 86400));
            lemma_lex_back(date_text(d), u, v);
        }
    }
}

} // verus!
