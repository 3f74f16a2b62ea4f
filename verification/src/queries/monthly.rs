//! Units sold by month.

use crate::dates::{find_last_month_start, find_month, last_month_start, month_of, steady};
use crate::error::DbError;
use crate::groups::{group_total, grouped, lemma_grouped_empty, lemma_grouped_step, note};
use crate::model::Text;
use crate::queries::common::is_since;
use crate::queries::profit::recent;
use crate::reconciliation::is_standing;
use crate::rows::{lend, opt_str, opt_view, rows};
use crate::sums::{accrue, total};
use crate::tables::{ReadModel, SaleLine, Tables};
use crate::text::same;
use vstd::prelude::*;
use vstd::string::*;

verus! {

/// What was sold of an item in one month.
#[derive(Debug, PartialEq, Eq)]
pub struct MonthlyUnits {
    pub month: String,
    pub units_sold: i64,
    pub revenue_minor: i64,
}

/// A sale line with its month.
pub type DatedLine = (SaleLine<Seq<char>>, Option<Seq<char>>);

/// Sale lines with their months.
pub open spec fn dated(lines: Seq<SaleLine<Text>>, months: Seq<Option<Text>>) -> Seq<DatedLine> {
    Seq::new(lines.len(), |i: int| (lines[i], months[i]))
}

/// Months by value.
pub open spec fn month_texts(v: Seq<Option<String>>) -> Seq<Option<Text>> {
    Seq::new(v.len(), |i: int| opt_view(v[i]))
}

/// The line counts for the item from the limit on.
pub open spec fn counts(m: ReadModel, l: SaleLine<Text>, item: Text, limit: Option<Text>) -> bool {
    l.item_id == item && recent(m, l, limit)
}

/// The month of a line that counts.
pub open spec fn month_key(m: ReadModel, item: Text, limit: Option<Text>) -> spec_fn(
    DatedLine,
) -> Option<Text> {
    |p: DatedLine|
        if counts(m, p.0, item, limit) {
            p.1
        } else {
            None
        }
}

pub open spec fn units_figure() -> spec_fn(DatedLine) -> int {
    |p: DatedLine| p.0.qty as int
}

pub open spec fn revenue_figure() -> spec_fn(DatedLine) -> int {
    |p: DatedLine| p.0.revenue_minor as int
}

/// Some line that counts has no month.
pub open spec fn month_missing(
    m: ReadModel,
    s: Seq<DatedLine>,
    item: Text,
    limit: Option<Text>,
) -> bool {
    exists|k: int| 0 <= k < s.len() && counts(m, (#[trigger] s[k]).0, item, limit) && s[k].1 is None
}

/// The months of a report.
pub open spec fn months_in(v: Seq<MonthlyUnits>) -> Seq<Text> {
    Seq::new(v.len(), |i: int| v[i].month@)
}

/// What a report by month says: one row per month in which a line counts, ascending,
/// with the sums over that month; refused where a line has no month or a sum leaves its
/// range.
pub open spec fn monthly_report(
    m: ReadModel,
    item: Text,
    limit: Option<Text>,
    months: Seq<Option<Text>>,
    r: Result<Vec<MonthlyUnits>, DbError>,
) -> bool {
    let s = dated(m.sale_lines, months);
    let key = month_key(m, item, limit);
    match r {
        Ok(v) => {
            &&& !month_missing(m, s, item, limit)
            &&& grouped(months_in(v@), s, key)
            &&& forall|i: int|
                0 <= i < v@.len() ==> group_total(s, key, units_figure(), (#[trigger] v@[i]).month@)
                    == Some(v@[i].units_sold) && group_total(s, key, revenue_figure(), v@[i].month@)
                    == Some(v@[i].revenue_minor)
        },
        Err(e) => if month_missing(m, s, item, limit) {
            e@ == DbError::Null(0, "month"@)
        } else {
            e@ == DbError::<Text>::Overflow && exists|x: Text|
                (#[trigger] group_total(s, key, units_figure(), x)) is None || group_total(
                    s,
                    key,
                    revenue_figure(),
                    x,
                ) is None
        },
    }
}

fn month_sums(
    t: &Tables,
    item_id: &str,
    limit: Option<&str>,
    months: &Vec<Option<String>>,
    month: &str,
) -> (r: (Option<i64>, Option<i64>))
    requires
        months@.len() == t.sale_lines@.len(),
    ensures
        ({
            let s = dated(t@.sale_lines, month_texts(months@));
            let key = month_key(t@, item_id@, opt_str(limit));
            r.0 == group_total(s, key, units_figure(), month@) && r.1 == group_total(
                s,
                key,
                revenue_figure(),
                month@,
            )
        }),
{
    let ghost m = t@;
    let ghost c = opt_str(limit);
    let ghost s = dated(m.sale_lines, month_texts(months@));
    let ghost key = month_key(m, item_id@, c);
    let ghost f = |p: DatedLine|
        if key(p) == Some(month@) {
            units_figure()(p)
        } else {
            0
        };
    let ghost g = |p: DatedLine|
        if key(p) == Some(month@) {
            revenue_figure()(p)
        } else {
            0
        };
    let mut units: Option<i64> = Some(0);
    let mut revenue: Option<i64> = Some(0);
    let mut i: usize = 0;
    while i < t.sale_lines.len()
        invariant
            i <= t.sale_lines@.len(),
            months@.len() == t.sale_lines@.len(),
            m == t@,
            c == opt_str(limit),
            s == dated(m.sale_lines, month_texts(months@)),
            key == month_key(m, item_id@, c),
            f == (|p: DatedLine|
                if key(p) == Some(month@) {
                    units_figure()(p)
                } else {
                    0
                }),
            g == (|p: DatedLine|
                if key(p) == Some(month@) {
                    revenue_figure()(p)
                } else {
                    0
                }),
            units == total(s.take(i as int), f),
            revenue == total(s.take(i as int), g),
        decreases t.sale_lines@.len() - i,
    {
        assert(s.take(i + 1).drop_last() =~= s.take(i as int));
        assert(s.take(i + 1).last() == s[i as int]);
        assert(s[i as int] == (t.sale_lines@[i as int]@, opt_view(months@[i as int])));
        let l = &t.sale_lines[i];
        let mine = match &months[i] {
            Some(x) => same(x.as_str(), month) && same(l.item_id.as_str(), item_id) && is_standing(
                t,
                l,
            ) && is_since(l.date.as_str(), limit),
            None => false,
        };
        let (a, b): (i128, i128) = if mine {
            (l.qty as i128, l.revenue_minor as i128)
        } else {
            (0, 0)
        };
        units = accrue(units, a);
        revenue = accrue(revenue, b);
        i += 1;
    }
    assert(s.take(s.len() as int) =~= s);
    (units, revenue)
}

/// What was sold of an item from a limit on, by month, given the month of every sale
/// line.
pub fn monthly_units(
    t: &Tables,
    item_id: &str,
    limit: Option<&str>,
    months: &Vec<Option<String>>,
) -> (r: Result<Vec<MonthlyUnits>, DbError>)
    requires
        months@.len() == t.sale_lines@.len(),
    ensures
        monthly_report(t@, item_id@, opt_str(limit), month_texts(months@), r),
{
    let ghost m = t@;
    let ghost c = opt_str(limit);
    let ghost s = dated(m.sale_lines, month_texts(months@));
    let ghost key = month_key(m, item_id@, c);
    let mut keys: Vec<String> = Vec::new();
    let mut i: usize = 0;
    proof {
        lemma_grouped_empty(s, key);
        assert(rows(keys@) =~= Seq::<Text>::empty());
    }
    while i < t.sale_lines.len()
        invariant
            i <= t.sale_lines@.len(),
            months@.len() == t.sale_lines@.len(),
            m == t@,
            c == opt_str(limit),
            s == dated(m.sale_lines, month_texts(months@)),
            key == month_key(m, item_id@, c),
            grouped(rows(keys@), s.take(i as int), key),
            forall|k: int|
                0 <= k < i ==> !(counts(m, (#[trigger] s[k]).0, item_id@, c) && s[k].1 is None),
        decreases t.sale_lines@.len() - i,
    {
        assert(s[i as int] == (t.sale_lines@[i as int]@, opt_view(months@[i as int])));
        let l = &t.sale_lines[i];
        let ghost before = rows(keys@);
        if same(l.item_id.as_str(), item_id) && is_standing(t, l) && is_since(
            l.date.as_str(),
            limit,
        ) {
            match &months[i] {
                None => {
                    return Err(DbError::Null(0, "month".to_owned()));
                },
                Some(x) => {
                    note(&mut keys, x.as_str());
                },
            }
        }
        proof {
            lemma_grouped_step(before, rows(keys@), s, key, i as int);
        }
        i += 1;
    }
    assert(s.take(s.len() as int) =~= s);
    let mut out: Vec<MonthlyUnits> = Vec::new();
    let mut j: usize = 0;
    while j < keys.len()
        invariant
            j <= keys@.len(),
            months@.len() == t.sale_lines@.len(),
            m == t@,
            c == opt_str(limit),
            s == dated(m.sale_lines, month_texts(months@)),
            key == month_key(m, item_id@, c),
            grouped(rows(keys@), s, key),
            !month_missing(m, s, item_id@, c),
            out@.len() == j,
            forall|k: int|
                0 <= k < j ==> (#[trigger] out@[k]).month@ == rows(keys@)[k] && group_total(
                    s,
                    key,
                    units_figure(),
                    out@[k].month@,
                ) == Some(out@[k].units_sold) && group_total(
                    s,
                    key,
                    revenue_figure(),
                    out@[k].month@,
                ) == Some(out@[k].revenue_minor),
        decreases keys@.len() - j,
    {
        let month = keys[j].as_str();
        match month_sums(t, item_id, limit, months, month) {
            (Some(units_sold), Some(revenue_minor)) => {
                out.push(MonthlyUnits { month: month.to_owned(), units_sold, revenue_minor });
            },
            _ => {
                return Err(DbError::Overflow);
            },
        }
        j += 1;
    }
    assert(months_in(out@) =~= rows(keys@));
    Ok(out)
}

/// Months that agree with the calendar, as far as dates are steady.
pub open spec fn months_agree(lines: Seq<SaleLine<Text>>, months: Seq<Option<Text>>) -> bool {
    months.len() == lines.len() && forall|i: int|
        0 <= i < lines.len() && steady((#[trigger] lines[i]).date) ==> months[i] == month_of(
            lines[i].date,
        )
}

/// What was sold of an item since the start of the month before a date's month, by
/// month.
pub fn units_sold_by_month(t: &Tables, item_id: &str, anchor: &str) -> (r: Result<
    Vec<MonthlyUnits>,
    DbError,
>)
    ensures
        (r matches Err(e) && e is Refused) || exists|c: Option<Text>, months: Seq<Option<Text>>|
            (steady(anchor@) ==> c == last_month_start(anchor@)) && months_agree(
                t@.sale_lines,
                months,
            ) && #[trigger] monthly_report(t@, item_id@, c, months, r),
{
    let limit = find_last_month_start(anchor)?;
    let mut months: Vec<Option<String>> = Vec::new();
    let mut i: usize = 0;
    while i < t.sale_lines.len()
        invariant
            i <= t.sale_lines@.len(),
            months@.len() == i,
            forall|k: int|
                0 <= k < i && steady((#[trigger] t@.sale_lines[k]).date) ==> opt_view(months@[k])
                    == month_of(t@.sale_lines[k].date),
        decreases t.sale_lines@.len() - i,
    {
        assert(t@.sale_lines[i as int] == t.sale_lines@[i as int]@);
        let month = find_month(t.sale_lines[i].date.as_str())?;
        months.push(month);
        i += 1;
    }
    let l = lend(&limit);
    let r = monthly_units(t, item_id, l, &months);
    proof {
        let ms = month_texts(months@);
        assert(months_agree(t@.sale_lines, ms));
        assert(monthly_report(t@, item_id@, opt_str(l), ms, r));
    }
    r
}

} // verus!
