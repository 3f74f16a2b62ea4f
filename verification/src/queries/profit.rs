//! Profit over a period.

use crate::dates::{find_half_year_before, half_year_before, steady};
use crate::error::DbError;
use crate::json::{opt_txt, pos, JsonV};
use crate::model::{role_of, Fault, Text};
use crate::queries::common::{is_since, number_result, or_overflow, since};
use crate::reconciliation::{is_standing, stands};
use crate::rows::{find, lend, lookup, opt_str, rows};
use crate::sums::{accrue, minus, subtract, total};
use crate::tables::{Account, JournalLine, ReadModel, SaleLine, Tables};
use crate::text::same;
use vstd::prelude::*;
use vstd::string::*;

verus! {

/// Gross profit over a period.
#[derive(Debug, Clone, Copy, PartialEq, Eq, Structural)]
pub struct GrossProfit {
    pub revenue_minor: i64,
    pub cogs_minor: i64,
    pub gross_profit_minor: i64,
}

/// The line belongs to a standing sale and is not before the limit.
pub open spec fn recent(m: ReadModel, l: SaleLine<Text>, limit: Option<Text>) -> bool {
    stands(m, l) && since(l.date, limit)
}

pub open spec fn recent_revenue(m: ReadModel, limit: Option<Text>) -> Option<i64> {
    total(
        m.sale_lines,
        |l: SaleLine<Text>|
            if recent(m, l, limit) {
                l.revenue_minor as int
            } else {
                0
            },
    )
}

pub open spec fn recent_cogs(m: ReadModel, limit: Option<Text>) -> Option<i64> {
    total(
        m.sale_lines,
        |l: SaleLine<Text>|
            if recent(m, l, limit) {
                l.cogs_minor as int
            } else {
                0
            },
    )
}

pub open spec fn recent_profit(m: ReadModel, limit: Option<Text>) -> Option<i64> {
    total(
        m.sale_lines,
        |l: SaleLine<Text>|
            if recent(m, l, limit) {
                l.revenue_minor - l.cogs_minor
            } else {
                0
            },
    )
}

/// Gross profit of the standing sale lines from a limit on.
pub open spec fn gross_profit_outcome(m: ReadModel, limit: Option<Text>) -> Result<
    GrossProfit,
    Fault,
> {
    match (recent_revenue(m, limit), recent_cogs(m, limit), recent_profit(m, limit)) {
        (Some(r), Some(c), Some(p)) => Ok(
            GrossProfit { revenue_minor: r, cogs_minor: c, gross_profit_minor: p },
        ),
        _ => Err(DbError::Overflow),
    }
}

fn recent_sums(t: &Tables, limit: Option<&str>) -> (r: (Option<i64>, Option<i64>, Option<i64>))
    ensures
        r.0 == recent_revenue(t@, opt_str(limit)),
        r.1 == recent_cogs(t@, opt_str(limit)),
        r.2 == recent_profit(t@, opt_str(limit)),
{
    let ghost m = t@;
    let ghost c = opt_str(limit);
    let ghost s = m.sale_lines;
    let ghost f = |l: SaleLine<Text>|
        if recent(m, l, c) {
            l.revenue_minor as int
        } else {
            0
        };
    let ghost g = |l: SaleLine<Text>|
        if recent(m, l, c) {
            l.cogs_minor as int
        } else {
            0
        };
    let ghost h = |l: SaleLine<Text>|
        if recent(m, l, c) {
            l.revenue_minor - l.cogs_minor
        } else {
            0
        };
    let mut revenue: Option<i64> = Some(0);
    let mut cogs: Option<i64> = Some(0);
    let mut profit: Option<i64> = Some(0);
    let mut i: usize = 0;
    while i < t.sale_lines.len()
        invariant
            i <= t.sale_lines@.len(),
            m == t@,
            c == opt_str(limit),
            s == rows(t.sale_lines@),
            f == (|l: SaleLine<Text>|
                if recent(m, l, c) {
                    l.revenue_minor as int
                } else {
                    0
                }),
            g == (|l: SaleLine<Text>|
                if recent(m, l, c) {
                    l.cogs_minor as int
                } else {
                    0
                }),
            h == (|l: SaleLine<Text>|
                if recent(m, l, c) {
                    l.revenue_minor - l.cogs_minor
                } else {
                    0
                }),
            revenue == total(s.take(i as int), f),
            cogs == total(s.take(i as int), g),
            profit == total(s.take(i as int), h),
        decreases t.sale_lines@.len() - i,
    {
        assert(s.take(i + 1).drop_last() =~= s.take(i as int));
        assert(s.take(i + 1).last() == t.sale_lines@[i as int]@);
        let l = &t.sale_lines[i];
        let (a, b): (i128, i128) = if is_standing(t, l) && is_since(l.date.as_str(), limit) {
            (l.revenue_minor as i128, l.cogs_minor as i128)
        } else {
            (0, 0)
        };
        revenue = accrue(revenue, a);
        cogs = accrue(cogs, b);
        profit = accrue(profit, a - b);
        i += 1;
    }
    assert(s.take(s.len() as int) =~= s);
    (revenue, cogs, profit)
}

/// Gross profit of the standing sale lines from a limit on.
pub fn gross_profit_since(t: &Tables, limit: Option<&str>) -> (r: Result<GrossProfit, DbError>)
    ensures
        match r {
            Ok(g) => gross_profit_outcome(t@, opt_str(limit)) == Ok::<GrossProfit, Fault>(g),
            Err(e) => gross_profit_outcome(t@, opt_str(limit)) == Err::<GrossProfit, Fault>(e@),
        },
{
    match recent_sums(t, limit) {
        (Some(r), Some(c), Some(p)) => Ok(
            GrossProfit { revenue_minor: r, cogs_minor: c, gross_profit_minor: p },
        ),
        _ => Err(DbError::Overflow),
    }
}

/// Gross profit over the six months up to a date.
pub fn gross_profit(t: &Tables, anchor: &str) -> (r: Result<GrossProfit, DbError>)
    ensures
        (r matches Err(e) && e is Refused) || exists|c: Option<Text>|
            (steady(anchor@) ==> c == half_year_before(anchor@)) && match r {
                Ok(g) => #[trigger] gross_profit_outcome(t@, c) == Ok::<GrossProfit, Fault>(g),
                Err(e) => gross_profit_outcome(t@, c) == Err::<GrossProfit, Fault>(e@),
            },
{
    let limit = find_half_year_before(anchor)?;
    let l = lend(&limit);
    gross_profit_since(t, l)
}

/// The account's type is `ty`.
pub open spec fn of_type(a: Account<Text, JsonV>, ty: Text) -> bool {
    opt_txt(a.doc, "type"@) == Some(ty)
}

pub fn is_of_type(a: &Account, ty: &str) -> (r: bool)
    ensures
        r == of_type(a@, ty@),
{
    match pos(&a.doc, "type") {
        Some(x) => same(x, ty),
        None => false,
    }
}

/// The journal line books an operating expense: an expense that is no cost of goods.
pub open spec fn operating(m: ReadModel, l: JournalLine<Text>) -> bool {
    lookup(m.accounts, l.account_id) matches Some(a) && of_type(a, "expense"@) && role_of(a)
        != Some("cogs"@)
}

fn is_operating(t: &Tables, l: &JournalLine) -> (r: bool)
    ensures
        r == operating(t@, l@),
{
    match find(&t.accounts, l.account_id.as_str()) {
        None => false,
        Some(i) => is_of_type(&t.accounts[i], "expense") && match pos(
            &t.accounts[i].doc,
            "system_role",
        ) {
            Some(x) => !same(x, "cogs"),
            None => true,
        },
    }
}

pub open spec fn recent_expense(m: ReadModel, limit: Option<Text>) -> Option<i64> {
    total(
        m.journal,
        |l: JournalLine<Text>|
            if operating(m, l) && since(l.date, limit) {
                l.debit_minor - l.credit_minor
            } else {
                0
            },
    )
}

fn sum_recent_expense(t: &Tables, limit: Option<&str>) -> (r: Option<i64>)
    ensures
        r == recent_expense(t@, opt_str(limit)),
{
    let ghost m = t@;
    let ghost c = opt_str(limit);
    let ghost s = m.journal;
    let ghost f = |l: JournalLine<Text>|
        if operating(m, l) && since(l.date, c) {
            l.debit_minor - l.credit_minor
        } else {
            0
        };
    let mut sum: Option<i64> = Some(0);
    let mut i: usize = 0;
    while i < t.journal.len()
        invariant
            i <= t.journal@.len(),
            m == t@,
            c == opt_str(limit),
            s == rows(t.journal@),
            f == (|l: JournalLine<Text>|
                if operating(m, l) && since(l.date, c) {
                    l.debit_minor - l.credit_minor
                } else {
                    0
                }),
            sum == total(s.take(i as int), f),
        decreases t.journal@.len() - i,
    {
        assert(s.take(i + 1).drop_last() =~= s.take(i as int));
        assert(s.take(i + 1).last() == t.journal@[i as int]@);
        let l = &t.journal[i];
        let figure: i128 = if is_operating(t, l) && is_since(l.date.as_str(), limit) {
            l.debit_minor as i128 - l.credit_minor as i128
        } else {
            0
        };
        sum = accrue(sum, figure);
        i += 1;
    }
    assert(s.take(s.len() as int) =~= s);
    sum
}

/// Gross profit less operating expenses, from a limit on.
pub open spec fn net_profit_outcome(m: ReadModel, limit: Option<Text>) -> Result<i64, Fault> {
    or_overflow(minus(recent_profit(m, limit), recent_expense(m, limit)))
}

/// Gross profit less operating expenses, from a limit on.
pub fn net_profit_since(t: &Tables, limit: Option<&str>) -> (r: Result<i64, DbError>)
    ensures
        number_result(r) == net_profit_outcome(t@, opt_str(limit)),
{
    let (_, _, profit) = recent_sums(t, limit);
    match subtract(profit, sum_recent_expense(t, limit)) {
        Some(v) => Ok(v),
        None => Err(DbError::Overflow),
    }
}

/// Net profit over the six months up to a date.
pub fn net_profit(t: &Tables, anchor: &str) -> (r: Result<i64, DbError>)
    ensures
        (r matches Err(e) && e is Refused) || exists|c: Option<Text>|
            (steady(anchor@) ==> c == half_year_before(anchor@)) && number_result(r)
                == #[trigger] net_profit_outcome(t@, c),
{
    let limit = find_half_year_before(anchor)?;
    let l = lend(&limit);
    net_profit_since(t, l)
}

} // verus!
