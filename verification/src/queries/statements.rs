//! Profit and loss, balance sheet.

use crate::error::DbError;
use crate::json::JsonV;
use crate::model::{Fault, Text};
use crate::queries::profit::{is_of_type, of_type};
use crate::rows::{find, lookup, rows};
use crate::sums::{accrue, minus, subtract, total};
use crate::tables::{Account, JournalLine, ReadModel, Tables};
use crate::text::{lex_le, sorts_before};
use vstd::prelude::*;
use vstd::string::*;

verus! {

/// Income, expense and what is left.
#[derive(Debug, Clone, Copy, PartialEq, Eq, Structural)]
pub struct ProfitAndLoss {
    pub income_minor: i64,
    pub expense_minor: i64,
    pub net_profit_minor: i64,
}

/// The journal line is on an account of the type, dated from `from` to `to`.
pub open spec fn booked(m: ReadModel, l: JournalLine<Text>, ty: Text, from: Text, to: Text) -> bool {
    lex_le(from, l.date) && lex_le(l.date, to) && (lookup(m.accounts, l.account_id) matches Some(a)
        && of_type(a, ty))
}

/// Debits less credits of accounts of a type, or the other way round.
pub open spec fn period_total(
    m: ReadModel,
    ty: Text,
    credits: bool,
    from: Text,
    to: Text,
) -> Option<i64> {
    total(
        m.journal,
        |l: JournalLine<Text>|
            if booked(m, l, ty, from, to) {
                if credits {
                    l.credit_minor - l.debit_minor
                } else {
                    l.debit_minor - l.credit_minor
                }
            } else {
                0
            },
    )
}

fn sum_period(t: &Tables, ty: &str, credits: bool, from: &str, to: &str) -> (r: Option<i64>)
    ensures
        r == period_total(t@, ty@, credits, from@, to@),
{
    let ghost m = t@;
    let ghost s = m.journal;
    let ghost f = |l: JournalLine<Text>|
        if booked(m, l, ty@, from@, to@) {
            if credits {
                l.credit_minor - l.debit_minor
            } else {
                l.debit_minor - l.credit_minor
            }
        } else {
            0
        };
    let mut sum: Option<i64> = Some(0);
    let mut i: usize = 0;
    while i < t.journal.len()
        invariant
            i <= t.journal@.len(),
            m == t@,
            s == rows(t.journal@),
            f == (|l: JournalLine<Text>|
                if booked(m, l, ty@, from@, to@) {
                    if credits {
                        l.credit_minor - l.debit_minor
                    } else {
                        l.debit_minor - l.credit_minor
                    }
                } else {
                    0
                }),
            sum == total(s.take(i as int), f),
        decreases t.journal@.len() - i,
    {
        assert(s.take(i + 1).drop_last() =~= s.take(i as int));
        assert(s.take(i + 1).last() == t.journal@[i as int]@);
        let l = &t.journal[i];
        let date = l.date.as_str();
        let counted = !sorts_before(date, from) && !sorts_before(to, date) && match find(
            &t.accounts,
            l.account_id.as_str(),
        ) {
            Some(k) => is_of_type(&t.accounts[k], ty),
            None => false,
        };
        let figure: i128 = if counted {
            if credits {
                l.credit_minor as i128 - l.debit_minor as i128
            } else {
                l.debit_minor as i128 - l.credit_minor as i128
            }
        } else {
            0
        };
        sum = accrue(sum, figure);
        i += 1;
    }
    assert(s.take(s.len() as int) =~= s);
    sum
}

/// The profit and loss statement of a period.
pub open spec fn profit_and_loss_outcome(m: ReadModel, from: Text, to: Text) -> Result<
    ProfitAndLoss,
    Fault,
> {
    let income = period_total(m, "income"@, true, from, to);
    let expense = period_total(m, "expense"@, false, from, to);
    match (income, expense, minus(income, expense)) {
        (Some(i), Some(e), Some(n)) => Ok(
            ProfitAndLoss { income_minor: i, expense_minor: e, net_profit_minor: n },
        ),
        _ => Err(DbError::Overflow),
    }
}

/// The profit and loss statement of a period, its first and last day with it.
pub fn profit_and_loss(t: &Tables, from: &str, to: &str) -> (r: Result<ProfitAndLoss, DbError>)
    ensures
        match r {
            Ok(p) => profit_and_loss_outcome(t@, from@, to@) == Ok::<ProfitAndLoss, Fault>(p),
            Err(e) => profit_and_loss_outcome(t@, from@, to@) == Err::<ProfitAndLoss, Fault>(e@),
        },
{
    let income = sum_period(t, "income", true, from, to);
    let expense = sum_period(t, "expense", false, from, to);
    match (income, expense, subtract(income, expense)) {
        (Some(i), Some(e), Some(n)) => Ok(
            ProfitAndLoss { income_minor: i, expense_minor: e, net_profit_minor: n },
        ),
        _ => Err(DbError::Overflow),
    }
}

/// What the business owns and owes.
#[derive(Debug, Clone, Copy, PartialEq, Eq, Structural)]
pub struct BalanceSheet {
    pub assets_minor: i64,
    pub liabilities_minor: i64,
    pub equity_minor: i64,
}

/// The balances of all accounts of a type.
pub open spec fn type_total(m: ReadModel, ty: Text) -> Option<i64> {
    total(
        m.accounts,
        |a: Account<Text, JsonV>|
            if of_type(a, ty) {
                a.balance_minor as int
            } else {
                0
            },
    )
}

fn sum_type(t: &Tables, ty: &str) -> (r: Option<i64>)
    ensures
        r == type_total(t@, ty@),
{
    let ghost s = t@.accounts;
    let ghost f = |a: Account<Text, JsonV>|
        if of_type(a, ty@) {
            a.balance_minor as int
        } else {
            0
        };
    let mut sum: Option<i64> = Some(0);
    let mut i: usize = 0;
    while i < t.accounts.len()
        invariant
            i <= t.accounts@.len(),
            s == rows(t.accounts@),
            f == (|a: Account<Text, JsonV>|
                if of_type(a, ty@) {
                    a.balance_minor as int
                } else {
                    0
                }),
            sum == total(s.take(i as int), f),
        decreases t.accounts@.len() - i,
    {
        assert(s.take(i + 1).drop_last() =~= s.take(i as int));
        assert(s.take(i + 1).last() == t.accounts@[i as int]@);
        let figure: i128 = if is_of_type(&t.accounts[i], ty) {
            t.accounts[i].balance_minor as i128
        } else {
            0
        };
        sum = accrue(sum, figure);
        i += 1;
    }
    assert(s.take(s.len() as int) =~= s);
    sum
}

/// The balance sheet.
pub open spec fn balance_sheet_outcome(m: ReadModel) -> Result<BalanceSheet, Fault> {
    match (type_total(m, "asset"@), type_total(m, "liability"@), type_total(m, "equity"@)) {
        (Some(a), Some(l), Some(e)) => Ok(
            BalanceSheet { assets_minor: a, liabilities_minor: l, equity_minor: e },
        ),
        _ => Err(DbError::Overflow),
    }
}

/// The balance sheet.
pub fn balance_sheet(t: &Tables) -> (r: Result<BalanceSheet, DbError>)
    ensures
        match r {
            Ok(b) => balance_sheet_outcome(t@) == Ok::<BalanceSheet, Fault>(b),
            Err(e) => balance_sheet_outcome(t@) == Err::<BalanceSheet, Fault>(e@),
        },
{
    match (sum_type(t, "asset"), sum_type(t, "liability"), sum_type(t, "equity")) {
        (Some(a), Some(l), Some(e)) => Ok(
            BalanceSheet { assets_minor: a, liabilities_minor: l, equity_minor: e },
        ),
        _ => Err(DbError::Overflow),
    }
}

} // verus!
