//! Checks that the read model agrees with itself.

use crate::error::DbError;
use crate::json::pos;
use crate::model::{in_role, role_of, Fault, Text};
use crate::projectors::find_role;
use crate::rows::{find, lookup, rows};
use crate::sums::{accrue, minus, multiply, subtract, total};
use crate::tables::{
    Allocation, Balance, Invoice, JournalLine, Lot, ReadModel, Return, SaleLine, Tables,
};
use crate::text::{dec, decimal, decimal_wide, same};
use vstd::prelude::*;
use vstd::string::*;

verus! {

/// Whether a check held, or what it found.
#[derive(Debug, PartialEq, Eq)]
#[verifier::ext_equal]
pub enum CheckOutcome<S = String> {
    Pass,
    Fail(S),
}

/// The mathematical value of an outcome.
pub type Finding = CheckOutcome<Seq<char>>;

impl View for CheckOutcome {
    type V = CheckOutcome<Seq<char>>;

    open spec fn view(&self) -> CheckOutcome<Seq<char>> {
        match self {
            CheckOutcome::Pass => CheckOutcome::Pass,
            CheckOutcome::Fail(m) => CheckOutcome::Fail(m@),
        }
    }
}

/// A named check and its outcome.
#[derive(Debug, PartialEq, Eq)]
pub struct Check {
    pub name: &'static str,
    pub outcome: CheckOutcome,
}

/// The result of a check by its value.
pub open spec fn found(r: Result<CheckOutcome, DbError>) -> Result<Finding, Fault> {
    match r {
        Ok(c) => Ok(c@),
        Err(e) => Err(e@),
    }
}

/// The balance of the account in a role.
pub open spec fn role_balance(m: ReadModel, role: Text) -> Result<i64, Fault> {
    match in_role(m.accounts, role) {
        Some(a) => Ok(a.balance_minor),
        None => Err(DbError::NoRows),
    }
}

fn balance_by_role(t: &Tables, role: &str) -> (r: Result<i64, DbError>)
    ensures
        match r {
            Ok(b) => role_balance(t@, role@) == Ok::<i64, Fault>(b),
            Err(e) => role_balance(t@, role@) == Err::<i64, Fault>(e@),
        },
{
    match find_role(&t.accounts, role) {
        Some(i) => Ok(t.accounts[i].balance_minor),
        None => Err(DbError::NoRows),
    }
}

// ---- inventory valuation ----

/// What the units left of a lot are worth.
pub open spec fn lot_value(l: Lot<Text>) -> int {
    l.qty_remaining * l.unit_cost_minor
}

/// What the stock is worth by its lots.
pub open spec fn stock_value(m: ReadModel) -> Option<i64> {
    total(m.lots, |l: Lot<Text>| lot_value(l))
}

/// Adds up what the stock is worth by its lots.
pub fn value_of_stock(t: &Tables) -> (r: Option<i64>)
    ensures
        r == stock_value(t@),
{
    let ghost s = t@.lots;
    let ghost f = |l: Lot<Text>| lot_value(l);
    let mut sum: Option<i64> = Some(0);
    let mut i: usize = 0;
    while i < t.lots.len()
        invariant
            i <= t.lots@.len(),
            s == rows(t.lots@),
            f == (|l: Lot<Text>| lot_value(l)),
            sum == total(s.take(i as int), f),
        decreases t.lots@.len() - i,
    {
        assert(s.take(i + 1).drop_last() =~= s.take(i as int));
        assert(s.take(i + 1).last() == t.lots@[i as int]@);
        sum = accrue(sum, multiply(t.lots[i].qty_remaining, t.lots[i].unit_cost_minor));
        i += 1;
    }
    assert(s.take(s.len() as int) =~= s);
    sum
}

pub open spec fn inventory_valuation_finding(m: ReadModel) -> Result<Finding, Fault> {
    match role_balance(m, "inventory"@) {
        Err(e) => Err(e),
        Ok(gl) => match stock_value(m) {
            None => Err(DbError::Overflow),
            Some(lots) => if gl == lots {
                Ok(CheckOutcome::Pass)
            } else {
                Ok(
                    CheckOutcome::Fail(
                        "inventory valuation drift: lot value "@ + dec(lots as int)
                            + " != Inventory GL "@ + dec(gl as int),
                    ),
                )
            },
        },
    }
}

/// The lots are worth what the inventory account says.
pub fn check_inventory_valuation(t: &Tables) -> (r: Result<CheckOutcome, DbError>)
    ensures
        found(r) == inventory_valuation_finding(t@),
{
    let gl: i64 = balance_by_role(t, "inventory")?;
    match value_of_stock(t) {
        None => Err(DbError::Overflow),
        Some(lots) => if gl == lots {
            Ok(CheckOutcome::Pass)
        } else {
            Ok(
                CheckOutcome::Fail(
                    "inventory valuation drift: lot value ".to_owned().concat(
                        decimal(lots).as_str(),
                    ).concat(" != Inventory GL ").concat(decimal(gl).as_str()),
                ),
            )
        },
    }
}

// ---- gross profit ----

/// The line belongs to a sale that was not reversed.
pub open spec fn stands(m: ReadModel, l: SaleLine<Text>) -> bool {
    lookup(m.sales, l.sale_id) matches Some(s) && !s.reversed
}

/// Whether a line belongs to a sale that was not reversed.
pub fn is_standing(t: &Tables, l: &SaleLine) -> (r: bool)
    ensures
        r == stands(t@, l@),
{
    match find(&t.sales, l.sale_id.as_str()) {
        Some(i) => !t.sales[i].reversed,
        None => false,
    }
}

/// The profit that a standing sale line froze.
pub open spec fn line_profit(m: ReadModel, l: SaleLine<Text>) -> int {
    if stands(m, l) {
        l.revenue_minor - l.cogs_minor
    } else {
        0
    }
}

/// The profit that a sale return took back.
pub open spec fn return_profit(r: Return<Text>) -> int {
    if r.return_type == "sale_return"@ {
        r.revenue_reversed_minor - r.cost_restored_minor
    } else {
        0
    }
}

/// The journal line is on an account in the role.
pub open spec fn on_role(m: ReadModel, l: JournalLine<Text>, role: Text) -> bool {
    lookup(m.accounts, l.account_id) matches Some(a) && role_of(a) == Some(role)
}

fn is_on_role(t: &Tables, l: &JournalLine, role: &str) -> (r: bool)
    ensures
        r == on_role(t@, l@, role@),
{
    match find(&t.accounts, l.account_id.as_str()) {
        Some(i) => match pos(&t.accounts[i].doc, "system_role") {
            Some(x) => same(x, role),
            None => false,
        },
        None => false,
    }
}

/// What a journal line credits to an account in the role, net of debits.
pub open spec fn role_credit(m: ReadModel, l: JournalLine<Text>, role: Text) -> int {
    if on_role(m, l, role) {
        l.credit_minor - l.debit_minor
    } else {
        0
    }
}

/// What a journal line debits to an account in the role, net of credits.
pub open spec fn role_debit(m: ReadModel, l: JournalLine<Text>, role: Text) -> int {
    if on_role(m, l, role) {
        l.debit_minor - l.credit_minor
    } else {
        0
    }
}

/// Gross profit by the sale lines and returns.
pub open spec fn engine_profit(m: ReadModel) -> Option<i64> {
    minus(
        total(m.sale_lines, |l: SaleLine<Text>| line_profit(m, l)),
        total(m.returns, |r: Return<Text>| return_profit(r)),
    )
}

/// Gross profit by the journal.
pub open spec fn journal_profit(m: ReadModel) -> Option<i64> {
    minus(
        total(m.journal, |l: JournalLine<Text>| role_credit(m, l, "sales"@)),
        total(m.journal, |l: JournalLine<Text>| role_debit(m, l, "cogs"@)),
    )
}

fn profit_by_lines(t: &Tables) -> (r: Option<i64>)
    ensures
        r == engine_profit(t@),
{
    let ghost m = t@;
    let ghost f = |l: SaleLine<Text>| line_profit(m, l);
    let ghost s = m.sale_lines;
    let mut sold: Option<i64> = Some(0);
    let mut i: usize = 0;
    while i < t.sale_lines.len()
        invariant
            i <= t.sale_lines@.len(),
            m == t@,
            s == rows(t.sale_lines@),
            f == (|l: SaleLine<Text>| line_profit(m, l)),
            sold == total(s.take(i as int), f),
        decreases t.sale_lines@.len() - i,
    {
        assert(s.take(i + 1).drop_last() =~= s.take(i as int));
        assert(s.take(i + 1).last() == t.sale_lines@[i as int]@);
        let l = &t.sale_lines[i];
        let figure: i128 = if is_standing(t, l) {
            l.revenue_minor as i128 - l.cogs_minor as i128
        } else {
            0
        };
        sold = accrue(sold, figure);
        i += 1;
    }
    assert(s.take(s.len() as int) =~= s);
    let ghost g = |r: Return<Text>| return_profit(r);
    let ghost q = m.returns;
    let mut back: Option<i64> = Some(0);
    let mut j: usize = 0;
    while j < t.returns.len()
        invariant
            j <= t.returns@.len(),
            q == rows(t.returns@),
            g == (|r: Return<Text>| return_profit(r)),
            back == total(q.take(j as int), g),
        decreases t.returns@.len() - j,
    {
        assert(q.take(j + 1).drop_last() =~= q.take(j as int));
        assert(q.take(j + 1).last() == t.returns@[j as int]@);
        let x = &t.returns[j];
        let figure: i128 = if same(x.return_type.as_str(), "sale_return") {
            x.revenue_reversed_minor as i128 - x.cost_restored_minor as i128
        } else {
            0
        };
        back = accrue(back, figure);
        j += 1;
    }
    assert(q.take(q.len() as int) =~= q);
    subtract(sold, back)
}

fn profit_by_journal(t: &Tables) -> (r: Option<i64>)
    ensures
        r == journal_profit(t@),
{
    let ghost m = t@;
    let ghost s = m.journal;
    let ghost f = |l: JournalLine<Text>| role_credit(m, l, "sales"@);
    let ghost g = |l: JournalLine<Text>| role_debit(m, l, "cogs"@);
    let mut sales: Option<i64> = Some(0);
    let mut cogs: Option<i64> = Some(0);
    let mut i: usize = 0;
    while i < t.journal.len()
        invariant
            i <= t.journal@.len(),
            m == t@,
            s == rows(t.journal@),
            f == (|l: JournalLine<Text>| role_credit(m, l, "sales"@)),
            g == (|l: JournalLine<Text>| role_debit(m, l, "cogs"@)),
            sales == total(s.take(i as int), f),
            cogs == total(s.take(i as int), g),
        decreases t.journal@.len() - i,
    {
        assert(s.take(i + 1).drop_last() =~= s.take(i as int));
        assert(s.take(i + 1).last() == t.journal@[i as int]@);
        let l = &t.journal[i];
        let credit: i128 = if is_on_role(t, l, "sales") {
            l.credit_minor as i128 - l.debit_minor as i128
        } else {
            0
        };
        let debit: i128 = if is_on_role(t, l, "cogs") {
            l.debit_minor as i128 - l.credit_minor as i128
        } else {
            0
        };
        sales = accrue(sales, credit);
        cogs = accrue(cogs, debit);
        i += 1;
    }
    assert(s.take(s.len() as int) =~= s);
    subtract(sales, cogs)
}

pub open spec fn gross_profit_finding(m: ReadModel) -> Result<Finding, Fault> {
    match (engine_profit(m), journal_profit(m)) {
        (Some(engine), Some(journal)) => if engine == journal {
            Ok(CheckOutcome::Pass)
        } else {
            Ok(
                CheckOutcome::Fail(
                    "gross profit drift: engine "@ + dec(engine as int) + " != journal "@ + dec(
                        journal as int,
                    ),
                ),
            )
        },
        _ => Err(DbError::Overflow),
    }
}

/// The sale lines, net of returns, earned what the journal says.
pub fn check_gross_profit(t: &Tables) -> (r: Result<CheckOutcome, DbError>)
    ensures
        found(r) == gross_profit_finding(t@),
{
    match (profit_by_lines(t), profit_by_journal(t)) {
        (Some(engine), Some(journal)) => if engine == journal {
            Ok(CheckOutcome::Pass)
        } else {
            Ok(
                CheckOutcome::Fail(
                    "gross profit drift: engine ".to_owned().concat(
                        decimal(engine).as_str(),
                    ).concat(" != journal ").concat(decimal(journal).as_str()),
                ),
            )
        },
        _ => Err(DbError::Overflow),
    }
}

// ---- double entry ----

/// What a line debits within a transaction.
pub open spec fn txn_debit(l: JournalLine<Text>, txn: Text) -> int {
    if l.txn_id == txn {
        l.debit_minor as int
    } else {
        0
    }
}

/// What a line credits within a transaction.
pub open spec fn txn_credit(l: JournalLine<Text>, txn: Text) -> int {
    if l.txn_id == txn {
        l.credit_minor as int
    } else {
        0
    }
}

pub open spec fn txn_debits(t: Seq<JournalLine<Text>>, txn: Text) -> Option<i64> {
    total(t, |l: JournalLine<Text>| txn_debit(l, txn))
}

pub open spec fn txn_credits(t: Seq<JournalLine<Text>>, txn: Text) -> Option<i64> {
    total(t, |l: JournalLine<Text>| txn_credit(l, txn))
}

fn txn_sums(t: &Vec<JournalLine>, txn: &str) -> (r: (Option<i64>, Option<i64>))
    ensures
        r.0 == txn_debits(rows(t@), txn@),
        r.1 == txn_credits(rows(t@), txn@),
{
    let ghost s = rows(t@);
    let ghost f = |l: JournalLine<Text>| txn_debit(l, txn@);
    let ghost g = |l: JournalLine<Text>| txn_credit(l, txn@);
    let mut d: Option<i64> = Some(0);
    let mut c: Option<i64> = Some(0);
    let mut i: usize = 0;
    while i < t.len()
        invariant
            i <= t@.len(),
            s == rows(t@),
            f == (|l: JournalLine<Text>| txn_debit(l, txn@)),
            g == (|l: JournalLine<Text>| txn_credit(l, txn@)),
            d == total(s.take(i as int), f),
            c == total(s.take(i as int), g),
        decreases t@.len() - i,
    {
        assert(s.take(i + 1).drop_last() =~= s.take(i as int));
        assert(s.take(i + 1).last() == t@[i as int]@);
        let mine = same(t[i].txn_id.as_str(), txn);
        let debit: i128 = if mine {
            t[i].debit_minor as i128
        } else {
            0
        };
        let credit: i128 = if mine {
            t[i].credit_minor as i128
        } else {
            0
        };
        d = accrue(d, debit);
        c = accrue(c, credit);
        i += 1;
    }
    assert(s.take(s.len() as int) =~= s);
    (d, c)
}

/// From journal line `i` on, the transaction of every line balances.
pub open spec fn double_entry_from(t: Seq<JournalLine<Text>>, i: int) -> Result<Finding, Fault>
    decreases t.len() - i,
{
    if i >= t.len() {
        Ok(CheckOutcome::Pass)
    } else {
        match (txn_debits(t, t[i].txn_id), txn_credits(t, t[i].txn_id)) {
            (Some(d), Some(c)) => if d != c {
                Ok(
                    CheckOutcome::Fail(
                        "unbalanced txn "@ + t[i].txn_id + ": debit "@ + dec(d as int)
                            + " != credit "@ + dec(c as int),
                    ),
                )
            } else {
                double_entry_from(t, i + 1)
            },
            _ => Err(DbError::Overflow),
        }
    }
}

/// Every transaction debits what it credits.
pub fn check_double_entry(t: &Tables) -> (r: Result<CheckOutcome, DbError>)
    ensures
        found(r) == double_entry_from(t@.journal, 0),
{
    let mut i: usize = 0;
    while i < t.journal.len()
        invariant
            i <= t.journal@.len(),
            double_entry_from(t@.journal, i as int) == double_entry_from(t@.journal, 0),
        decreases t.journal@.len() - i,
    {
        assert(t@.journal[i as int] == t.journal@[i as int]@);
        let txn = t.journal[i].txn_id.as_str();
        match txn_sums(&t.journal, txn) {
            (Some(d), Some(c)) => {
                if d != c {
                    return Ok(
                        CheckOutcome::Fail(
                            "unbalanced txn ".to_owned().concat(txn).concat(": debit ").concat(
                                decimal(d).as_str(),
                            ).concat(" != credit ").concat(decimal(c).as_str()),
                        ),
                    );
                }
            },
            _ => {
                return Err(DbError::Overflow);
            },
        }
        i += 1;
    }
    Ok(CheckOutcome::Pass)
}

// ---- party balances ----

/// What parties owe beyond the credit held for them.
pub open spec fn net_receivable(m: ReadModel) -> Option<i64> {
    minus(
        total(m.balances, |b: Balance<Text>| b.receivable_minor as int),
        total(m.balances, |b: Balance<Text>| b.unallocated_cr_minor as int),
    )
}

/// What is owed to parties beyond the credit held with them.
pub open spec fn net_payable(m: ReadModel) -> Option<i64> {
    minus(
        total(m.balances, |b: Balance<Text>| b.payable_minor as int),
        total(m.balances, |b: Balance<Text>| b.unallocated_dr_minor as int),
    )
}

fn net_party_sums(t: &Tables) -> (r: (Option<i64>, Option<i64>))
    ensures
        r.0 == net_receivable(t@),
        r.1 == net_payable(t@),
{
    let ghost s = t@.balances;
    let ghost f1 = |b: Balance<Text>| b.receivable_minor as int;
    let ghost f2 = |b: Balance<Text>| b.unallocated_cr_minor as int;
    let ghost f3 = |b: Balance<Text>| b.payable_minor as int;
    let ghost f4 = |b: Balance<Text>| b.unallocated_dr_minor as int;
    let mut recv: Option<i64> = Some(0);
    let mut cr: Option<i64> = Some(0);
    let mut pay: Option<i64> = Some(0);
    let mut dr: Option<i64> = Some(0);
    let mut i: usize = 0;
    while i < t.balances.len()
        invariant
            i <= t.balances@.len(),
            s == rows(t.balances@),
            f1 == (|b: Balance<Text>| b.receivable_minor as int),
            f2 == (|b: Balance<Text>| b.unallocated_cr_minor as int),
            f3 == (|b: Balance<Text>| b.payable_minor as int),
            f4 == (|b: Balance<Text>| b.unallocated_dr_minor as int),
            recv == total(s.take(i as int), f1),
            cr == total(s.take(i as int), f2),
            pay == total(s.take(i as int), f3),
            dr == total(s.take(i as int), f4),
        decreases t.balances@.len() - i,
    {
        assert(s.take(i + 1).drop_last() =~= s.take(i as int));
        assert(s.take(i + 1).last() == t.balances@[i as int]@);
        let b = &t.balances[i];
        recv = accrue(recv, b.receivable_minor as i128);
        cr = accrue(cr, b.unallocated_cr_minor as i128);
        pay = accrue(pay, b.payable_minor as i128);
        dr = accrue(dr, b.unallocated_dr_minor as i128);
        i += 1;
    }
    assert(s.take(s.len() as int) =~= s);
    (subtract(recv, cr), subtract(pay, dr))
}

pub open spec fn party_balances_finding(m: ReadModel) -> Result<Finding, Fault> {
    match (net_receivable(m), net_payable(m)) {
        (Some(recv), Some(pay)) => match role_balance(m, "accounts_receivable"@) {
            Err(e) => Err(e),
            Ok(ar) => match role_balance(m, "accounts_payable"@) {
                Err(e) => Err(e),
                Ok(ap) => if recv != ar {
                    Ok(
                        CheckOutcome::Fail(
                            "receivable drift: net Σreceivable-Σunallocated_cr "@ + dec(
                                recv as int,
                            ) + " != A/R GL "@ + dec(ar as int),
                        ),
                    )
                } else if pay != ap {
                    Ok(
                        CheckOutcome::Fail(
                            "payable drift: net Σpayable-Σunallocated_dr "@ + dec(pay as int)
                                + " != A/P GL "@ + dec(ap as int),
                        ),
                    )
                } else {
                    Ok(CheckOutcome::Pass)
                },
            },
        },
        _ => Err(DbError::Overflow),
    }
}

/// The party balances, net of held credit, are what the receivable and payable
/// accounts say.
pub fn check_party_balances(t: &Tables) -> (r: Result<CheckOutcome, DbError>)
    ensures
        found(r) == party_balances_finding(t@),
{
    match net_party_sums(t) {
        (Some(recv), Some(pay)) => {
            let ar: i64 = balance_by_role(t, "accounts_receivable")?;
            let ap: i64 = balance_by_role(t, "accounts_payable")?;
            if recv != ar {
                return Ok(
                    CheckOutcome::Fail(
                        "receivable drift: net Σreceivable-Σunallocated_cr ".to_owned().concat(
                            decimal(recv).as_str(),
                        ).concat(" != A/R GL ").concat(decimal(ar).as_str()),
                    ),
                );
            }
            if pay != ap {
                return Ok(
                    CheckOutcome::Fail(
                        "payable drift: net Σpayable-Σunallocated_dr ".to_owned().concat(
                            decimal(pay).as_str(),
                        ).concat(" != A/P GL ").concat(decimal(ap).as_str()),
                    ),
                );
            }
            Ok(CheckOutcome::Pass)
        },
        _ => Err(DbError::Overflow),
    }
}

// ---- invoices ----

/// What an allocation settles of an invoice.
pub open spec fn settled(a: Allocation<Text>, id: Text, kind: Text) -> int {
    if a.target_id == id && a.target_type == kind {
        a.amount_minor as int
    } else {
        0
    }
}

/// What a return takes off an invoice: its revenue, or its cost.
pub open spec fn returned(r: Return<Text>, id: Text, sale: bool) -> int {
    if r.original_id == id && r.return_type == (if sale {
        "sale_return"@
    } else {
        "purchase_return"@
    }) {
        if sale {
            r.revenue_reversed_minor as int
        } else {
            r.cost_restored_minor as int
        }
    } else {
        0
    }
}

pub open spec fn settled_total(m: ReadModel, id: Text, kind: Text) -> Option<i64> {
    total(m.allocations, |a: Allocation<Text>| settled(a, id, kind))
}

pub open spec fn returned_total(m: ReadModel, id: Text, sale: bool) -> Option<i64> {
    total(m.returns, |r: Return<Text>| returned(r, id, sale))
}

fn sum_settled(t: &Vec<Allocation>, id: &str, kind: &str) -> (r: Option<i64>)
    ensures
        r == total(rows(t@), |a: Allocation<Text>| settled(a, id@, kind@)),
{
    let ghost s = rows(t@);
    let ghost f = |a: Allocation<Text>| settled(a, id@, kind@);
    let mut sum: Option<i64> = Some(0);
    let mut i: usize = 0;
    while i < t.len()
        invariant
            i <= t@.len(),
            s == rows(t@),
            f == (|a: Allocation<Text>| settled(a, id@, kind@)),
            sum == total(s.take(i as int), f),
        decreases t@.len() - i,
    {
        assert(s.take(i + 1).drop_last() =~= s.take(i as int));
        assert(s.take(i + 1).last() == t@[i as int]@);
        let figure: i128 = if same(t[i].target_id.as_str(), id) && same(
            t[i].target_type.as_str(),
            kind,
        ) {
            t[i].amount_minor as i128
        } else {
            0
        };
        sum = accrue(sum, figure);
        i += 1;
    }
    assert(s.take(s.len() as int) =~= s);
    sum
}

fn sum_returned(t: &Vec<Return>, id: &str, sale: bool) -> (r: Option<i64>)
    ensures
        r == total(rows(t@), |x: Return<Text>| returned(x, id@, sale)),
{
    let ghost s = rows(t@);
    let ghost f = |x: Return<Text>| returned(x, id@, sale);
    let kind = if sale {
        "sale_return"
    } else {
        "purchase_return"
    };
    let mut sum: Option<i64> = Some(0);
    let mut i: usize = 0;
    while i < t.len()
        invariant
            i <= t@.len(),
            s == rows(t@),
            kind@ == (if sale {
                "sale_return"@
            } else {
                "purchase_return"@
            }),
            f == (|x: Return<Text>| returned(x, id@, sale)),
            sum == total(s.take(i as int), f),
        decreases t@.len() - i,
    {
        assert(s.take(i + 1).drop_last() =~= s.take(i as int));
        assert(s.take(i + 1).last() == t@[i as int]@);
        let figure: i128 = if same(t[i].original_id.as_str(), id) && same(
            t[i].return_type.as_str(),
            kind,
        ) {
            if sale {
                t[i].revenue_reversed_minor as i128
            } else {
                t[i].cost_restored_minor as i128
            }
        } else {
            0
        };
        sum = accrue(sum, figure);
        i += 1;
    }
    assert(s.take(s.len() as int) =~= s);
    sum
}

/// What should be outstanding: on credit, what allocations and returns leave of the
/// total; for cash, nothing.
pub open spec fn expected_outstanding(
    terms: Text,
    total: i64,
    allocated: i64,
    returned: i64,
) -> int {
    if terms == "credit"@ && total - allocated - returned > 0 {
        total - allocated - returned
    } else {
        0
    }
}

/// What is wrong with an invoice, if anything is.
pub open spec fn invoice_fault(
    i: Invoice<Text>,
    kind: Text,
    allocated: i64,
    returned: i64,
) -> Option<Text> {
    let expected = expected_outstanding(i.terms, i.total_minor, allocated, returned);
    if i.outstanding_minor < 0 {
        Some(
            kind + " "@ + i.id + ": outstanding "@ + dec(i.outstanding_minor as int)
                + " is negative"@,
        )
    } else if i.outstanding_minor != expected {
        Some(
            kind + " "@ + i.id + " ("@ + i.terms + "): outstanding "@ + dec(
                i.outstanding_minor as int,
            ) + " != expected "@ + dec(expected) + " (total "@ + dec(i.total_minor as int)
                + " - allocated "@ + dec(allocated as int) + " - returned "@ + dec(
                returned as int,
            ) + ")"@,
        )
    } else {
        None
    }
}

fn find_invoice_fault(x: &Invoice, kind: &str, allocated: i64, returned: i64) -> (r: Option<String>)
    ensures
        match r {
            Some(s) => invoice_fault(x@, kind@, allocated, returned) == Some(s@),
            None => invoice_fault(x@, kind@, allocated, returned) is None,
        },
{
    let left: i128 = x.total_minor as i128 - allocated as i128 - returned as i128;
    let expected: i128 = if same(x.terms.as_str(), "credit") && left > 0 {
        left
    } else {
        0
    };
    if x.outstanding_minor < 0 {
        Some(
            kind.to_owned().concat(" ").concat(x.id.as_str()).concat(": outstanding ").concat(
                decimal(x.outstanding_minor).as_str(),
            ).concat(" is negative"),
        )
    } else if x.outstanding_minor as i128 != expected {
        Some(
            kind.to_owned().concat(" ").concat(x.id.as_str()).concat(" (").concat(
                x.terms.as_str(),
            ).concat("): outstanding ").concat(decimal(x.outstanding_minor).as_str()).concat(
                " != expected ",
            ).concat(decimal_wide(expected).as_str()).concat(" (total ").concat(
                decimal(x.total_minor).as_str(),
            ).concat(" - allocated ").concat(decimal(allocated).as_str()).concat(
                " - returned ",
            ).concat(decimal(returned).as_str()).concat(")"),
        )
    } else {
        None
    }
}

/// The first fault of sales, or of purchases, from row `i` on.
pub open spec fn outstanding_fault(
    m: ReadModel,
    t: Seq<Invoice<Text>>,
    sale: bool,
    i: int,
) -> Result<Option<Text>, Fault>
    decreases t.len() - i,
{
    let kind = if sale {
        "sale"@
    } else {
        "purchase"@
    };
    if i >= t.len() {
        Ok(None)
    } else {
        match (settled_total(m, t[i].id, kind), returned_total(m, t[i].id, sale)) {
            (Some(allocated), Some(back)) => match invoice_fault(t[i], kind, allocated, back) {
                Some(msg) => Ok(Some(msg)),
                None => outstanding_fault(m, t, sale, i + 1),
            },
            _ => Err(DbError::Overflow),
        }
    }
}

fn verify_outstanding(t: &Tables, v: &Vec<Invoice>, sale: bool) -> (r: Result<
    Option<String>,
    DbError,
>)
    ensures
        match r {
            Ok(Some(s)) => outstanding_fault(t@, rows(v@), sale, 0) == Ok::<Option<Text>, Fault>(
                Some(s@),
            ),
            Ok(None) => outstanding_fault(t@, rows(v@), sale, 0) == Ok::<Option<Text>, Fault>(
                None,
            ),
            Err(e) => outstanding_fault(t@, rows(v@), sale, 0) == Err::<Option<Text>, Fault>(e@),
        },
{
    let ghost s = rows(v@);
    let kind = if sale {
        "sale"
    } else {
        "purchase"
    };
    let mut i: usize = 0;
    while i < v.len()
        invariant
            i <= v@.len(),
            s == rows(v@),
            kind@ == (if sale {
                "sale"@
            } else {
                "purchase"@
            }),
            outstanding_fault(t@, s, sale, i as int) == outstanding_fault(t@, s, sale, 0),
        decreases v@.len() - i,
    {
        let x = &v[i];
        assert(s[i as int] == x@);
        match (
            sum_settled(&t.allocations, x.id.as_str(), kind),
            sum_returned(&t.returns, x.id.as_str(), sale),
        ) {
            (Some(allocated), Some(back)) => {
                if let Some(msg) = find_invoice_fault(x, kind, allocated, back) {
                    return Ok(Some(msg));
                }
            },
            _ => {
                return Err(DbError::Overflow);
            },
        }
        i += 1;
    }
    Ok(None)
}

pub open spec fn invoice_outstanding_finding(m: ReadModel) -> Result<Finding, Fault> {
    match outstanding_fault(m, m.sales, true, 0) {
        Err(e) => Err(e),
        Ok(Some(msg)) => Ok(CheckOutcome::Fail(msg)),
        Ok(None) => match outstanding_fault(m, m.purchases, false, 0) {
            Err(e) => Err(e),
            Ok(Some(msg)) => Ok(CheckOutcome::Fail(msg)),
            Ok(None) => Ok(CheckOutcome::Pass),
        },
    }
}

/// Every invoice has outstanding what its terms, allocations and returns leave.
pub fn check_invoice_outstanding(t: &Tables) -> (r: Result<CheckOutcome, DbError>)
    ensures
        found(r) == invoice_outstanding_finding(t@),
{
    if let Some(msg) = verify_outstanding(t, &t.sales, true)? {
        return Ok(CheckOutcome::Fail(msg));
    }
    if let Some(msg) = verify_outstanding(t, &t.purchases, false)? {
        return Ok(CheckOutcome::Fail(msg));
    }
    Ok(CheckOutcome::Pass)
}

// ---- lots and credits ----

/// The first lot from lot `i` on with less than nothing left.
pub open spec fn negative_lot_from(t: Seq<Lot<Text>>, i: int) -> Finding
    decreases t.len() - i,
{
    if i >= t.len() {
        CheckOutcome::Pass
    } else if t[i].qty_remaining < 0 {
        CheckOutcome::Fail(
            "lot "@ + t[i].id + " has negative qty_remaining "@ + dec(t[i].qty_remaining as int),
        )
    } else {
        negative_lot_from(t, i + 1)
    }
}

/// No lot has less than nothing left.
pub fn check_non_negative_inventory(t: &Tables) -> (r: Result<CheckOutcome, DbError>)
    ensures
        found(r) == Ok::<Finding, Fault>(negative_lot_from(t@.lots, 0)),
{
    let mut i: usize = 0;
    while i < t.lots.len()
        invariant
            i <= t.lots@.len(),
            negative_lot_from(t@.lots, i as int) == negative_lot_from(t@.lots, 0),
        decreases t.lots@.len() - i,
    {
        assert(t@.lots[i as int] == t.lots@[i as int]@);
        let l = &t.lots[i];
        if l.qty_remaining < 0 {
            return Ok(
                CheckOutcome::Fail(
                    "lot ".to_owned().concat(l.id.as_str()).concat(
                        " has negative qty_remaining ",
                    ).concat(decimal(l.qty_remaining).as_str()),
                ),
            );
        }
        i += 1;
    }
    Ok(CheckOutcome::Pass)
}

/// What is left of the lot is between nothing and what it received.
pub open spec fn in_bounds(l: Lot<Text>) -> bool {
    0 <= l.qty_remaining <= l.qty_received
}

/// The first lot from lot `i` on that is out of bounds.
pub open spec fn unbound_lot_from(t: Seq<Lot<Text>>, i: int) -> Finding
    decreases t.len() - i,
{
    if i >= t.len() {
        CheckOutcome::Pass
    } else if !in_bounds(t[i]) {
        CheckOutcome::Fail(
            "lot "@ + t[i].id + " out of bounds: qty_remaining "@ + dec(t[i].qty_remaining as int)
                + " not in [0, "@ + dec(t[i].qty_received as int) + "]"@,
        )
    } else {
        unbound_lot_from(t, i + 1)
    }
}

/// Every lot has between nothing and what it received left.
pub fn check_lot_bounds(t: &Tables) -> (r: Result<CheckOutcome, DbError>)
    ensures
        found(r) == Ok::<Finding, Fault>(unbound_lot_from(t@.lots, 0)),
{
    let mut i: usize = 0;
    while i < t.lots.len()
        invariant
            i <= t.lots@.len(),
            unbound_lot_from(t@.lots, i as int) == unbound_lot_from(t@.lots, 0),
        decreases t.lots@.len() - i,
    {
        assert(t@.lots[i as int] == t.lots@[i as int]@);
        let l = &t.lots[i];
        if l.qty_remaining < 0 || l.qty_remaining > l.qty_received {
            return Ok(
                CheckOutcome::Fail(
                    "lot ".to_owned().concat(l.id.as_str()).concat(
                        " out of bounds: qty_remaining ",
                    ).concat(decimal(l.qty_remaining).as_str()).concat(" not in [0, ").concat(
                        decimal(l.qty_received).as_str(),
                    ).concat("]"),
                ),
            );
        }
        i += 1;
    }
    Ok(CheckOutcome::Pass)
}

/// The first party from row `i` on with less than no credit.
pub open spec fn negative_credit_from(t: Seq<Balance<Text>>, i: int) -> Finding
    decreases t.len() - i,
{
    if i >= t.len() {
        CheckOutcome::Pass
    } else if t[i].unallocated_cr_minor < 0 || t[i].unallocated_dr_minor < 0 {
        CheckOutcome::Fail(
            "party "@ + t[i].party_id + " has negative unallocated credit: cr "@ + dec(
                t[i].unallocated_cr_minor as int,
            ) + ", dr "@ + dec(t[i].unallocated_dr_minor as int),
        )
    } else {
        negative_credit_from(t, i + 1)
    }
}

/// No party holds less than no credit.
pub fn check_non_negative_credits(t: &Tables) -> (r: Result<CheckOutcome, DbError>)
    ensures
        found(r) == Ok::<Finding, Fault>(negative_credit_from(t@.balances, 0)),
{
    let mut i: usize = 0;
    while i < t.balances.len()
        invariant
            i <= t.balances@.len(),
            negative_credit_from(t@.balances, i as int) == negative_credit_from(t@.balances, 0),
        decreases t.balances@.len() - i,
    {
        assert(t@.balances[i as int] == t.balances@[i as int]@);
        let b = &t.balances[i];
        if b.unallocated_cr_minor < 0 || b.unallocated_dr_minor < 0 {
            return Ok(
                CheckOutcome::Fail(
                    "party ".to_owned().concat(b.party_id.as_str()).concat(
                        " has negative unallocated credit: cr ",
                    ).concat(decimal(b.unallocated_cr_minor).as_str()).concat(", dr ").concat(
                        decimal(b.unallocated_dr_minor).as_str(),
                    ),
                ),
            );
        }
        i += 1;
    }
    Ok(CheckOutcome::Pass)
}

// ---- all together ----

/// The names of the checks, in the order in which they run.
pub const CHECK_NAMES: [&'static str; 8] = [
    "inventory_valuation",
    "gross_profit",
    "double_entry",
    "party_balances",
    "invoice_outstanding",
    "non_negative_inventory",
    "lot_bounds",
    "non_negative_credits",
];

/// What the checks find, in the order of their names.
pub open spec fn findings(m: ReadModel) -> Seq<Result<Finding, Fault>> {
    seq![
        inventory_valuation_finding(m),
        gross_profit_finding(m),
        double_entry_from(m.journal, 0),
        party_balances_finding(m),
        invoice_outstanding_finding(m),
        Ok(negative_lot_from(m.lots, 0)),
        Ok(unbound_lot_from(m.lots, 0)),
        Ok(negative_credit_from(m.balances, 0)),
    ]
}

/// Runs every check; fails with the first check that cannot be run.
pub fn run_all_checks(t: &Tables) -> (r: Result<Vec<Check>, DbError>)
    ensures
        match r {
            Ok(v) => v@.len() == 8 && forall|i: int|
                0 <= i < 8 ==> (#[trigger] v@[i]).name == CHECK_NAMES@[i] && findings(t@)[i]
                    == Ok::<Finding, Fault>(v@[i].outcome@),
            Err(e) => exists|i: int|
                0 <= i < 8 && #[trigger] findings(t@)[i] == Err::<Finding, Fault>(e@) && forall|
                    j: int,
                |
                    0 <= j < i ==> #[trigger] findings(t@)[j] is Ok,
        },
{
    let ghost f = findings(t@);
    let mut out: Vec<Check> = Vec::new();
    assert(f[0] == inventory_valuation_finding(t@));
    let c0 = check_inventory_valuation(t)?;
    out.push(Check { name: "inventory_valuation", outcome: c0 });
    assert(f[1] == gross_profit_finding(t@));
    let c1 = check_gross_profit(t)?;
    out.push(Check { name: "gross_profit", outcome: c1 });
    assert(f[2] == double_entry_from(t@.journal, 0));
    let c2 = check_double_entry(t)?;
    out.push(Check { name: "double_entry", outcome: c2 });
    assert(f[3] == party_balances_finding(t@));
    let c3 = check_party_balances(t)?;
    out.push(Check { name: "party_balances", outcome: c3 });
    assert(f[4] == invoice_outstanding_finding(t@));
    let c4 = check_invoice_outstanding(t)?;
    out.push(Check { name: "invoice_outstanding", outcome: c4 });
    assert(f[5] == Ok::<Finding, Fault>(negative_lot_from(t@.lots, 0)));
    let c5 = check_non_negative_inventory(t)?;
    out.push(Check { name: "non_negative_inventory", outcome: c5 });
    assert(f[6] == Ok::<Finding, Fault>(unbound_lot_from(t@.lots, 0)));
    let c6 = check_lot_bounds(t)?;
    out.push(Check { name: "lot_bounds", outcome: c6 });
    assert(f[7] == Ok::<Finding, Fault>(negative_credit_from(t@.balances, 0)));
    let c7 = check_non_negative_credits(t)?;
    out.push(Check { name: "non_negative_credits", outcome: c7 });
    Ok(out)
}

/// Whether every check passed.
pub fn all_passed(checks: &[Check]) -> (r: bool)
    ensures
        r == (forall|i: int| 0 <= i < checks@.len() ==> (#[trigger] checks@[i]).outcome@ is Pass),
{
    let mut i: usize = 0;
    while i < checks.len()
        invariant
            i <= checks@.len(),
            forall|j: int| 0 <= j < i ==> (#[trigger] checks@[j]).outcome@ is Pass,
        decreases checks@.len() - i,
    {
        match &checks[i].outcome {
            CheckOutcome::Pass => {},
            CheckOutcome::Fail(_) => {
                assert(!(checks@[i as int].outcome@ is Pass));
                return false;
            },
        }
        i += 1;
    }
    true
}

} // verus!
