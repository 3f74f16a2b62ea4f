//! Projecting events into the read model.

use crate::assoc::{pairs, put, record_of};
use crate::db::{Database, Store};
use crate::error::DbError;
use crate::events::{replay_order, EventV, LedgerEvent};
use crate::json::{elements_of, lemma_members, list, parr, pi, pos, ps, txt, Json, JsonV};
use crate::model::{fits, outcome, Fault};
use crate::refs::{is_referenced, ITEM_REFS, PARTY_REFS};
use crate::rows::{
    find, lemma_rows_push, lemma_rows_remove, lemma_rows_update, lend, opt_str, own, rows, Keyed,
    Row,
};
use crate::sort::sort;
use crate::tables::{
    Account, Allocation, Balance, Expense, Invoice, Item, JournalLine, Lot, LotConsumption, Party,
    Payment, PurchaseLine, ReadModel, Return, ReturnLine, SaleLine, Tables, User,
};
use crate::text::{decimal_u64, same};
use crate::model;
use vstd::prelude::*;
use vstd::string::*;

verus! {

broadcast use {lemma_rows_push, lemma_rows_update, lemma_rows_remove};

/// Adds a row whose key has to be new.
fn insert<R: Row>(t: &mut Vec<R>, r: R, column: &str) -> (res: Result<(), DbError>) where
    R::V: Keyed,

    ensures
        match res {
            Ok(_) => model::added(rows(old(t)@), r@, column@) == Ok::<Seq<R::V>, Fault>(
                rows(final(t)@),
            ),
            Err(e) => model::added(rows(old(t)@), r@, column@) == Err::<Seq<R::V>, Fault>(e@)
                && *final(t) == *old(t),
        },
{
    if find(t, r.id()).is_some() {
        return Err(DbError::Unique(column.to_owned()));
    }
    t.push(r);
    Ok(())
}

fn add_sale(t: &mut Tables, r: Invoice) -> (res: Result<(), DbError>)
    ensures
        outcome(res, final(t)@) == model::add_sale(Ok(old(t)@), r@),
        res is Err ==> *final(t) == *old(t),
{
    insert(&mut t.sales, r, "sales.id")
}

fn add_purchase(t: &mut Tables, r: Invoice) -> (res: Result<(), DbError>)
    ensures
        outcome(res, final(t)@) == model::add_purchase(Ok(old(t)@), r@),
        res is Err ==> *final(t) == *old(t),
{
    insert(&mut t.purchases, r, "purchases.id")
}

fn add_lot(t: &mut Tables, r: Lot) -> (res: Result<(), DbError>)
    ensures
        outcome(res, final(t)@) == model::add_lot(Ok(old(t)@), r@),
        res is Err ==> *final(t) == *old(t),
{
    if find(&t.lots, r.id.as_str()).is_some() {
        return Err(DbError::Unique("inventory_lots.id".to_owned()));
    }
    if find(&t.items, r.item_id.as_str()).is_none() {
        return Err(DbError::ForeignKey);
    }
    proof {
        lemma_rows_push(t.lots@, r);
    }
    t.lots.push(r);
    Ok(())
}

fn add_sale_line(t: &mut Tables, r: SaleLine) -> (res: Result<(), DbError>)
    ensures
        outcome(res, final(t)@) == model::add_sale_line(Ok(old(t)@), r@),
        res is Err ==> *final(t) == *old(t),
{
    if find(&t.sale_lines, r.id.as_str()).is_some() {
        return Err(DbError::Unique("sale_lines.id".to_owned()));
    }
    if find(&t.items, r.item_id.as_str()).is_none() {
        return Err(DbError::ForeignKey);
    }
    proof {
        lemma_rows_push(t.sale_lines@, r);
    }
    t.sale_lines.push(r);
    Ok(())
}

fn add_consumption(t: &mut Tables, r: LotConsumption) -> (res: Result<(), DbError>)
    ensures
        outcome(res, final(t)@) == model::add_consumption(Ok(old(t)@), r@),
        res is Err ==> *final(t) == *old(t),
{
    insert(&mut t.consumptions, r, "lot_consumptions.id")
}

fn add_purchase_line(t: &mut Tables, r: PurchaseLine) -> (res: Result<(), DbError>)
    ensures
        outcome(res, final(t)@) == model::add_purchase_line(Ok(old(t)@), r@),
        res is Err ==> *final(t) == *old(t),
{
    if find(&t.purchase_lines, r.id.as_str()).is_some() {
        return Err(DbError::Unique("purchase_lines.id".to_owned()));
    }
    if find(&t.items, r.item_id.as_str()).is_none() {
        return Err(DbError::ForeignKey);
    }
    proof {
        lemma_rows_push(t.purchase_lines@, r);
    }
    t.purchase_lines.push(r);
    Ok(())
}

fn add_payment(t: &mut Tables, r: Payment) -> (res: Result<(), DbError>)
    ensures
        outcome(res, final(t)@) == model::add_payment(Ok(old(t)@), r@),
        res is Err ==> *final(t) == *old(t),
{
    insert(&mut t.payments, r, "payments.id")
}

fn add_allocation(t: &mut Tables, r: Allocation) -> (res: Result<(), DbError>)
    ensures
        outcome(res, final(t)@) == model::add_allocation(Ok(old(t)@), r@),
        res is Err ==> *final(t) == *old(t),
{
    insert(&mut t.allocations, r, "payment_allocations.id")
}

fn add_return(t: &mut Tables, r: Return) -> (res: Result<(), DbError>)
    ensures
        outcome(res, final(t)@) == model::add_return(Ok(old(t)@), r@),
        res is Err ==> *final(t) == *old(t),
{
    insert(&mut t.returns, r, "returns.id")
}

fn add_return_line(t: &mut Tables, r: ReturnLine) -> (res: Result<(), DbError>)
    ensures
        outcome(res, final(t)@) == model::add_return_line(Ok(old(t)@), r@),
        res is Err ==> *final(t) == *old(t),
{
    if find(&t.return_lines, r.id.as_str()).is_some() {
        return Err(DbError::Unique("return_lines.id".to_owned()));
    }
    if find(&t.items, r.item_id.as_str()).is_none() {
        return Err(DbError::ForeignKey);
    }
    proof {
        lemma_rows_push(t.return_lines@, r);
    }
    t.return_lines.push(r);
    Ok(())
}

fn add_expense(t: &mut Tables, r: Expense) -> (res: Result<(), DbError>)
    ensures
        outcome(res, final(t)@) == model::add_expense(Ok(old(t)@), r@),
        res is Err ==> *final(t) == *old(t),
{
    insert(&mut t.expenses, r, "expenses.id")
}

/// Resolve a well-known account's id by its immutable `system_role`.
pub fn account_id_by_role(t: &Tables, role: &str) -> (r: Result<String, DbError>)
    ensures
        match r {
            Ok(id) => model::role_id(t@, role@) == Ok::<Seq<char>, Fault>(id@),
            Err(e) => model::role_id(t@, role@) == Err::<Seq<char>, Fault>(e@),
        },
{
    match find_role(&t.accounts, role) {
        Some(i) => Ok(t.accounts[i].id.clone()),
        None => Err(DbError::NoRows),
    }
}

/// Where the account in a role stands.
pub fn find_role(accounts: &Vec<Account>, role: &str) -> (r: Option<usize>)
    ensures
        match r {
            Some(i) => i < accounts@.len() && model::role_hit(rows(accounts@), role@, i as int)
                && model::in_role(rows(accounts@), role@) == Some(accounts@[i as int]@),
            None => model::in_role(rows(accounts@), role@) is None,
        },
{
    let ghost m = rows(accounts@);
    let mut i: usize = 0;
    while i < accounts.len()
        invariant
            i <= accounts@.len(),
            m == rows(accounts@),
            forall|j: int| 0 <= j < i ==> model::role_of(#[trigger] m[j]) != Some(role@),
        decreases accounts@.len() - i,
    {
        assert(m[i as int] == accounts@[i as int]@);
        if let Some(s) = pos(&accounts[i].doc, "system_role") {
            if same(s, role) {
                assert(model::role_hit(m, role@, i as int));
                let ghost k = choose|k: int| model::role_hit(m, role@, k);
                assert(model::role_hit(m, role@, k));
                assert(k == i);
                return Some(i);
            }
        }
        i += 1;
    }
    None
}

fn is_debit_normal(doc: &Json) -> (r: bool)
    ensures
        r == (crate::json::opt_txt(doc@, "normal"@) == Some("debit"@)),
{
    match pos(doc, "normal") {
        Some(s) => same(s, "debit"),
        None => false,
    }
}

/// Post one journal line and maintain the account's running balance.
pub fn post_line(
    t: &mut Tables,
    event_id: &str,
    txn_id: &str,
    line_index: u64,
    account_id: &str,
    debit: i64,
    credit: i64,
    date: &str,
    memo: Option<&str>,
) -> (r: Result<(), DbError>)
    ensures
        outcome(r, final(t)@) == model::post(
            Ok(old(t)@),
            event_id@,
            txn_id@,
            line_index as nat,
            account_id@,
            debit,
            credit,
            date@,
            opt_str(memo),
        ),
        r is Err ==> *final(t) == *old(t),
{
    let line = JournalLine {
        id: event_id.to_owned().concat("#").concat(decimal_u64(line_index).as_str()),
        event_id: event_id.to_owned(),
        txn_id: txn_id.to_owned(),
        account_id: account_id.to_owned(),
        debit_minor: debit,
        credit_minor: credit,
        date: date.to_owned(),
        memo: own(memo),
    };
    if find(&t.journal, line.id.as_str()).is_some() {
        return Err(DbError::Unique("journal_lines.id".to_owned()));
    }
    match find(&t.accounts, account_id) {
        None => {
            t.journal.push(line);
            Ok(())
        },
        Some(i) => {
            let delta: i128 = if is_debit_normal(&t.accounts[i].doc) {
                debit as i128 - credit as i128
            } else {
                credit as i128 - debit as i128
            };
            let balance: i128 = t.accounts[i].balance_minor as i128 + delta;
            if !in_range(delta) || !in_range(balance) {
                return Err(DbError::Overflow);
            }
            t.journal.push(line);
            let a = Account {
                id: t.accounts[i].id.clone(),
                doc: t.accounts[i].doc.copy(),
                balance_minor: balance as i64,
            };
            t.accounts.set(i, a);
            Ok(())
        },
    }
}

fn in_range(i: i128) -> (r: bool)
    ensures
        r == fits(i as int),
{
    i64::MIN as i128 <= i && i <= i64::MAX as i128
}

fn post_role(
    t: &mut Tables,
    event_id: &str,
    txn_id: &str,
    line_index: u64,
    role: &str,
    debit: i64,
    credit: i64,
    date: &str,
) -> (r: Result<(), DbError>)
    ensures
        outcome(r, final(t)@) == model::post_role(
            Ok(old(t)@),
            event_id@,
            txn_id@,
            line_index as nat,
            role@,
            debit,
            credit,
            date@,
        ),
{
    let account = account_id_by_role(t, role)?;
    post_line(t, event_id, txn_id, line_index, account.as_str(), debit, credit, date, None)
}

/// Upsert a party's balance row and apply signed deltas.
fn adjust_party_balance(
    t: &mut Tables,
    party_id: &str,
    d_receivable: i128,
    d_payable: i128,
    d_unalloc_cr: i128,
    d_unalloc_dr: i128,
) -> (r: Result<(), DbError>)
    requires
        -0x1_0000_0000_0000_0000 <= d_receivable <= 0x1_0000_0000_0000_0000,
        -0x1_0000_0000_0000_0000 <= d_payable <= 0x1_0000_0000_0000_0000,
        -0x1_0000_0000_0000_0000 <= d_unalloc_cr <= 0x1_0000_0000_0000_0000,
        -0x1_0000_0000_0000_0000 <= d_unalloc_dr <= 0x1_0000_0000_0000_0000,
    ensures
        outcome(r, final(t)@) == model::adjust_party(
            Ok(old(t)@),
            party_id@,
            d_receivable as int,
            d_payable as int,
            d_unalloc_cr as int,
            d_unalloc_dr as int,
        ),
        r is Err ==> *final(t) == *old(t),
{
    let found = find(&t.balances, party_id);
    let (receivable, payable, credit, debit): (i64, i64, i64, i64) = match found {
        Some(i) => (
            t.balances[i].receivable_minor,
            t.balances[i].payable_minor,
            t.balances[i].unallocated_cr_minor,
            t.balances[i].unallocated_dr_minor,
        ),
        None => {
            if find(&t.parties, party_id).is_none() {
                return Err(DbError::ForeignKey);
            }
            (0, 0, 0, 0)
        },
    };
    let r: i128 = receivable as i128 + d_receivable;
    let p: i128 = payable as i128 + d_payable;
    let c: i128 = credit as i128 + d_unalloc_cr;
    let d: i128 = debit as i128 + d_unalloc_dr;
    if !in_range(r) || !in_range(p) || !in_range(c) || !in_range(d) {
        return Err(DbError::Overflow);
    }
    let b = Balance {
        party_id: party_id.to_owned(),
        receivable_minor: r as i64,
        payable_minor: p as i64,
        unallocated_cr_minor: c as i64,
        unallocated_dr_minor: d as i64,
    };
    match found {
        Some(i) => {
            t.balances.set(i, b);
        },
        None => {
            t.balances.push(b);
        },
    }
    Ok(())
}

/// Add delta to a lot's remaining quantity.
fn adjust_lot_remaining(t: &mut Tables, lot_id: &str, delta: i128) -> (r: Result<(), DbError>)
    requires
        -0x1_0000_0000_0000_0000 <= delta <= 0x1_0000_0000_0000_0000,
    ensures
        outcome(r, final(t)@) == model::adjust_lot(Ok(old(t)@), lot_id@, delta as int),
        r is Err ==> *final(t) == *old(t),
{
    match find(&t.lots, lot_id) {
        None => Ok(()),
        Some(i) => {
            let left: i128 = t.lots[i].qty_remaining as i128 + delta;
            if !in_range(left) {
                return Err(DbError::Overflow);
            }
            let mut lot = t.lots[i].copy();
            lot.qty_remaining = left as i64;
            t.lots.set(i, lot);
            Ok(())
        },
    }
}

/// Adds to what is outstanding on an invoice.
fn owe(t: &mut Vec<Invoice>, id: &str, delta: i128) -> (r: Result<(), DbError>)
    requires
        -0x1_0000_0000_0000_0000 <= delta <= 0x1_0000_0000_0000_0000,
    ensures
        match r {
            Ok(_) => model::owed(rows(old(t)@), id@, delta as int) == Ok::<
                Seq<Invoice<Seq<char>>>,
                Fault,
            >(rows(final(t)@)),
            Err(e) => model::owed(rows(old(t)@), id@, delta as int) == Err::<
                Seq<Invoice<Seq<char>>>,
                Fault,
            >(e@) && *final(t) == *old(t),
        },
{
    match find(t, id) {
        None => Ok(()),
        Some(i) => {
            let left: i128 = t[i].outstanding_minor as i128 + delta;
            if !in_range(left) {
                return Err(DbError::Overflow);
            }
            let mut invoice = t[i].copy();
            invoice.outstanding_minor = left as i64;
            t.set(i, invoice);
            Ok(())
        },
    }
}

fn adjust_outstanding(t: &mut Tables, sale: bool, id: &str, delta: i128) -> (r: Result<
    (),
    DbError,
>)
    requires
        -0x1_0000_0000_0000_0000 <= delta <= 0x1_0000_0000_0000_0000,
    ensures
        outcome(r, final(t)@) == model::adjust_outstanding(Ok(old(t)@), sale, id@, delta as int),
{
    if sale {
        owe(&mut t.sales, id, delta)
    } else {
        owe(&mut t.purchases, id, delta)
    }
}

fn product(a: i64, b: i64) -> (r: Option<i64>)
    ensures
        r == model::product(a, b),
{
    a.checked_mul(b)
}

fn plus(a: Option<i64>, b: Option<i64>) -> (r: Option<i64>)
    ensures
        r == model::plus(a, b),
{
    match (a, b) {
        (Some(x), Some(y)) => x.checked_add(y),
        _ => None,
    }
}

/// What lines are worth: the sum of quantity times unit amount.
pub(crate) fn worth(lines: &[Json], qty: &str, unit: &str) -> (r: Option<i64>)
    ensures
        r == model::worth(elements_of(lines@), qty@, unit@),
{
    let ghost ls = elements_of(lines@);
    let mut sum: Option<i64> = Some(0);
    let mut i: usize = 0;
    while i < lines.len()
        invariant
            i <= lines@.len(),
            ls == elements_of(lines@),
            sum == model::worth(ls.take(i as int), qty@, unit@),
        decreases lines@.len() - i,
    {
        assert(ls.take(i + 1).drop_last() =~= ls.take(i as int));
        assert(ls.take(i + 1).last() == lines@[i as int]@);
        sum = plus(sum, product(pi(&lines[i], qty), pi(&lines[i], unit)));
        i += 1;
    }
    assert(ls.take(ls.len() as int) =~= ls);
    sum
}

fn nested_worth(lines: &[Json], key: &str, qty: &str, unit: &str) -> (r: Option<i64>)
    ensures
        r == model::nested_worth(elements_of(lines@), key@, qty@, unit@),
{
    let ghost ls = elements_of(lines@);
    let mut sum: Option<i64> = Some(0);
    let mut i: usize = 0;
    while i < lines.len()
        invariant
            i <= lines@.len(),
            ls == elements_of(lines@),
            sum == model::nested_worth(ls.take(i as int), key@, qty@, unit@),
        decreases lines@.len() - i,
    {
        assert(ls.take(i + 1).drop_last() =~= ls.take(i as int));
        assert(ls.take(i + 1).last() == lines@[i as int]@);
        sum = plus(sum, worth(parr(&lines[i], key), qty, unit));
        i += 1;
    }
    assert(ls.take(ls.len() as int) =~= ls);
    sum
}

fn sum_of(lines: &[Json], key: &str) -> (r: Option<i64>)
    ensures
        r == model::sum_of(elements_of(lines@), key@),
{
    let ghost ls = elements_of(lines@);
    let mut sum: Option<i64> = Some(0);
    let mut i: usize = 0;
    while i < lines.len()
        invariant
            i <= lines@.len(),
            ls == elements_of(lines@),
            sum == model::sum_of(ls.take(i as int), key@),
        decreases lines@.len() - i,
    {
        assert(ls.take(i + 1).drop_last() =~= ls.take(i as int));
        assert(ls.take(i + 1).last() == lines@[i as int]@);
        sum = plus(sum, Some(pi(&lines[i], key)));
        i += 1;
    }
    assert(ls.take(ls.len() as int) =~= ls);
    sum
}

fn line_id(event_id: &str, i: u64) -> (r: String)
    ensures
        r@ == model::line_id(event_id@, i as nat),
{
    event_id.to_owned().concat("#line#").concat(decimal_u64(i).as_str())
}

fn on_credit(p: &Json) -> (r: bool)
    ensures
        r == model::on_credit(p@),
{
    same(ps(p, "terms"), "credit")
}

fn invoice(ev: &LedgerEvent, id: &str, party: Option<&str>, total: i64) -> (r: Invoice)
    ensures
        r@ == model::invoice(ev@, id@, opt_str(party), total),
{
    let p = &ev.payload;
    Invoice {
        id: id.to_owned(),
        event_id: ev.id.clone(),
        party_id: own(party),
        date: ps(p, "date").to_owned(),
        terms: ps(p, "terms").to_owned(),
        total_minor: total,
        outstanding_minor: if on_credit(p) {
            total
        } else {
            0
        },
        reversed: false,
    }
}

fn purchase_lines(t: &mut Tables, ev: &LedgerEvent, lines: &[Json]) -> (r: Result<(), DbError>)
    ensures
        outcome(r, final(t)@) == model::purchase_lines_from(
            old(t)@,
            ev@,
            elements_of(lines@),
            0,
        ),
{
    let p = &ev.payload;
    let ghost ls = elements_of(lines@);
    let mut i: usize = 0;
    while i < lines.len()
        invariant
            i <= lines@.len(),
            p == &ev.payload,
            ls == elements_of(lines@),
            model::purchase_lines_from(t@, ev@, ls, i as int) == model::purchase_lines_from(
                old(t)@,
                ev@,
                ls,
                0,
            ),
        decreases lines@.len() - i,
    {
        let line = &lines[i];
        assert(ls[i as int] == line@);
        let lot = Lot {
            id: ps(line, "lotId").to_owned(),
            item_id: ps(line, "itemId").to_owned(),
            source_event_id: ev.id.clone(),
            purchase_id: Some(ps(p, "purchaseId").to_owned()),
            unit_cost_minor: pi(line, "unitCostMinor"),
            qty_received: pi(line, "qty"),
            qty_remaining: pi(line, "qty"),
            acquired_at: ps(p, "date").to_owned(),
            supplier_id: own(pos(p, "supplierId")),
        };
        let row = PurchaseLine {
            id: line_id(ev.id.as_str(), i as u64),
            purchase_id: ps(p, "purchaseId").to_owned(),
            item_id: ps(line, "itemId").to_owned(),
            qty: pi(line, "qty"),
            unit_cost_minor: pi(line, "unitCostMinor"),
            lot_id: ps(line, "lotId").to_owned(),
        };
        assert(lot@ == model::purchased_lot(ev@, line@));
        add_lot(t, lot)?;
        add_purchase_line(t, row)?;
        i += 1;
    }
    Ok(())
}

fn purchase_recorded(t: &mut Tables, ev: &LedgerEvent) -> (r: Result<(), DbError>)
    ensures
        outcome(r, final(t)@) == model::purchase_recorded(old(t)@, ev@),
{
    let p = &ev.payload;
    let id = ps(p, "purchaseId");
    let date = ps(p, "date");
    let supplier = pos(p, "supplierId");
    let lines = parr(p, "lines");
    let total: i64 = match worth(lines, "qty", "unitCostMinor") {
        Some(v) => v,
        None => {
            return Err(DbError::Overflow);
        },
    };
    let event_id = ev.id.as_str();
    add_purchase(t, invoice(ev, id, supplier, total))?;
    purchase_lines(t, ev, lines)?;
    post_role(t, event_id, id, 0, "inventory", total, 0, date)?;
    if on_credit(p) {
        post_role(t, event_id, id, 1, "accounts_payable", 0, total, date)?;
        if let Some(s) = supplier {
            adjust_party_balance(t, s, 0, total as i128, 0, 0)?;
        }
    } else {
        post_role(t, event_id, id, 1, "bank", 0, total, date)?;
    }
    Ok(())
}

fn consume(t: &mut Tables, ev: &LedgerEvent, line: u64, parts: &[Json]) -> (r: Result<(), DbError>)
    ensures
        outcome(r, final(t)@) == model::consume_from(
            old(t)@,
            ev@,
            line as nat,
            elements_of(parts@),
            0,
        ),
{
    let ghost ls = elements_of(parts@);
    let mut j: usize = 0;
    while j < parts.len()
        invariant
            j <= parts@.len(),
            ls == elements_of(parts@),
            model::consume_from(t@, ev@, line as nat, ls, j as int) == model::consume_from(
                old(t)@,
                ev@,
                line as nat,
                ls,
                0,
            ),
        decreases parts@.len() - j,
    {
        let part = &parts[j];
        assert(ls[j as int] == part@);
        let lot_id = ps(part, "lotId");
        let qty_taken: i64 = pi(part, "qtyTaken");
        let row = LotConsumption {
            id: ev.id.clone().concat("#lc#").concat(decimal_u64(line).as_str()).concat(
                "#",
            ).concat(decimal_u64(j as u64).as_str()),
            sale_line_id: line_id(ev.id.as_str(), line),
            lot_id: lot_id.to_owned(),
            qty_taken,
            unit_cost_minor: pi(part, "unitCostMinor"),
        };
        add_consumption(t, row)?;
        adjust_lot_remaining(t, lot_id, -(qty_taken as i128))?;
        j += 1;
    }
    Ok(())
}

fn sale_line(t: &mut Tables, ev: &LedgerEvent, line: &Json, i: u64) -> (r: Result<(), DbError>)
    ensures
        outcome(r, final(t)@) == model::sale_line(old(t)@, ev@, line@, i as nat),
{
    let p = &ev.payload;
    let qty: i64 = pi(line, "qty");
    let unit_price: i64 = pi(line, "unitPriceMinor");
    let parts = parr(line, "lotConsumption");
    match (product(qty, unit_price), worth(parts, "qtyTaken", "unitCostMinor")) {
        (Some(revenue), Some(cogs)) => {
            let row = SaleLine {
                id: line_id(ev.id.as_str(), i),
                sale_id: ps(p, "saleId").to_owned(),
                item_id: ps(line, "itemId").to_owned(),
                qty,
                unit_price_minor: unit_price,
                revenue_minor: revenue,
                cogs_minor: cogs,
                date: ps(p, "date").to_owned(),
            };
            add_sale_line(t, row)?;
            consume(t, ev, i, parts)
        },
        _ => Err(DbError::Overflow),
    }
}

fn sale_lines(t: &mut Tables, ev: &LedgerEvent, lines: &[Json]) -> (r: Result<(), DbError>)
    ensures
        outcome(r, final(t)@) == model::sale_lines_from(old(t)@, ev@, elements_of(lines@), 0),
{
    let ghost ls = elements_of(lines@);
    let mut i: usize = 0;
    while i < lines.len()
        invariant
            i <= lines@.len(),
            ls == elements_of(lines@),
            model::sale_lines_from(t@, ev@, ls, i as int) == model::sale_lines_from(
                old(t)@,
                ev@,
                ls,
                0,
            ),
        decreases lines@.len() - i,
    {
        assert(ls[i as int] == lines@[i as int]@);
        sale_line(t, ev, &lines[i], i as u64)?;
        i += 1;
    }
    Ok(())
}

fn sale_recorded(t: &mut Tables, ev: &LedgerEvent) -> (r: Result<(), DbError>)
    ensures
        outcome(r, final(t)@) == model::sale_recorded(old(t)@, ev@),
{
    let p = &ev.payload;
    let id = ps(p, "saleId");
    let date = ps(p, "date");
    let customer = pos(p, "customerId");
    let lines = parr(p, "lines");
    match (
        worth(lines, "qty", "unitPriceMinor"),
        nested_worth(lines, "lotConsumption", "qtyTaken", "unitCostMinor"),
    ) {
        (Some(revenue), Some(cogs)) => {
            let event_id = ev.id.as_str();
            let credit = on_credit(p);
            add_sale(t, invoice(ev, id, customer, revenue))?;
            sale_lines(t, ev, lines)?;
            let debtor = if credit {
                "accounts_receivable"
            } else {
                "bank"
            };
            post_role(t, event_id, id, 0, debtor, revenue, 0, date)?;
            post_role(t, event_id, id, 1, "sales", 0, revenue, date)?;
            post_role(t, event_id, id, 2, "cogs", cogs, 0, date)?;
            post_role(t, event_id, id, 3, "inventory", 0, cogs, date)?;
            if credit {
                if let Some(c) = customer {
                    adjust_party_balance(t, c, revenue as i128, 0, 0, 0)?;
                }
            }
            Ok(())
        },
        _ => Err(DbError::Overflow),
    }
}

fn add_allocation_row(
    t: &mut Tables,
    ev: &LedgerEvent,
    i: u64,
    target: &str,
    target_type: &str,
    amount: i64,
) -> (r: Result<(), DbError>)
    ensures
        outcome(r, final(t)@) == model::add_allocation(
            Ok(old(t)@),
            model::allocation(
                ev@,
                i as nat,
                txt(ev.payload@, "paymentId"@),
                target@,
                target_type@,
                amount,
            ),
        ),
{
    let row = Allocation {
        id: ev.id.clone().concat("#alloc#").concat(decimal_u64(i).as_str()),
        event_id: ev.id.clone(),
        payment_id: ps(&ev.payload, "paymentId").to_owned(),
        target_id: target.to_owned(),
        target_type: target_type.to_owned(),
        amount_minor: amount,
    };
    add_allocation(t, row)
}

fn settle(t: &mut Tables, ev: &LedgerEvent, incoming: bool, party: &str, parts: &[Json]) -> (r:
    Result<(), DbError>)
    ensures
        outcome(r, final(t)@) == model::settle_from(
            old(t)@,
            ev@,
            incoming,
            party@,
            elements_of(parts@),
            0,
        ),
{
    let ghost ls = elements_of(parts@);
    let mut i: usize = 0;
    while i < parts.len()
        invariant
            i <= parts@.len(),
            ls == elements_of(parts@),
            model::settle_from(t@, ev@, incoming, party@, ls, i as int) == model::settle_from(
                old(t)@,
                ev@,
                incoming,
                party@,
                ls,
                0,
            ),
        decreases parts@.len() - i,
    {
        let part = &parts[i];
        assert(ls[i as int] == part@);
        let amount: i64 = pi(part, "amountMinor");
        if incoming {
            let target = ps(part, "saleId");
            add_allocation_row(t, ev, i as u64, target, "sale", amount)?;
            adjust_outstanding(t, true, target, -(amount as i128))?;
            adjust_party_balance(t, party, -(amount as i128), 0, 0, 0)?;
        } else {
            let target = ps(part, "purchaseId");
            add_allocation_row(t, ev, i as u64, target, "purchase", amount)?;
            adjust_outstanding(t, false, target, -(amount as i128))?;
            adjust_party_balance(t, party, 0, -(amount as i128), 0, 0)?;
        }
        i += 1;
    }
    Ok(())
}

fn payment(t: &mut Tables, ev: &LedgerEvent, incoming: bool) -> (r: Result<(), DbError>)
    ensures
        outcome(r, final(t)@) == model::payment(old(t)@, ev@, incoming),
{
    let p = &ev.payload;
    let id = ps(p, "paymentId");
    let amount: i64 = pi(p, "amountMinor");
    let date = ps(p, "date");
    let party = if incoming {
        ps(p, "customerId")
    } else {
        ps(p, "supplierId")
    };
    let parts = parr(p, "allocations");
    let allocated: i64 = match sum_of(parts, "amountMinor") {
        Some(v) => v,
        None => {
            return Err(DbError::Overflow);
        },
    };
    let event_id = ev.id.as_str();
    let row = Payment {
        id: id.to_owned(),
        event_id: ev.id.clone(),
        party_id: party.to_owned(),
        direction: if incoming {
            "in".to_owned()
        } else {
            "out".to_owned()
        },
        amount_minor: amount,
        date: date.to_owned(),
    };
    add_payment(t, row)?;
    if incoming {
        post_role(t, event_id, id, 0, "bank", amount, 0, date)?;
        post_role(t, event_id, id, 1, "accounts_receivable", 0, amount, date)?;
    } else {
        post_role(t, event_id, id, 0, "accounts_payable", amount, 0, date)?;
        post_role(t, event_id, id, 1, "bank", 0, amount, date)?;
    }
    settle(t, ev, incoming, party, parts)?;
    let rest: i128 = amount as i128 - allocated as i128;
    if rest != 0 {
        if incoming {
            adjust_party_balance(t, party, 0, 0, rest, 0)?;
        } else {
            adjust_party_balance(t, party, 0, 0, 0, rest)?;
        }
    }
    Ok(())
}

fn payment_allocated(t: &mut Tables, ev: &LedgerEvent) -> (r: Result<(), DbError>)
    ensures
        outcome(r, final(t)@) == model::payment_allocated(old(t)@, ev@),
{
    let p = &ev.payload;
    let party = ps(p, "partyId");
    let parts = parr(p, "allocations");
    let ghost ls = elements_of(parts@);
    let mut i: usize = 0;
    while i < parts.len()
        invariant
            i <= parts@.len(),
            p == &ev.payload,
            party@ == txt(p@, "partyId"@),
            ls == elements_of(parts@),
            ls == list(p@, "allocations"@),
            model::allocate_from(t@, ev@, ls, i as int) == model::allocate_from(
                old(t)@,
                ev@,
                ls,
                0,
            ),
        decreases parts@.len() - i,
    {
        let part = &parts[i];
        assert(ls[i as int] == part@);
        let target = ps(part, "targetId");
        let kind = ps(part, "targetType");
        let amount: i64 = pi(part, "amountMinor");
        let sale = same(kind, "sale");
        add_allocation_row(t, ev, i as u64, target, kind, amount)?;
        adjust_outstanding(t, sale, target, -(amount as i128))?;
        if sale {
            adjust_party_balance(t, party, -(amount as i128), 0, -(amount as i128), 0)?;
        } else {
            adjust_party_balance(t, party, 0, -(amount as i128), 0, -(amount as i128))?;
        }
        i += 1;
    }
    Ok(())
}

fn expense_recorded(t: &mut Tables, ev: &LedgerEvent) -> (r: Result<(), DbError>)
    ensures
        outcome(r, final(t)@) == model::expense_recorded(old(t)@, ev@),
{
    let p = &ev.payload;
    let id = ps(p, "expenseId");
    let account_id = ps(p, "accountId");
    let amount: i64 = pi(p, "amountMinor");
    let date = ps(p, "date");
    let memo = pos(p, "memo");
    let credit = on_credit(p);
    let event_id = ev.id.as_str();
    let row = Expense {
        id: id.to_owned(),
        event_id: ev.id.clone(),
        account_id: account_id.to_owned(),
        amount_minor: amount,
        date: date.to_owned(),
        memo: own(memo),
        terms: ps(p, "terms").to_owned(),
    };
    add_expense(t, row)?;
    post_line(t, event_id, id, 0, account_id, amount, 0, date, memo)?;
    let credit_account = account_id_by_role(
        t,
        if credit {
            "accounts_payable"
        } else {
            "bank"
        },
    )?;
    post_line(t, event_id, id, 1, credit_account.as_str(), 0, amount, date, memo)?;
    if credit {
        if let Some(s) = pos(p, "supplierId") {
            adjust_party_balance(t, s, 0, amount as i128, 0, 0)?;
        }
    }
    Ok(())
}

fn transfer_recorded(t: &mut Tables, ev: &LedgerEvent) -> (r: Result<(), DbError>)
    ensures
        outcome(r, final(t)@) == model::transfer_recorded(old(t)@, ev@),
{
    let p = &ev.payload;
    let id = ps(p, "transferId");
    let amount: i64 = pi(p, "amountMinor");
    let date = ps(p, "date");
    let memo = pos(p, "memo");
    let event_id = ev.id.as_str();
    post_line(t, event_id, id, 0, ps(p, "toAccountId"), amount, 0, date, memo)?;
    post_line(t, event_id, id, 1, ps(p, "fromAccountId"), 0, amount, date, memo)
}

fn named_or_role(t: &Tables, line: &Json, key: &str, role: &str) -> (r: Result<String, DbError>)
    ensures
        match r {
            Ok(id) => model::named_or_role(t@, line@, key@, role@) == Ok::<Seq<char>, Fault>(id@),
            Err(e) => model::named_or_role(t@, line@, key@, role@) == Err::<Seq<char>, Fault>(e@),
        },
{
    match pos(line, key) {
        Some(a) => Ok(a.to_owned()),
        None => account_id_by_role(t, role),
    }
}

fn inventory_adjusted(t: &mut Tables, ev: &LedgerEvent) -> (r: Result<(), DbError>)
    ensures
        outcome(r, final(t)@) == model::inventory_adjusted(old(t)@, ev@),
{
    let p = &ev.payload;
    let id = ps(p, "adjustmentId");
    let date = ps(p, "date");
    let event_id = ev.id.as_str();
    let _inventory = account_id_by_role(t, "inventory")?;
    let lines = parr(p, "lines");
    let ghost ls = elements_of(lines@);
    let mut i: usize = 0;
    while i < lines.len()
        invariant
            i <= lines@.len(),
            p == &ev.payload,
            id@ == txt(p@, "adjustmentId"@),
            date@ == txt(p@, "date"@),
            event_id@ == ev@.id,
            model::role_id(old(t)@, "inventory"@) is Ok,
            ls == elements_of(lines@),
            ls == list(p@, "lines"@),
            model::adjust_lines_from(t@, ev@, ls, i as int) == model::adjust_lines_from(
                old(t)@,
                ev@,
                ls,
                0,
            ),
        decreases lines@.len() - i,
    {
        let line = &lines[i];
        assert(ls[i as int] == line@);
        let lot_id = ps(line, "lotId");
        let delta: i64 = pi(line, "qtyDelta");
        let unit_cost: i64 = match find(&t.lots, lot_id) {
            Some(k) => t.lots[k].unit_cost_minor,
            None => {
                return Err(DbError::NoRows);
            },
        };
        let qty: i128 = -(delta as i128);
        proof {
            lemma_wide_product(qty as int, unit_cost as int);
        }
        let value: i128 = qty * unit_cost as i128;
        if !in_range(value) || i as u64 > (u64::MAX - 1) / 2 {
            return Err(DbError::Overflow);
        }
        let first: u64 = 2 * (i as u64);
        adjust_lot_remaining(t, lot_id, -qty)?;
        let account = named_or_role(t, line, "expenseAccountId", "shrinkage")?;
        post_line(t, event_id, id, first, account.as_str(), value as i64, 0, date, None)?;
        post_role(t, event_id, id, first + 1, "inventory", 0, value as i64, date)?;
        i += 1;
    }
    Ok(())
}

/// The product of two numbers of 64 bits has at most 128.
proof fn lemma_wide_product(a: int, b: int)
    by (nonlinear_arith)
    requires
        -0x8000_0000_0000_0000 <= a <= 0x8000_0000_0000_0000,
        -0x8000_0000_0000_0000 <= b <= 0x8000_0000_0000_0000,
    ensures
        -0x4000_0000_0000_0000_0000_0000_0000_0000 <= a * b,
        a * b <= 0x4000_0000_0000_0000_0000_0000_0000_0000,
{
}

fn stocked_lot(ev: &LedgerEvent, line: &Json, supplier: Option<&str>) -> (r: Lot)
    ensures
        r@ == model::stocked_lot(ev@, line@, opt_str(supplier)),
{
    Lot {
        id: ps(line, "lotId").to_owned(),
        item_id: ps(line, "itemId").to_owned(),
        source_event_id: ev.id.clone(),
        purchase_id: None,
        unit_cost_minor: pi(line, "unitCostMinor"),
        qty_received: pi(line, "qty"),
        qty_remaining: pi(line, "qty"),
        acquired_at: ps(line, "acquiredAt").to_owned(),
        supplier_id: own(supplier),
    }
}

fn inventory_found(t: &mut Tables, ev: &LedgerEvent) -> (r: Result<(), DbError>)
    ensures
        outcome(r, final(t)@) == model::inventory_found(old(t)@, ev@),
{
    let p = &ev.payload;
    let id = ps(p, "foundId");
    let date = ps(p, "date");
    let event_id = ev.id.as_str();
    let _inventory = account_id_by_role(t, "inventory")?;
    let lines = parr(p, "lines");
    let ghost ls = elements_of(lines@);
    let mut i: usize = 0;
    while i < lines.len()
        invariant
            i <= lines@.len(),
            p == &ev.payload,
            id@ == txt(p@, "foundId"@),
            date@ == txt(p@, "date"@),
            event_id@ == ev@.id,
            model::role_id(old(t)@, "inventory"@) is Ok,
            ls == elements_of(lines@),
            ls == list(p@, "lines"@),
            model::found_lines_from(t@, ev@, ls, i as int) == model::found_lines_from(
                old(t)@,
                ev@,
                ls,
                0,
            ),
        decreases lines@.len() - i,
    {
        let line = &lines[i];
        assert(ls[i as int] == line@);
        let value: i64 = match product(pi(line, "qty"), pi(line, "unitCostMinor")) {
            Some(v) => v,
            None => {
                return Err(DbError::Overflow);
            },
        };
        if i as u64 > (u64::MAX - 1) / 2 {
            return Err(DbError::Overflow);
        }
        let first: u64 = 2 * (i as u64);
        add_lot(t, stocked_lot(ev, line, None))?;
        let account = named_or_role(t, line, "incomeAccountId", "inventory_gain")?;
        post_role(t, event_id, id, first, "inventory", value, 0, date)?;
        post_line(t, event_id, id, first + 1, account.as_str(), 0, value, date, None)?;
        i += 1;
    }
    Ok(())
}

fn given_lines(t: &mut Tables, ev: &LedgerEvent, lines: &[Json], date: &str, memo: &str) -> (r:
    Result<(), DbError>)
    ensures
        outcome(r, final(t)@) == model::given_lines_from(
            old(t)@,
            ev@,
            elements_of(lines@),
            date@,
            memo@,
            0,
        ),
{
    let ghost ls = elements_of(lines@);
    let mut i: usize = 0;
    while i < lines.len()
        invariant
            i <= lines@.len(),
            ls == elements_of(lines@),
            model::given_lines_from(t@, ev@, ls, date@, memo@, i as int)
                == model::given_lines_from(old(t)@, ev@, ls, date@, memo@, 0),
        decreases lines@.len() - i,
    {
        let line = &lines[i];
        assert(ls[i as int] == line@);
        post_line(
            t,
            ev.id.as_str(),
            ev.id.as_str(),
            i as u64,
            ps(line, "accountId"),
            pi(line, "debitMinor"),
            pi(line, "creditMinor"),
            date,
            Some(memo),
        )?;
        i += 1;
    }
    Ok(())
}

fn opening_balances(t: &mut Tables, ev: &LedgerEvent) -> (r: Result<(), DbError>)
    ensures
        outcome(r, final(t)@) == model::opening_balances(old(t)@, ev@),
{
    let p = &ev.payload;
    given_lines(t, ev, parr(p, "accountBalances"), ps(p, "date"), "opening balance")?;
    let ghost posted = t@;
    let lots = parr(p, "lots");
    let ghost ls = elements_of(lots@);
    let mut i: usize = 0;
    while i < lots.len()
        invariant
            i <= lots@.len(),
            p == &ev.payload,
            ls == elements_of(lots@),
            ls == list(p@, "lots"@),
            model::opening_balances(old(t)@, ev@) == model::opening_lots_from(posted, ev@, ls, 0),
            model::opening_lots_from(t@, ev@, ls, i as int) == model::opening_lots_from(
                posted,
                ev@,
                ls,
                0,
            ),
        decreases lots@.len() - i,
    {
        assert(ls[i as int] == lots@[i as int]@);
        add_lot(t, stocked_lot(ev, &lots[i], pos(&lots[i], "supplierId")))?;
        i += 1;
    }
    Ok(())
}

fn restock(t: &mut Tables, ev: &LedgerEvent, line: &Json, parts: &[Json], n: u64) -> (r: Result<
    u64,
    DbError,
>)
    ensures
        match r {
            Ok(k) => k == n + parts@.len() && model::restock_from(
                old(t)@,
                ev@,
                line@,
                elements_of(parts@),
                0,
                n as int,
            ) == Ok::<ReadModel, Fault>(final(t)@),
            Err(e) => model::restock_from(
                old(t)@,
                ev@,
                line@,
                elements_of(parts@),
                0,
                n as int,
            ) == Err::<ReadModel, Fault>(e@),
        },
{
    let ghost ls = elements_of(parts@);
    let mut j: usize = 0;
    let mut k: u64 = n;
    while j < parts.len()
        invariant
            j <= parts@.len(),
            k == n + j,
            ls == elements_of(parts@),
            model::restock_from(t@, ev@, line@, ls, j as int, n as int) == model::restock_from(
                old(t)@,
                ev@,
                line@,
                ls,
                0,
                n as int,
            ),
        decreases parts@.len() - j,
    {
        let part = &parts[j];
        assert(ls[j as int] == part@);
        if k == u64::MAX {
            return Err(DbError::Overflow);
        }
        let lot_id = ps(part, "lotId");
        let qty: i64 = pi(part, "qtyReturned");
        adjust_lot_remaining(t, lot_id, qty as i128)?;
        let row = ReturnLine {
            id: line_id(ev.id.as_str(), k),
            return_id: ps(&ev.payload, "returnId").to_owned(),
            item_id: ps(line, "itemId").to_owned(),
            qty,
            unit_price_minor: pi(line, "unitPriceMinor"),
            unit_cost_minor: pi(part, "unitCostMinor"),
            lot_id: lot_id.to_owned(),
        };
        add_return_line(t, row)?;
        k += 1;
        j += 1;
    }
    Ok(k)
}

fn sale_return_lines(t: &mut Tables, ev: &LedgerEvent, lines: &[Json]) -> (r: Result<(), DbError>)
    ensures
        outcome(r, final(t)@) == model::sale_return_lines_from(
            old(t)@,
            ev@,
            elements_of(lines@),
            0,
            0,
        ),
{
    let ghost ls = elements_of(lines@);
    let mut n: u64 = 0;
    let mut i: usize = 0;
    while i < lines.len()
        invariant
            i <= lines@.len(),
            ls == elements_of(lines@),
            model::sale_return_lines_from(t@, ev@, ls, i as int, n as int)
                == model::sale_return_lines_from(old(t)@, ev@, ls, 0, 0),
        decreases lines@.len() - i,
    {
        assert(ls[i as int] == lines@[i as int]@);
        let parts = parr(&lines[i], "lotReturns");
        assert(elements_of(parts@).len() == parts@.len());
        n = restock(t, ev, &lines[i], parts, n)?;
        i += 1;
    }
    Ok(())
}

fn reduction(refund: i64, outstanding: i64) -> (r: i64)
    ensures
        r == model::reduction(refund, outstanding),
{
    let open: i64 = if outstanding > 0 {
        outstanding
    } else {
        0
    };
    if refund <= open {
        refund
    } else {
        open
    }
}

fn sale_return(t: &mut Tables, ev: &LedgerEvent) -> (r: Result<(), DbError>)
    ensures
        outcome(r, final(t)@) == model::sale_return(old(t)@, ev@),
{
    let p = &ev.payload;
    let id = ps(p, "returnId");
    let original = ps(p, "originalSaleId");
    let date = ps(p, "date");
    let lines = parr(p, "lines");
    let event_id = ev.id.as_str();
    let sale: Option<(Option<String>, i64)> = match find(&t.sales, original) {
        Some(i) => Some(
            (crate::rows::copy_opt(&t.sales[i].party_id), t.sales[i].outstanding_minor),
        ),
        None => None,
    };
    match (
        worth(lines, "qty", "unitPriceMinor"),
        nested_worth(lines, "lotReturns", "qtyReturned", "unitCostMinor"),
    ) {
        (Some(revenue), Some(cost)) => {
            let row = Return {
                id: id.to_owned(),
                event_id: ev.id.clone(),
                return_type: "sale_return".to_owned(),
                original_id: original.to_owned(),
                date: date.to_owned(),
                revenue_reversed_minor: revenue,
                cost_restored_minor: cost,
            };
            add_return(t, row)?;
            sale_return_lines(t, ev, lines)?;
            let (customer, outstanding): (Option<String>, i64) = match sale {
                Some(s) => s,
                None => {
                    return Err(DbError::NoRows);
                },
            };
            let refund = if customer.is_some() {
                "accounts_receivable"
            } else {
                "bank"
            };
            post_role(t, event_id, id, 0, "sales", revenue, 0, date)?;
            post_role(t, event_id, id, 1, refund, 0, revenue, date)?;
            post_role(t, event_id, id, 2, "inventory", cost, 0, date)?;
            post_role(t, event_id, id, 3, "cogs", 0, cost, date)?;
            if let Some(c) = customer {
                let reduce: i64 = reduction(revenue, outstanding);
                let rest: i128 = revenue as i128 - reduce as i128;
                adjust_outstanding(t, true, original, -(reduce as i128))?;
                adjust_party_balance(t, c.as_str(), -(reduce as i128), 0, rest, 0)?;
            }
            Ok(())
        },
        _ => Err(DbError::Overflow),
    }
}

fn purchase_return_lines(t: &mut Tables, ev: &LedgerEvent, lines: &[Json]) -> (r: Result<
    (),
    DbError,
>)
    ensures
        outcome(r, final(t)@) == model::purchase_return_lines_from(
            old(t)@,
            ev@,
            elements_of(lines@),
            0,
        ),
{
    let ghost ls = elements_of(lines@);
    let mut i: usize = 0;
    while i < lines.len()
        invariant
            i <= lines@.len(),
            ls == elements_of(lines@),
            model::purchase_return_lines_from(t@, ev@, ls, i as int)
                == model::purchase_return_lines_from(old(t)@, ev@, ls, 0),
        decreases lines@.len() - i,
    {
        let line = &lines[i];
        assert(ls[i as int] == line@);
        let lot_id = ps(line, "lotId");
        let qty: i64 = pi(line, "qty");
        adjust_lot_remaining(t, lot_id, -(qty as i128))?;
        let row = ReturnLine {
            id: line_id(ev.id.as_str(), i as u64),
            return_id: ps(&ev.payload, "returnId").to_owned(),
            item_id: ps(line, "itemId").to_owned(),
            qty,
            unit_price_minor: 0,
            unit_cost_minor: pi(line, "unitCostMinor"),
            lot_id: lot_id.to_owned(),
        };
        add_return_line(t, row)?;
        i += 1;
    }
    Ok(())
}

fn purchase_return(t: &mut Tables, ev: &LedgerEvent) -> (r: Result<(), DbError>)
    ensures
        outcome(r, final(t)@) == model::purchase_return(old(t)@, ev@),
{
    let p = &ev.payload;
    let id = ps(p, "returnId");
    let original = ps(p, "originalPurchaseId");
    let date = ps(p, "date");
    let lines = parr(p, "lines");
    let event_id = ev.id.as_str();
    let purchase: Option<(Option<String>, i64)> = match find(&t.purchases, original) {
        Some(i) => Some(
            (crate::rows::copy_opt(&t.purchases[i].party_id), t.purchases[i].outstanding_minor),
        ),
        None => None,
    };
    let cost: i64 = match worth(lines, "qty", "unitCostMinor") {
        Some(v) => v,
        None => {
            return Err(DbError::Overflow);
        },
    };
    let row = Return {
        id: id.to_owned(),
        event_id: ev.id.clone(),
        return_type: "purchase_return".to_owned(),
        original_id: original.to_owned(),
        date: date.to_owned(),
        revenue_reversed_minor: 0,
        cost_restored_minor: cost,
    };
    add_return(t, row)?;
    purchase_return_lines(t, ev, lines)?;
    let (supplier, outstanding): (Option<String>, i64) = match purchase {
        Some(s) => s,
        None => {
            return Err(DbError::NoRows);
        },
    };
    let refund = if supplier.is_some() {
        "accounts_payable"
    } else {
        "bank"
    };
    post_role(t, event_id, id, 0, refund, cost, 0, date)?;
    post_role(t, event_id, id, 1, "inventory", 0, cost, date)?;
    if let Some(s) = supplier {
        let reduce: i64 = reduction(cost, outstanding);
        let rest: i128 = cost as i128 - reduce as i128;
        adjust_outstanding(t, false, original, -(reduce as i128))?;
        adjust_party_balance(t, s.as_str(), 0, -(reduce as i128), 0, rest)?;
    }
    Ok(())
}

fn clear_lots(t: &mut Tables, event_id: &str)
    ensures
        model::clear_lots(Ok(old(t)@), event_id@) == Ok::<ReadModel, Fault>(final(t)@),
{
    let ghost goal = model::clear_lots(Ok(t@), event_id@)->Ok_0.lots;
    let mut i: usize = 0;
    while i < t.lots.len()
        invariant
            i <= t.lots@.len(),
            t.lots@.len() == old(t).lots@.len(),
            goal == model::clear_lots(Ok(old(t)@), event_id@)->Ok_0.lots,
            forall|j: int| 0 <= j < i ==> (#[trigger] t.lots@[j])@ == goal[j],
            forall|j: int| i <= j < t.lots@.len() ==> #[trigger] t.lots@[j] == old(t).lots@[j],
            t@ == (ReadModel { lots: rows(t.lots@), ..old(t)@ }),
        decreases t.lots@.len() - i,
    {
        assert(old(t)@.lots[i as int] == old(t).lots@[i as int]@);
        if same(t.lots[i].source_event_id.as_str(), event_id) {
            let mut lot = t.lots[i].copy();
            lot.qty_remaining = 0;
            t.lots.set(i, lot);
        }
        i += 1;
    }
    assert(t@.lots =~= goal);
}

fn unconsume(t: &mut Tables, sale: &str) -> (r: Result<(), DbError>)
    ensures
        outcome(r, final(t)@) == model::unconsume_from(old(t)@, sale@, 0),
{
    let mut i: usize = 0;
    while i < t.consumptions.len()
        invariant
            i <= t.consumptions@.len(),
            model::unconsume_from(t@, sale@, i as int) == model::unconsume_from(
                old(t)@,
                sale@,
                0,
            ),
        decreases t.consumptions@.len() - i,
    {
        assert(t@.consumptions[i as int] == t.consumptions@[i as int]@);
        let belongs = match find(&t.sale_lines, t.consumptions[i].sale_line_id.as_str()) {
            Some(k) => same(t.sale_lines[k].sale_id.as_str(), sale),
            None => false,
        };
        if belongs {
            let lot_id = t.consumptions[i].lot_id.clone();
            let qty: i64 = t.consumptions[i].qty_taken;
            let ghost before = t@;
            let ghost n = t.consumptions@.len();
            adjust_lot_remaining(t, lot_id.as_str(), qty as i128)?;
            assert(t@.consumptions == before.consumptions);
            assert(t@.consumptions.len() == t.consumptions@.len());
            assert(before.consumptions.len() == n);
        }
        i += 1;
    }
    Ok(())
}

fn move_lots(t: &mut Tables, lines: &[Json], key: &str, up: bool) -> (r: Result<(), DbError>)
    ensures
        outcome(r, final(t)@) == model::move_lots_from(
            old(t)@,
            elements_of(lines@),
            key@,
            up,
            0,
        ),
{
    let ghost ls = elements_of(lines@);
    let mut i: usize = 0;
    while i < lines.len()
        invariant
            i <= lines@.len(),
            ls == elements_of(lines@),
            model::move_lots_from(t@, ls, key@, up, i as int) == model::move_lots_from(
                old(t)@,
                ls,
                key@,
                up,
                0,
            ),
        decreases lines@.len() - i,
    {
        let line = &lines[i];
        assert(ls[i as int] == line@);
        let amount: i64 = pi(line, key);
        let delta: i128 = if up {
            amount as i128
        } else {
            -(amount as i128)
        };
        adjust_lot_remaining(t, ps(line, "lotId"), delta)?;
        i += 1;
    }
    Ok(())
}

fn unreturn(t: &mut Tables, lines: &[Json]) -> (r: Result<(), DbError>)
    ensures
        outcome(r, final(t)@) == model::unreturn_from(old(t)@, elements_of(lines@), 0),
{
    let ghost ls = elements_of(lines@);
    let mut i: usize = 0;
    while i < lines.len()
        invariant
            i <= lines@.len(),
            ls == elements_of(lines@),
            model::unreturn_from(t@, ls, i as int) == model::unreturn_from(old(t)@, ls, 0),
        decreases lines@.len() - i,
    {
        assert(ls[i as int] == lines@[i as int]@);
        move_lots(t, parr(&lines[i], "lotReturns"), "qtyReturned", false)?;
        i += 1;
    }
    Ok(())
}

fn revert_lots(t: &mut Tables, target: &LedgerEvent) -> (r: Result<(), DbError>)
    ensures
        outcome(r, final(t)@) == model::revert_lots(Ok(old(t)@), target@),
{
    let ty = target.event_type.as_str();
    let tp = &target.payload;
    if same(ty, "PurchaseRecorded") || same(ty, "InventoryFound") || same(
        ty,
        "OpeningBalancesRecorded",
    ) {
        clear_lots(t, target.id.as_str());
        Ok(())
    } else if same(ty, "SaleRecorded") {
        unconsume(t, ps(tp, "saleId"))
    } else if same(ty, "PurchaseReturnRecorded") {
        move_lots(t, parr(tp, "lines"), "qty", true)
    } else if same(ty, "InventoryAdjusted") {
        move_lots(t, parr(tp, "lines"), "qtyDelta", false)
    } else if same(ty, "SaleReturnRecorded") {
        unreturn(t, parr(tp, "lines"))
    } else {
        Ok(())
    }
}

fn reopen(t: &mut Tables, event_id: &str) -> (r: Result<(), DbError>)
    ensures
        outcome(r, final(t)@) == model::reopen_from(old(t)@, event_id@, 0),
{
    let mut i: usize = 0;
    while i < t.allocations.len()
        invariant
            i <= t.allocations@.len(),
            model::reopen_from(t@, event_id@, i as int) == model::reopen_from(
                old(t)@,
                event_id@,
                0,
            ),
        decreases t.allocations@.len() - i,
    {
        assert(t@.allocations[i as int] == t.allocations@[i as int]@);
        if same(t.allocations[i].event_id.as_str(), event_id) {
            let a = t.allocations[i].copy();
            let ghost before = t@;
            let ghost n = t.allocations@.len();
            adjust_outstanding(
                t,
                same(a.target_type.as_str(), "sale"),
                a.target_id.as_str(),
                a.amount_minor as i128,
            )?;
            assert(t@.allocations == before.allocations);
            assert(t@.allocations.len() == t.allocations@.len());
            assert(before.allocations.len() == n);
        }
        i += 1;
    }
    Ok(())
}

fn unallocate(t: &mut Tables, event_id: &str, party: &str) -> (r: Result<(), DbError>)
    ensures
        outcome(r, final(t)@) == model::unallocate_from(old(t)@, event_id@, party@, 0),
{
    let mut i: usize = 0;
    while i < t.allocations.len()
        invariant
            i <= t.allocations@.len(),
            model::unallocate_from(t@, event_id@, party@, i as int) == model::unallocate_from(
                old(t)@,
                event_id@,
                party@,
                0,
            ),
        decreases t.allocations@.len() - i,
    {
        assert(t@.allocations[i as int] == t.allocations@[i as int]@);
        if same(t.allocations[i].event_id.as_str(), event_id) {
            let amount: i128 = t.allocations[i].amount_minor as i128;
            let ghost before = t@;
            let ghost n = t.allocations@.len();
            if same(t.allocations[i].target_type.as_str(), "sale") {
                adjust_party_balance(t, party, amount, 0, amount, 0)?;
            } else {
                adjust_party_balance(t, party, 0, amount, 0, amount)?;
            }
            assert(t@.allocations == before.allocations);
            assert(t@.allocations.len() == t.allocations@.len());
            assert(before.allocations.len() == n);
        }
        i += 1;
    }
    Ok(())
}

fn allocated_by(t: &Vec<Allocation>, event_id: &str) -> (r: Option<i64>)
    ensures
        r == model::allocated_by(rows(t@), event_id@),
{
    let ghost s = rows(t@);
    let mut sum: Option<i64> = Some(0);
    let mut i: usize = 0;
    while i < t.len()
        invariant
            i <= t@.len(),
            s == rows(t@),
            sum == model::allocated_by(s.take(i as int), event_id@),
        decreases t@.len() - i,
    {
        assert(s.take(i + 1).drop_last() =~= s.take(i as int));
        assert(s.take(i + 1).last() == t@[i as int]@);
        if same(t[i].event_id.as_str(), event_id) {
            sum = plus(sum, Some(t[i].amount_minor));
        }
        i += 1;
    }
    assert(s.take(s.len() as int) =~= s);
    sum
}

fn allocations_but(t: &Vec<Allocation>, event_id: &str) -> (r: Vec<Allocation>)
    ensures
        rows(r@) == model::allocations_but(rows(t@), event_id@),
{
    let ghost s = rows(t@);
    let ghost f = |a: Allocation<Seq<char>>| a.event_id != event_id@;
    let mut out: Vec<Allocation> = Vec::new();
    let mut i: usize = 0;
    proof {
        reveal(Seq::filter);
        assert(rows(out@) =~= s.take(0).filter(f));
    }
    while i < t.len()
        invariant
            i <= t@.len(),
            s == rows(t@),
            f == (|a: Allocation<Seq<char>>| a.event_id != event_id@),
            rows(out@) == s.take(i as int).filter(f),
        decreases t@.len() - i,
    {
        proof {
            reveal(Seq::filter);
            assert(s.take(i + 1).drop_last() =~= s.take(i as int));
            assert(s.take(i + 1).last() == t@[i as int]@);
        }
        if !same(t[i].event_id.as_str(), event_id) {
            let a = t[i].copy();
            out.push(a);
        }
        i += 1;
    }
    assert(s.take(s.len() as int) =~= s);
    out
}

fn unpay(t: &mut Tables, target: &LedgerEvent, incoming: bool) -> (r: Result<(), DbError>)
    ensures
        outcome(r, final(t)@) == model::unpay(old(t)@, target@, incoming),
{
    let tp = &target.payload;
    let party = if incoming {
        ps(tp, "customerId")
    } else {
        ps(tp, "supplierId")
    };
    let i: usize = match find(&t.payments, ps(tp, "paymentId")) {
        Some(k) => k,
        None => {
            return Err(DbError::NoRows);
        },
    };
    let allocated: i64 = match allocated_by(&t.allocations, target.id.as_str()) {
        Some(v) => v,
        None => {
            return Err(DbError::Overflow);
        },
    };
    let rest: i128 = t.payments[i].amount_minor as i128 - allocated as i128;
    let ghost before = t@;
    let ghost n = t.payments@.len();
    assert(before.payments.len() == n);
    if incoming {
        adjust_party_balance(t, party, allocated as i128, 0, -rest, 0)?;
    } else {
        adjust_party_balance(t, party, 0, allocated as i128, 0, -rest)?;
    }
    assert(t@.payments == before.payments);
    assert(t@.payments.len() == t.payments@.len());
    t.payments.remove(i);
    Ok(())
}

fn void(t: &mut Vec<Invoice>, i: usize)
    requires
        i < old(t)@.len(),
    ensures
        rows(final(t)@) == model::voided(rows(old(t)@), i as int),
{
    let mut v = t[i].copy();
    v.outstanding_minor = 0;
    v.reversed = true;
    t.set(i, v);
}

fn revert_balances(t: &mut Tables, target: &LedgerEvent) -> (r: Result<(), DbError>)
    ensures
        outcome(r, final(t)@) == model::revert_balances(Ok(old(t)@), target@),
{
    let ty = target.event_type.as_str();
    let tp = &target.payload;
    if same(ty, "PaymentReceived") || same(ty, "PaymentMade") || same(ty, "PaymentAllocated") {
        reopen(t, target.id.as_str())?;
        if same(ty, "PaymentAllocated") {
            unallocate(t, target.id.as_str(), ps(tp, "partyId"))?;
        } else {
            unpay(t, target, same(ty, "PaymentReceived"))?;
        }
        t.allocations = allocations_but(&t.allocations, target.id.as_str());
        Ok(())
    } else if same(ty, "SaleRecorded") {
        match find(&t.sales, ps(tp, "saleId")) {
            None => Err(DbError::NoRows),
            Some(i) => {
                let sale = t.sales[i].copy();
                void(&mut t.sales, i);
                if same(sale.terms.as_str(), "credit") {
                    if let Some(c) = lend(&sale.party_id) {
                        adjust_party_balance(t, c, -(sale.total_minor as i128), 0, 0, 0)?;
                    }
                }
                Ok(())
            },
        }
    } else if same(ty, "PurchaseRecorded") {
        match find(&t.purchases, ps(tp, "purchaseId")) {
            None => Err(DbError::NoRows),
            Some(i) => {
                let purchase = t.purchases[i].copy();
                void(&mut t.purchases, i);
                if same(purchase.terms.as_str(), "credit") {
                    if let Some(s) = lend(&purchase.party_id) {
                        adjust_party_balance(t, s, 0, -(purchase.total_minor as i128), 0, 0)?;
                    }
                }
                Ok(())
            },
        }
    } else {
        Ok(())
    }
}

fn transaction_reversed(t: &mut Tables, log: &Vec<LedgerEvent>, ev: &LedgerEvent) -> (r: Result<
    (),
    DbError,
>)
    ensures
        outcome(r, final(t)@) == model::transaction_reversed(old(t)@, rows(log@), ev@),
{
    let p = &ev.payload;
    match find(log, ps(p, "targetEventId")) {
        None => Err(DbError::NoRows),
        Some(i) => {
            let target = &log[i];
            given_lines(
                t,
                ev,
                parr(p, "reversalJournalLines"),
                ps(&target.payload, "date"),
                "reversal",
            )?;
            revert_lots(t, target)?;
            revert_balances(t, target)
        },
    }
}

/// Merge an event's `changes` object into an existing document.
fn patch_doc(doc: &Json, p: &Json) -> (r: Result<Json, DbError>)
    ensures
        match r {
            Ok(d) => model::patched(doc@, p@) == Ok::<JsonV, Fault>(d@),
            Err(e) => model::patched(doc@, p@) == Err::<JsonV, Fault>(e@),
        },
{
    let changes = match p.get("changes") {
        Some(c) => c,
        None => {
            return Ok(doc.copy());
        },
    };
    let cs = match changes {
        Json::Object(cs) => cs,
        _ => {
            return Ok(doc.copy());
        },
    };
    let ghost c = record_of(pairs(cs@));
    proof {
        lemma_members(cs@);
        assert(changes@ == JsonV::Object(c));
    }
    if cs.len() == 0 {
        assert(c.dom() =~= Set::<Seq<char>>::empty());
        return Ok(doc.copy());
    }
    proof {
        assert(c.dom().contains(pairs(cs@).last().0));
    }
    let mut out: Vec<(String, Json)> = match doc.copy() {
        Json::Object(v) => {
            proof {
                lemma_members(v@);
            }
            v
        },
        Json::Null => Vec::new(),
        _ => {
            return Err(DbError::NotARecord);
        },
    };
    let ghost base = record_of(pairs(out@));
    let mut i: usize = 0;
    assert(pairs(cs@).take(0) =~= Seq::<(Seq<char>, JsonV)>::empty());
    assert(base.union_prefer_right(Map::empty()) =~= base);
    while i < cs.len()
        invariant
            i <= cs@.len(),
            record_of(pairs(out@)) == base.union_prefer_right(
                record_of(pairs(cs@).take(i as int)),
            ),
        decreases cs@.len() - i,
    {
        let ghost s = pairs(cs@);
        assert(s.take(i + 1).drop_last() =~= s.take(i as int));
        assert(s.take(i + 1).last() == s[i as int]);
        let v = cs[i].1.copy();
        put(&mut out, cs[i].0.as_str(), v);
        assert(record_of(pairs(out@)) =~= base.union_prefer_right(record_of(s.take(i + 1))));
        i += 1;
    }
    proof {
        assert(pairs(cs@).take(cs@.len() as int) =~= pairs(cs@));
        lemma_members(out@);
        match doc@ {
            JsonV::Null => {
                assert(base.union_prefer_right(c) =~= c);
            },
            _ => {},
        }
    }
    Ok(Json::Object(out))
}

pub(crate) fn sku_taken(items: &Vec<Item>, id: &str, sku: Option<&str>) -> (r: bool)
    ensures
        r == model::sku_taken(rows(items@), id@, opt_str(sku)),
{
    let wanted = match sku {
        Some(s) => s,
        None => {
            return false;
        },
    };
    let ghost m = rows(items@);
    let mut i: usize = 0;
    while i < items.len()
        invariant
            i <= items@.len(),
            m == rows(items@),
            sku == Some(wanted),
            forall|j: int|
                0 <= j < i ==> !((#[trigger] m[j]).id != id@ && model::sku_of(m[j].doc) == opt_str(
                    sku,
                )),
        decreases items@.len() - i,
    {
        assert(m[i as int] == items@[i as int]@);
        if !same(items[i].id.as_str(), id) {
            if let Some(s) = pos(&items[i].doc, "sku") {
                if same(s, wanted) {
                    return true;
                }
            }
        }
        i += 1;
    }
    false
}

fn user_registered(t: &mut Tables, ev: &LedgerEvent) -> (r: Result<(), DbError>)
    ensures
        outcome(r, final(t)@) == model::user_registered(old(t)@, ev@),
{
    let row = User {
        id: ps(&ev.payload, "userId").to_owned(),
        doc: ev.payload.copy(),
        created_at: ev.created_at,
    };
    insert(&mut t.users, row, "users.id")
}

fn account_opened(t: &mut Tables, ev: &LedgerEvent) -> (r: Result<(), DbError>)
    ensures
        outcome(r, final(t)@) == model::account_opened(old(t)@, ev@),
{
    let row = Account {
        id: ps(&ev.payload, "accountId").to_owned(),
        doc: ev.payload.copy(),
        balance_minor: 0,
    };
    insert(&mut t.accounts, row, "accounts.id")
}

fn item_doc(p: &Json) -> (r: Result<Json, DbError>)
    ensures
        match r {
            Ok(d) => model::item_doc(p@) == Ok::<JsonV, Fault>(d@),
            Err(e) => model::item_doc(p@) == Err::<JsonV, Fault>(e@),
        },
{
    if p.get("active").is_some() {
        return Ok(p.copy());
    }
    let mut out: Vec<(String, Json)> = match p.copy() {
        Json::Object(v) => {
            proof {
                lemma_members(v@);
            }
            v
        },
        Json::Null => Vec::new(),
        _ => {
            return Err(DbError::NotARecord);
        },
    };
    put(&mut out, "active", Json::Int(1));
    proof {
        lemma_members(out@);
    }
    Ok(Json::Object(out))
}

fn item_defined(t: &mut Tables, ev: &LedgerEvent) -> (r: Result<(), DbError>)
    ensures
        outcome(r, final(t)@) == model::item_defined(old(t)@, ev@),
{
    let id = ps(&ev.payload, "itemId");
    let doc = item_doc(&ev.payload)?;
    if find(&t.items, id).is_some() {
        return Err(DbError::Unique("items.id".to_owned()));
    }
    if sku_taken(&t.items, id, pos(&doc, "sku")) {
        return Err(DbError::Unique("items.sku".to_owned()));
    }
    t.items.push(Item { id: id.to_owned(), doc });
    Ok(())
}

fn party_created(t: &mut Tables, ev: &LedgerEvent) -> (r: Result<(), DbError>)
    ensures
        outcome(r, final(t)@) == model::party_created(old(t)@, ev@),
{
    let row = Party { id: ps(&ev.payload, "partyId").to_owned(), doc: ev.payload.copy() };
    insert(&mut t.parties, row, "parties.id")
}

fn user_updated(t: &mut Tables, ev: &LedgerEvent) -> (r: Result<(), DbError>)
    ensures
        outcome(r, final(t)@) == model::user_updated(old(t)@, ev@),
{
    let p = &ev.payload;
    match find(&t.users, ps(p, "userId")) {
        None => Err(DbError::NoRows),
        Some(i) => {
            let doc = patch_doc(&t.users[i].doc, p)?;
            let mut row = t.users[i].copy();
            row.doc = doc;
            t.users.set(i, row);
            Ok(())
        },
    }
}

fn account_updated(t: &mut Tables, ev: &LedgerEvent) -> (r: Result<(), DbError>)
    ensures
        outcome(r, final(t)@) == model::account_updated(old(t)@, ev@),
{
    let p = &ev.payload;
    match find(&t.accounts, ps(p, "accountId")) {
        None => Err(DbError::NoRows),
        Some(i) => {
            let doc = patch_doc(&t.accounts[i].doc, p)?;
            let mut row = t.accounts[i].copy();
            row.doc = doc;
            t.accounts.set(i, row);
            Ok(())
        },
    }
}

fn item_updated(t: &mut Tables, ev: &LedgerEvent) -> (r: Result<(), DbError>)
    ensures
        outcome(r, final(t)@) == model::item_updated(old(t)@, ev@),
{
    let p = &ev.payload;
    match find(&t.items, ps(p, "itemId")) {
        None => Err(DbError::NoRows),
        Some(i) => {
            let doc = patch_doc(&t.items[i].doc, p)?;
            if sku_taken(&t.items, t.items[i].id.as_str(), pos(&doc, "sku")) {
                return Err(DbError::Unique("items.sku".to_owned()));
            }
            let mut row = t.items[i].copy();
            row.doc = doc;
            t.items.set(i, row);
            Ok(())
        },
    }
}

fn party_updated(t: &mut Tables, ev: &LedgerEvent) -> (r: Result<(), DbError>)
    ensures
        outcome(r, final(t)@) == model::party_updated(old(t)@, ev@),
{
    let p = &ev.payload;
    match find(&t.parties, ps(p, "partyId")) {
        None => Err(DbError::NoRows),
        Some(i) => {
            let doc = patch_doc(&t.parties[i].doc, p)?;
            let mut row = t.parties[i].copy();
            row.doc = doc;
            t.parties.set(i, row);
            Ok(())
        },
    }
}

fn item_deleted(t: &mut Tables, ev: &LedgerEvent) -> (r: Result<(), DbError>)
    ensures
        outcome(r, final(t)@) == model::item_deleted(old(t)@, ev@),
{
    let id = ps(&ev.payload, "itemId");
    if let Some(i) = find(&t.items, id) {
        if !is_referenced(t, &ITEM_REFS, id) {
            t.items.remove(i);
        }
    }
    Ok(())
}

fn party_deleted(t: &mut Tables, ev: &LedgerEvent) -> (r: Result<(), DbError>)
    ensures
        outcome(r, final(t)@) == model::party_deleted(old(t)@, ev@),
{
    let id = ps(&ev.payload, "partyId");
    if let Some(i) = find(&t.parties, id) {
        if !is_referenced(t, &PARTY_REFS, id) {
            t.parties.remove(i);
        }
    }
    Ok(())
}

/// Central dispatcher: project one event into the tables. Where it fails, the tables
/// may be left part-changed; the callers below work on a copy and drop it then.
fn project(t: &mut Tables, log: &Vec<LedgerEvent>, ev: &LedgerEvent) -> (r: Result<(), DbError>)
    ensures
        outcome(r, final(t)@) == model::project(old(t)@, rows(log@), ev@),
{
    let ty = ev.event_type.as_str();
    if same(ty, "UserRegistered") {
        user_registered(t, ev)
    } else if same(ty, "AccountOpened") {
        account_opened(t, ev)
    } else if same(ty, "ItemDefined") {
        item_defined(t, ev)
    } else if same(ty, "PartyCreated") {
        party_created(t, ev)
    } else if same(ty, "UserUpdated") {
        user_updated(t, ev)
    } else if same(ty, "AccountUpdated") {
        account_updated(t, ev)
    } else if same(ty, "ItemUpdated") {
        item_updated(t, ev)
    } else if same(ty, "PartyUpdated") {
        party_updated(t, ev)
    } else if same(ty, "ItemDeleted") {
        item_deleted(t, ev)
    } else if same(ty, "PartyDeleted") {
        party_deleted(t, ev)
    } else if same(ty, "PurchaseRecorded") {
        purchase_recorded(t, ev)
    } else if same(ty, "SaleRecorded") {
        sale_recorded(t, ev)
    } else if same(ty, "PaymentReceived") {
        payment(t, ev, true)
    } else if same(ty, "PaymentMade") {
        payment(t, ev, false)
    } else if same(ty, "PaymentAllocated") {
        payment_allocated(t, ev)
    } else if same(ty, "ExpenseRecorded") {
        expense_recorded(t, ev)
    } else if same(ty, "TransferRecorded") {
        transfer_recorded(t, ev)
    } else if same(ty, "InventoryAdjusted") {
        inventory_adjusted(t, ev)
    } else if same(ty, "InventoryFound") {
        inventory_found(t, ev)
    } else if same(ty, "OpeningBalancesRecorded") {
        opening_balances(t, ev)
    } else if same(ty, "SaleReturnRecorded") {
        sale_return(t, ev)
    } else if same(ty, "PurchaseReturnRecorded") {
        purchase_return(t, ev)
    } else if same(ty, "TransactionReversed") {
        transaction_reversed(t, log, ev)
    } else {
        Err(DbError::NoHandler(ty.to_owned()))
    }
}

/// The store after one event was applied to its read model.
pub open spec fn applied(s: Store, ev: EventV) -> Result<Store, Fault> {
    match model::project(s.model, s.events, ev) {
        Ok(m) => Ok(Store { model: m, ..s }),
        Err(e) => Err(e),
    }
}

/// Apply one event to the read model. A failure leaves the store as it was.
pub fn apply_event(db: &mut Database, ev: &LedgerEvent) -> (r: Result<(), DbError>)
    ensures
        match r {
            Ok(_) => applied(old(db)@, ev@) == Ok::<Store, Fault>(final(db)@),
            Err(e) => applied(old(db)@, ev@) == Err::<Store, Fault>(e@) && *final(db) == *old(db),
        },
{
    let mut t = db.tables.copy();
    project(&mut t, &db.events, ev)?;
    db.tables = t;
    Ok(())
}

/// The cursor that a rebuild leaves: the stamp of the last event, where it has one.
pub open spec fn cursor_after(events: Seq<EventV>) -> Option<Seq<char>> {
    if events.len() > 0 && events.last().hlc.len() > 0 {
        Some(events.last().hlc)
    } else {
        None
    }
}

/// The store after its read model was rebuilt from the log.
pub open spec fn rebuilt(s: Store) -> Result<Store, Fault> {
    match model::replay_from(
        crate::tables::no_rows(),
        s.events,
        replay_order(s.events),
        0,
    ) {
        Ok(m) => Ok(Store { model: m, cursor: cursor_after(replay_order(s.events)), ..s }),
        Err(e) => Err(e),
    }
}

/// Drop all projection state and replay the entire event log in HLC order. A failure
/// leaves the store as it was.
pub fn rebuild(db: &mut Database) -> (r: Result<(), DbError>)
    ensures
        match r {
            Ok(_) => rebuilt(old(db)@) == Ok::<Store, Fault>(final(db)@),
            Err(e) => rebuilt(old(db)@) == Err::<Store, Fault>(e@) && *final(db) == *old(db),
        },
{
    let events = sort(&db.events);
    let ghost es = rows(events@);
    let mut t = Tables::new();
    let mut i: usize = 0;
    while i < events.len()
        invariant
            i <= events@.len(),
            es == rows(events@),
            es == replay_order(db@.events),
            *db == *old(db),
            model::replay_from(t@, db@.events, es, i as int) == model::replay_from(
                crate::tables::no_rows(),
                db@.events,
                es,
                0,
            ),
        decreases events@.len() - i,
    {
        assert(es[i as int] == events@[i as int]@);
        project(&mut t, &db.events, &events[i])?;
        i += 1;
    }
    let mut cursor: Option<String> = None;
    if events.len() > 0 {
        let last = &events[events.len() - 1];
        assert(es.last() == last@);
        if last.hlc.as_str().unicode_len() > 0 {
            cursor = Some(last.hlc.clone());
        }
    }
    db.tables = t;
    db.cursor = cursor;
    Ok(())
}

} // verus!
