//! What each event does to the read model.
//!
//! Every step takes the outcome so far and gives the next one; a failure stops the
//! steps behind it.

use crate::error::DbError;
use crate::events::EventV;
use crate::json::{list, member, num, opt_txt, txt, JsonV};
use crate::refs::{referring, ITEM_REFS, PARTY_REFS};
use crate::rows::{holds, lookup, place, Keyed};
use crate::tables::{
    Account, Allocation, Balance, Expense, Invoice, Item, JournalLine, Lot, LotConsumption, Party,
    Payment, PurchaseLine, ReadModel, Return, ReturnLine, SaleLine, User,
};
use crate::text::digits;
use vstd::prelude::*;

verus! {

/// Text in mathematics.
pub type Text = Seq<char>;

/// An error in mathematics.
pub type Fault = DbError<Seq<char>>;

/// The read model after some steps, or why they failed.
pub type Outcome = Result<ReadModel, DbError<Seq<char>>>;

/// The number is in the range of a stored integer.
pub open spec fn fits(i: int) -> bool {
    i64::MIN <= i <= i64::MAX
}

/// The outcome that a result and the tables behind it stand for.
pub open spec fn outcome(r: Result<(), DbError>, m: ReadModel) -> Outcome {
    match r {
        Ok(_) => Ok(m),
        Err(e) => Err(e@),
    }
}

/// A table with one row more, refused where the key is taken.
pub open spec fn added<R: Keyed>(t: Seq<R>, r: R, column: Text) -> Result<Seq<R>, Fault> {
    if holds(t, r.key()) {
        Err(DbError::Unique(column))
    } else {
        Ok(t.push(r))
    }
}

/// Adds a sale row.
pub open spec fn add_sale(o: Outcome, r: Invoice<Text>) -> Outcome {
    match o {
        Err(e) => Err(e),
        Ok(m) => match added(m.sales, r, "sales.id"@) {
            Err(e) => Err(e),
            Ok(t) => Ok(ReadModel { sales: t, ..m }),
        },
    }
}

/// Adds a purchase row.
pub open spec fn add_purchase(o: Outcome, r: Invoice<Text>) -> Outcome {
    match o {
        Err(e) => Err(e),
        Ok(m) => match added(m.purchases, r, "purchases.id"@) {
            Err(e) => Err(e),
            Ok(t) => Ok(ReadModel { purchases: t, ..m }),
        },
    }
}

/// Adds a lot row, whose item has to exist.
pub open spec fn add_lot(o: Outcome, r: Lot<Text>) -> Outcome {
    match o {
        Err(e) => Err(e),
        Ok(m) => match added(m.lots, r, "inventory_lots.id"@) {
            Err(e) => Err(e),
            Ok(t) => if !holds(m.items, r.item_id) {
                Err(DbError::ForeignKey)
            } else {
                Ok(ReadModel { lots: t, ..m })
            },
        },
    }
}

/// Adds a sale line row, whose item has to exist.
pub open spec fn add_sale_line(o: Outcome, r: SaleLine<Text>) -> Outcome {
    match o {
        Err(e) => Err(e),
        Ok(m) => match added(m.sale_lines, r, "sale_lines.id"@) {
            Err(e) => Err(e),
            Ok(t) => if !holds(m.items, r.item_id) {
                Err(DbError::ForeignKey)
            } else {
                Ok(ReadModel { sale_lines: t, ..m })
            },
        },
    }
}

/// Adds a consumption row.
pub open spec fn add_consumption(o: Outcome, r: LotConsumption<Text>) -> Outcome {
    match o {
        Err(e) => Err(e),
        Ok(m) => match added(m.consumptions, r, "lot_consumptions.id"@) {
            Err(e) => Err(e),
            Ok(t) => Ok(ReadModel { consumptions: t, ..m }),
        },
    }
}

/// Adds a purchase line row, whose item has to exist.
pub open spec fn add_purchase_line(o: Outcome, r: PurchaseLine<Text>) -> Outcome {
    match o {
        Err(e) => Err(e),
        Ok(m) => match added(m.purchase_lines, r, "purchase_lines.id"@) {
            Err(e) => Err(e),
            Ok(t) => if !holds(m.items, r.item_id) {
                Err(DbError::ForeignKey)
            } else {
                Ok(ReadModel { purchase_lines: t, ..m })
            },
        },
    }
}

/// Adds a payment row.
pub open spec fn add_payment(o: Outcome, r: Payment<Text>) -> Outcome {
    match o {
        Err(e) => Err(e),
        Ok(m) => match added(m.payments, r, "payments.id"@) {
            Err(e) => Err(e),
            Ok(t) => Ok(ReadModel { payments: t, ..m }),
        },
    }
}

/// Adds an allocation row.
pub open spec fn add_allocation(o: Outcome, r: Allocation<Text>) -> Outcome {
    match o {
        Err(e) => Err(e),
        Ok(m) => match added(m.allocations, r, "payment_allocations.id"@) {
            Err(e) => Err(e),
            Ok(t) => Ok(ReadModel { allocations: t, ..m }),
        },
    }
}

/// Adds a return row.
pub open spec fn add_return(o: Outcome, r: Return<Text>) -> Outcome {
    match o {
        Err(e) => Err(e),
        Ok(m) => match added(m.returns, r, "returns.id"@) {
            Err(e) => Err(e),
            Ok(t) => Ok(ReadModel { returns: t, ..m }),
        },
    }
}

/// Adds a return line row, whose item has to exist.
pub open spec fn add_return_line(o: Outcome, r: ReturnLine<Text>) -> Outcome {
    match o {
        Err(e) => Err(e),
        Ok(m) => match added(m.return_lines, r, "return_lines.id"@) {
            Err(e) => Err(e),
            Ok(t) => if !holds(m.items, r.item_id) {
                Err(DbError::ForeignKey)
            } else {
                Ok(ReadModel { return_lines: t, ..m })
            },
        },
    }
}

/// Adds an expense row.
pub open spec fn add_expense(o: Outcome, r: Expense<Text>) -> Outcome {
    match o {
        Err(e) => Err(e),
        Ok(m) => match added(m.expenses, r, "expenses.id"@) {
            Err(e) => Err(e),
            Ok(t) => Ok(ReadModel { expenses: t, ..m }),
        },
    }
}

/// The account's role, where it has one.
pub open spec fn role_of(a: Account<Text, JsonV>) -> Option<Text> {
    opt_txt(a.doc, "system_role"@)
}

/// Whether debits raise the account's balance.
pub open spec fn debit_normal(a: Account<Text, JsonV>) -> bool {
    opt_txt(a.doc, "normal"@) == Some("debit"@)
}

/// Account `i` is the first in the given role.
pub open spec fn role_hit(t: Seq<Account<Text, JsonV>>, role: Text, i: int) -> bool {
    &&& 0 <= i < t.len()
    &&& role_of(t[i]) == Some(role)
    &&& forall|j: int| 0 <= j < i ==> role_of(#[trigger] t[j]) != Some(role)
}

/// The account in a role.
pub open spec fn in_role(t: Seq<Account<Text, JsonV>>, role: Text) -> Option<Account<Text, JsonV>> {
    if exists|i: int| role_hit(t, role, i) {
        Some(t[choose|i: int| role_hit(t, role, i)])
    } else {
        None
    }
}

/// The id of the account in a role.
pub open spec fn role_id(m: ReadModel, role: Text) -> Result<Text, Fault> {
    match in_role(m.accounts, role) {
        Some(a) => Ok(a.id),
        None => Err(DbError::NoRows),
    }
}

/// By how much a posting moves an account's balance.
pub open spec fn signed(a: Account<Text, JsonV>, debit: i64, credit: i64) -> int {
    if debit_normal(a) {
        debit - credit
    } else {
        credit - debit
    }
}

/// The accounts after a posting; an account that does not exist is passed over.
pub open spec fn posted_accounts(
    t: Seq<Account<Text, JsonV>>,
    account: Text,
    debit: i64,
    credit: i64,
) -> Result<Seq<Account<Text, JsonV>>, Fault> {
    match place(t, account) {
        None => Ok(t),
        Some(i) => {
            let delta = signed(t[i], debit, credit);
            let balance = t[i].balance_minor + delta;
            if fits(delta) && fits(balance) {
                Ok(t.update(i, Account { balance_minor: balance as i64, ..t[i] }))
            } else {
                Err(DbError::Overflow)
            }
        },
    }
}

/// The journal line of a posting.
pub open spec fn journal_line(
    event: Text,
    txn: Text,
    index: nat,
    account: Text,
    debit: i64,
    credit: i64,
    date: Text,
    memo: Option<Text>,
) -> JournalLine<Text> {
    JournalLine {
        id: event + "#"@ + digits(index),
        event_id: event,
        txn_id: txn,
        account_id: account,
        debit_minor: debit,
        credit_minor: credit,
        date,
        memo,
    }
}

/// Posts one journal line and moves the account's balance by it.
pub open spec fn post(
    o: Outcome,
    event: Text,
    txn: Text,
    index: nat,
    account: Text,
    debit: i64,
    credit: i64,
    date: Text,
    memo: Option<Text>,
) -> Outcome {
    match o {
        Err(e) => Err(e),
        Ok(m) => match added(
            m.journal,
            journal_line(event, txn, index, account, debit, credit, date, memo),
            "journal_lines.id"@,
        ) {
            Err(e) => Err(e),
            Ok(journal) => match posted_accounts(m.accounts, account, debit, credit) {
                Err(e) => Err(e),
                Ok(accounts) => Ok(ReadModel { journal, accounts, ..m }),
            },
        },
    }
}

/// Posts one journal line to the account in a role.
pub open spec fn post_role(
    o: Outcome,
    event: Text,
    txn: Text,
    index: nat,
    role: Text,
    debit: i64,
    credit: i64,
    date: Text,
) -> Outcome {
    match o {
        Err(e) => Err(e),
        Ok(m) => match role_id(m, role) {
            Err(e) => Err(e),
            Ok(account) => post(Ok(m), event, txn, index, account, debit, credit, date, None),
        },
    }
}

/// A party's balance before anything moved it.
pub open spec fn zero_balance(party: Text) -> Balance<Text> {
    Balance {
        party_id: party,
        receivable_minor: 0,
        payable_minor: 0,
        unallocated_cr_minor: 0,
        unallocated_dr_minor: 0,
    }
}

/// A party's balance moved by signed amounts.
pub open spec fn moved_balance(
    b: Balance<Text>,
    receivable: int,
    payable: int,
    credit: int,
    debit: int,
) -> Result<Balance<Text>, Fault> {
    if fits(b.receivable_minor + receivable) && fits(b.payable_minor + payable) && fits(
        b.unallocated_cr_minor + credit,
    ) && fits(b.unallocated_dr_minor + debit) {
        Ok(
            Balance {
                party_id: b.party_id,
                receivable_minor: (b.receivable_minor + receivable) as i64,
                payable_minor: (b.payable_minor + payable) as i64,
                unallocated_cr_minor: (b.unallocated_cr_minor + credit) as i64,
                unallocated_dr_minor: (b.unallocated_dr_minor + debit) as i64,
            },
        )
    } else {
        Err(DbError::Overflow)
    }
}

/// Moves a party's balance, opening it where the party has none yet.
pub open spec fn adjust_party(
    o: Outcome,
    party: Text,
    receivable: int,
    payable: int,
    credit: int,
    debit: int,
) -> Outcome {
    match o {
        Err(e) => Err(e),
        Ok(m) => match place(m.balances, party) {
            Some(i) => match moved_balance(m.balances[i], receivable, payable, credit, debit) {
                Err(e) => Err(e),
                Ok(b) => Ok(ReadModel { balances: m.balances.update(i, b), ..m }),
            },
            None => if !holds(m.parties, party) {
                Err(DbError::ForeignKey)
            } else {
                match moved_balance(zero_balance(party), receivable, payable, credit, debit) {
                    Err(e) => Err(e),
                    Ok(b) => Ok(ReadModel { balances: m.balances.push(b), ..m }),
                }
            },
        },
    }
}

/// Adds to what is left of a lot; a lot that does not exist is passed over.
pub open spec fn adjust_lot(o: Outcome, lot: Text, delta: int) -> Outcome {
    match o {
        Err(e) => Err(e),
        Ok(m) => match place(m.lots, lot) {
            None => Ok(m),
            Some(i) => if fits(m.lots[i].qty_remaining + delta) {
                Ok(
                    ReadModel {
                        lots: m.lots.update(
                            i,
                            Lot {
                                qty_remaining: (m.lots[i].qty_remaining + delta) as i64,
                                ..m.lots[i]
                            },
                        ),
                        ..m
                    },
                )
            } else {
                Err(DbError::Overflow)
            },
        },
    }
}

/// Adds to what is outstanding on an invoice; one that does not exist is passed
/// over.
pub open spec fn owed(t: Seq<Invoice<Text>>, id: Text, delta: int) -> Result<
    Seq<Invoice<Text>>,
    Fault,
> {
    match place(t, id) {
        None => Ok(t),
        Some(i) => if fits(t[i].outstanding_minor + delta) {
            Ok(
                t.update(
                    i,
                    Invoice {
                        outstanding_minor: (t[i].outstanding_minor + delta) as i64,
                        ..t[i]
                    },
                ),
            )
        } else {
            Err(DbError::Overflow)
        },
    }
}

/// Adds to what is outstanding on a sale, or on a purchase.
pub open spec fn adjust_outstanding(o: Outcome, sale: bool, id: Text, delta: int) -> Outcome {
    match o {
        Err(e) => Err(e),
        Ok(m) => if sale {
            match owed(m.sales, id, delta) {
                Err(e) => Err(e),
                Ok(t) => Ok(ReadModel { sales: t, ..m }),
            }
        } else {
            match owed(m.purchases, id, delta) {
                Err(e) => Err(e),
                Ok(t) => Ok(ReadModel { purchases: t, ..m }),
            }
        },
    }
}

/// The product of two stored integers, where it is one.
pub open spec fn product(a: i64, b: i64) -> Option<i64> {
    if fits(a * b) {
        Some((a * b) as i64)
    } else {
        None
    }
}

/// The sum of two stored integers, where it is one.
pub open spec fn plus(a: Option<i64>, b: Option<i64>) -> Option<i64> {
    match (a, b) {
        (Some(x), Some(y)) => if fits(x + y) {
            Some((x + y) as i64)
        } else {
            None
        },
        _ => None,
    }
}

/// What lines are worth: the sum of quantity times unit amount.
pub open spec fn worth(lines: Seq<JsonV>, qty: Text, unit: Text) -> Option<i64>
    decreases lines.len(),
{
    if lines.len() == 0 {
        Some(0)
    } else {
        plus(
            worth(lines.drop_last(), qty, unit),
            product(num(lines.last(), qty), num(lines.last(), unit)),
        )
    }
}

/// What the parts under `key` of all lines are worth together.
pub open spec fn nested_worth(lines: Seq<JsonV>, key: Text, qty: Text, unit: Text) -> Option<i64>
    decreases lines.len(),
{
    if lines.len() == 0 {
        Some(0)
    } else {
        plus(
            nested_worth(lines.drop_last(), key, qty, unit),
            worth(list(lines.last(), key), qty, unit),
        )
    }
}

/// The sum of the amounts under `key`.
pub open spec fn sum_of(lines: Seq<JsonV>, key: Text) -> Option<i64>
    decreases lines.len(),
{
    if lines.len() == 0 {
        Some(0)
    } else {
        plus(sum_of(lines.drop_last(), key), Some(num(lines.last(), key)))
    }
}

/// The id of line `i` of an event.
pub open spec fn line_id(event: Text, i: nat) -> Text {
    event + "#line#"@ + digits(i)
}

/// The terms of a transaction are credit.
pub open spec fn on_credit(p: JsonV) -> bool {
    txt(p, "terms"@) == "credit"@
}

// ---- master data ----

/// The text under a key, for a column that may be absent.
pub open spec fn sku_of(doc: JsonV) -> Option<Text> {
    opt_txt(doc, "sku"@)
}

/// Another item than `id` carries the stock keeping unit.
pub open spec fn sku_taken(items: Seq<Item<Text, JsonV>>, id: Text, sku: Option<Text>) -> bool {
    sku is Some && exists|i: int|
        0 <= i < items.len() && (#[trigger] items[i]).id != id && sku_of(items[i].doc) == sku
}

/// A document with a member written.
pub open spec fn with_member(doc: JsonV, k: Text, v: JsonV) -> Result<JsonV, Fault> {
    match doc {
        JsonV::Object(m) => Ok(JsonV::Object(m.insert(k, v))),
        JsonV::Null => Ok(JsonV::Object(Map::empty().insert(k, v))),
        _ => Err(DbError::NotARecord),
    }
}

/// The document of a newly defined item: active unless it says otherwise.
pub open spec fn item_doc(p: JsonV) -> Result<JsonV, Fault> {
    if member(p, "active"@) is Some {
        Ok(p)
    } else {
        with_member(p, "active"@, JsonV::Int(1))
    }
}

/// A document after the changes of an event were merged into it.
pub open spec fn patched(doc: JsonV, p: JsonV) -> Result<JsonV, Fault> {
    match member(p, "changes"@) {
        Some(JsonV::Object(c)) => if c.dom() =~= Set::empty() {
            Ok(doc)
        } else {
            match doc {
                JsonV::Object(m) => Ok(JsonV::Object(m.union_prefer_right(c))),
                JsonV::Null => Ok(JsonV::Object(c)),
                _ => Err(DbError::NotARecord),
            }
        },
        _ => Ok(doc),
    }
}

pub open spec fn user_registered(m: ReadModel, ev: EventV) -> Outcome {
    match added(
        m.users,
        User { id: txt(ev.payload, "userId"@), doc: ev.payload, created_at: ev.created_at },
        "users.id"@,
    ) {
        Err(e) => Err(e),
        Ok(t) => Ok(ReadModel { users: t, ..m }),
    }
}

pub open spec fn account_opened(m: ReadModel, ev: EventV) -> Outcome {
    match added(
        m.accounts,
        Account { id: txt(ev.payload, "accountId"@), doc: ev.payload, balance_minor: 0 },
        "accounts.id"@,
    ) {
        Err(e) => Err(e),
        Ok(t) => Ok(ReadModel { accounts: t, ..m }),
    }
}

pub open spec fn item_defined(m: ReadModel, ev: EventV) -> Outcome {
    let id = txt(ev.payload, "itemId"@);
    match item_doc(ev.payload) {
        Err(e) => Err(e),
        Ok(doc) => match added(m.items, Item { id, doc }, "items.id"@) {
            Err(e) => Err(e),
            Ok(t) => if sku_taken(m.items, id, sku_of(doc)) {
                Err(DbError::Unique("items.sku"@))
            } else {
                Ok(ReadModel { items: t, ..m })
            },
        },
    }
}

pub open spec fn party_created(m: ReadModel, ev: EventV) -> Outcome {
    match added(
        m.parties,
        Party { id: txt(ev.payload, "partyId"@), doc: ev.payload },
        "parties.id"@,
    ) {
        Err(e) => Err(e),
        Ok(t) => Ok(ReadModel { parties: t, ..m }),
    }
}

pub open spec fn user_updated(m: ReadModel, ev: EventV) -> Outcome {
    match place(m.users, txt(ev.payload, "userId"@)) {
        None => Err(DbError::NoRows),
        Some(i) => match patched(m.users[i].doc, ev.payload) {
            Err(e) => Err(e),
            Ok(doc) => Ok(
                ReadModel { users: m.users.update(i, User { doc, ..m.users[i] }), ..m },
            ),
        },
    }
}

pub open spec fn account_updated(m: ReadModel, ev: EventV) -> Outcome {
    match place(m.accounts, txt(ev.payload, "accountId"@)) {
        None => Err(DbError::NoRows),
        Some(i) => match patched(m.accounts[i].doc, ev.payload) {
            Err(e) => Err(e),
            Ok(doc) => Ok(
                ReadModel {
                    accounts: m.accounts.update(i, Account { doc, ..m.accounts[i] }),
                    ..m
                },
            ),
        },
    }
}

pub open spec fn item_updated(m: ReadModel, ev: EventV) -> Outcome {
    match place(m.items, txt(ev.payload, "itemId"@)) {
        None => Err(DbError::NoRows),
        Some(i) => match patched(m.items[i].doc, ev.payload) {
            Err(e) => Err(e),
            Ok(doc) => if sku_taken(m.items, m.items[i].id, sku_of(doc)) {
                Err(DbError::Unique("items.sku"@))
            } else {
                Ok(ReadModel { items: m.items.update(i, Item { doc, ..m.items[i] }), ..m })
            },
        },
    }
}

pub open spec fn party_updated(m: ReadModel, ev: EventV) -> Outcome {
    match place(m.parties, txt(ev.payload, "partyId"@)) {
        None => Err(DbError::NoRows),
        Some(i) => match patched(m.parties[i].doc, ev.payload) {
            Err(e) => Err(e),
            Ok(doc) => Ok(
                ReadModel { parties: m.parties.update(i, Party { doc, ..m.parties[i] }), ..m },
            ),
        },
    }
}

/// Some row of the read model points at the item.
pub open spec fn item_in_use(m: ReadModel, id: Text) -> bool {
    referring(m, ITEM_REFS@, id) > 0
}

/// Some row of the read model points at the party.
pub open spec fn party_in_use(m: ReadModel, id: Text) -> bool {
    referring(m, PARTY_REFS@, id) > 0
}

/// Deletes an item that nothing points at; one that is in use stays.
pub open spec fn item_deleted(m: ReadModel, ev: EventV) -> Outcome {
    let id = txt(ev.payload, "itemId"@);
    match place(m.items, id) {
        Some(i) => if item_in_use(m, id) {
            Ok(m)
        } else {
            Ok(ReadModel { items: m.items.remove(i), ..m })
        },
        None => Ok(m),
    }
}

/// Deletes a party that nothing points at; one that is in use stays.
pub open spec fn party_deleted(m: ReadModel, ev: EventV) -> Outcome {
    let id = txt(ev.payload, "partyId"@);
    match place(m.parties, id) {
        Some(i) => if party_in_use(m, id) {
            Ok(m)
        } else {
            Ok(ReadModel { parties: m.parties.remove(i), ..m })
        },
        None => Ok(m),
    }
}

// ---- purchases and sales ----

/// The lot that a purchase line creates.
pub open spec fn purchased_lot(ev: EventV, line: JsonV) -> Lot<Text> {
    Lot {
        id: txt(line, "lotId"@),
        item_id: txt(line, "itemId"@),
        source_event_id: ev.id,
        purchase_id: Some(txt(ev.payload, "purchaseId"@)),
        unit_cost_minor: num(line, "unitCostMinor"@),
        qty_received: num(line, "qty"@),
        qty_remaining: num(line, "qty"@),
        acquired_at: txt(ev.payload, "date"@),
        supplier_id: opt_txt(ev.payload, "supplierId"@),
    }
}

pub open spec fn purchase_line(ev: EventV, line: JsonV, i: nat) -> PurchaseLine<Text> {
    PurchaseLine {
        id: line_id(ev.id, i),
        purchase_id: txt(ev.payload, "purchaseId"@),
        item_id: txt(line, "itemId"@),
        qty: num(line, "qty"@),
        unit_cost_minor: num(line, "unitCostMinor"@),
        lot_id: txt(line, "lotId"@),
    }
}

/// Adds the lots and lines of a purchase from line `i` on.
pub open spec fn purchase_lines_from(m: ReadModel, ev: EventV, lines: Seq<JsonV>, i: int) -> Outcome
    decreases lines.len() - i,
{
    if i >= lines.len() {
        Ok(m)
    } else {
        match add_purchase_line(
            add_lot(Ok(m), purchased_lot(ev, lines[i])),
            purchase_line(ev, lines[i], i as nat),
        ) {
            Err(e) => Err(e),
            Ok(m) => purchase_lines_from(m, ev, lines, i + 1),
        }
    }
}

pub open spec fn purchase_lines(o: Outcome, ev: EventV, lines: Seq<JsonV>) -> Outcome {
    match o {
        Err(e) => Err(e),
        Ok(m) => purchase_lines_from(m, ev, lines, 0),
    }
}

/// The invoice row of a purchase or sale.
pub open spec fn invoice(ev: EventV, id: Text, party: Option<Text>, total: i64) -> Invoice<Text> {
    Invoice {
        id,
        event_id: ev.id,
        party_id: party,
        date: txt(ev.payload, "date"@),
        terms: txt(ev.payload, "terms"@),
        total_minor: total,
        outstanding_minor: if on_credit(ev.payload) {
            total
        } else {
            0
        },
        reversed: false,
    }
}

/// A purchase creates its lots and debits inventory; on credit it is owed to the
/// supplier, otherwise the bank pays.
pub open spec fn purchase_recorded(m: ReadModel, ev: EventV) -> Outcome {
    let p = ev.payload;
    let id = txt(p, "purchaseId"@);
    let date = txt(p, "date"@);
    let supplier = opt_txt(p, "supplierId"@);
    let lines = list(p, "lines"@);
    match worth(lines, "qty"@, "unitCostMinor"@) {
        None => Err(DbError::Overflow),
        Some(total) => {
            let o = add_purchase(Ok(m), invoice(ev, id, supplier, total));
            let o = purchase_lines(o, ev, lines);
            let o = post_role(o, ev.id, id, 0, "inventory"@, total, 0, date);
            if on_credit(p) {
                let o = post_role(o, ev.id, id, 1, "accounts_payable"@, 0, total, date);
                match supplier {
                    Some(s) => adjust_party(o, s, 0, total as int, 0, 0),
                    None => o,
                }
            } else {
                post_role(o, ev.id, id, 1, "bank"@, 0, total, date)
            }
        },
    }
}

pub open spec fn consumption(ev: EventV, line: nat, part: JsonV, j: nat) -> LotConsumption<Text> {
    LotConsumption {
        id: ev.id + "#lc#"@ + digits(line) + "#"@ + digits(j),
        sale_line_id: line_id(ev.id, line),
        lot_id: txt(part, "lotId"@),
        qty_taken: num(part, "qtyTaken"@),
        unit_cost_minor: num(part, "unitCostMinor"@),
    }
}

/// Takes the units of sale line `line` out of its lots from part `j` on.
pub open spec fn consume_from(
    m: ReadModel,
    ev: EventV,
    line: nat,
    parts: Seq<JsonV>,
    j: int,
) -> Outcome
    decreases parts.len() - j,
{
    if j >= parts.len() {
        Ok(m)
    } else {
        match adjust_lot(
            add_consumption(Ok(m), consumption(ev, line, parts[j], j as nat)),
            txt(parts[j], "lotId"@),
            -num(parts[j], "qtyTaken"@),
        ) {
            Err(e) => Err(e),
            Ok(m) => consume_from(m, ev, line, parts, j + 1),
        }
    }
}

/// Adds one line of a sale with the profit frozen in it, and takes its units out of
/// their lots.
pub open spec fn sale_line(m: ReadModel, ev: EventV, line: JsonV, i: nat) -> Outcome {
    let parts = list(line, "lotConsumption"@);
    match (
        product(num(line, "qty"@), num(line, "unitPriceMinor"@)),
        worth(parts, "qtyTaken"@, "unitCostMinor"@),
    ) {
        (Some(revenue), Some(cogs)) => match add_sale_line(
            Ok(m),
            SaleLine {
                id: line_id(ev.id, i),
                sale_id: txt(ev.payload, "saleId"@),
                item_id: txt(line, "itemId"@),
                qty: num(line, "qty"@),
                unit_price_minor: num(line, "unitPriceMinor"@),
                revenue_minor: revenue,
                cogs_minor: cogs,
                date: txt(ev.payload, "date"@),
            },
        ) {
            Err(e) => Err(e),
            Ok(m) => consume_from(m, ev, i, parts, 0),
        },
        _ => Err(DbError::Overflow),
    }
}

/// Adds the lines of a sale from line `i` on.
pub open spec fn sale_lines_from(m: ReadModel, ev: EventV, lines: Seq<JsonV>, i: int) -> Outcome
    decreases lines.len() - i,
{
    if i >= lines.len() {
        Ok(m)
    } else {
        match sale_line(m, ev, lines[i], i as nat) {
            Err(e) => Err(e),
            Ok(m) => sale_lines_from(m, ev, lines, i + 1),
        }
    }
}

pub open spec fn sale_lines(o: Outcome, ev: EventV, lines: Seq<JsonV>) -> Outcome {
    match o {
        Err(e) => Err(e),
        Ok(m) => sale_lines_from(m, ev, lines, 0),
    }
}

/// A sale books its revenue against the receivable or the bank, and its cost out of
/// inventory.
pub open spec fn sale_recorded(m: ReadModel, ev: EventV) -> Outcome {
    let p = ev.payload;
    let id = txt(p, "saleId"@);
    let date = txt(p, "date"@);
    let customer = opt_txt(p, "customerId"@);
    let lines = list(p, "lines"@);
    match (
        worth(lines, "qty"@, "unitPriceMinor"@),
        nested_worth(lines, "lotConsumption"@, "qtyTaken"@, "unitCostMinor"@),
    ) {
        (Some(revenue), Some(cogs)) => {
            let o = add_sale(Ok(m), invoice(ev, id, customer, revenue));
            let o = sale_lines(o, ev, lines);
            let debtor = if on_credit(p) {
                "accounts_receivable"@
            } else {
                "bank"@
            };
            let o = post_role(o, ev.id, id, 0, debtor, revenue, 0, date);
            let o = post_role(o, ev.id, id, 1, "sales"@, 0, revenue, date);
            let o = post_role(o, ev.id, id, 2, "cogs"@, cogs, 0, date);
            let o = post_role(o, ev.id, id, 3, "inventory"@, 0, cogs, date);
            match customer {
                Some(c) => if on_credit(p) {
                    adjust_party(o, c, revenue as int, 0, 0, 0)
                } else {
                    o
                },
                None => o,
            }
        },
        _ => Err(DbError::Overflow),
    }
}

// ---- payments ----

pub open spec fn allocation(
    ev: EventV,
    i: nat,
    payment: Text,
    target: Text,
    target_type: Text,
    amount: i64,
) -> Allocation<Text> {
    Allocation {
        id: ev.id + "#alloc#"@ + digits(i),
        event_id: ev.id,
        payment_id: payment,
        target_id: target,
        target_type,
        amount_minor: amount,
    }
}

/// Settles invoices out of a payment from allocation `i` on.
pub open spec fn settle_from(
    m: ReadModel,
    ev: EventV,
    incoming: bool,
    party: Text,
    parts: Seq<JsonV>,
    i: int,
) -> Outcome
    decreases parts.len() - i,
{
    if i >= parts.len() {
        Ok(m)
    } else {
        let target = txt(
            parts[i],
            if incoming {
                "saleId"@
            } else {
                "purchaseId"@
            },
        );
        let amount = num(parts[i], "amountMinor"@);
        let kind = if incoming {
            "sale"@
        } else {
            "purchase"@
        };
        let o = add_allocation(
            Ok(m),
            allocation(ev, i as nat, txt(ev.payload, "paymentId"@), target, kind, amount),
        );
        let o = adjust_outstanding(o, incoming, target, -amount);
        let o = if incoming {
            adjust_party(o, party, -amount, 0, 0, 0)
        } else {
            adjust_party(o, party, 0, -amount, 0, 0)
        };
        match o {
            Err(e) => Err(e),
            Ok(m) => settle_from(m, ev, incoming, party, parts, i + 1),
        }
    }
}

pub open spec fn settle(
    o: Outcome,
    ev: EventV,
    incoming: bool,
    party: Text,
    parts: Seq<JsonV>,
) -> Outcome {
    match o {
        Err(e) => Err(e),
        Ok(m) => settle_from(m, ev, incoming, party, parts, 0),
    }
}

/// A payment moves money through the bank, settles the invoices it is allocated to,
/// and holds the rest as the party's credit.
pub open spec fn payment(m: ReadModel, ev: EventV, incoming: bool) -> Outcome {
    let p = ev.payload;
    let id = txt(p, "paymentId"@);
    let amount = num(p, "amountMinor"@);
    let date = txt(p, "date"@);
    let party = txt(
        p,
        if incoming {
            "customerId"@
        } else {
            "supplierId"@
        },
    );
    let parts = list(p, "allocations"@);
    match sum_of(parts, "amountMinor"@) {
        None => Err(DbError::Overflow),
        Some(allocated) => {
            let o = add_payment(
                Ok(m),
                Payment {
                    id,
                    event_id: ev.id,
                    party_id: party,
                    direction: if incoming {
                        "in"@
                    } else {
                        "out"@
                    },
                    amount_minor: amount,
                    date,
                },
            );
            let o = if incoming {
                post_role(
                    post_role(o, ev.id, id, 0, "bank"@, amount, 0, date),
                    ev.id,
                    id,
                    1,
                    "accounts_receivable"@,
                    0,
                    amount,
                    date,
                )
            } else {
                post_role(
                    post_role(o, ev.id, id, 0, "accounts_payable"@, amount, 0, date),
                    ev.id,
                    id,
                    1,
                    "bank"@,
                    0,
                    amount,
                    date,
                )
            };
            let o = settle(o, ev, incoming, party, parts);
            let rest = amount - allocated;
            if rest == 0 {
                o
            } else if incoming {
                adjust_party(o, party, 0, 0, rest, 0)
            } else {
                adjust_party(o, party, 0, 0, 0, rest)
            }
        },
    }
}

/// Applies held credit to invoices from allocation `i` on.
pub open spec fn allocate_from(m: ReadModel, ev: EventV, parts: Seq<JsonV>, i: int) -> Outcome
    decreases parts.len() - i,
{
    if i >= parts.len() {
        Ok(m)
    } else {
        let party = txt(ev.payload, "partyId"@);
        let target = txt(parts[i], "targetId"@);
        let kind = txt(parts[i], "targetType"@);
        let amount = num(parts[i], "amountMinor"@);
        let sale = kind == "sale"@;
        let o = add_allocation(
            Ok(m),
            allocation(ev, i as nat, txt(ev.payload, "paymentId"@), target, kind, amount),
        );
        let o = adjust_outstanding(o, sale, target, -amount);
        let o = if sale {
            adjust_party(o, party, -amount, 0, -amount, 0)
        } else {
            adjust_party(o, party, 0, -amount, 0, -amount)
        };
        match o {
            Err(e) => Err(e),
            Ok(m) => allocate_from(m, ev, parts, i + 1),
        }
    }
}

/// Held credit settles invoices without touching the journal.
pub open spec fn payment_allocated(m: ReadModel, ev: EventV) -> Outcome {
    allocate_from(m, ev, list(ev.payload, "allocations"@), 0)
}

// ---- money and stock movements ----

/// An expense debits its account; on credit it is owed to the supplier, otherwise
/// the bank pays.
pub open spec fn expense_recorded(m: ReadModel, ev: EventV) -> Outcome {
    let p = ev.payload;
    let id = txt(p, "expenseId"@);
    let account = txt(p, "accountId"@);
    let amount = num(p, "amountMinor"@);
    let date = txt(p, "date"@);
    let memo = opt_txt(p, "memo"@);
    let o = add_expense(
        Ok(m),
        Expense {
            id,
            event_id: ev.id,
            account_id: account,
            amount_minor: amount,
            date,
            memo,
            terms: txt(p, "terms"@),
        },
    );
    let o = post(o, ev.id, id, 0, account, amount, 0, date, memo);
    let role = if on_credit(p) {
        "accounts_payable"@
    } else {
        "bank"@
    };
    let o = match o {
        Err(e) => Err(e),
        Ok(m) => match role_id(m, role) {
            Err(e) => Err(e),
            Ok(a) => post(Ok(m), ev.id, id, 1, a, 0, amount, date, memo),
        },
    };
    match opt_txt(p, "supplierId"@) {
        Some(s) => if on_credit(p) {
            adjust_party(o, s, 0, amount as int, 0, 0)
        } else {
            o
        },
        None => o,
    }
}

/// A transfer debits the account it goes to and credits the one it comes from.
pub open spec fn transfer_recorded(m: ReadModel, ev: EventV) -> Outcome {
    let p = ev.payload;
    let id = txt(p, "transferId"@);
    let amount = num(p, "amountMinor"@);
    let date = txt(p, "date"@);
    let memo = opt_txt(p, "memo"@);
    post(
        post(Ok(m), ev.id, id, 0, txt(p, "toAccountId"@), amount, 0, date, memo),
        ev.id,
        id,
        1,
        txt(p, "fromAccountId"@),
        0,
        amount,
        date,
        memo,
    )
}

/// The account that a line names under `key`, or the one in `role`.
pub open spec fn named_or_role(m: ReadModel, line: JsonV, key: Text, role: Text) -> Result<
    Text,
    Fault,
> {
    match opt_txt(line, key) {
        Some(a) => Ok(a),
        None => role_id(m, role),
    }
}

/// Writes stock off from line `i` on: the lot shrinks and its value is expensed.
pub open spec fn adjust_lines_from(m: ReadModel, ev: EventV, lines: Seq<JsonV>, i: int) -> Outcome
    decreases lines.len() - i,
{
    if i >= lines.len() {
        Ok(m)
    } else {
        let p = ev.payload;
        let id = txt(p, "adjustmentId"@);
        let date = txt(p, "date"@);
        let line = lines[i];
        let lot = txt(line, "lotId"@);
        let qty = -num(line, "qtyDelta"@);
        match lookup(m.lots, lot) {
            None => Err(DbError::NoRows),
            Some(l) => {
                let value = qty * l.unit_cost_minor;
                if !fits(value) || 2 * i + 1 > u64::MAX {
                    Err(DbError::Overflow)
                } else {
                    match adjust_lot(Ok(m), lot, -qty) {
                        Err(e) => Err(e),
                        Ok(m) => match named_or_role(
                            m,
                            line,
                            "expenseAccountId"@,
                            "shrinkage"@,
                        ) {
                            Err(e) => Err(e),
                            Ok(account) => {
                                let o = post(
                                    Ok(m),
                                    ev.id,
                                    id,
                                    (2 * i) as nat,
                                    account,
                                    value as i64,
                                    0,
                                    date,
                                    None,
                                );
                                let o = post_role(
                                    o,
                                    ev.id,
                                    id,
                                    (2 * i + 1) as nat,
                                    "inventory"@,
                                    0,
                                    value as i64,
                                    date,
                                );
                                match o {
                                    Err(e) => Err(e),
                                    Ok(m) => adjust_lines_from(m, ev, lines, i + 1),
                                }
                            },
                        },
                    }
                }
            },
        }
    }
}

/// A stock write-off needs the inventory account, and then its lines are booked.
pub open spec fn inventory_adjusted(m: ReadModel, ev: EventV) -> Outcome {
    match role_id(m, "inventory"@) {
        Err(e) => Err(e),
        Ok(_) => adjust_lines_from(m, ev, list(ev.payload, "lines"@), 0),
    }
}

/// The lot of found or opening stock.
pub open spec fn stocked_lot(ev: EventV, line: JsonV, supplier: Option<Text>) -> Lot<Text> {
    Lot {
        id: txt(line, "lotId"@),
        item_id: txt(line, "itemId"@),
        source_event_id: ev.id,
        purchase_id: None,
        unit_cost_minor: num(line, "unitCostMinor"@),
        qty_received: num(line, "qty"@),
        qty_remaining: num(line, "qty"@),
        acquired_at: txt(line, "acquiredAt"@),
        supplier_id: supplier,
    }
}

/// Takes found stock in from line `i` on: a lot appears and its value is income.
pub open spec fn found_lines_from(m: ReadModel, ev: EventV, lines: Seq<JsonV>, i: int) -> Outcome
    decreases lines.len() - i,
{
    if i >= lines.len() {
        Ok(m)
    } else {
        let p = ev.payload;
        let id = txt(p, "foundId"@);
        let date = txt(p, "date"@);
        let line = lines[i];
        match product(num(line, "qty"@), num(line, "unitCostMinor"@)) {
            None => Err(DbError::Overflow),
            Some(value) => if 2 * i + 1 > u64::MAX {
                Err(DbError::Overflow)
            } else {
                match add_lot(Ok(m), stocked_lot(ev, line, None)) {
                    Err(e) => Err(e),
                    Ok(m) => match named_or_role(m, line, "incomeAccountId"@, "inventory_gain"@) {
                        Err(e) => Err(e),
                        Ok(account) => {
                            let o = post_role(
                                Ok(m),
                                ev.id,
                                id,
                                (2 * i) as nat,
                                "inventory"@,
                                value,
                                0,
                                date,
                            );
                            let o = post(
                                o,
                                ev.id,
                                id,
                                (2 * i + 1) as nat,
                                account,
                                0,
                                value,
                                date,
                                None,
                            );
                            match o {
                                Err(e) => Err(e),
                                Ok(m) => found_lines_from(m, ev, lines, i + 1),
                            }
                        },
                    },
                }
            },
        }
    }
}

/// Found stock needs the inventory account, and then its lines are booked.
pub open spec fn inventory_found(m: ReadModel, ev: EventV) -> Outcome {
    match role_id(m, "inventory"@) {
        Err(e) => Err(e),
        Ok(_) => found_lines_from(m, ev, list(ev.payload, "lines"@), 0),
    }
}

/// Posts given debits and credits from line `i` on.
pub open spec fn given_lines_from(
    m: ReadModel,
    ev: EventV,
    lines: Seq<JsonV>,
    date: Text,
    memo: Text,
    i: int,
) -> Outcome
    decreases lines.len() - i,
{
    if i >= lines.len() {
        Ok(m)
    } else {
        match post(
            Ok(m),
            ev.id,
            ev.id,
            i as nat,
            txt(lines[i], "accountId"@),
            num(lines[i], "debitMinor"@),
            num(lines[i], "creditMinor"@),
            date,
            Some(memo),
        ) {
            Err(e) => Err(e),
            Ok(m) => given_lines_from(m, ev, lines, date, memo, i + 1),
        }
    }
}

/// Adds the lots of opening stock from lot `i` on.
pub open spec fn opening_lots_from(m: ReadModel, ev: EventV, lots: Seq<JsonV>, i: int) -> Outcome
    decreases lots.len() - i,
{
    if i >= lots.len() {
        Ok(m)
    } else {
        match add_lot(Ok(m), stocked_lot(ev, lots[i], opt_txt(lots[i], "supplierId"@))) {
            Err(e) => Err(e),
            Ok(m) => opening_lots_from(m, ev, lots, i + 1),
        }
    }
}

/// Opening balances post the given lines and create the opening lots.
pub open spec fn opening_balances(m: ReadModel, ev: EventV) -> Outcome {
    match given_lines_from(
        m,
        ev,
        list(ev.payload, "accountBalances"@),
        txt(ev.payload, "date"@),
        "opening balance"@,
        0,
    ) {
        Err(e) => Err(e),
        Ok(m) => opening_lots_from(m, ev, list(ev.payload, "lots"@), 0),
    }
}

// ---- returns ----

/// Puts returned units back into their lots from part `j` on; `n` return lines
/// stand before them.
pub open spec fn restock_from(
    m: ReadModel,
    ev: EventV,
    line: JsonV,
    parts: Seq<JsonV>,
    j: int,
    n: int,
) -> Outcome
    decreases parts.len() - j,
{
    if j >= parts.len() {
        Ok(m)
    } else if n + j >= u64::MAX {
        Err(DbError::Overflow)
    } else {
        let part = parts[j];
        let o = adjust_lot(Ok(m), txt(part, "lotId"@), num(part, "qtyReturned"@) as int);
        match add_return_line(
            o,
            ReturnLine {
                id: line_id(ev.id, (n + j) as nat),
                return_id: txt(ev.payload, "returnId"@),
                item_id: txt(line, "itemId"@),
                qty: num(part, "qtyReturned"@),
                unit_price_minor: num(line, "unitPriceMinor"@),
                unit_cost_minor: num(part, "unitCostMinor"@),
                lot_id: txt(part, "lotId"@),
            },
        ) {
            Err(e) => Err(e),
            Ok(m) => restock_from(m, ev, line, parts, j + 1, n),
        }
    }
}

/// Books the lines of a sale return from line `i` on; `n` return lines stand before
/// them.
pub open spec fn sale_return_lines_from(
    m: ReadModel,
    ev: EventV,
    lines: Seq<JsonV>,
    i: int,
    n: int,
) -> Outcome
    decreases lines.len() - i,
{
    if i >= lines.len() {
        Ok(m)
    } else {
        let parts = list(lines[i], "lotReturns"@);
        match restock_from(m, ev, lines[i], parts, 0, n) {
            Err(e) => Err(e),
            Ok(m) => sale_return_lines_from(m, ev, lines, i + 1, n + parts.len()),
        }
    }
}

pub open spec fn sale_return_lines(o: Outcome, ev: EventV, lines: Seq<JsonV>) -> Outcome {
    match o {
        Err(e) => Err(e),
        Ok(m) => sale_return_lines_from(m, ev, lines, 0, 0),
    }
}

/// The smaller of a refund and what is outstanding, where anything is.
pub open spec fn reduction(refund: i64, outstanding: i64) -> int {
    let open = if outstanding > 0 {
        outstanding as int
    } else {
        0
    };
    if refund <= open {
        refund as int
    } else {
        open
    }
}

/// A sale return restores stock at cost and takes the revenue back; what the
/// invoice no longer owes becomes the customer's credit.
pub open spec fn sale_return(m: ReadModel, ev: EventV) -> Outcome {
    let p = ev.payload;
    let id = txt(p, "returnId"@);
    let original = txt(p, "originalSaleId"@);
    let date = txt(p, "date"@);
    let lines = list(p, "lines"@);
    match (
        worth(lines, "qty"@, "unitPriceMinor"@),
        nested_worth(lines, "lotReturns"@, "qtyReturned"@, "unitCostMinor"@),
    ) {
        (Some(revenue), Some(cost)) => {
            let o = add_return(
                Ok(m),
                Return {
                    id,
                    event_id: ev.id,
                    return_type: "sale_return"@,
                    original_id: original,
                    date,
                    revenue_reversed_minor: revenue,
                    cost_restored_minor: cost,
                },
            );
            let o = sale_return_lines(o, ev, lines);
            match lookup(m.sales, original) {
                None => match o {
                    Err(e) => Err(e),
                    Ok(_) => Err(DbError::NoRows),
                },
                Some(sale) => {
                    let refund = if sale.party_id is Some {
                        "accounts_receivable"@
                    } else {
                        "bank"@
                    };
                    let o = post_role(o, ev.id, id, 0, "sales"@, revenue, 0, date);
                    let o = post_role(o, ev.id, id, 1, refund, 0, revenue, date);
                    let o = post_role(o, ev.id, id, 2, "inventory"@, cost, 0, date);
                    let o = post_role(o, ev.id, id, 3, "cogs"@, 0, cost, date);
                    match sale.party_id {
                        Some(c) => {
                            let reduce = reduction(revenue, sale.outstanding_minor);
                            let o = adjust_outstanding(o, true, original, -reduce);
                            adjust_party(o, c, -reduce, 0, revenue - reduce, 0)
                        },
                        None => o,
                    }
                },
            }
        },
        _ => Err(DbError::Overflow),
    }
}

/// Books the lines of a purchase return from line `i` on.
pub open spec fn purchase_return_lines_from(
    m: ReadModel,
    ev: EventV,
    lines: Seq<JsonV>,
    i: int,
) -> Outcome
    decreases lines.len() - i,
{
    if i >= lines.len() {
        Ok(m)
    } else {
        let line = lines[i];
        let o = adjust_lot(Ok(m), txt(line, "lotId"@), -num(line, "qty"@));
        match add_return_line(
            o,
            ReturnLine {
                id: line_id(ev.id, i as nat),
                return_id: txt(ev.payload, "returnId"@),
                item_id: txt(line, "itemId"@),
                qty: num(line, "qty"@),
                unit_price_minor: 0,
                unit_cost_minor: num(line, "unitCostMinor"@),
                lot_id: txt(line, "lotId"@),
            },
        ) {
            Err(e) => Err(e),
            Ok(m) => purchase_return_lines_from(m, ev, lines, i + 1),
        }
    }
}

pub open spec fn purchase_return_lines(o: Outcome, ev: EventV, lines: Seq<JsonV>) -> Outcome {
    match o {
        Err(e) => Err(e),
        Ok(m) => purchase_return_lines_from(m, ev, lines, 0),
    }
}

/// A purchase return takes stock out at cost; what the invoice no longer owes
/// becomes credit with the supplier.
pub open spec fn purchase_return(m: ReadModel, ev: EventV) -> Outcome {
    let p = ev.payload;
    let id = txt(p, "returnId"@);
    let original = txt(p, "originalPurchaseId"@);
    let date = txt(p, "date"@);
    let lines = list(p, "lines"@);
    match worth(lines, "qty"@, "unitCostMinor"@) {
        None => Err(DbError::Overflow),
        Some(cost) => {
            let o = add_return(
                Ok(m),
                Return {
                    id,
                    event_id: ev.id,
                    return_type: "purchase_return"@,
                    original_id: original,
                    date,
                    revenue_reversed_minor: 0,
                    cost_restored_minor: cost,
                },
            );
            let o = purchase_return_lines(o, ev, lines);
            match lookup(m.purchases, original) {
                None => match o {
                    Err(e) => Err(e),
                    Ok(_) => Err(DbError::NoRows),
                },
                Some(purchase) => {
                    let refund = if purchase.party_id is Some {
                        "accounts_payable"@
                    } else {
                        "bank"@
                    };
                    let o = post_role(o, ev.id, id, 0, refund, cost, 0, date);
                    let o = post_role(o, ev.id, id, 1, "inventory"@, 0, cost, date);
                    match purchase.party_id {
                        Some(s) => {
                            let reduce = reduction(cost, purchase.outstanding_minor);
                            let o = adjust_outstanding(o, false, original, -reduce);
                            adjust_party(o, s, 0, -reduce, 0, cost - reduce)
                        },
                        None => o,
                    }
                },
            }
        },
    }
}

// ---- reversals ----

/// Empties every lot that an event created.
pub open spec fn clear_lots(o: Outcome, event: Text) -> Outcome {
    match o {
        Err(e) => Err(e),
        Ok(m) => Ok(
            ReadModel {
                lots: Seq::new(
                    m.lots.len(),
                    |i: int|
                        if m.lots[i].source_event_id == event {
                            Lot { qty_remaining: 0, ..m.lots[i] }
                        } else {
                            m.lots[i]
                        },
                ),
                ..m
            },
        ),
    }
}

/// The consumption belongs to a line of the sale.
pub open spec fn consumed_by(m: ReadModel, c: LotConsumption<Text>, sale: Text) -> bool {
    lookup(m.sale_lines, c.sale_line_id) matches Some(l) && l.sale_id == sale
}

/// Puts back what a sale took out of lots, from consumption row `i` on.
pub open spec fn unconsume_from(m: ReadModel, sale: Text, i: int) -> Outcome
    decreases m.consumptions.len() - i,
{
    if i >= m.consumptions.len() {
        Ok(m)
    } else if !consumed_by(m, m.consumptions[i], sale) {
        unconsume_from(m, sale, i + 1)
    } else {
        match adjust_lot(Ok(m), m.consumptions[i].lot_id, m.consumptions[i].qty_taken as int) {
            Err(e) => Err(e),
            Ok(n) => if n.consumptions.len() == m.consumptions.len() {
                unconsume_from(n, sale, i + 1)
            } else {
                Ok(n)
            },
        }
    }
}

/// Moves lots by the amounts under `key` from line `i` on: up, or down.
pub open spec fn move_lots_from(
    m: ReadModel,
    lines: Seq<JsonV>,
    key: Text,
    up: bool,
    i: int,
) -> Outcome
    decreases lines.len() - i,
{
    if i >= lines.len() {
        Ok(m)
    } else {
        let amount = num(lines[i], key);
        let delta = if up {
            amount as int
        } else {
            -amount
        };
        match adjust_lot(Ok(m), txt(lines[i], "lotId"@), delta) {
            Err(e) => Err(e),
            Ok(m) => move_lots_from(m, lines, key, up, i + 1),
        }
    }
}

/// Takes returned units out of lots again, from return line `i` on.
pub open spec fn unreturn_from(m: ReadModel, lines: Seq<JsonV>, i: int) -> Outcome
    decreases lines.len() - i,
{
    if i >= lines.len() {
        Ok(m)
    } else {
        match move_lots_from(m, list(lines[i], "lotReturns"@), "qtyReturned"@, false, 0) {
            Err(e) => Err(e),
            Ok(m) => unreturn_from(m, lines, i + 1),
        }
    }
}

/// What a reversal does to lots.
pub open spec fn revert_lots(o: Outcome, target: EventV) -> Outcome {
    match o {
        Err(e) => Err(e),
        Ok(m) => {
            let ty = target.event_type;
            let tp = target.payload;
            if ty == "PurchaseRecorded"@ || ty == "InventoryFound"@ || ty
                == "OpeningBalancesRecorded"@ {
                clear_lots(Ok(m), target.id)
            } else if ty == "SaleRecorded"@ {
                unconsume_from(m, txt(tp, "saleId"@), 0)
            } else if ty == "PurchaseReturnRecorded"@ {
                move_lots_from(m, list(tp, "lines"@), "qty"@, true, 0)
            } else if ty == "InventoryAdjusted"@ {
                move_lots_from(m, list(tp, "lines"@), "qtyDelta"@, false, 0)
            } else if ty == "SaleReturnRecorded"@ {
                unreturn_from(m, list(tp, "lines"@), 0)
            } else {
                Ok(m)
            }
        },
    }
}

/// Reopens the invoices that an event's allocations settled, from row `i` on.
pub open spec fn reopen_from(m: ReadModel, event: Text, i: int) -> Outcome
    decreases m.allocations.len() - i,
{
    if i >= m.allocations.len() {
        Ok(m)
    } else if m.allocations[i].event_id != event {
        reopen_from(m, event, i + 1)
    } else {
        let a = m.allocations[i];
        match adjust_outstanding(
            Ok(m),
            a.target_type == "sale"@,
            a.target_id,
            a.amount_minor as int,
        ) {
            Err(e) => Err(e),
            Ok(n) => if n.allocations.len() == m.allocations.len() {
                reopen_from(n, event, i + 1)
            } else {
                Ok(n)
            },
        }
    }
}

/// Gives back the held credit that an event's allocations used, from row `i` on.
pub open spec fn unallocate_from(m: ReadModel, event: Text, party: Text, i: int) -> Outcome
    decreases m.allocations.len() - i,
{
    if i >= m.allocations.len() {
        Ok(m)
    } else if m.allocations[i].event_id != event {
        unallocate_from(m, event, party, i + 1)
    } else {
        let amount = m.allocations[i].amount_minor as int;
        let o = if m.allocations[i].target_type == "sale"@ {
            adjust_party(Ok(m), party, amount, 0, amount, 0)
        } else {
            adjust_party(Ok(m), party, 0, amount, 0, amount)
        };
        match o {
            Err(e) => Err(e),
            Ok(n) => if n.allocations.len() == m.allocations.len() {
                unallocate_from(n, event, party, i + 1)
            } else {
                Ok(n)
            },
        }
    }
}

/// The sum of an event's allocations.
pub open spec fn allocated_by(t: Seq<Allocation<Text>>, event: Text) -> Option<i64>
    decreases t.len(),
{
    if t.len() == 0 {
        Some(0)
    } else if t.last().event_id == event {
        plus(allocated_by(t.drop_last(), event), Some(t.last().amount_minor))
    } else {
        allocated_by(t.drop_last(), event)
    }
}

/// The allocations that are not an event's.
pub open spec fn allocations_but(t: Seq<Allocation<Text>>, event: Text) -> Seq<Allocation<Text>> {
    t.filter(|a: Allocation<Text>| a.event_id != event)
}

/// Takes back a party's payment: what it settled is owed again and the rest is no
/// longer held.
pub open spec fn unpay(m: ReadModel, target: EventV, incoming: bool) -> Outcome {
    let tp = target.payload;
    let party = txt(
        tp,
        if incoming {
            "customerId"@
        } else {
            "supplierId"@
        },
    );
    match place(m.payments, txt(tp, "paymentId"@)) {
        None => Err(DbError::NoRows),
        Some(i) => match allocated_by(m.allocations, target.id) {
            None => Err(DbError::Overflow),
            Some(allocated) => {
                let rest = m.payments[i].amount_minor - allocated;
                let o = if incoming {
                    adjust_party(Ok(m), party, allocated as int, 0, -rest, 0)
                } else {
                    adjust_party(Ok(m), party, 0, allocated as int, 0, -rest)
                };
                match o {
                    Err(e) => Err(e),
                    Ok(m) => Ok(ReadModel { payments: m.payments.remove(i), ..m }),
                }
            },
        },
    }
}

/// Marks an invoice as reversed with nothing outstanding.
pub open spec fn voided(t: Seq<Invoice<Text>>, i: int) -> Seq<Invoice<Text>> {
    t.update(i, Invoice { outstanding_minor: 0, reversed: true, ..t[i] })
}

/// What a reversal does to invoices, payments and party balances.
pub open spec fn revert_balances(o: Outcome, target: EventV) -> Outcome {
    match o {
        Err(e) => Err(e),
        Ok(m) => {
            let ty = target.event_type;
            let tp = target.payload;
            if ty == "PaymentReceived"@ || ty == "PaymentMade"@ || ty == "PaymentAllocated"@ {
                let o = match reopen_from(m, target.id, 0) {
                    Err(e) => Err(e),
                    Ok(m) => if ty == "PaymentAllocated"@ {
                        unallocate_from(m, target.id, txt(tp, "partyId"@), 0)
                    } else {
                        unpay(m, target, ty == "PaymentReceived"@)
                    },
                };
                match o {
                    Err(e) => Err(e),
                    Ok(m) => Ok(
                        ReadModel { allocations: allocations_but(m.allocations, target.id), ..m },
                    ),
                }
            } else if ty == "SaleRecorded"@ {
                match place(m.sales, txt(tp, "saleId"@)) {
                    None => Err(DbError::NoRows),
                    Some(i) => {
                        let sale = m.sales[i];
                        let o = Ok(ReadModel { sales: voided(m.sales, i), ..m });
                        match sale.party_id {
                            Some(c) => if sale.terms == "credit"@ {
                                adjust_party(o, c, -sale.total_minor, 0, 0, 0)
                            } else {
                                o
                            },
                            None => o,
                        }
                    },
                }
            } else if ty == "PurchaseRecorded"@ {
                match place(m.purchases, txt(tp, "purchaseId"@)) {
                    None => Err(DbError::NoRows),
                    Some(i) => {
                        let purchase = m.purchases[i];
                        let o = Ok(ReadModel { purchases: voided(m.purchases, i), ..m });
                        match purchase.party_id {
                            Some(s) => if purchase.terms == "credit"@ {
                                adjust_party(o, s, 0, -purchase.total_minor, 0, 0)
                            } else {
                                o
                            },
                            None => o,
                        }
                    },
                }
            } else {
                Ok(m)
            }
        },
    }
}

/// A reversal posts the given lines on the target's date and undoes what the target
/// did to stock, invoices and balances.
pub open spec fn transaction_reversed(m: ReadModel, log: Seq<EventV>, ev: EventV) -> Outcome {
    match lookup(log, txt(ev.payload, "targetEventId"@)) {
        None => Err(DbError::NoRows),
        Some(target) => {
            let o = given_lines_from(
                m,
                ev,
                list(ev.payload, "reversalJournalLines"@),
                txt(target.payload, "date"@),
                "reversal"@,
                0,
            );
            revert_balances(revert_lots(o, target), target)
        },
    }
}

/// What one event does to the read model, given the log.
pub open spec fn project(m: ReadModel, log: Seq<EventV>, ev: EventV) -> Outcome {
    let ty = ev.event_type;
    if ty == "UserRegistered"@ {
        user_registered(m, ev)
    } else if ty == "AccountOpened"@ {
        account_opened(m, ev)
    } else if ty == "ItemDefined"@ {
        item_defined(m, ev)
    } else if ty == "PartyCreated"@ {
        party_created(m, ev)
    } else if ty == "UserUpdated"@ {
        user_updated(m, ev)
    } else if ty == "AccountUpdated"@ {
        account_updated(m, ev)
    } else if ty == "ItemUpdated"@ {
        item_updated(m, ev)
    } else if ty == "PartyUpdated"@ {
        party_updated(m, ev)
    } else if ty == "ItemDeleted"@ {
        item_deleted(m, ev)
    } else if ty == "PartyDeleted"@ {
        party_deleted(m, ev)
    } else if ty == "PurchaseRecorded"@ {
        purchase_recorded(m, ev)
    } else if ty == "SaleRecorded"@ {
        sale_recorded(m, ev)
    } else if ty == "PaymentReceived"@ {
        payment(m, ev, true)
    } else if ty == "PaymentMade"@ {
        payment(m, ev, false)
    } else if ty == "PaymentAllocated"@ {
        payment_allocated(m, ev)
    } else if ty == "ExpenseRecorded"@ {
        expense_recorded(m, ev)
    } else if ty == "TransferRecorded"@ {
        transfer_recorded(m, ev)
    } else if ty == "InventoryAdjusted"@ {
        inventory_adjusted(m, ev)
    } else if ty == "InventoryFound"@ {
        inventory_found(m, ev)
    } else if ty == "OpeningBalancesRecorded"@ {
        opening_balances(m, ev)
    } else if ty == "SaleReturnRecorded"@ {
        sale_return(m, ev)
    } else if ty == "PurchaseReturnRecorded"@ {
        purchase_return(m, ev)
    } else if ty == "TransactionReversed"@ {
        transaction_reversed(m, log, ev)
    } else {
        Err(DbError::NoHandler(ty))
    }
}

/// What the events from `i` on do to the read model, one after the other.
pub open spec fn replay_from(m: ReadModel, log: Seq<EventV>, events: Seq<EventV>, i: int) -> Outcome
    decreases events.len() - i,
{
    if i >= events.len() {
        Ok(m)
    } else {
        match project(m, log, events[i]) {
            Err(e) => Err(e),
            Ok(m) => replay_from(m, log, events, i + 1),
        }
    }
}

} // verus!
