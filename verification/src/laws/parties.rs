//! What parties owe and are owed follows the books.

use crate::events::EventV;
use crate::json::{list, num, opt_txt, txt, JsonV};
use crate::laws::double_entry::lemma_types;
use crate::laws::frames::{
    keeps_given_lines, keeps_opening_lots, keeps_purchase_lines, keeps_purchase_return_lines,
    keeps_reopen, keeps_revert_balances, keeps_revert_lots, keeps_sale_lines,
    keeps_sale_return_lines, keeps_settle,
};
use crate::laws::reversal::stated;
use crate::laws::roles::{
    held_after, held_in, lemma_opening_holds, lemma_other_role, lemma_post_holds,
    lemma_update_holds,
};
use crate::laws::stock::{
    book, entry, lemma_given_book, lemma_given_holds, lemma_stated_projected, lemma_sum_push,
    lemma_sum_take, lemma_sum_update, lines_spare,
};
use crate::laws::unbooked::only;
use crate::model::{
    account_updated, add_allocation, add_expense, add_lot, add_payment, add_purchase, add_return,
    add_sale, adjust_lines_from, adjust_lot, adjust_outstanding, adjust_party, allocate_from,
    allocated_by, allocation, expense_recorded, found_lines_from, given_lines_from, invoice,
    journal_line, moved_balance, named_or_role, nested_worth, on_credit, opening_balances, payment,
    post, post_role, product, project, purchase_lines, purchase_recorded, purchase_return,
    purchase_return_lines, reduction, reopen_from, revert_balances, revert_lots, role_id,
    sale_lines, sale_recorded, sale_return, sale_return_lines, settle, settle_from, stocked_lot,
    sum_of, transaction_reversed, transfer_recorded, unallocate_from, unpay, voided, worth,
    zero_balance, Fault, Outcome, Text,
};
use crate::rows::{distinct, lemma_has, lookup, place};
use crate::sums::sum_over;
use crate::tables::{Balance, Expense, Invoice, JournalLine, Payment, ReadModel, Return};
use vstd::prelude::*;

verus! {

/// The role of the account for what customers owe, or for what suppliers are owed.
pub open spec fn side_role(receivable: bool) -> Text {
    if receivable {
        "accounts_receivable"@
    } else {
        "accounts_payable"@
    }
}

/// What a party owes beyond the credit held for it, or is owed beyond the credit held
/// with it.
pub open spec fn net(b: Balance<Text>, receivable: bool) -> int {
    if receivable {
        b.receivable_minor - b.unallocated_cr_minor
    } else {
        b.payable_minor - b.unallocated_dr_minor
    }
}

/// The same of all parties.
pub open spec fn net_total(t: Seq<Balance<Text>>, receivable: bool) -> int {
    sum_over(t, |b: Balance<Text>| net(b, receivable))
}

/// What the journal says of a side: debits less credits of what is owed, or credits less
/// debits of what owes.
pub open spec fn side_book(journal: Seq<JournalLine<Text>>, receivable: bool, account: Text) -> int {
    if receivable {
        book(journal, account)
    } else {
        -book(journal, account)
    }
}

/// By how much the parties of a side differ from its account.
pub open spec fn side_drift(m: ReadModel, receivable: bool) -> int {
    net_total(m.balances, receivable) - side_book(
        m.journal,
        receivable,
        role_id(m, side_role(receivable))->Ok_0,
    )
}

/// The same after some steps, for a given account.
pub open spec fn side_after(o: Outcome, receivable: bool, account: Text) -> int {
    match o {
        Ok(m) => net_total(m.balances, receivable) - side_book(m.journal, receivable, account),
        Err(_) => 0,
    }
}

/// What a step adds.
pub open spec fn side_shift(
    o: Outcome,
    next: Outcome,
    receivable: bool,
    account: Text,
    change: int,
) -> int {
    if next is Ok {
        side_after(o, receivable, account) + change
    } else {
        0
    }
}

/// The account of the side is the given one after some steps, unless these failed.
pub open spec fn sided(o: Outcome, receivable: bool, account: Text) -> bool {
    held_after(o, side_role(receivable), account)
}

/// What a posting to the account of a side takes from the difference.
pub open spec fn side_entry(receivable: bool, debit: i64, credit: i64) -> int {
    if receivable {
        credit - debit
    } else {
        debit - credit
    }
}

broadcast proof fn lemma_post(
    o: Outcome,
    event: Text,
    txn: Text,
    index: nat,
    posted: Text,
    debit: i64,
    credit: i64,
    date: Text,
    memo: Option<Text>,
    receivable: bool,
    account: Text,
)
    ensures
        #[trigger] side_after(
            post(o, event, txn, index, posted, debit, credit, date, memo),
            receivable,
            account,
        ) == side_shift(
            o,
            post(o, event, txn, index, posted, debit, credit, date, memo),
            receivable,
            account,
            if posted == account {
                side_entry(receivable, debit, credit)
            } else {
                0
            },
        ),
        sided(o, receivable, account) ==> sided(
            post(o, event, txn, index, posted, debit, credit, date, memo),
            receivable,
            account,
        ),
{
    if let Ok(m) = o {
        if let Ok(n) = post(o, event, txn, index, posted, debit, credit, date, memo) {
            let line = journal_line(event, txn, index, posted, debit, credit, date, memo);
            lemma_sum_push(m.journal, line, |l: JournalLine<Text>| entry(l, account));
            if held_in(m, side_role(receivable), account) {
                lemma_post_holds(
                    m,
                    event,
                    txn,
                    index,
                    posted,
                    debit,
                    credit,
                    date,
                    memo,
                    side_role(receivable),
                    account,
                );
            }
        }
    }
}

broadcast proof fn lemma_post_role(
    o: Outcome,
    event: Text,
    txn: Text,
    index: nat,
    role: Text,
    debit: i64,
    credit: i64,
    date: Text,
    receivable: bool,
    account: Text,
)
    requires
        sided(o, receivable, account),
    ensures
        #[trigger] side_after(
            post_role(o, event, txn, index, role, debit, credit, date),
            receivable,
            account,
        ) == side_shift(
            o,
            post_role(o, event, txn, index, role, debit, credit, date),
            receivable,
            account,
            if role == side_role(receivable) {
                side_entry(receivable, debit, credit)
            } else {
                0
            },
        ),
        sided(post_role(o, event, txn, index, role, debit, credit, date), receivable, account),
{
    if let Ok(m) = o {
        if let Ok(a) = role_id(m, role) {
            lemma_post(Ok(m), event, txn, index, a, debit, credit, date, None, receivable, account);
            if role != side_role(receivable) {
                lemma_other_role(m, side_role(receivable), account, role);
            }
        }
    }
}

broadcast proof fn lemma_adjust_party(
    o: Outcome,
    party: Text,
    r: int,
    p: int,
    c: int,
    d: int,
    receivable: bool,
    account: Text,
)
    ensures
        #[trigger] side_after(adjust_party(o, party, r, p, c, d), receivable, account)
            == side_shift(
            o,
            adjust_party(o, party, r, p, c, d),
            receivable,
            account,
            if receivable {
                r - c
            } else {
                p - d
            },
        ),
        sided(o, receivable, account) ==> sided(
            adjust_party(o, party, r, p, c, d),
            receivable,
            account,
        ),
{
    if let Ok(m) = o {
        if let Ok(n) = adjust_party(o, party, r, p, c, d) {
            let f = |b: Balance<Text>| net(b, receivable);
            lemma_has(m.balances, party);
            match place(m.balances, party) {
                Some(i) => {
                    let b = moved_balance(m.balances[i], r, p, c, d)->Ok_0;
                    lemma_sum_update(m.balances, i, b, f);
                },
                None => {
                    let b = moved_balance(zero_balance(party), r, p, c, d)->Ok_0;
                    lemma_sum_push(m.balances, b, f);
                },
            }
        }
    }
}

broadcast proof fn lemma_adjust_outstanding(
    o: Outcome,
    sale: bool,
    id: Text,
    delta: int,
    receivable: bool,
    account: Text,
)
    ensures
        #[trigger] side_after(adjust_outstanding(o, sale, id, delta), receivable, account)
            == side_shift(o, adjust_outstanding(o, sale, id, delta), receivable, account, 0),
        sided(o, receivable, account) ==> sided(
            adjust_outstanding(o, sale, id, delta),
            receivable,
            account,
        ),
{
}

/// The two accounts are in roles of their own.
proof fn lemma_roles()
    ensures
        "accounts_receivable"@ != "accounts_payable"@,
        "bank"@ != "accounts_receivable"@,
        "bank"@ != "accounts_payable"@,
        "sales"@ != "accounts_receivable"@,
        "sales"@ != "accounts_payable"@,
        "cogs"@ != "accounts_receivable"@,
        "cogs"@ != "accounts_payable"@,
        "inventory"@ != "accounts_receivable"@,
        "inventory"@ != "accounts_payable"@,
        "shrinkage"@ != "accounts_receivable"@,
        "shrinkage"@ != "accounts_payable"@,
        "inventory_gain"@ != "accounts_receivable"@,
        "inventory_gain"@ != "accounts_payable"@,
{
    reveal_strlit("accounts_receivable");
    reveal_strlit("accounts_payable");
    reveal_strlit("bank");
    reveal_strlit("sales");
    reveal_strlit("cogs");
    reveal_strlit("inventory");
    reveal_strlit("shrinkage");
    reveal_strlit("inventory_gain");
    assert("accounts_receivable"@.len() == 19);
    assert("accounts_payable"@.len() == 16);
    assert("bank"@.len() == 4);
    assert("sales"@.len() == 5);
    assert("cogs"@.len() == 4);
    assert("inventory"@.len() == 9);
    assert("shrinkage"@.len() == 9);
    assert("inventory_gain"@.len() == 14);
}

/// The sum of amounts, where it is given, is exact.
proof fn lemma_sum_of(lines: Seq<JsonV>, key: Text)
    ensures
        sum_of(lines, key) matches Some(w) ==> w == sum_over(lines, |l: JsonV| num(l, key) as int),
    decreases lines.len(),
{
    if lines.len() > 0 {
        lemma_sum_of(lines.drop_last(), key);
    }
}

proof fn lemma_settle(
    m: ReadModel,
    ev: EventV,
    incoming: bool,
    party: Text,
    parts: Seq<JsonV>,
    i: int,
    receivable: bool,
    account: Text,
)
    requires
        0 <= i <= parts.len(),
        held_in(m, side_role(receivable), account),
    ensures
        settle_from(m, ev, incoming, party, parts, i) matches Ok(n) ==> held_in(
            n,
            side_role(receivable),
            account,
        ) && side_after(Ok(n), receivable, account) == side_after(Ok(m), receivable, account)
            - if incoming == receivable {
            sum_over(parts, |l: JsonV| num(l, "amountMinor"@) as int) - sum_over(
                parts.take(i),
                |l: JsonV| num(l, "amountMinor"@) as int,
            )
        } else {
            0
        },
    decreases parts.len() - i,
{
    broadcast use {lemma_adjust_party, lemma_adjust_outstanding};

    let f = |l: JsonV| num(l, "amountMinor"@) as int;
    if i < parts.len() {
        let target = txt(
            parts[i],
            if incoming {
                "saleId"@
            } else {
                "purchaseId"@
            },
        );
        let amount = num(parts[i], "amountMinor"@);
        let kind = if incoming {
            "sale"@
        } else {
            "purchase"@
        };
        let a = add_allocation(
            Ok(m),
            allocation(ev, i as nat, txt(ev.payload, "paymentId"@), target, kind, amount),
        );
        let b = adjust_outstanding(a, incoming, target, -amount);
        let c = if incoming {
            adjust_party(b, party, -amount, 0, 0, 0)
        } else {
            adjust_party(b, party, 0, -amount, 0, 0)
        };
        lemma_sum_take(parts, i, f);
        if let Ok(n) = c {
            assert(side_after(b, receivable, account) == side_after(Ok(m), receivable, account));
            assert(side_after(c, receivable, account) == side_after(Ok(n), receivable, account));
            lemma_settle(n, ev, incoming, party, parts, i + 1, receivable, account);
        }
    } else {
        assert(parts.take(i) =~= parts);
    }
}

proof fn lemma_allocate(
    m: ReadModel,
    ev: EventV,
    parts: Seq<JsonV>,
    i: int,
    receivable: bool,
    account: Text,
)
    requires
        0 <= i,
        held_in(m, side_role(receivable), account),
    ensures
        allocate_from(m, ev, parts, i) matches Ok(n) ==> held_in(
            n,
            side_role(receivable),
            account,
        ) && side_after(Ok(n), receivable, account) == side_after(Ok(m), receivable, account),
    decreases parts.len() - i,
{
    broadcast use {lemma_adjust_party, lemma_adjust_outstanding};

    if i < parts.len() {
        let party = txt(ev.payload, "partyId"@);
        let target = txt(parts[i], "targetId"@);
        let kind = txt(parts[i], "targetType"@);
        let amount = num(parts[i], "amountMinor"@);
        let sale = kind == "sale"@;
        let a = add_allocation(
            Ok(m),
            allocation(ev, i as nat, txt(ev.payload, "paymentId"@), target, kind, amount),
        );
        let b = adjust_outstanding(a, sale, target, -amount);
        let c = if sale {
            adjust_party(b, party, -amount, 0, -amount, 0)
        } else {
            adjust_party(b, party, 0, -amount, 0, -amount)
        };
        if let Ok(n) = c {
            assert(side_after(b, receivable, account) == side_after(Ok(m), receivable, account));
            assert(side_after(c, receivable, account) == side_after(Ok(n), receivable, account));
            lemma_allocate(n, ev, parts, i + 1, receivable, account);
        }
    }
}

proof fn lemma_adjust_lines(
    m: ReadModel,
    ev: EventV,
    lines: Seq<JsonV>,
    i: int,
    receivable: bool,
    account: Text,
)
    requires
        0 <= i,
        held_in(m, side_role(receivable), account),
        lines_spare(lines, "expenseAccountId"@, account),
    ensures
        adjust_lines_from(m, ev, lines, i) matches Ok(n) ==> held_in(
            n,
            side_role(receivable),
            account,
        ) && side_after(Ok(n), receivable, account) == side_after(Ok(m), receivable, account),
    decreases lines.len() - i,
{
    lemma_roles();
    if i < lines.len() && adjust_lines_from(m, ev, lines, i) is Ok {
        let id = txt(ev.payload, "adjustmentId"@);
        let date = txt(ev.payload, "date"@);
        let line = lines[i];
        let lot = txt(line, "lotId"@);
        let qty = -num(line, "qtyDelta"@);
        let l = lookup(m.lots, lot)->0;
        let v = (qty * l.unit_cost_minor) as i64;
        let k = adjust_lot(Ok(m), lot, -qty)->Ok_0;
        let other = named_or_role(k, line, "expenseAccountId"@, "shrinkage"@)->Ok_0;
        assert(opt_txt(lines[i], "expenseAccountId"@) != Some(account));
        lemma_other_role(k, side_role(receivable), account, "shrinkage"@);
        let start: Outcome = Ok(k);
        let o = post(start, ev.id, id, (2 * i) as nat, other, v, 0, date, None);
        lemma_post(
            start,
            ev.id,
            id,
            (2 * i) as nat,
            other,
            v,
            0,
            date,
            None,
            receivable,
            account,
        );
        let p = post_role(o, ev.id, id, (2 * i + 1) as nat, "inventory"@, 0, v, date);
        lemma_post_role(
            o,
            ev.id,
            id,
            (2 * i + 1) as nat,
            "inventory"@,
            0,
            v,
            date,
            receivable,
            account,
        );
        lemma_adjust_lines(p->Ok_0, ev, lines, i + 1, receivable, account);
    }
}

proof fn lemma_found_lines(
    m: ReadModel,
    ev: EventV,
    lines: Seq<JsonV>,
    i: int,
    receivable: bool,
    account: Text,
)
    requires
        0 <= i,
        held_in(m, side_role(receivable), account),
        lines_spare(lines, "incomeAccountId"@, account),
    ensures
        found_lines_from(m, ev, lines, i) matches Ok(n) ==> held_in(
            n,
            side_role(receivable),
            account,
        ) && side_after(Ok(n), receivable, account) == side_after(Ok(m), receivable, account),
    decreases lines.len() - i,
{
    lemma_roles();
    if i < lines.len() && found_lines_from(m, ev, lines, i) is Ok {
        let id = txt(ev.payload, "foundId"@);
        let date = txt(ev.payload, "date"@);
        let line = lines[i];
        let v = product(num(line, "qty"@), num(line, "unitCostMinor"@))->0;
        let k = add_lot(Ok(m), stocked_lot(ev, line, None))->Ok_0;
        let other = named_or_role(k, line, "incomeAccountId"@, "inventory_gain"@)->Ok_0;
        assert(opt_txt(lines[i], "incomeAccountId"@) != Some(account));
        lemma_other_role(k, side_role(receivable), account, "inventory_gain"@);
        let start: Outcome = Ok(k);
        let o = post_role(start, ev.id, id, (2 * i) as nat, "inventory"@, v, 0, date);
        lemma_post_role(
            start,
            ev.id,
            id,
            (2 * i) as nat,
            "inventory"@,
            v,
            0,
            date,
            receivable,
            account,
        );
        let p = post(o, ev.id, id, (2 * i + 1) as nat, other, 0, v, date, None);
        lemma_post(
            o,
            ev.id,
            id,
            (2 * i + 1) as nat,
            other,
            0,
            v,
            date,
            None,
            receivable,
            account,
        );
        lemma_found_lines(p->Ok_0, ev, lines, i + 1, receivable, account);
    }
}

// ---- opening balances and reversals ----

/// What stated lines say of a side.
pub open spec fn stated_side(lines: Seq<JsonV>, receivable: bool, account: Text) -> int {
    if receivable {
        stated(lines, only(account), 0)
    } else {
        -stated(lines, only(account), 0)
    }
}

/// What taking an invoice back takes off a party's balance.
pub open spec fn invoice_net(row: Option<Invoice<Text>>) -> int {
    match row {
        Some(r) => if r.party_id is Some && r.terms == "credit"@ {
            -r.total_minor
        } else {
            0
        },
        None => 0,
    }
}

/// What reversing an event adds to what the parties of a side owe, or are owed, net.
pub open spec fn net_back(m: ReadModel, target: EventV, receivable: bool) -> int {
    let ty = target.event_type;
    let p = target.payload;
    if ty == "SaleRecorded"@ && receivable {
        invoice_net(lookup(m.sales, txt(p, "saleId"@)))
    } else if ty == "PurchaseRecorded"@ && !receivable {
        invoice_net(lookup(m.purchases, txt(p, "purchaseId"@)))
    } else if (ty == "PaymentReceived"@ && receivable) || (ty == "PaymentMade"@ && !receivable) {
        match lookup(m.payments, txt(p, "paymentId"@)) {
            Some(r) => r.amount_minor as int,
            None => 0,
        }
    } else {
        0
    }
}

/// Moving a party's balance moves the net of all parties.
pub proof fn lemma_net(
    m: ReadModel,
    party: Text,
    r: int,
    p: int,
    c: int,
    d: int,
    receivable: bool,
)
    ensures
        adjust_party(Ok(m), party, r, p, c, d) matches Ok(n) ==> net_total(n.balances, receivable)
            == net_total(m.balances, receivable) + if receivable {
            r - c
        } else {
            p - d
        },
{
    lemma_adjust_party(Ok(m), party, r, p, c, d, receivable, party);
}

/// Giving credit back leaves the net of all parties.
proof fn lemma_unallocate_net(m: ReadModel, event: Text, party: Text, i: int, receivable: bool)
    ensures
        unallocate_from(m, event, party, i) matches Ok(n) ==> net_total(n.balances, receivable)
            == net_total(m.balances, receivable),
    decreases m.allocations.len() - i,
{
    if i < m.allocations.len() {
        if m.allocations[i].event_id != event {
            lemma_unallocate_net(m, event, party, i + 1, receivable);
        } else {
            let amount = m.allocations[i].amount_minor as int;
            lemma_net(m, party, amount, 0, amount, 0, receivable);
            lemma_net(m, party, 0, amount, 0, amount, receivable);
            let o = if m.allocations[i].target_type == "sale"@ {
                adjust_party(Ok(m), party, amount, 0, amount, 0)
            } else {
                adjust_party(Ok(m), party, 0, amount, 0, amount)
            };
            if let Ok(n) = o {
                if n.allocations.len() == m.allocations.len() {
                    lemma_unallocate_net(n, event, party, i + 1, receivable);
                }
            }
        }
    }
}

/// Taking a payment back adds its amount to the net of its side.
proof fn lemma_unpay_net(m: ReadModel, target: EventV, incoming: bool, receivable: bool)
    ensures
        unpay(m, target, incoming) matches Ok(n) ==> net_total(n.balances, receivable) == net_total(
            m.balances,
            receivable,
        ) + if incoming == receivable {
            lookup(m.payments, txt(target.payload, "paymentId"@))->0.amount_minor as int
        } else {
            0
        } && lookup(m.payments, txt(target.payload, "paymentId"@)) is Some,
{
    let tp = target.payload;
    let party = txt(
        tp,
        if incoming {
            "customerId"@
        } else {
            "supplierId"@
        },
    );
    lemma_has(m.payments, txt(tp, "paymentId"@));
    if let Some(i) = place(m.payments, txt(tp, "paymentId"@)) {
        if let Some(allocated) = allocated_by(m.allocations, target.id) {
            let rest = m.payments[i].amount_minor - allocated;
            lemma_net(m, party, allocated as int, 0, -rest, 0, receivable);
            lemma_net(m, party, 0, allocated as int, 0, -rest, receivable);
        }
    }
}

/// What a reversal does to the net of all parties.
proof fn lemma_revert_net(m: ReadModel, target: EventV, receivable: bool)
    ensures
        revert_balances(Ok(m), target) matches Ok(n) ==> net_total(n.balances, receivable)
            == net_total(m.balances, receivable) + net_back(m, target, receivable),
{
    lemma_types();
    let ty = target.event_type;
    let tp = target.payload;
    keeps_reopen(m, target.id, 0);
    if let Ok(k) = reopen_from(m, target.id, 0) {
        lemma_unallocate_net(k, target.id, txt(tp, "partyId"@), 0, receivable);
        lemma_unpay_net(k, target, true, receivable);
        lemma_unpay_net(k, target, false, receivable);
    }
    lemma_has(m.sales, txt(tp, "saleId"@));
    lemma_has(m.purchases, txt(tp, "purchaseId"@));
    if ty == "SaleRecorded"@ {
        if let Some(i) = place(m.sales, txt(tp, "saleId"@)) {
            if let Some(c) = m.sales[i].party_id {
                let v = ReadModel { sales: voided(m.sales, i), ..m };
                lemma_net(v, c, -m.sales[i].total_minor, 0, 0, 0, receivable);
            }
        }
    } else if ty == "PurchaseRecorded"@ {
        if let Some(i) = place(m.purchases, txt(tp, "purchaseId"@)) {
            if let Some(c) = m.purchases[i].party_id {
                let v = ReadModel { purchases: voided(m.purchases, i), ..m };
                lemma_net(v, c, 0, -m.purchases[i].total_minor, 0, 0, receivable);
            }
        }
    }
}

proof fn lemma_reversal(
    m: ReadModel,
    log: Seq<EventV>,
    ev: EventV,
    target: EventV,
    receivable: bool,
    account: Text,
)
    requires
        held_in(m, side_role(receivable), account),
        lookup(log, txt(ev.payload, "targetEventId"@)) == Some(target),
        stated_side(list(ev.payload, "reversalJournalLines"@), receivable, account) == net_back(
            m,
            target,
            receivable,
        ),
        transaction_reversed(m, log, ev) is Ok,
    ensures
        sided(transaction_reversed(m, log, ev), receivable, account),
        side_after(transaction_reversed(m, log, ev), receivable, account) == side_after(
            Ok(m),
            receivable,
            account,
        ),
{
    let given = list(ev.payload, "reversalJournalLines"@);
    let date = txt(target.payload, "date"@);
    lemma_given_book(m, ev, given, date, "reversal"@, 0, account);
    lemma_given_holds(m, ev, given, date, "reversal"@, 0, side_role(receivable), account);
    keeps_given_lines(m, ev, given, date, "reversal"@, 0);
    let a = given_lines_from(m, ev, given, date, "reversal"@, 0)->Ok_0;
    keeps_revert_lots(a, target);
    let b = revert_lots(Ok(a), target)->Ok_0;
    keeps_revert_balances(b, target);
    lemma_revert_net(b, target, receivable);
    assert(net_back(b, target, receivable) == net_back(m, target, receivable));
}

proof fn lemma_opening(m: ReadModel, ev: EventV, receivable: bool, account: Text)
    requires
        held_in(m, side_role(receivable), account),
        stated(list(ev.payload, "accountBalances"@), only(account), 0) == 0,
    ensures
        sided(opening_balances(m, ev), receivable, account),
        opening_balances(m, ev) is Ok ==> side_after(opening_balances(m, ev), receivable, account)
            == side_after(Ok(m), receivable, account),
{
    let lines = list(ev.payload, "accountBalances"@);
    let date = txt(ev.payload, "date"@);
    lemma_given_book(m, ev, lines, date, "opening balance"@, 0, account);
    lemma_given_holds(m, ev, lines, date, "opening balance"@, 0, side_role(receivable), account);
    keeps_given_lines(m, ev, lines, date, "opening balance"@, 0);
    if let Ok(k) = given_lines_from(m, ev, lines, date, "opening balance"@, 0) {
        keeps_opening_lots(k, ev, list(ev.payload, "lots"@), 0);
    }
}

/// What an event needs to leave parties and books in step: what is on credit names its
/// party, and nothing else is booked on the account of the side. Opening balances state
/// nothing on it, and a reversal what it gives back to the party; no change of an account
/// puts another in its place.
pub open spec fn parties_in_step(
    m: ReadModel,
    log: Seq<EventV>,
    ev: EventV,
    receivable: bool,
    account: Text,
) -> bool {
    let ty = ev.event_type;
    let p = ev.payload;
    &&& ty == "OpeningBalancesRecorded"@ ==> stated(
        list(p, "accountBalances"@),
        only(account),
        0,
    ) == 0
    &&& ty == "TransactionReversed"@ ==> (lookup(log, txt(p, "targetEventId"@)) matches Some(t)
        ==> stated_side(list(p, "reversalJournalLines"@), receivable, account) == net_back(
        m,
        t,
        receivable,
    ))
    &&& ty == "AccountUpdated"@ ==> (account_updated(m, ev) matches Ok(n) ==> role_id(
        n,
        side_role(receivable),
    ) == Ok::<Text, Fault>(account))
    &&& ty == "SaleRecorded"@ && on_credit(p) ==> opt_txt(p, "customerId"@) is Some
    &&& ty == "PurchaseRecorded"@ && on_credit(p) ==> opt_txt(p, "supplierId"@) is Some
    &&& ty == "ExpenseRecorded"@ ==> txt(p, "accountId"@) != account && (on_credit(p) ==> opt_txt(
        p,
        "supplierId"@,
    ) is Some)
    &&& ty == "InventoryAdjusted"@ ==> lines_spare(list(p, "lines"@), "expenseAccountId"@, account)
    &&& ty == "InventoryFound"@ ==> lines_spare(list(p, "lines"@), "incomeAccountId"@, account)
    &&& ty == "TransferRecorded"@ ==> txt(p, "toAccountId"@) != account && txt(
        p,
        "fromAccountId"@,
    ) != account
}

proof fn lemma_purchase(m: ReadModel, ev: EventV, receivable: bool, account: Text)
    requires
        held_in(m, side_role(receivable), account),
        on_credit(ev.payload) ==> opt_txt(ev.payload, "supplierId"@) is Some,
    ensures
        sided(purchase_recorded(m, ev), receivable, account),
        purchase_recorded(m, ev) is Ok ==> side_after(purchase_recorded(m, ev), receivable, account)
            == side_after(Ok(m), receivable, account),
{
    broadcast use {lemma_post_role, lemma_adjust_party};

    lemma_roles();
    if purchase_recorded(m, ev) is Ok {
        let p = ev.payload;
        let id = txt(p, "purchaseId"@);
        let date = txt(p, "date"@);
        let lines = list(p, "lines"@);
        let total = worth(lines, "qty"@, "unitCostMinor"@)->0;
        let o = add_purchase(Ok(m), invoice(ev, id, opt_txt(p, "supplierId"@), total));
        keeps_purchase_lines(o->Ok_0, ev, lines, 0);
        let q = purchase_lines(o, ev, lines);
        assert(sided(q, receivable, account));
        assert(side_after(q, receivable, account) == side_after(Ok(m), receivable, account));
        let r = post_role(q, ev.id, id, 0, "inventory"@, total, 0, date);
        assert(side_after(r, receivable, account) == side_after(q, receivable, account));
        let role = if on_credit(p) {
            "accounts_payable"@
        } else {
            "bank"@
        };
        let s = post_role(r, ev.id, id, 1, role, 0, total, date);
        assert(side_after(s, receivable, account) == side_shift(
            r,
            s,
            receivable,
            account,
            if role == side_role(receivable) {
                side_entry(receivable, 0, total)
            } else {
                0
            },
        ));
        assert(side_after(purchase_recorded(m, ev), receivable, account) == side_after(
            Ok(m),
            receivable,
            account,
        ));
    }
}

proof fn lemma_sale(m: ReadModel, ev: EventV, receivable: bool, account: Text)
    requires
        held_in(m, side_role(receivable), account),
        on_credit(ev.payload) ==> opt_txt(ev.payload, "customerId"@) is Some,
    ensures
        sided(sale_recorded(m, ev), receivable, account),
        sale_recorded(m, ev) is Ok ==> side_after(sale_recorded(m, ev), receivable, account)
            == side_after(Ok(m), receivable, account),
{
    broadcast use {lemma_post_role, lemma_adjust_party};

    lemma_roles();
    if sale_recorded(m, ev) is Ok {
        let p = ev.payload;
        let id = txt(p, "saleId"@);
        let date = txt(p, "date"@);
        let lines = list(p, "lines"@);
        let revenue = worth(lines, "qty"@, "unitPriceMinor"@)->0;
        let cogs = nested_worth(lines, "lotConsumption"@, "qtyTaken"@, "unitCostMinor"@)->0;
        let o = add_sale(Ok(m), invoice(ev, id, opt_txt(p, "customerId"@), revenue));
        keeps_sale_lines(o->Ok_0, ev, lines, 0);
        let q = sale_lines(o, ev, lines);
        assert(sided(q, receivable, account));
        assert(side_after(q, receivable, account) == side_after(Ok(m), receivable, account));
        let debtor = if on_credit(p) {
            "accounts_receivable"@
        } else {
            "bank"@
        };
        let a = post_role(q, ev.id, id, 0, debtor, revenue, 0, date);
        assert(side_after(a, receivable, account) == side_shift(
            q,
            a,
            receivable,
            account,
            if debtor == side_role(receivable) {
                side_entry(receivable, revenue, 0)
            } else {
                0
            },
        ));
        let b = post_role(a, ev.id, id, 1, "sales"@, 0, revenue, date);
        assert(side_after(b, receivable, account) == side_after(a, receivable, account));
        let c = post_role(b, ev.id, id, 2, "cogs"@, cogs, 0, date);
        assert(side_after(c, receivable, account) == side_after(a, receivable, account));
        let d = post_role(c, ev.id, id, 3, "inventory"@, 0, cogs, date);
        assert(side_after(d, receivable, account) == side_after(a, receivable, account));
        assert(side_after(sale_recorded(m, ev), receivable, account) == side_after(
            Ok(m),
            receivable,
            account,
        ));
    }
}

pub proof fn lemma_payment(
    m: ReadModel,
    ev: EventV,
    incoming: bool,
    receivable: bool,
    account: Text,
)
    requires
        held_in(m, side_role(receivable), account),
    ensures
        sided(payment(m, ev, incoming), receivable, account),
        payment(m, ev, incoming) is Ok ==> side_after(payment(m, ev, incoming), receivable, account)
            == side_after(Ok(m), receivable, account),
        payment(m, ev, incoming) matches Ok(n) ==> side_book(n.journal, receivable, account)
            == side_book(m.journal, receivable, account) - if incoming == receivable {
            num(ev.payload, "amountMinor"@) as int
        } else {
            0
        },
{
    broadcast use {lemma_post_role, lemma_adjust_party};

    lemma_roles();
    if payment(m, ev, incoming) is Ok {
        let p = ev.payload;
        let id = txt(p, "paymentId"@);
        let amount = num(p, "amountMinor"@);
        let date = txt(p, "date"@);
        let party = txt(
            p,
            if incoming {
                "customerId"@
            } else {
                "supplierId"@
            },
        );
        let o = add_payment(
            Ok(m),
            Payment {
                id,
                event_id: ev.id,
                party_id: party,
                direction: if incoming {
                    "in"@
                } else {
                    "out"@
                },
                amount_minor: amount,
                date,
            },
        );
        let first = if incoming {
            "bank"@
        } else {
            "accounts_payable"@
        };
        let second = if incoming {
            "accounts_receivable"@
        } else {
            "bank"@
        };
        assert(sided(o, receivable, account));
        let a = post_role(o, ev.id, id, 0, first, amount, 0, date);
        assert(side_after(a, receivable, account) == side_shift(
            o,
            a,
            receivable,
            account,
            if first == side_role(receivable) {
                side_entry(receivable, amount, 0)
            } else {
                0
            },
        ));
        let q = post_role(a, ev.id, id, 1, second, 0, amount, date);
        assert(side_after(q, receivable, account) == side_shift(
            a,
            q,
            receivable,
            account,
            if second == side_role(receivable) {
                side_entry(receivable, 0, amount)
            } else {
                0
            },
        ));
        assert(q is Ok);
        assert(side_after(q, receivable, account) == side_after(Ok(m), receivable, account)
            + if incoming == receivable {
            amount as int
        } else {
            0
        });
        assert(q->Ok_0.balances == m.balances);
        let parts = list(p, "allocations"@);
        keeps_settle(q->Ok_0, ev, incoming, party, parts, 0);
        lemma_settle(q->Ok_0, ev, incoming, party, parts, 0, receivable, account);
        lemma_sum_of(parts, "amountMinor"@);
        assert(parts.take(0) =~= Seq::empty());
        let allocated = sum_of(parts, "amountMinor"@)->0;
        let r = settle(q, ev, incoming, party, parts);
        assert(sided(r, receivable, account));
        assert(side_after(r, receivable, account) == side_after(q, receivable, account)
            - if incoming == receivable {
            allocated as int
        } else {
            0
        });
        assert(side_after(payment(m, ev, incoming), receivable, account) == side_after(
            Ok(m),
            receivable,
            account,
        ));
    }
}

proof fn lemma_expense(m: ReadModel, ev: EventV, receivable: bool, account: Text)
    requires
        held_in(m, side_role(receivable), account),
        txt(ev.payload, "accountId"@) != account,
        on_credit(ev.payload) ==> opt_txt(ev.payload, "supplierId"@) is Some,
    ensures
        sided(expense_recorded(m, ev), receivable, account),
        expense_recorded(m, ev) is Ok ==> side_after(expense_recorded(m, ev), receivable, account)
            == side_after(Ok(m), receivable, account),
{
    broadcast use lemma_adjust_party;

    lemma_roles();
    if expense_recorded(m, ev) is Ok {
        let p = ev.payload;
        let id = txt(p, "expenseId"@);
        let spent = txt(p, "accountId"@);
        let amount = num(p, "amountMinor"@);
        let date = txt(p, "date"@);
        let memo = opt_txt(p, "memo"@);
        let o = add_expense(
            Ok(m),
            Expense {
                id,
                event_id: ev.id,
                account_id: spent,
                amount_minor: amount,
                date,
                memo,
                terms: txt(p, "terms"@),
            },
        );
        let q = post(o, ev.id, id, 0, spent, amount, 0, date, memo);
        lemma_post(o, ev.id, id, 0, spent, amount, 0, date, memo, receivable, account);
        let role = if on_credit(p) {
            "accounts_payable"@
        } else {
            "bank"@
        };
        if role != side_role(receivable) {
            lemma_other_role(q->Ok_0, side_role(receivable), account, role);
        }
        let a = role_id(q->Ok_0, role)->Ok_0;
        let k: Outcome = Ok(q->Ok_0);
        let r = post(k, ev.id, id, 1, a, 0, amount, date, memo);
        lemma_post(k, ev.id, id, 1, a, 0, amount, date, memo, receivable, account);
        assert(side_after(expense_recorded(m, ev), receivable, account) == side_after(
            Ok(m),
            receivable,
            account,
        ));
    }
}

proof fn lemma_transfer(m: ReadModel, ev: EventV, receivable: bool, account: Text)
    requires
        held_in(m, side_role(receivable), account),
        txt(ev.payload, "toAccountId"@) != account,
        txt(ev.payload, "fromAccountId"@) != account,
    ensures
        sided(transfer_recorded(m, ev), receivable, account),
        transfer_recorded(m, ev) is Ok ==> side_after(transfer_recorded(m, ev), receivable, account)
            == side_after(Ok(m), receivable, account),
{
    let p = ev.payload;
    let id = txt(p, "transferId"@);
    let amount = num(p, "amountMinor"@);
    let date = txt(p, "date"@);
    let memo = opt_txt(p, "memo"@);
    let start: Outcome = Ok(m);
    let to = txt(p, "toAccountId"@);
    let from = txt(p, "fromAccountId"@);
    let o = post(start, ev.id, id, 0, to, amount, 0, date, memo);
    lemma_post(start, ev.id, id, 0, to, amount, 0, date, memo, receivable, account);
    lemma_post(o, ev.id, id, 1, from, 0, amount, date, memo, receivable, account);
}

proof fn lemma_sale_return(m: ReadModel, ev: EventV, receivable: bool, account: Text)
    requires
        held_in(m, side_role(receivable), account),
    ensures
        sided(sale_return(m, ev), receivable, account),
        sale_return(m, ev) is Ok ==> side_after(sale_return(m, ev), receivable, account)
            == side_after(Ok(m), receivable, account),
{
    broadcast use {lemma_post_role, lemma_adjust_party, lemma_adjust_outstanding};

    lemma_roles();
    if sale_return(m, ev) is Ok {
        let p = ev.payload;
        let id = txt(p, "returnId"@);
        let original = txt(p, "originalSaleId"@);
        let date = txt(p, "date"@);
        let lines = list(p, "lines"@);
        let revenue = worth(lines, "qty"@, "unitPriceMinor"@)->0;
        let cost = nested_worth(lines, "lotReturns"@, "qtyReturned"@, "unitCostMinor"@)->0;
        let row = Return {
            id,
            event_id: ev.id,
            return_type: "sale_return"@,
            original_id: original,
            date,
            revenue_reversed_minor: revenue,
            cost_restored_minor: cost,
        };
        let o = add_return(Ok(m), row);
        keeps_sale_return_lines(o->Ok_0, ev, lines, 0, 0);
        let q = sale_return_lines(o, ev, lines);
        assert(sided(q, receivable, account));
        assert(side_after(q, receivable, account) == side_after(Ok(m), receivable, account));
        let sale = lookup(m.sales, original)->0;
        let refund = if sale.party_id is Some {
            "accounts_receivable"@
        } else {
            "bank"@
        };
        let a = post_role(q, ev.id, id, 0, "sales"@, revenue, 0, date);
        assert(side_after(a, receivable, account) == side_after(q, receivable, account));
        let b = post_role(a, ev.id, id, 1, refund, 0, revenue, date);
        assert(side_after(b, receivable, account) == side_shift(
            a,
            b,
            receivable,
            account,
            if refund == side_role(receivable) {
                side_entry(receivable, 0, revenue)
            } else {
                0
            },
        ));
        let c = post_role(b, ev.id, id, 2, "inventory"@, cost, 0, date);
        assert(side_after(c, receivable, account) == side_after(b, receivable, account));
        let d = post_role(c, ev.id, id, 3, "cogs"@, 0, cost, date);
        assert(side_after(d, receivable, account) == side_after(b, receivable, account));
        if let Some(party) = sale.party_id {
            let reduce = reduction(revenue, sale.outstanding_minor);
            let e = adjust_outstanding(d, true, original, -reduce);
            assert(side_after(e, receivable, account) == side_shift(d, e, receivable, account, 0));
        }
        assert(side_after(sale_return(m, ev), receivable, account) == side_after(
            Ok(m),
            receivable,
            account,
        ));
    }
}

proof fn lemma_purchase_return(m: ReadModel, ev: EventV, receivable: bool, account: Text)
    requires
        held_in(m, side_role(receivable), account),
    ensures
        sided(purchase_return(m, ev), receivable, account),
        purchase_return(m, ev) is Ok ==> side_after(purchase_return(m, ev), receivable, account)
            == side_after(Ok(m), receivable, account),
{
    broadcast use {lemma_post_role, lemma_adjust_party, lemma_adjust_outstanding};

    lemma_roles();
    if purchase_return(m, ev) is Ok {
        let p = ev.payload;
        let id = txt(p, "returnId"@);
        let original = txt(p, "originalPurchaseId"@);
        let date = txt(p, "date"@);
        let lines = list(p, "lines"@);
        let cost = worth(lines, "qty"@, "unitCostMinor"@)->0;
        let row = Return {
            id,
            event_id: ev.id,
            return_type: "purchase_return"@,
            original_id: original,
            date,
            revenue_reversed_minor: 0,
            cost_restored_minor: cost,
        };
        let o = add_return(Ok(m), row);
        keeps_purchase_return_lines(o->Ok_0, ev, lines, 0);
        let q = purchase_return_lines(o, ev, lines);
        assert(sided(q, receivable, account));
        assert(side_after(q, receivable, account) == side_after(Ok(m), receivable, account));
        let purchase = lookup(m.purchases, original)->0;
        let refund = if purchase.party_id is Some {
            "accounts_payable"@
        } else {
            "bank"@
        };
        let a = post_role(q, ev.id, id, 0, refund, cost, 0, date);
        assert(side_after(a, receivable, account) == side_shift(
            q,
            a,
            receivable,
            account,
            if refund == side_role(receivable) {
                side_entry(receivable, cost, 0)
            } else {
                0
            },
        ));
        let b = post_role(a, ev.id, id, 1, "inventory"@, 0, cost, date);
        assert(side_after(b, receivable, account) == side_after(a, receivable, account));
        if let Some(party) = purchase.party_id {
            let reduce = reduction(cost, purchase.outstanding_minor);
            let e = adjust_outstanding(b, false, original, -reduce);
            assert(side_after(e, receivable, account) == side_shift(b, e, receivable, account, 0));
        }
        assert(side_after(purchase_return(m, ev), receivable, account) == side_after(
            Ok(m),
            receivable,
            account,
        ));
    }
}

/// Events other than reversals and opening balances keep parties and books in step.
proof fn lemma_in_step(
    m: ReadModel,
    log: Seq<EventV>,
    ev: EventV,
    receivable: bool,
)
    requires
        distinct(m.accounts),
        role_id(m, side_role(receivable)) is Ok,
        parties_in_step(m, log, ev, receivable, role_id(m, side_role(receivable))->Ok_0),
        project(m, log, ev) is Ok,
        ev.event_type != "OpeningBalancesRecorded"@,
        ev.event_type != "TransactionReversed"@,
    ensures
        role_id(project(m, log, ev)->Ok_0, side_role(receivable)) == role_id(
            m,
            side_role(receivable),
        ),
        side_drift(project(m, log, ev)->Ok_0, receivable) == side_drift(m, receivable),
{
    let account = role_id(m, side_role(receivable))->Ok_0;
    let n = project(m, log, ev)->Ok_0;
    let ty = ev.event_type;
    let lines = list(ev.payload, "lines"@);
    let start: Outcome = Ok(m);
    assert(side_after(start, receivable, account) == side_drift(m, receivable));
    if ty == "AccountOpened"@ {
        lemma_opening_holds(m, ev, side_role(receivable), account);
    } else if ty == "AccountUpdated"@ {
        lemma_update_holds(m, ev, side_role(receivable), account);
    } else if ty == "PurchaseRecorded"@ {
        lemma_purchase(m, ev, receivable, account);
    } else if ty == "SaleRecorded"@ {
        lemma_sale(m, ev, receivable, account);
    } else if ty == "PaymentReceived"@ {
        lemma_payment(m, ev, true, receivable, account);
    } else if ty == "PaymentMade"@ {
        lemma_payment(m, ev, false, receivable, account);
    } else if ty == "PaymentAllocated"@ {
        lemma_allocate(m, ev, list(ev.payload, "allocations"@), 0, receivable, account);
    } else if ty == "ExpenseRecorded"@ {
        lemma_expense(m, ev, receivable, account);
    } else if ty == "TransferRecorded"@ {
        lemma_transfer(m, ev, receivable, account);
    } else if ty == "InventoryAdjusted"@ {
        lemma_adjust_lines(m, ev, lines, 0, receivable, account);
    } else if ty == "InventoryFound"@ {
        lemma_found_lines(m, ev, lines, 0, receivable, account);
    } else if ty == "SaleReturnRecorded"@ {
        lemma_sale_return(m, ev, receivable, account);
    } else if ty == "PurchaseReturnRecorded"@ {
        lemma_purchase_return(m, ev, receivable, account);
    }
    let after: Outcome = Ok(n);
    assert(sided(after, receivable, account));
    assert(side_after(after, receivable, account) == side_after(start, receivable, account));
}

/// What parties owe, or are owed, net of the credit held, and what the account for it
/// says move in step through every event that names its party where it is on credit and
/// books nothing else on that account, opening balances and reversals among them. A return
/// or an expense on credit that is reversed is not in step: it gives nothing back to its
/// party.
pub proof fn law_party_balances_follow_the_books(
    m: ReadModel,
    log: Seq<EventV>,
    ev: EventV,
    receivable: bool,
)
    requires
        distinct(m.accounts),
        role_id(m, side_role(receivable)) is Ok,
        parties_in_step(m, log, ev, receivable, role_id(m, side_role(receivable))->Ok_0),
        project(m, log, ev) is Ok,
    ensures
        role_id(project(m, log, ev)->Ok_0, side_role(receivable)) == role_id(
            m,
            side_role(receivable),
        ),
        side_drift(project(m, log, ev)->Ok_0, receivable) == side_drift(m, receivable),
{
    let account = role_id(m, side_role(receivable))->Ok_0;
    lemma_stated_projected(m, log, ev);
    if ev.event_type == "OpeningBalancesRecorded"@ {
        lemma_opening(m, ev, receivable, account);
    } else if ev.event_type == "TransactionReversed"@ {
        let target = lookup(log, txt(ev.payload, "targetEventId"@))->0;
        lemma_reversal(m, log, ev, target, receivable, account);
    } else {
        lemma_in_step(m, log, ev, receivable);
    }
}

} // verus!
