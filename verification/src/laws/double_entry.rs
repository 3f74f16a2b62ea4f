//! Debits equal credits.

use crate::events::EventV;
use crate::json::{list, num, opt_txt, txt, JsonV};
use crate::laws::frames::{
    keeps_allocate, keeps_opening_lots, keeps_purchase_lines, keeps_purchase_return_lines,
    keeps_revert_balances, keeps_revert_lots, keeps_sale_lines, keeps_sale_return_lines,
    keeps_settle,
};
use crate::model::{
    add_expense, add_lot, add_payment, add_purchase, add_return, add_sale, adjust_lines_from,
    adjust_lot, adjust_outstanding, adjust_party, expense_recorded, found_lines_from,
    given_lines_from, invoice, journal_line, named_or_role, nested_worth, on_credit,
    opening_balances, payment, post, post_role, product, project, purchase_lines, purchase_recorded,
    purchase_return, purchase_return_lines, replay_from, revert_lots, role_id, sale_lines,
    sale_recorded, sale_return, sale_return_lines, settle, stocked_lot, transaction_reversed,
    transfer_recorded, worth, Outcome, Text,
};
use crate::rows::lookup;
use crate::sums::sum_over;
use crate::tables::{Expense, JournalLine, Payment, ReadModel, Return};
use vstd::prelude::*;

verus! {

/// By how much a journal line tips its transaction.
pub open spec fn tip(l: JournalLine<Text>, txn: Text) -> int {
    if l.txn_id == txn {
        l.debit_minor - l.credit_minor
    } else {
        0
    }
}

/// Debits less credits of a transaction.
pub open spec fn gap(journal: Seq<JournalLine<Text>>, txn: Text) -> int {
    sum_over(journal, |l: JournalLine<Text>| tip(l, txn))
}

/// Debits equal credits in every transaction.
pub open spec fn balanced(m: ReadModel) -> bool {
    forall|txn: Text| #[trigger] gap(m.journal, txn) == 0
}

/// The gap of a transaction after some steps.
pub open spec fn gap_after(o: Outcome, txn: Text) -> int {
    match o {
        Ok(m) => gap(m.journal, txn),
        Err(_) => 0,
    }
}

/// What a step adds to a gap.
pub open spec fn shifted(o: Outcome, next: Outcome, txn: Text, by: int) -> int {
    if next is Ok {
        gap_after(o, txn) + by
    } else {
        0
    }
}

broadcast proof fn lemma_post(
    o: Outcome,
    event: Text,
    txn: Text,
    index: nat,
    account: Text,
    debit: i64,
    credit: i64,
    date: Text,
    memo: Option<Text>,
    t: Text,
)
    ensures
        #[trigger] gap_after(post(o, event, txn, index, account, debit, credit, date, memo), t)
            == shifted(
            o,
            post(o, event, txn, index, account, debit, credit, date, memo),
            t,
            if txn == t {
                debit - credit
            } else {
                0
            },
        ),
{
    if let Ok(m) = o {
        let line = journal_line(event, txn, index, account, debit, credit, date, memo);
        let f = |l: JournalLine<Text>| tip(l, t);
        assert(m.journal.push(line).drop_last() =~= m.journal);
        assert(sum_over(m.journal.push(line), f) == sum_over(m.journal, f) + f(line));
    }
}

broadcast proof fn lemma_post_role(
    o: Outcome,
    event: Text,
    txn: Text,
    index: nat,
    role: Text,
    debit: i64,
    credit: i64,
    date: Text,
    t: Text,
)
    ensures
        #[trigger] gap_after(post_role(o, event, txn, index, role, debit, credit, date), t)
            == shifted(
            o,
            post_role(o, event, txn, index, role, debit, credit, date),
            t,
            if txn == t {
                debit - credit
            } else {
                0
            },
        ),
{
    broadcast use lemma_post;

    if let Ok(m) = o {
        if let Ok(account) = role_id(m, role) {
            assert(gap_after(
                post(Ok(m), event, txn, index, account, debit, credit, date, None),
                t,
            ) == gap_after(post_role(o, event, txn, index, role, debit, credit, date), t));
        }
    }
}

broadcast proof fn lemma_adjust_party(
    o: Outcome,
    party: Text,
    receivable: int,
    payable: int,
    credit: int,
    debit: int,
    t: Text,
)
    ensures
        #[trigger] gap_after(adjust_party(o, party, receivable, payable, credit, debit), t)
            == shifted(o, adjust_party(o, party, receivable, payable, credit, debit), t, 0),
{
}

broadcast proof fn lemma_adjust_outstanding(o: Outcome, sale: bool, id: Text, delta: int, t: Text)
    ensures
        #[trigger] gap_after(adjust_outstanding(o, sale, id, delta), t) == shifted(
            o,
            adjust_outstanding(o, sale, id, delta),
            t,
            0,
        ),
{
}


/// What given lines tip together, from line `i` on.
pub open spec fn given_tip(lines: Seq<JsonV>, i: int) -> int
    decreases lines.len() - i,
{
    if i < 0 || i >= lines.len() {
        0
    } else {
        num(lines[i], "debitMinor"@) - num(lines[i], "creditMinor"@) + given_tip(lines, i + 1)
    }
}

proof fn lemma_given_lines(
    m: ReadModel,
    ev: EventV,
    lines: Seq<JsonV>,
    date: Text,
    memo: Text,
    i: int,
    t: Text,
)
    requires
        0 <= i,
    ensures
        given_lines_from(m, ev, lines, date, memo, i) matches Ok(n) ==> gap(n.journal, t) == gap(
            m.journal,
            t,
        ) + if t == ev.id {
            given_tip(lines, i)
        } else {
            0
        },
    decreases lines.len() - i,
{
    broadcast use lemma_post;

    if i < lines.len() {
        let o = post(
            Ok(m),
            ev.id,
            ev.id,
            i as nat,
            txt(lines[i], "accountId"@),
            num(lines[i], "debitMinor"@),
            num(lines[i], "creditMinor"@),
            date,
            Some(memo),
        );
        if let Ok(n) = o {
            assert(gap_after(o, t) == gap(n.journal, t));
            lemma_given_lines(n, ev, lines, date, memo, i + 1, t);
        }
    }
}

proof fn lemma_adjust_lines(m: ReadModel, ev: EventV, lines: Seq<JsonV>, i: int, t: Text)
    requires
        0 <= i,
    ensures
        adjust_lines_from(m, ev, lines, i) matches Ok(n) ==> gap(n.journal, t) == gap(m.journal, t),
    decreases lines.len() - i,
{
    broadcast use {lemma_post, lemma_post_role};

    if i < lines.len() && adjust_lines_from(m, ev, lines, i) is Ok {
        let id = txt(ev.payload, "adjustmentId"@);
        let date = txt(ev.payload, "date"@);
        let line = lines[i];
        let lot = txt(line, "lotId"@);
        let qty = -num(line, "qtyDelta"@);
        let l = lookup(m.lots, lot)->0;
        let value = (qty * l.unit_cost_minor) as i64;
        let k = adjust_lot(Ok(m), lot, -qty)->Ok_0;
        let account = named_or_role(k, line, "expenseAccountId"@, "shrinkage"@)->Ok_0;
        let o = post(Ok(k), ev.id, id, (2 * i) as nat, account, value, 0, date, None);
        let p = post_role(o, ev.id, id, (2 * i + 1) as nat, "inventory"@, 0, value, date);
        assert(gap_after(p, t) == shifted(
            o,
            p,
            t,
            if id == t {
                -value
            } else {
                0
            },
        ));
        lemma_adjust_lines(p->Ok_0, ev, lines, i + 1, t);
    }
}

proof fn lemma_found_lines(m: ReadModel, ev: EventV, lines: Seq<JsonV>, i: int, t: Text)
    requires
        0 <= i,
    ensures
        found_lines_from(m, ev, lines, i) matches Ok(n) ==> gap(n.journal, t) == gap(m.journal, t),
    decreases lines.len() - i,
{
    broadcast use {lemma_post, lemma_post_role};

    if i < lines.len() && found_lines_from(m, ev, lines, i) is Ok {
        let id = txt(ev.payload, "foundId"@);
        let date = txt(ev.payload, "date"@);
        let line = lines[i];
        let value = product(num(line, "qty"@), num(line, "unitCostMinor"@))->0;
        let k = add_lot(Ok(m), stocked_lot(ev, line, None))->Ok_0;
        let account = named_or_role(k, line, "incomeAccountId"@, "inventory_gain"@)->Ok_0;
        let o = post_role(Ok(k), ev.id, id, (2 * i) as nat, "inventory"@, value, 0, date);
        let p = post(o, ev.id, id, (2 * i + 1) as nat, account, 0, value, date, None);
        assert(gap_after(p, t) == shifted(
            o,
            p,
            t,
            if id == t {
                -value
            } else {
                0
            },
        ));
        lemma_found_lines(p->Ok_0, ev, lines, i + 1, t);
    }
}

/// The lines that an event states itself: the ones of opening balances and of a
/// reversal.
pub open spec fn stated_lines(ev: EventV) -> Seq<JsonV> {
    if ev.event_type == "OpeningBalancesRecorded"@ {
        list(ev.payload, "accountBalances"@)
    } else if ev.event_type == "TransactionReversed"@ {
        list(ev.payload, "reversalJournalLines"@)
    } else {
        Seq::empty()
    }
}

proof fn lemma_purchase(m: ReadModel, ev: EventV, t: Text)
    ensures
        purchase_recorded(m, ev) matches Ok(n) ==> gap(n.journal, t) == gap(m.journal, t),
{
    broadcast use {lemma_post_role, lemma_adjust_party};

    if purchase_recorded(m, ev) is Ok {
        let p = ev.payload;
        let lines = list(p, "lines"@);
        let total = worth(lines, "qty"@, "unitCostMinor"@)->0;
        let o = add_purchase(
            Ok(m),
            invoice(ev, txt(p, "purchaseId"@), opt_txt(p, "supplierId"@), total),
        );
        keeps_purchase_lines(o->Ok_0, ev, lines, 0);
        assert(gap_after(purchase_lines(o, ev, lines), t) == gap(m.journal, t));
        assert(gap_after(purchase_recorded(m, ev), t) == gap(m.journal, t));
    }
}

proof fn lemma_sale(m: ReadModel, ev: EventV, t: Text)
    ensures
        sale_recorded(m, ev) matches Ok(n) ==> gap(n.journal, t) == gap(m.journal, t),
{
    broadcast use {lemma_post_role, lemma_adjust_party};

    if sale_recorded(m, ev) is Ok {
        let p = ev.payload;
        let lines = list(p, "lines"@);
        let revenue = worth(lines, "qty"@, "unitPriceMinor"@)->0;
        let o = add_sale(
            Ok(m),
            invoice(ev, txt(p, "saleId"@), opt_txt(p, "customerId"@), revenue),
        );
        keeps_sale_lines(o->Ok_0, ev, lines, 0);
        assert(gap_after(sale_lines(o, ev, lines), t) == gap(m.journal, t));
        assert(gap_after(sale_recorded(m, ev), t) == gap(m.journal, t));
    }
}

proof fn lemma_payment(m: ReadModel, ev: EventV, incoming: bool, t: Text)
    ensures
        payment(m, ev, incoming) matches Ok(n) ==> gap(n.journal, t) == gap(m.journal, t),
{
    broadcast use {lemma_post_role, lemma_adjust_party};

    if payment(m, ev, incoming) is Ok {
        let p = ev.payload;
        let id = txt(p, "paymentId"@);
        let amount = num(p, "amountMinor"@);
        let date = txt(p, "date"@);
        let party = txt(
            p,
            if incoming {
                "customerId"@
            } else {
                "supplierId"@
            },
        );
        let o = add_payment(
            Ok(m),
            Payment {
                id,
                event_id: ev.id,
                party_id: party,
                direction: if incoming {
                    "in"@
                } else {
                    "out"@
                },
                amount_minor: amount,
                date,
            },
        );
        let q = if incoming {
            post_role(
                post_role(o, ev.id, id, 0, "bank"@, amount, 0, date),
                ev.id,
                id,
                1,
                "accounts_receivable"@,
                0,
                amount,
                date,
            )
        } else {
            post_role(
                post_role(o, ev.id, id, 0, "accounts_payable"@, amount, 0, date),
                ev.id,
                id,
                1,
                "bank"@,
                0,
                amount,
                date,
            )
        };
        assert(gap_after(o, t) == gap(m.journal, t));
        assert(q is Ok);
        assert(gap_after(q, t) == gap(m.journal, t));
        let parts = list(p, "allocations"@);
        keeps_settle(q->Ok_0, ev, incoming, party, parts, 0);
        assert(gap_after(settle(q, ev, incoming, party, parts), t) == gap(m.journal, t));
        assert(gap_after(payment(m, ev, incoming), t) == gap(m.journal, t));
    }
}

proof fn lemma_expense(m: ReadModel, ev: EventV, t: Text)
    ensures
        expense_recorded(m, ev) matches Ok(n) ==> gap(n.journal, t) == gap(m.journal, t),
{
    broadcast use {lemma_post, lemma_adjust_party};

    if expense_recorded(m, ev) is Ok {
        let p = ev.payload;
        let id = txt(p, "expenseId"@);
        let account = txt(p, "accountId"@);
        let amount = num(p, "amountMinor"@);
        let date = txt(p, "date"@);
        let memo = opt_txt(p, "memo"@);
        let o = add_expense(
            Ok(m),
            Expense {
                id,
                event_id: ev.id,
                account_id: account,
                amount_minor: amount,
                date,
                memo,
                terms: txt(p, "terms"@),
            },
        );
        let q = post(o, ev.id, id, 0, account, amount, 0, date, memo);
        assert(gap_after(o, t) == gap(m.journal, t));
        assert(gap_after(q, t) == shifted(
            o,
            q,
            t,
            if id == t {
                amount as int
            } else {
                0
            },
        ));
        let role = if on_credit(p) {
            "accounts_payable"@
        } else {
            "bank"@
        };
        let a = role_id(q->Ok_0, role)->Ok_0;
        let r = post(Ok(q->Ok_0), ev.id, id, 1, a, 0, amount, date, memo);
        assert(gap_after(r, t) == gap(m.journal, t));
        assert(gap_after(expense_recorded(m, ev), t) == gap(m.journal, t));
    }
}

proof fn lemma_transfer(m: ReadModel, ev: EventV, t: Text)
    ensures
        transfer_recorded(m, ev) matches Ok(n) ==> gap(n.journal, t) == gap(m.journal, t),
{
    broadcast use lemma_post;

    assert(gap_after(Ok(m), t) == gap(m.journal, t));
    if transfer_recorded(m, ev) is Ok {
        assert(gap_after(transfer_recorded(m, ev), t) == gap(m.journal, t));
    }
}

proof fn lemma_sale_return(m: ReadModel, ev: EventV, t: Text)
    ensures
        sale_return(m, ev) matches Ok(n) ==> gap(n.journal, t) == gap(m.journal, t),
{
    broadcast use {lemma_post_role, lemma_adjust_party, lemma_adjust_outstanding};

    if sale_return(m, ev) is Ok {
        let p = ev.payload;
        let lines = list(p, "lines"@);
        let row = Return {
            id: txt(p, "returnId"@),
            event_id: ev.id,
            return_type: "sale_return"@,
            original_id: txt(p, "originalSaleId"@),
            date: txt(p, "date"@),
            revenue_reversed_minor: worth(lines, "qty"@, "unitPriceMinor"@)->0,
            cost_restored_minor: nested_worth(
                lines,
                "lotReturns"@,
                "qtyReturned"@,
                "unitCostMinor"@,
            )->0,
        };
        let o = add_return(Ok(m), row);
        keeps_sale_return_lines(o->Ok_0, ev, lines, 0, 0);
        assert(gap_after(sale_return_lines(o, ev, lines), t) == gap(m.journal, t));
        assert(gap_after(sale_return(m, ev), t) == gap(m.journal, t));
    }
}

proof fn lemma_purchase_return(m: ReadModel, ev: EventV, t: Text)
    ensures
        purchase_return(m, ev) matches Ok(n) ==> gap(n.journal, t) == gap(m.journal, t),
{
    broadcast use {lemma_post_role, lemma_adjust_party, lemma_adjust_outstanding};

    if purchase_return(m, ev) is Ok {
        let p = ev.payload;
        let lines = list(p, "lines"@);
        let row = Return {
            id: txt(p, "returnId"@),
            event_id: ev.id,
            return_type: "purchase_return"@,
            original_id: txt(p, "originalPurchaseId"@),
            date: txt(p, "date"@),
            revenue_reversed_minor: 0,
            cost_restored_minor: worth(lines, "qty"@, "unitCostMinor"@)->0,
        };
        let o = add_return(Ok(m), row);
        keeps_purchase_return_lines(o->Ok_0, ev, lines, 0);
        assert(gap_after(purchase_return_lines(o, ev, lines), t) == gap(m.journal, t));
        assert(gap_after(purchase_return(m, ev), t) == gap(m.journal, t));
    }
}

proof fn lemma_opening(m: ReadModel, ev: EventV, t: Text)
    ensures
        opening_balances(m, ev) matches Ok(n) ==> gap(n.journal, t) == gap(m.journal, t) + if t
            == ev.id {
            given_tip(list(ev.payload, "accountBalances"@), 0)
        } else {
            0
        },
{
    let lines = list(ev.payload, "accountBalances"@);
    let date = txt(ev.payload, "date"@);
    lemma_given_lines(m, ev, lines, date, "opening balance"@, 0, t);
    if let Ok(k) = given_lines_from(m, ev, lines, date, "opening balance"@, 0) {
        keeps_opening_lots(k, ev, list(ev.payload, "lots"@), 0);
    }
}

proof fn lemma_reversal(m: ReadModel, log: Seq<EventV>, ev: EventV, t: Text)
    ensures
        transaction_reversed(m, log, ev) matches Ok(n) ==> gap(n.journal, t) == gap(m.journal, t)
            + if t == ev.id {
            given_tip(list(ev.payload, "reversalJournalLines"@), 0)
        } else {
            0
        },
{
    if let Some(target) = lookup(log, txt(ev.payload, "targetEventId"@)) {
        let lines = list(ev.payload, "reversalJournalLines"@);
        let date = txt(target.payload, "date"@);
        lemma_given_lines(m, ev, lines, date, "reversal"@, 0, t);
        if let Ok(k) = given_lines_from(m, ev, lines, date, "reversal"@, 0) {
            keeps_revert_lots(k, target);
            if let Ok(r) = revert_lots(Ok(k), target) {
                keeps_revert_balances(r, target);
            }
        }
    }
}

/// An event moves no transaction out of balance but by the lines that it states itself:
/// whatever the books derive from an event, they debit and credit alike.
pub proof fn law_events_keep_the_balance(m: ReadModel, log: Seq<EventV>, ev: EventV, txn: Text)
    requires
        project(m, log, ev) is Ok,
    ensures
        gap(project(m, log, ev)->Ok_0.journal, txn) == gap(m.journal, txn) + if txn == ev.id {
            given_tip(stated_lines(ev), 0)
        } else {
            0
        },
{
    lemma_types();
    let ty = ev.event_type;
    if ty == "PurchaseRecorded"@ {
        lemma_purchase(m, ev, txn);
    } else if ty == "SaleRecorded"@ {
        lemma_sale(m, ev, txn);
    } else if ty == "PaymentReceived"@ {
        lemma_payment(m, ev, true, txn);
    } else if ty == "PaymentMade"@ {
        lemma_payment(m, ev, false, txn);
    } else if ty == "PaymentAllocated"@ {
        keeps_allocate(m, ev, list(ev.payload, "allocations"@), 0);
    } else if ty == "ExpenseRecorded"@ {
        lemma_expense(m, ev, txn);
    } else if ty == "TransferRecorded"@ {
        lemma_transfer(m, ev, txn);
    } else if ty == "InventoryAdjusted"@ {
        lemma_adjust_lines(m, ev, list(ev.payload, "lines"@), 0, txn);
    } else if ty == "InventoryFound"@ {
        lemma_found_lines(m, ev, list(ev.payload, "lines"@), 0, txn);
    } else if ty == "OpeningBalancesRecorded"@ {
        lemma_opening(m, ev, txn);
    } else if ty == "SaleReturnRecorded"@ {
        lemma_sale_return(m, ev, txn);
    } else if ty == "PurchaseReturnRecorded"@ {
        lemma_purchase_return(m, ev, txn);
    } else if ty == "TransactionReversed"@ {
        lemma_reversal(m, log, ev, txn);
    }
}

/// Balanced books stay balanced through every event whose own lines balance.
pub proof fn law_balanced_books_stay_balanced(m: ReadModel, log: Seq<EventV>, ev: EventV)
    requires
        balanced(m),
        given_tip(stated_lines(ev), 0) == 0,
        project(m, log, ev) is Ok,
    ensures
        balanced(project(m, log, ev)->Ok_0),
{
    let n = project(m, log, ev)->Ok_0;
    assert forall|txn: Text| #[trigger] gap(n.journal, txn) == 0 by {
        law_events_keep_the_balance(m, log, ev, txn);
        assert(gap(m.journal, txn) == 0);
    }
}

/// Replaying events whose own lines balance gives balanced books.
pub proof fn law_replay_is_balanced(
    m: ReadModel,
    log: Seq<EventV>,
    events: Seq<EventV>,
    i: int,
)
    requires
        0 <= i,
        balanced(m),
        forall|k: int|
            0 <= k < events.len() ==> given_tip(stated_lines(#[trigger] events[k]), 0) == 0,
        replay_from(m, log, events, i) is Ok,
    ensures
        balanced(replay_from(m, log, events, i)->Ok_0),
    decreases events.len() - i,
{
    if i < events.len() {
        assert(given_tip(stated_lines(events[i]), 0) == 0);
        law_balanced_books_stay_balanced(m, log, events[i]);
        law_replay_is_balanced(project(m, log, events[i])->Ok_0, log, events, i + 1);
    }
}

/// The lengths of the names of event types, which tell most of them apart, and a letter
/// of those that are as long as another.
pub proof fn lemma_types()
    ensures
        "UserRegistered"@.len() == 14,
        "AccountOpened"@.len() == 13,
        "ItemDefined"@.len() == 11,
        "PartyCreated"@.len() == 12,
        "UserUpdated"@.len() == 11,
        "AccountUpdated"@.len() == 14,
        "ItemUpdated"@.len() == 11,
        "PartyUpdated"@.len() == 12,
        "ItemDeleted"@.len() == 11,
        "PartyDeleted"@.len() == 12,
        "PurchaseRecorded"@.len() == 16,
        "SaleRecorded"@.len() == 12,
        "PaymentReceived"@.len() == 15,
        "PaymentMade"@.len() == 11,
        "PaymentAllocated"@.len() == 16,
        "ExpenseRecorded"@.len() == 15,
        "TransferRecorded"@.len() == 16,
        "InventoryAdjusted"@.len() == 17,
        "InventoryFound"@.len() == 14,
        "SaleReturnRecorded"@.len() == 18,
        "PurchaseReturnRecorded"@.len() == 22,
        "OpeningBalancesRecorded"@.len() == 23,
        "TransactionReversed"@.len() == 19,
        "PartyCreated"@[0] == 'P' && "PartyUpdated"@[0] == 'P' && "PartyDeleted"@[0] == 'P',
        "SaleRecorded"@[0] == 'S',
        "PurchaseRecorded"@[1] == 'u' && "PaymentAllocated"@[1] == 'a',
        "TransferRecorded"@[1] == 'r',
        "PaymentReceived"@[0] == 'P' && "ExpenseRecorded"@[0] == 'E',
        "PaymentMade"@[0] == 'P' && "UserUpdated"@[0] == 'U',
        "ItemDefined"@[0] == 'I' && "ItemUpdated"@[0] == 'I' && "ItemDeleted"@[0] == 'I',
        "InventoryFound"@[0] == 'I',
        "UserRegistered"@[0] == 'U' && "AccountUpdated"@[0] == 'A',
{
    reveal_strlit("UserRegistered");
    reveal_strlit("AccountOpened");
    reveal_strlit("ItemDefined");
    reveal_strlit("PartyCreated");
    reveal_strlit("UserUpdated");
    reveal_strlit("AccountUpdated");
    reveal_strlit("ItemUpdated");
    reveal_strlit("PartyUpdated");
    reveal_strlit("ItemDeleted");
    reveal_strlit("PartyDeleted");
    reveal_strlit("PurchaseRecorded");
    reveal_strlit("SaleRecorded");
    reveal_strlit("PaymentReceived");
    reveal_strlit("PaymentMade");
    reveal_strlit("PaymentAllocated");
    reveal_strlit("ExpenseRecorded");
    reveal_strlit("TransferRecorded");
    reveal_strlit("InventoryAdjusted");
    reveal_strlit("InventoryFound");
    reveal_strlit("SaleReturnRecorded");
    reveal_strlit("PurchaseReturnRecorded");
    reveal_strlit("OpeningBalancesRecorded");
    reveal_strlit("TransactionReversed");
}

} // verus!
