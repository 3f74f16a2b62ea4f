//! The reversal of what kept stock, parties and books in step keeps them in step too.

use crate::commands::reversal::reversal_payload;
use crate::events::EventV;
use crate::json::{list, num, opt_txt, txt, JsonV};
use crate::laws::accounts::{lemma_entered, lemma_entered_distinct, new_lines, on_accounts, txn_of};
use crate::laws::double_entry::lemma_types;
use crate::laws::frames::{
    keeps_allocate, keeps_given_lines, keeps_purchase_lines, keeps_sale_lines, keeps_settle,
};
use crate::laws::known::lemma_sale_projected;
use crate::laws::parties::{
    law_party_balances_follow_the_books, lemma_net, lemma_payment, net_back, net_total,
    parties_in_step, side_book, side_drift, side_role, stated_side,
};
use crate::laws::reversal::{
    law_reversal_lines_take_back, lemma_reversal_payload, posted, share, stated,
};
use crate::laws::roles::held_in;
use crate::laws::stock::{
    book, brought, brought_by, clears_lots, drift, entry, in_step,
    law_stock_value_follows_the_books, lemma_moved_worth, lemma_stated_projected, lemma_sum_take,
    lemma_worth_back, restored, value,
};
use crate::laws::unbooked::{lemma_new_lines, only, unposted};
use crate::laws::undo::{
    law_lots_move_as_stated, law_rows_tell_of_a_sale, lemma_lookup_push, lot_moves, moves_lots,
    sales_known,
};
use crate::laws::unpaid::{
    booked, lemma_booked, lemma_purchase_dues, lemma_sale_dues, lemma_settle, lemma_voided, payer,
};
use crate::model::{
    add_lot, add_purchase, add_purchase_line, add_sale, found_lines_from, given_lines_from, invoice,
    named_or_role, nested_worth, on_credit, opening_lots_from, payment, post, post_role, product,
    project, purchase_line, purchase_lines, purchase_lines_from, purchased_lot, role_id, sale_lines,
    stocked_lot, transaction_reversed, worth, Text,
};
use crate::reconciliation::lot_value;
use crate::rows::{distinct, lookup};
use crate::sums::sum_over;
use crate::tables::{JournalLine, Lot, ReadModel};
use vstd::prelude::*;

verus! {

/// Lines of one event book on an account what the event posted to it.
proof fn lemma_booked_lines(lines: Seq<JournalLine<Text>>, event: Text, account: Text)
    requires
        forall|i: int| 0 <= i < lines.len() ==> (#[trigger] lines[i]).event_id == event,
    ensures
        book(lines, account) == posted(lines, event, only(account)),
    decreases lines.len(),
{
    let f = |l: JournalLine<Text>| entry(l, account);
    let g = |l: JournalLine<Text>| share(l, event, only(account));
    if lines.len() > 0 {
        let front = lines.drop_last();
        assert forall|i: int| 0 <= i < front.len() implies (#[trigger] front[i]).event_id
            == event by {
            assert(front[i] == lines[i]);
        }
        lemma_booked_lines(front, event, account);
        assert(lines[lines.len() - 1].event_id == event);
        assert(sum_over(lines, f) == sum_over(front, f) + f(lines.last()));
        assert(sum_over(lines, g) == sum_over(front, g) + g(lines.last()));
    }
}

/// What is booked in two parts of a journal.
proof fn lemma_book_split(a: Seq<JournalLine<Text>>, b: Seq<JournalLine<Text>>, account: Text)
    ensures
        book(a + b, account) == book(a, account) + book(b, account),
    decreases b.len(),
{
    let f = |l: JournalLine<Text>| entry(l, account);
    if b.len() > 0 {
        lemma_book_split(a, b.drop_last(), account);
        assert((a + b).drop_last() =~= a + b.drop_last());
        assert((a + b).last() == b.last());
        assert(sum_over(a + b, f) == sum_over((a + b).drop_last(), f) + f(b.last()));
        assert(sum_over(b, f) == sum_over(b.drop_last(), f) + f(b.last()));
    } else {
        assert(a + b =~= a);
    }
}

/// The lines of a reversal right after its target take back what the target booked on an
/// account.
proof fn lemma_lines_take_back(
    m: ReadModel,
    log: Seq<EventV>,
    target: EventV,
    ev: EventV,
    ty: Text,
    reason: Text,
    account: Text,
)
    requires
        distinct(m.accounts),
        !on_accounts(target),
        unposted(m.journal, target.id),
        project(m, log, target) is Ok,
        ev.payload == reversal_payload(project(m, log, target)->Ok_0, target.id, ty, reason),
    ensures
        stated(list(ev.payload, "reversalJournalLines"@), only(account), 0) == book(
            m.journal,
            account,
        ) - book(project(m, log, target)->Ok_0.journal, account),
        txt(ev.payload, "targetEventId"@) == target.id,
{
    let k = project(m, log, target)->Ok_0;
    let added = new_lines(m.journal, k.journal);
    lemma_entered(m, log, target);
    lemma_reversal_payload(k, target.id, ty, reason);
    law_reversal_lines_take_back(k.journal, target.id, only(account));
    lemma_new_lines(m.journal, target.id, txn_of(target), k.journal, only(account));
    lemma_booked_lines(added, target.id, account);
    lemma_book_split(m.journal, added, account);
}

// ---- stock ----

/// No lot came from the event.
pub open spec fn unsourced(lots: Seq<Lot<Text>>, event: Text) -> bool {
    forall|i: int| 0 <= i < lots.len() ==> (#[trigger] lots[i]).source_event_id != event
}

/// Lots with further ones, all from one event.
pub open spec fn lots_brought(
    lots: Seq<Lot<Text>>,
    event: Text,
    after: Seq<Lot<Text>>,
) -> bool {
    &&& lots.len() <= after.len()
    &&& after.take(lots.len() as int) == lots
    &&& forall|i: int|
        lots.len() <= i < after.len() ==> (#[trigger] after[i]).source_event_id == event
}

/// One lot more.
proof fn lemma_one_brought(
    lots: Seq<Lot<Text>>,
    event: Text,
    after: Seq<Lot<Text>>,
    l: Lot<Text>,
)
    requires
        lots_brought(lots, event, after),
        l.source_event_id == event,
    ensures
        lots_brought(lots, event, after.push(l)),
{
    assert(after.push(l).take(lots.len() as int) =~= after.take(lots.len() as int));
}

proof fn lemma_purchase_brings(
    lots: Seq<Lot<Text>>,
    m: ReadModel,
    ev: EventV,
    lines: Seq<JsonV>,
    i: int,
)
    requires
        lots_brought(lots, ev.id, m.lots),
    ensures
        purchase_lines_from(m, ev, lines, i) matches Ok(n) ==> lots_brought(lots, ev.id, n.lots),
    decreases lines.len() - i,
{
    if i < lines.len() {
        let l = purchased_lot(ev, lines[i]);
        lemma_one_brought(lots, ev.id, m.lots, l);
        let o = add_purchase_line(add_lot(Ok(m), l), purchase_line(ev, lines[i], i as nat));
        if let Ok(k) = o {
            lemma_purchase_brings(lots, k, ev, lines, i + 1);
        }
    }
}

proof fn lemma_found_brings(
    lots: Seq<Lot<Text>>,
    m: ReadModel,
    ev: EventV,
    lines: Seq<JsonV>,
    i: int,
)
    requires
        lots_brought(lots, ev.id, m.lots),
    ensures
        found_lines_from(m, ev, lines, i) matches Ok(n) ==> lots_brought(lots, ev.id, n.lots),
    decreases lines.len() - i,
{
    if i < lines.len() && found_lines_from(m, ev, lines, i) is Ok {
        let id = txt(ev.payload, "foundId"@);
        let date = txt(ev.payload, "date"@);
        let v = product(num(lines[i], "qty"@), num(lines[i], "unitCostMinor"@))->0;
        let l = stocked_lot(ev, lines[i], None);
        lemma_one_brought(lots, ev.id, m.lots, l);
        let o = add_lot(Ok(m), l);
        let account = named_or_role(o->Ok_0, lines[i], "incomeAccountId"@, "inventory_gain"@)->Ok_0;
        let o = post_role(o, ev.id, id, (2 * i) as nat, "inventory"@, v, 0, date);
        let o = post(o, ev.id, id, (2 * i + 1) as nat, account, 0, v, date, None);
        lemma_found_brings(lots, o->Ok_0, ev, lines, i + 1);
    }
}

proof fn lemma_opening_brings(
    lots: Seq<Lot<Text>>,
    m: ReadModel,
    ev: EventV,
    lines: Seq<JsonV>,
    i: int,
)
    requires
        lots_brought(lots, ev.id, m.lots),
    ensures
        opening_lots_from(m, ev, lines, i) matches Ok(n) ==> lots_brought(lots, ev.id, n.lots),
    decreases lines.len() - i,
{
    if i < lines.len() {
        let l = stocked_lot(ev, lines[i], opt_txt(lines[i], "supplierId"@));
        lemma_one_brought(lots, ev.id, m.lots, l);
        if let Ok(k) = add_lot(Ok(m), l) {
            lemma_opening_brings(lots, k, ev, lines, i + 1);
        }
    }
}

/// A purchase, a find or opening balances do nothing to lots but bring their own.
proof fn lemma_brings(m: ReadModel, log: Seq<EventV>, ev: EventV)
    requires
        clears_lots(ev),
        project(m, log, ev) is Ok,
    ensures
        lots_brought(m.lots, ev.id, project(m, log, ev)->Ok_0.lots),
{
    lemma_types();
    let p = ev.payload;
    let lines = list(p, "lines"@);
    assert(m.lots.take(m.lots.len() as int) =~= m.lots);
    if ev.event_type == "PurchaseRecorded"@ {
        let total = worth(lines, "qty"@, "unitCostMinor"@)->0;
        let o = add_purchase(
            Ok(m),
            invoice(ev, txt(p, "purchaseId"@), opt_txt(p, "supplierId"@), total),
        );
        lemma_purchase_brings(m.lots, o->Ok_0, ev, lines, 0);
        assert(project(m, log, ev)->Ok_0.lots == purchase_lines(o, ev, lines)->Ok_0.lots);
    } else if ev.event_type == "InventoryFound"@ {
        lemma_found_brings(m.lots, m, ev, lines, 0);
    } else {
        let accounts = list(p, "accountBalances"@);
        let date = txt(p, "date"@);
        keeps_given_lines(m, ev, accounts, date, "opening balance"@, 0);
        let k = given_lines_from(m, ev, accounts, date, "opening balance"@, 0)->Ok_0;
        lemma_opening_brings(m.lots, k, ev, list(p, "lots"@), 0);
    }
}

/// What lots that an event brought are worth is what they add to the value of the stock.
proof fn lemma_brought_worth(
    lots: Seq<Lot<Text>>,
    event: Text,
    after: Seq<Lot<Text>>,
    n: int,
)
    requires
        unsourced(lots, event),
        lots_brought(lots, event, after),
        0 <= n <= after.len(),
    ensures
        brought(after.take(n), event) == if n <= lots.len() {
            0
        } else {
            value(after.take(n)) - value(lots)
        },
    decreases n,
{
    let f = brought_by(event);
    let g = |l: Lot<Text>| lot_value(l);
    if n > 0 {
        lemma_brought_worth(lots, event, after, n - 1);
        lemma_sum_take(after, n - 1, f);
        lemma_sum_take(after, n - 1, g);
        assert(brought(after.take(n), event) == brought(after.take(n - 1), event) + f(
            after[n - 1],
        ));
        assert(value(after.take(n)) == value(after.take(n - 1)) + g(after[n - 1]));
        if n <= lots.len() {
            assert(after.take(lots.len() as int)[n - 1] == after[n - 1]);
            assert(lots[n - 1].source_event_id != event);
        } else if n - 1 == lots.len() {
            assert(after.take(n - 1) == lots);
        }
    }
}

/// Events that neither bring nor move lots leave them alone.
proof fn lemma_lots_alone(m: ReadModel, log: Seq<EventV>, ev: EventV)
    requires
        !clears_lots(ev),
        !moves_lots(ev),
        ev.event_type != "TransactionReversed"@,
        project(m, log, ev) is Ok,
    ensures
        project(m, log, ev)->Ok_0.lots == m.lots,
{
    let js = list(ev.payload, "allocations"@);
    keeps_allocate(m, ev, js, 0);
    if ev.event_type == "PaymentReceived"@ {
        lemma_payment_lots(m, ev, true);
    } else if ev.event_type == "PaymentMade"@ {
        lemma_payment_lots(m, ev, false);
    }
}

proof fn lemma_payment_lots(m: ReadModel, ev: EventV, incoming: bool)
    ensures
        payment(m, ev, incoming) matches Ok(n) ==> n.lots == m.lots,
{
    if payment(m, ev, incoming) is Ok {
        lemma_booked(m, ev, incoming);
        keeps_settle(
            booked(m, ev, incoming)->Ok_0,
            ev,
            incoming,
            payer(ev, incoming),
            list(ev.payload, "allocations"@),
            0,
        );
    }
}

/// The reversal of an event that kept stock and books in step, right after it, keeps them
/// in step too, so that the stock goes on being worth what the inventory account says.
pub proof fn law_reversal_keeps_stock_in_step(
    m: ReadModel,
    log: Seq<EventV>,
    target: EventV,
    later: Seq<EventV>,
    ev: EventV,
    ty: Text,
    reason: Text,
)
    requires
        distinct(m.accounts),
        sales_known(m),
        role_id(m, "inventory"@) is Ok,
        in_step(m, log, target, role_id(m, "inventory"@)->Ok_0),
        target.event_type != "TransactionReversed"@,
        !on_accounts(target),
        unposted(m.journal, target.id),
        unsourced(m.lots, target.id),
        project(m, log, target) is Ok,
        ev.event_type == "TransactionReversed"@,
        ev.payload == reversal_payload(project(m, log, target)->Ok_0, target.id, ty, reason),
        lookup(later, target.id) == Some(target),
    ensures
        in_step(project(m, log, target)->Ok_0, later, ev, role_id(m, "inventory"@)->Ok_0),
        transaction_reversed(project(m, log, target)->Ok_0, later, ev) matches Ok(n) ==> drift(n)
            == drift(m),
{
    let inv = role_id(m, "inventory"@)->Ok_0;
    let k = project(m, log, target)->Ok_0;
    law_stock_value_follows_the_books(m, log, target);
    lemma_lines_take_back(m, log, target, ev, ty, reason, inv);
    if clears_lots(target) {
        lemma_brings(m, log, target);
        lemma_brought_worth(m.lots, target.id, k.lots, k.lots.len() as int);
        assert(k.lots.take(k.lots.len() as int) =~= k.lots);
        assert(k.lots.len() == m.lots.len() ==> k.lots =~= m.lots);
    } else if moves_lots(target) {
        let f = lot_moves(target);
        law_lots_move_as_stated(m, log, target);
        lemma_moved_worth(m.lots, f, k.lots, m.lots.len());
        lemma_worth_back(m.lots, f, k.lots, m.lots.len());
        assert(m.lots.take(m.lots.len() as int) =~= m.lots);
        assert(k.lots.take(m.lots.len() as int) =~= k.lots);
        if target.event_type == "SaleRecorded"@ {
            lemma_sale_projected(m, log, target);
            law_rows_tell_of_a_sale(m, target);
        }
    } else {
        lemma_lots_alone(m, log, target);
    }
    lemma_types();
    lemma_stated_projected(k, later, ev);
    assert(restored(k.lots, target) == value(m.lots) - value(k.lots));
    if transaction_reversed(k, later, ev) is Ok {
        lemma_entered(m, log, target);
        assert(distinct(k.accounts)) by {
            lemma_entered_distinct(m, target.id, txn_of(target), k);
        }
        law_stock_value_follows_the_books(k, later, ev);
    }
}

// ---- parties ----

/// An event that moves no party's balance, or one whose effect on balances a reversal
/// gives back. The others are returns and expenses on credit.
pub open spec fn gives_back(m: ReadModel, target: EventV, k: ReadModel, receivable: bool) -> bool {
    let ty = target.event_type;
    ty == "SaleRecorded"@ || ty == "PurchaseRecorded"@ || ty == "PaymentReceived"@ || ty
        == "PaymentMade"@ || ty == "PaymentAllocated"@ || net_total(k.balances, receivable)
        == net_total(m.balances, receivable)
}

/// What a sale or a purchase adds to the net of a side is what its reversal takes off.
proof fn lemma_invoice_net(m: ReadModel, log: Seq<EventV>, target: EventV, receivable: bool)
    requires
        target.event_type == "SaleRecorded"@ || target.event_type == "PurchaseRecorded"@,
        project(m, log, target) is Ok,
    ensures
        net_total(project(m, log, target)->Ok_0.balances, receivable) == net_total(
            m.balances,
            receivable,
        ) - net_back(project(m, log, target)->Ok_0, target, receivable),
{
    lemma_types();
    let p = target.payload;
    let lines = list(p, "lines"@);
    let k = project(m, log, target)->Ok_0;
    if target.event_type == "SaleRecorded"@ {
        let id = txt(p, "saleId"@);
        let date = txt(p, "date"@);
        let party = opt_txt(p, "customerId"@);
        let revenue = worth(lines, "qty"@, "unitPriceMinor"@)->0;
        let cogs = nested_worth(lines, "lotConsumption"@, "qtyTaken"@, "unitCostMinor"@)->0;
        let inv = invoice(target, id, party, revenue);
        lemma_sale_dues(m, target, id);
        lemma_voided(m.sales, inv);
        let a = add_sale(Ok(m), inv);
        keeps_sale_lines(a->Ok_0, target, lines, 0);
        let debtor = if on_credit(p) {
            "accounts_receivable"@
        } else {
            "bank"@
        };
        let o = sale_lines(a, target, lines);
        let o = post_role(o, target.id, id, 0, debtor, revenue, 0, date);
        let o = post_role(o, target.id, id, 1, "sales"@, 0, revenue, date);
        let o = post_role(o, target.id, id, 2, "cogs"@, cogs, 0, date);
        let o = post_role(o, target.id, id, 3, "inventory"@, 0, cogs, date);
        let b = o->Ok_0;
        assert(b.balances == m.balances);
        if let Some(c) = party {
            lemma_net(b, c, revenue as int, 0, 0, 0, receivable);
        }
        assert(lookup(k.sales, id) == Some(inv));
    } else {
        let id = txt(p, "purchaseId"@);
        let date = txt(p, "date"@);
        let party = opt_txt(p, "supplierId"@);
        let total = worth(lines, "qty"@, "unitCostMinor"@)->0;
        let inv = invoice(target, id, party, total);
        lemma_purchase_dues(m, target, id);
        lemma_voided(m.purchases, inv);
        let a = add_purchase(Ok(m), inv);
        keeps_purchase_lines(a->Ok_0, target, lines, 0);
        let creditor = if on_credit(p) {
            "accounts_payable"@
        } else {
            "bank"@
        };
        let o = purchase_lines(a, target, lines);
        let o = post_role(o, target.id, id, 0, "inventory"@, total, 0, date);
        let b = post_role(o, target.id, id, 1, creditor, 0, total, date)->Ok_0;
        assert(b.balances == m.balances);
        if let Some(c) = party {
            lemma_net(b, c, 0, total as int, 0, 0, receivable);
        }
        assert(lookup(k.purchases, id) == Some(inv));
    }
}

/// What a payment books on a side is what its reversal gives back.
proof fn lemma_payment_book(
    m: ReadModel,
    target: EventV,
    incoming: bool,
    receivable: bool,
    account: Text,
)
    requires
        held_in(m, side_role(receivable), account),
        payment(m, target, incoming) is Ok,
    ensures
        ({
            let k = payment(m, target, incoming)->Ok_0;
            &&& lookup(k.payments, txt(target.payload, "paymentId"@)) matches Some(r)
            &&& r.amount_minor == num(target.payload, "amountMinor"@)
            &&& side_book(k.journal, receivable, account) == side_book(
                m.journal,
                receivable,
                account,
            ) - if incoming == receivable {
                r.amount_minor as int
            } else {
                0
            }
        }),
{
    let id = txt(target.payload, "paymentId"@);
    let js = list(target.payload, "allocations"@);
    lemma_payment(m, target, incoming, receivable, account);
    lemma_booked(m, target, incoming);
    let b = booked(m, target, incoming)->Ok_0;
    let party = payer(target, incoming);
    lemma_settle(b, target, incoming, party, js, 0, id, party);
    let k = payment(m, target, incoming)->Ok_0;
    assert(k.payments == b.payments);
    assert(b.payments =~= m.payments.push(b.payments.last()));
    lemma_lookup_push(m.payments, b.payments.last(), id);
}

/// The reversal of an event that kept parties and books in step, right after it, keeps them
/// in step too, unless the event moved party balances that no reversal gives back.
pub proof fn law_reversal_keeps_parties_in_step(
    m: ReadModel,
    log: Seq<EventV>,
    target: EventV,
    later: Seq<EventV>,
    ev: EventV,
    ty: Text,
    reason: Text,
    receivable: bool,
)
    requires
        distinct(m.accounts),
        role_id(m, side_role(receivable)) is Ok,
        parties_in_step(m, log, target, receivable, role_id(m, side_role(receivable))->Ok_0),
        target.event_type != "TransactionReversed"@,
        !on_accounts(target),
        unposted(m.journal, target.id),
        project(m, log, target) is Ok,
        gives_back(m, target, project(m, log, target)->Ok_0, receivable),
        ev.event_type == "TransactionReversed"@,
        ev.payload == reversal_payload(project(m, log, target)->Ok_0, target.id, ty, reason),
        lookup(later, target.id) == Some(target),
    ensures
        parties_in_step(
            project(m, log, target)->Ok_0,
            later,
            ev,
            receivable,
            role_id(m, side_role(receivable))->Ok_0,
        ),
        transaction_reversed(project(m, log, target)->Ok_0, later, ev) matches Ok(n) ==> side_drift(
            n,
            receivable,
        ) == side_drift(m, receivable),
{
    let account = role_id(m, side_role(receivable))->Ok_0;
    let k = project(m, log, target)->Ok_0;
    law_party_balances_follow_the_books(m, log, target, receivable);
    lemma_lines_take_back(m, log, target, ev, ty, reason, account);
    lemma_types();
    let kind = target.event_type;
    if kind == "SaleRecorded"@ || kind == "PurchaseRecorded"@ {
        lemma_invoice_net(m, log, target, receivable);
    } else if kind == "PaymentReceived"@ {
        lemma_payment_book(m, target, true, receivable, account);
    } else if kind == "PaymentMade"@ {
        lemma_payment_book(m, target, false, receivable, account);
    } else if kind == "PaymentAllocated"@ {
        keeps_allocate(m, target, list(target.payload, "allocations"@), 0);
    }
    lemma_stated_projected(k, later, ev);
    assert(stated_side(list(ev.payload, "reversalJournalLines"@), receivable, account) == net_back(
        k,
        target,
        receivable,
    ));
    if transaction_reversed(k, later, ev) is Ok {
        lemma_entered(m, log, target);
        lemma_entered_distinct(m, target.id, txn_of(target), k);
        law_party_balances_follow_the_books(k, later, ev, receivable);
    }
}

} // verus!
