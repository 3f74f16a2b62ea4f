//! Sale lines and consumption rows name sales that are there, and go on telling what a
//! sale took.

use crate::events::EventV;
use crate::json::{list, num, opt_txt, txt, JsonV};
use crate::laws::double_entry::lemma_types;
use crate::laws::frames::{
    keeps_allocate, keeps_given_lines, keeps_opening_lots, keeps_purchase_lines,
    keeps_purchase_return_lines, keeps_revert_balances, keeps_revert_lots, keeps_sale_return_lines,
    keeps_settle, keeps_unallocate,
};
use crate::laws::undo::{lemma_sold, nested_moves, rows_taken, rows_tell, sales_known};
use crate::laws::unpaid::{booked, lemma_allocate, lemma_booked, lemma_reopen, lemma_settle, payer};
use crate::model::{
    account_opened, account_updated, add_lot, add_purchase, add_return, adjust_lines_from,
    adjust_lot, expense_recorded, found_lines_from, given_lines_from, invoice, item_defined,
    item_deleted, item_updated, named_or_role, nested_worth, opening_balances, party_created,
    party_deleted, party_updated, payment, payment_allocated, post, post_role, product, project,
    purchase_recorded, purchase_return, reopen_from, replay_from, revert_balances, revert_lots,
    sale_recorded, sale_return, settle_from, stocked_lot, transaction_reversed, transfer_recorded,
    user_registered, user_updated, worth, Outcome, Text,
};
use crate::rows::{holds, lemma_has, lookup, Keyed};
use crate::tables::{no_rows, Invoice, ReadModel, Return};
use vstd::prelude::*;

verus! {

/// The same invoices, whatever they owe.
pub open spec fn same_ids(t: Seq<Invoice<Text>>, after: Seq<Invoice<Text>>) -> bool {
    after.len() == t.len() && forall|i: int|
        0 <= i < t.len() ==> (#[trigger] after[i]).id == t[i].id
}

/// The sales, their lines and what these took are the same.
pub open spec fn sales_kept(m: ReadModel, n: ReadModel) -> bool {
    n.consumptions == m.consumptions && n.sale_lines == m.sale_lines && same_ids(m.sales, n.sales)
}

/// The steps failed, or kept the sales.
pub open spec fn kept(m: ReadModel, o: Outcome) -> bool {
    o matches Ok(n) ==> sales_kept(m, n)
}

/// A sale that is there stays there.
proof fn lemma_same_ids(t: Seq<Invoice<Text>>, after: Seq<Invoice<Text>>, id: Text)
    requires
        same_ids(t, after),
    ensures
        holds(t, id) == holds(after, id),
{
    if holds(t, id) {
        let i = choose|i: int| 0 <= i < t.len() && (#[trigger] t[i]).key() == id;
        assert(after[i].key() == id);
    }
    if holds(after, id) {
        let i = choose|i: int| 0 <= i < after.len() && (#[trigger] after[i]).key() == id;
        assert(t[i].key() == id);
    }
}

proof fn keeps_write_off(m: ReadModel, ev: EventV, lines: Seq<JsonV>, i: int)
    ensures
        kept(m, adjust_lines_from(m, ev, lines, i)),
    decreases lines.len() - i,
{
    if i < lines.len() && adjust_lines_from(m, ev, lines, i) is Ok {
        let id = txt(ev.payload, "adjustmentId"@);
        let date = txt(ev.payload, "date"@);
        let lot = txt(lines[i], "lotId"@);
        let qty = -num(lines[i], "qtyDelta"@);
        let value = (qty * lookup(m.lots, lot)->0.unit_cost_minor) as i64;
        let o = adjust_lot(Ok(m), lot, -qty);
        let account = named_or_role(o->Ok_0, lines[i], "expenseAccountId"@, "shrinkage"@)->Ok_0;
        let o = post(o, ev.id, id, (2 * i) as nat, account, value, 0, date, None);
        let o = post_role(o, ev.id, id, (2 * i + 1) as nat, "inventory"@, 0, value, date);
        keeps_write_off(o->Ok_0, ev, lines, i + 1);
    }
}

proof fn keeps_found(m: ReadModel, ev: EventV, lines: Seq<JsonV>, i: int)
    ensures
        kept(m, found_lines_from(m, ev, lines, i)),
    decreases lines.len() - i,
{
    if i < lines.len() && found_lines_from(m, ev, lines, i) is Ok {
        let id = txt(ev.payload, "foundId"@);
        let date = txt(ev.payload, "date"@);
        let value = product(num(lines[i], "qty"@), num(lines[i], "unitCostMinor"@))->0;
        let o = add_lot(Ok(m), stocked_lot(ev, lines[i], None));
        let account = named_or_role(o->Ok_0, lines[i], "incomeAccountId"@, "inventory_gain"@)->Ok_0;
        let o = post_role(o, ev.id, id, (2 * i) as nat, "inventory"@, value, 0, date);
        let o = post(o, ev.id, id, (2 * i + 1) as nat, account, 0, value, date, None);
        keeps_found(o->Ok_0, ev, lines, i + 1);
    }
}

proof fn keeps_purchase(m: ReadModel, ev: EventV)
    ensures
        kept(m, purchase_recorded(m, ev)),
{
    let p = ev.payload;
    let lines = list(p, "lines"@);
    if let Some(total) = worth(lines, "qty"@, "unitCostMinor"@) {
        let o = add_purchase(
            Ok(m),
            invoice(ev, txt(p, "purchaseId"@), opt_txt(p, "supplierId"@), total),
        );
        if let Ok(n) = o {
            keeps_purchase_lines(n, ev, lines, 0);
        }
    }
}

proof fn keeps_payment(m: ReadModel, ev: EventV, incoming: bool)
    ensures
        kept(m, payment(m, ev, incoming)),
{
    if payment(m, ev, incoming) is Ok {
        let js = list(ev.payload, "allocations"@);
        let party = payer(ev, incoming);
        lemma_booked(m, ev, incoming);
        let k = booked(m, ev, incoming)->Ok_0;
        keeps_settle(k, ev, incoming, party, js, 0);
        lemma_settle(k, ev, incoming, party, js, 0, party, party);
        let n = settle_from(k, ev, incoming, party, js, 0)->Ok_0;
        assert(same_ids(m.sales, n.sales));
    }
}

proof fn keeps_allocation(m: ReadModel, ev: EventV)
    ensures
        kept(m, payment_allocated(m, ev)),
{
    if payment_allocated(m, ev) is Ok {
        let js = list(ev.payload, "allocations"@);
        let party = txt(ev.payload, "partyId"@);
        keeps_allocate(m, ev, js, 0);
        lemma_allocate(m, ev, js, 0, true, party, party);
        let n = payment_allocated(m, ev)->Ok_0;
        assert(same_ids(m.sales, n.sales));
    }
}

proof fn keeps_sale_return(m: ReadModel, ev: EventV)
    ensures
        kept(m, sale_return(m, ev)),
{
    let p = ev.payload;
    let lines = list(p, "lines"@);
    let original = txt(p, "originalSaleId"@);
    let revenue = worth(lines, "qty"@, "unitPriceMinor"@);
    let cost = nested_worth(lines, "lotReturns"@, "qtyReturned"@, "unitCostMinor"@);
    lemma_has(m.sales, original);
    if revenue is Some && cost is Some {
        let o = add_return(
            Ok(m),
            Return {
                id: txt(p, "returnId"@),
                event_id: ev.id,
                return_type: "sale_return"@,
                original_id: original,
                date: txt(p, "date"@),
                revenue_reversed_minor: revenue->0,
                cost_restored_minor: cost->0,
            },
        );
        if let Ok(n) = o {
            keeps_sale_return_lines(n, ev, lines, 0, 0);
        }
    }
}

proof fn keeps_purchase_return(m: ReadModel, ev: EventV)
    ensures
        kept(m, purchase_return(m, ev)),
{
    let p = ev.payload;
    let lines = list(p, "lines"@);
    if let Some(cost) = worth(lines, "qty"@, "unitCostMinor"@) {
        let o = add_return(
            Ok(m),
            Return {
                id: txt(p, "returnId"@),
                event_id: ev.id,
                return_type: "purchase_return"@,
                original_id: txt(p, "originalPurchaseId"@),
                date: txt(p, "date"@),
                revenue_reversed_minor: 0,
                cost_restored_minor: cost,
            },
        );
        if let Ok(n) = o {
            keeps_purchase_return_lines(n, ev, lines, 0);
        }
    }
}

pub proof fn keeps_reversal(m: ReadModel, log: Seq<EventV>, ev: EventV)
    ensures
        kept(m, transaction_reversed(m, log, ev)),
{
    if transaction_reversed(m, log, ev) is Ok {
        let target = lookup(log, txt(ev.payload, "targetEventId"@))->0;
        let given = list(ev.payload, "reversalJournalLines"@);
        let date = txt(target.payload, "date"@);
        keeps_given_lines(m, ev, given, date, "reversal"@, 0);
        let a = given_lines_from(m, ev, given, date, "reversal"@, 0)->Ok_0;
        keeps_revert_lots(a, target);
        let b = revert_lots(Ok(a), target)->Ok_0;
        keeps_revert_balances(b, target);
        keeps_reverted_sales(b, target);
    }
}

proof fn keeps_reverted_sales(m: ReadModel, target: EventV)
    ensures
        revert_balances(Ok(m), target) matches Ok(n) ==> same_ids(m.sales, n.sales),
{
    let tp = target.payload;
    lemma_reopen(m, target.id, 0);
    lemma_has(m.sales, txt(tp, "saleId"@));
    if let Ok(n) = reopen_from(m, target.id, 0) {
        assert(same_ids(m.sales, n.sales));
        keeps_unallocate(n, target.id, txt(tp, "partyId"@), 0);
    }
}

/// Every event but a sale keeps the sales.
proof fn lemma_sales_kept(m: ReadModel, log: Seq<EventV>, ev: EventV)
    requires
        ev.event_type != "SaleRecorded"@,
    ensures
        kept(m, project(m, log, ev)),
{
    let ty = ev.event_type;
    let lines = list(ev.payload, "lines"@);
    lemma_types();
    keeps_the_rest(m, ev);
    if ty == "PurchaseRecorded"@ {
        keeps_purchase(m, ev);
    } else if ty == "PaymentReceived"@ {
        keeps_payment(m, ev, true);
    } else if ty == "PaymentMade"@ {
        keeps_payment(m, ev, false);
    } else if ty == "PaymentAllocated"@ {
        keeps_allocation(m, ev);
    } else if ty == "SaleReturnRecorded"@ {
        keeps_sale_return(m, ev);
    } else if ty == "PurchaseReturnRecorded"@ {
        keeps_purchase_return(m, ev);
    } else if ty == "InventoryAdjusted"@ {
        keeps_write_off(m, ev, lines, 0);
    } else if ty == "InventoryFound"@ {
        keeps_found(m, ev, lines, 0);
    } else if ty == "OpeningBalancesRecorded"@ {
        keeps_opening(m, ev);
    } else if ty == "TransactionReversed"@ {
        keeps_reversal(m, log, ev);
    }
}

/// What touches neither stock nor invoices keeps the sales.
proof fn keeps_the_rest(m: ReadModel, ev: EventV)
    ensures
        kept(m, user_registered(m, ev)),
        kept(m, account_opened(m, ev)),
        kept(m, item_defined(m, ev)),
        kept(m, party_created(m, ev)),
        kept(m, user_updated(m, ev)),
        kept(m, account_updated(m, ev)),
        kept(m, item_updated(m, ev)),
        kept(m, party_updated(m, ev)),
        kept(m, item_deleted(m, ev)),
        kept(m, party_deleted(m, ev)),
        kept(m, expense_recorded(m, ev)),
        kept(m, transfer_recorded(m, ev)),
{
}

proof fn keeps_opening(m: ReadModel, ev: EventV)
    ensures
        kept(m, opening_balances(m, ev)),
{
    let p = ev.payload;
    let accounts = list(p, "accountBalances"@);
    keeps_given_lines(m, ev, accounts, txt(p, "date"@), "opening balance"@, 0);
    if let Ok(n) = given_lines_from(m, ev, accounts, txt(p, "date"@), "opening balance"@, 0) {
        keeps_opening_lots(n, ev, list(p, "lots"@), 0);
    }
}

/// What the projection of a sale is.
pub proof fn lemma_sale_projected(m: ReadModel, log: Seq<EventV>, ev: EventV)
    requires
        ev.event_type == "SaleRecorded"@,
    ensures
        project(m, log, ev) == sale_recorded(m, ev),
{
    lemma_types();
}

/// Whatever an event does, every consumption is for a sale line, and every sale line of a
/// sale, that is there.
pub proof fn law_sales_stay_known(m: ReadModel, log: Seq<EventV>, ev: EventV)
    requires
        sales_known(m),
        project(m, log, ev) is Ok,
    ensures
        sales_known(project(m, log, ev)->Ok_0),
{
    let n = project(m, log, ev)->Ok_0;
    if ev.event_type == "SaleRecorded"@ {
        lemma_sale_projected(m, log, ev);
        lemma_sold(m, ev, Seq::empty(), Seq::empty());
    } else {
        lemma_sales_kept(m, log, ev);
        assert forall|i: int| 0 <= i < n.sale_lines.len() implies holds(
            n.sales,
            (#[trigger] n.sale_lines[i]).sale_id,
        ) by {
            lemma_same_ids(m.sales, n.sales, m.sale_lines[i].sale_id);
        }
    }
}

/// Replaying any log gives tables in which consumptions, sale lines and sales hang
/// together.
pub proof fn law_replayed_sales_are_known(log: Seq<EventV>, events: Seq<EventV>)
    requires
        replay_from(no_rows(), log, events, 0) is Ok,
    ensures
        sales_known(replay_from(no_rows(), log, events, 0)->Ok_0),
{
    lemma_replayed(no_rows(), log, events, 0);
}

proof fn lemma_replayed(m: ReadModel, log: Seq<EventV>, events: Seq<EventV>, i: int)
    requires
        sales_known(m),
        replay_from(m, log, events, i) is Ok,
    ensures
        sales_known(replay_from(m, log, events, i)->Ok_0),
    decreases events.len() - i,
{
    if i < events.len() {
        law_sales_stay_known(m, log, events[i]);
        lemma_replayed(project(m, log, events[i])->Ok_0, log, events, i + 1);
    }
}

/// Whatever happens after a sale, the consumption rows go on telling what it took of every
/// lot, so that a reversal at any later time gives back just that.
pub proof fn law_rows_go_on_telling(m: ReadModel, log: Seq<EventV>, ev: EventV, sale: EventV)
    requires
        sales_known(m),
        holds(m.sales, txt(sale.payload, "saleId"@)),
        rows_tell(m, sale),
        project(m, log, ev) is Ok,
    ensures
        holds(project(m, log, ev)->Ok_0.sales, txt(sale.payload, "saleId"@)),
        rows_tell(project(m, log, ev)->Ok_0, sale),
{
    let n = project(m, log, ev)->Ok_0;
    let id = txt(sale.payload, "saleId"@);
    if ev.event_type == "SaleRecorded"@ {
        lemma_sale_projected(m, log, ev);
        lemma_sold(m, ev, id, Seq::empty());
        assert forall|lot: Text| #[trigger]
            rows_taken(n.consumptions, n.sale_lines, id, lot, 0) == -nested_moves(
            list(sale.payload, "lines"@),
            "lotConsumption"@,
            "qtyTaken"@,
            false,
            lot,
            0,
        ) by {
            lemma_sold(m, ev, id, lot);
            assert(rows_taken(m.consumptions, m.sale_lines, id, lot, 0) == -nested_moves(
                list(sale.payload, "lines"@),
                "lotConsumption"@,
                "qtyTaken"@,
                false,
                lot,
                0,
            ));
        }
    } else {
        lemma_sales_kept(m, log, ev);
        lemma_same_ids(m.sales, n.sales, id);
    }
}

} // verus!
