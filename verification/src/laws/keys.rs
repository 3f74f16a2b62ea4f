//! No key occurs twice in a table.

use crate::events::EventV;
use crate::json::{list, num, opt_txt, txt, JsonV};
use crate::laws::fifo::lemma_filter_distinct;
use crate::model::{
    account_opened, account_updated, add_allocation, add_consumption, add_expense, add_lot,
    add_payment, add_purchase, add_purchase_line, add_return, add_return_line, add_sale,
    add_sale_line, adjust_lines_from, adjust_lot, adjust_outstanding, adjust_party, allocate_from,
    allocated_by, allocation, clear_lots, consume_from, consumed_by, consumption, expense_recorded,
    found_lines_from, given_lines_from, inventory_adjusted, inventory_found, invoice, item_defined,
    item_deleted, item_updated, line_id, move_lots_from, named_or_role, nested_worth,
    opening_balances, opening_lots_from, party_created, party_deleted, party_updated, payment,
    payment_allocated, post, post_role, product, project, purchase_line, purchase_lines,
    purchase_lines_from, purchase_recorded, purchase_return, purchase_return_lines,
    purchase_return_lines_from, purchased_lot, reopen_from, replay_from, restock_from,
    revert_balances, revert_lots, sale_line, sale_lines, sale_lines_from, sale_recorded,
    sale_return, sale_return_lines, sale_return_lines_from, settle, settle_from, stocked_lot,
    transaction_reversed, transfer_recorded, unallocate_from, unconsume_from, unpay, unreturn_from,
    user_registered, user_updated, voided, worth, Outcome, Text,
};
use crate::rows::{distinct, holds, lemma_has, lookup, place, Keyed};
use crate::tables::{
    no_rows, Allocation, Expense, Invoice, Lot, LotConsumption, Payment, PurchaseLine, ReadModel,
    Return, ReturnLine, SaleLine,
};
use vstd::prelude::*;

verus! {

/// Every table has each key once.
pub open spec fn keys_once(m: ReadModel) -> bool {
    &&& distinct(m.users)
    &&& distinct(m.accounts)
    &&& distinct(m.items)
    &&& distinct(m.parties)
    &&& distinct(m.lots)
    &&& distinct(m.journal)
    &&& distinct(m.sales)
    &&& distinct(m.sale_lines)
    &&& distinct(m.consumptions)
    &&& distinct(m.purchases)
    &&& distinct(m.purchase_lines)
    &&& distinct(m.payments)
    &&& distinct(m.allocations)
    &&& distinct(m.balances)
    &&& distinct(m.returns)
    &&& distinct(m.return_lines)
    &&& distinct(m.expenses)
}

/// The steps failed, or every table has each key once.
pub open spec fn once(o: Outcome) -> bool {
    o matches Ok(m) ==> keys_once(m)
}

/// A row with a new key may be added.
pub broadcast proof fn lemma_pushed<R: Keyed>(t: Seq<R>, r: R)
    requires
        distinct(t),
        !holds(t, r.key()),
    ensures
        distinct(#[trigger] t.push(r)),
{
    let n = t.push(r);
    assert forall|i: int, j: int| 0 <= i < j < n.len() implies (#[trigger] n[i]).key() != (
    #[trigger] n[j]).key() by {
        assert(n[i] == t[i]);
        if j < t.len() {
            assert(n[j] == t[j]);
        }
    }
}

/// A row may be replaced by one with its key.
pub broadcast proof fn lemma_updated<R: Keyed>(t: Seq<R>, i: int, r: R)
    requires
        distinct(t),
        0 <= i < t.len(),
        r.key() == t[i].key(),
    ensures
        distinct(#[trigger] t.update(i, r)),
{
    let n = t.update(i, r);
    assert forall|x: int, y: int| 0 <= x < y < n.len() implies (#[trigger] n[x]).key() != (
    #[trigger] n[y]).key() by {
        assert(t[x].key() != t[y].key());
    }
}

/// A row may be taken out.
pub broadcast proof fn lemma_removed<R: Keyed>(t: Seq<R>, i: int)
    requires
        distinct(t),
        0 <= i < t.len(),
    ensures
        distinct(#[trigger] t.remove(i)),
{
    let n = t.remove(i);
    assert forall|x: int, y: int| 0 <= x < y < n.len() implies (#[trigger] n[x]).key() != (
    #[trigger] n[y]).key() by {
        let a = if x < i {
            x
        } else {
            x + 1
        };
        let b = if y < i {
            y
        } else {
            y + 1
        };
        assert(n[x] == t[a] && n[y] == t[b]);
        assert(t[a].key() != t[b].key());
    }
}

// ---- single steps ----

pub broadcast proof fn once_add_sale(o: Outcome, r: Invoice<Text>)
    requires
        once(o),
    ensures
        once(#[trigger] add_sale(o, r)),
{
    broadcast use lemma_pushed;

}

pub broadcast proof fn once_add_purchase(o: Outcome, r: Invoice<Text>)
    requires
        once(o),
    ensures
        once(#[trigger] add_purchase(o, r)),
{
    broadcast use lemma_pushed;

}

pub broadcast proof fn once_add_lot(o: Outcome, r: Lot<Text>)
    requires
        once(o),
    ensures
        once(#[trigger] add_lot(o, r)),
{
    broadcast use lemma_pushed;

}

pub broadcast proof fn once_add_sale_line(o: Outcome, r: SaleLine<Text>)
    requires
        once(o),
    ensures
        once(#[trigger] add_sale_line(o, r)),
{
    broadcast use lemma_pushed;

}

pub broadcast proof fn once_add_consumption(o: Outcome, r: LotConsumption<Text>)
    requires
        once(o),
    ensures
        once(#[trigger] add_consumption(o, r)),
{
    broadcast use lemma_pushed;

}

pub broadcast proof fn once_add_purchase_line(o: Outcome, r: PurchaseLine<Text>)
    requires
        once(o),
    ensures
        once(#[trigger] add_purchase_line(o, r)),
{
    broadcast use lemma_pushed;

}

pub broadcast proof fn once_add_payment(o: Outcome, r: Payment<Text>)
    requires
        once(o),
    ensures
        once(#[trigger] add_payment(o, r)),
{
    broadcast use lemma_pushed;

}

pub broadcast proof fn once_add_allocation(o: Outcome, r: Allocation<Text>)
    requires
        once(o),
    ensures
        once(#[trigger] add_allocation(o, r)),
{
    broadcast use lemma_pushed;

}

pub broadcast proof fn once_add_return(o: Outcome, r: Return<Text>)
    requires
        once(o),
    ensures
        once(#[trigger] add_return(o, r)),
{
    broadcast use lemma_pushed;

}

pub broadcast proof fn once_add_return_line(o: Outcome, r: ReturnLine<Text>)
    requires
        once(o),
    ensures
        once(#[trigger] add_return_line(o, r)),
{
    broadcast use lemma_pushed;

}

pub broadcast proof fn once_add_expense(o: Outcome, r: Expense<Text>)
    requires
        once(o),
    ensures
        once(#[trigger] add_expense(o, r)),
{
    broadcast use lemma_pushed;

}

pub broadcast proof fn once_post(
    o: Outcome,
    event: Text,
    txn: Text,
    index: nat,
    account: Text,
    debit: i64,
    credit: i64,
    date: Text,
    memo: Option<Text>,
)
    requires
        once(o),
    ensures
        once(#[trigger] post(o, event, txn, index, account, debit, credit, date, memo)),
{
    broadcast use {lemma_pushed, lemma_updated};

    if let Ok(m) = o {
        lemma_has(m.accounts, account);
    }
}

pub broadcast proof fn once_post_role(
    o: Outcome,
    event: Text,
    txn: Text,
    index: nat,
    role: Text,
    debit: i64,
    credit: i64,
    date: Text,
)
    requires
        once(o),
    ensures
        once(#[trigger] post_role(o, event, txn, index, role, debit, credit, date)),
{
    broadcast use once_post;

}

pub broadcast proof fn once_adjust_party(
    o: Outcome,
    party: Text,
    receivable: int,
    payable: int,
    credit: int,
    debit: int,
)
    requires
        once(o),
    ensures
        once(#[trigger] adjust_party(o, party, receivable, payable, credit, debit)),
{
    broadcast use {lemma_pushed, lemma_updated};

    if let Ok(m) = o {
        lemma_has(m.balances, party);
    }
}

pub broadcast proof fn once_adjust_lot(o: Outcome, lot: Text, delta: int)
    requires
        once(o),
    ensures
        once(#[trigger] adjust_lot(o, lot, delta)),
{
    broadcast use lemma_updated;

    if let Ok(m) = o {
        lemma_has(m.lots, lot);
    }
}

pub broadcast proof fn once_adjust_outstanding(o: Outcome, sale: bool, id: Text, delta: int)
    requires
        once(o),
    ensures
        once(#[trigger] adjust_outstanding(o, sale, id, delta)),
{
    broadcast use lemma_updated;

    if let Ok(m) = o {
        lemma_has(m.sales, id);
        lemma_has(m.purchases, id);
    }
}

pub broadcast group group_once {
    once_add_sale,
    once_add_purchase,
    once_add_lot,
    once_add_sale_line,
    once_add_consumption,
    once_add_purchase_line,
    once_add_payment,
    once_add_allocation,
    once_add_return,
    once_add_return_line,
    once_add_expense,
    once_post,
    once_post_role,
    once_adjust_party,
    once_adjust_lot,
    once_adjust_outstanding,
}

// ---- steps in turn ----

proof fn once_purchase_lines(m: ReadModel, ev: EventV, lines: Seq<JsonV>, i: int)
    requires
        keys_once(m),
    ensures
        once(purchase_lines_from(m, ev, lines, i)),
    decreases lines.len() - i,
{
    broadcast use group_once;

    let start: Outcome = Ok(m);
    assert(once(start));
    if i < lines.len() {
        let o = add_purchase_line(
            add_lot(start, purchased_lot(ev, lines[i])),
            purchase_line(ev, lines[i], i as nat),
        );
        if let Ok(n) = o {
            once_purchase_lines(n, ev, lines, i + 1);
        }
    }
}

proof fn once_consume(m: ReadModel, ev: EventV, line: nat, parts: Seq<JsonV>, j: int)
    requires
        keys_once(m),
    ensures
        once(consume_from(m, ev, line, parts, j)),
    decreases parts.len() - j,
{
    broadcast use group_once;

    let start: Outcome = Ok(m);
    assert(once(start));
    if j < parts.len() {
        let o = adjust_lot(
            add_consumption(start, consumption(ev, line, parts[j], j as nat)),
            txt(parts[j], "lotId"@),
            -num(parts[j], "qtyTaken"@),
        );
        if let Ok(n) = o {
            once_consume(n, ev, line, parts, j + 1);
        }
    }
}

proof fn once_sale_lines(m: ReadModel, ev: EventV, lines: Seq<JsonV>, i: int)
    requires
        keys_once(m),
    ensures
        once(sale_lines_from(m, ev, lines, i)),
    decreases lines.len() - i,
{
    broadcast use group_once;

    let start: Outcome = Ok(m);
    assert(once(start));
    if i < lines.len() {
        let parts = list(lines[i], "lotConsumption"@);
        if let Ok(n) = sale_line(m, ev, lines[i], i as nat) {
            let row = SaleLine {
                id: line_id(ev.id, i as nat),
                sale_id: txt(ev.payload, "saleId"@),
                item_id: txt(lines[i], "itemId"@),
                qty: num(lines[i], "qty"@),
                unit_price_minor: num(lines[i], "unitPriceMinor"@),
                revenue_minor: product(
                    num(lines[i], "qty"@),
                    num(lines[i], "unitPriceMinor"@),
                )->0,
                cogs_minor: worth(parts, "qtyTaken"@, "unitCostMinor"@)->0,
                date: txt(ev.payload, "date"@),
            };
            let o = add_sale_line(start, row);
            once_consume(o->Ok_0, ev, i as nat, parts, 0);
            once_sale_lines(n, ev, lines, i + 1);
        }
    }
}

proof fn once_settle(
    m: ReadModel,
    ev: EventV,
    incoming: bool,
    party: Text,
    parts: Seq<JsonV>,
    i: int,
)
    requires
        keys_once(m),
    ensures
        once(settle_from(m, ev, incoming, party, parts, i)),
    decreases parts.len() - i,
{
    broadcast use group_once;

    let start: Outcome = Ok(m);
    assert(once(start));
    if i < parts.len() {
        let target = txt(
            parts[i],
            if incoming {
                "saleId"@
            } else {
                "purchaseId"@
            },
        );
        let amount = num(parts[i], "amountMinor"@);
        let kind = if incoming {
            "sale"@
        } else {
            "purchase"@
        };
        let o = add_allocation(
            start,
            allocation(ev, i as nat, txt(ev.payload, "paymentId"@), target, kind, amount),
        );
        let o = adjust_outstanding(o, incoming, target, -amount);
        let o = if incoming {
            adjust_party(o, party, -amount, 0, 0, 0)
        } else {
            adjust_party(o, party, 0, -amount, 0, 0)
        };
        if let Ok(n) = o {
            once_settle(n, ev, incoming, party, parts, i + 1);
        }
    }
}

proof fn once_allocate(m: ReadModel, ev: EventV, parts: Seq<JsonV>, i: int)
    requires
        keys_once(m),
    ensures
        once(allocate_from(m, ev, parts, i)),
    decreases parts.len() - i,
{
    broadcast use group_once;

    let start: Outcome = Ok(m);
    assert(once(start));
    if i < parts.len() {
        let party = txt(ev.payload, "partyId"@);
        let target = txt(parts[i], "targetId"@);
        let kind = txt(parts[i], "targetType"@);
        let amount = num(parts[i], "amountMinor"@);
        let sale = kind == "sale"@;
        let o = add_allocation(
            start,
            allocation(ev, i as nat, txt(ev.payload, "paymentId"@), target, kind, amount),
        );
        let o = adjust_outstanding(o, sale, target, -amount);
        let o = if sale {
            adjust_party(o, party, -amount, 0, -amount, 0)
        } else {
            adjust_party(o, party, 0, -amount, 0, -amount)
        };
        if let Ok(n) = o {
            once_allocate(n, ev, parts, i + 1);
        }
    }
}

proof fn once_write_off(m: ReadModel, ev: EventV, lines: Seq<JsonV>, i: int)
    requires
        keys_once(m),
    ensures
        once(adjust_lines_from(m, ev, lines, i)),
    decreases lines.len() - i,
{
    broadcast use group_once;

    let start: Outcome = Ok(m);
    assert(once(start));
    if i < lines.len() && adjust_lines_from(m, ev, lines, i) is Ok {
        let id = txt(ev.payload, "adjustmentId"@);
        let date = txt(ev.payload, "date"@);
        let lot = txt(lines[i], "lotId"@);
        let qty = -num(lines[i], "qtyDelta"@);
        let value = (qty * lookup(m.lots, lot)->0.unit_cost_minor) as i64;
        let o = adjust_lot(start, lot, -qty);
        let account = named_or_role(o->Ok_0, lines[i], "expenseAccountId"@, "shrinkage"@)->Ok_0;
        let o = post(o, ev.id, id, (2 * i) as nat, account, value, 0, date, None);
        let o = post_role(o, ev.id, id, (2 * i + 1) as nat, "inventory"@, 0, value, date);
        once_write_off(o->Ok_0, ev, lines, i + 1);
    }
}

proof fn once_found(m: ReadModel, ev: EventV, lines: Seq<JsonV>, i: int)
    requires
        keys_once(m),
    ensures
        once(found_lines_from(m, ev, lines, i)),
    decreases lines.len() - i,
{
    broadcast use group_once;

    let start: Outcome = Ok(m);
    assert(once(start));
    if i < lines.len() && found_lines_from(m, ev, lines, i) is Ok {
        let id = txt(ev.payload, "foundId"@);
        let date = txt(ev.payload, "date"@);
        let value = product(num(lines[i], "qty"@), num(lines[i], "unitCostMinor"@))->0;
        let o = add_lot(start, stocked_lot(ev, lines[i], None));
        let account = named_or_role(o->Ok_0, lines[i], "incomeAccountId"@, "inventory_gain"@)->Ok_0;
        let o = post_role(o, ev.id, id, (2 * i) as nat, "inventory"@, value, 0, date);
        let o = post(o, ev.id, id, (2 * i + 1) as nat, account, 0, value, date, None);
        once_found(o->Ok_0, ev, lines, i + 1);
    }
}

proof fn once_given(
    m: ReadModel,
    ev: EventV,
    lines: Seq<JsonV>,
    date: Text,
    memo: Text,
    i: int,
)
    requires
        keys_once(m),
    ensures
        once(given_lines_from(m, ev, lines, date, memo, i)),
    decreases lines.len() - i,
{
    broadcast use group_once;

    let start: Outcome = Ok(m);
    assert(once(start));
    if i < lines.len() {
        let o = post(
            start,
            ev.id,
            ev.id,
            i as nat,
            txt(lines[i], "accountId"@),
            num(lines[i], "debitMinor"@),
            num(lines[i], "creditMinor"@),
            date,
            Some(memo),
        );
        if let Ok(n) = o {
            once_given(n, ev, lines, date, memo, i + 1);
        }
    }
}

proof fn once_opening_lots(m: ReadModel, ev: EventV, lots: Seq<JsonV>, i: int)
    requires
        keys_once(m),
    ensures
        once(opening_lots_from(m, ev, lots, i)),
    decreases lots.len() - i,
{
    broadcast use group_once;

    let start: Outcome = Ok(m);
    assert(once(start));
    if i < lots.len() {
        let o = add_lot(start, stocked_lot(ev, lots[i], opt_txt(lots[i], "supplierId"@)));
        if let Ok(n) = o {
            once_opening_lots(n, ev, lots, i + 1);
        }
    }
}

proof fn once_restock(
    m: ReadModel,
    ev: EventV,
    line: JsonV,
    parts: Seq<JsonV>,
    j: int,
    n: int,
)
    requires
        keys_once(m),
    ensures
        once(restock_from(m, ev, line, parts, j, n)),
    decreases parts.len() - j,
{
    broadcast use group_once;

    let start: Outcome = Ok(m);
    assert(once(start));
    if j < parts.len() && n + j < u64::MAX {
        let o = adjust_lot(start, txt(parts[j], "lotId"@), num(parts[j], "qtyReturned"@) as int);
        let o = add_return_line(
            o,
            ReturnLine {
                id: line_id(ev.id, (n + j) as nat),
                return_id: txt(ev.payload, "returnId"@),
                item_id: txt(line, "itemId"@),
                qty: num(parts[j], "qtyReturned"@),
                unit_price_minor: num(line, "unitPriceMinor"@),
                unit_cost_minor: num(parts[j], "unitCostMinor"@),
                lot_id: txt(parts[j], "lotId"@),
            },
        );
        if let Ok(k) = o {
            once_restock(k, ev, line, parts, j + 1, n);
        }
    }
}

proof fn once_sale_return_lines(m: ReadModel, ev: EventV, lines: Seq<JsonV>, i: int, n: int)
    requires
        keys_once(m),
    ensures
        once(sale_return_lines_from(m, ev, lines, i, n)),
    decreases lines.len() - i,
{
    if i < lines.len() {
        let parts = list(lines[i], "lotReturns"@);
        once_restock(m, ev, lines[i], parts, 0, n);
        if let Ok(k) = restock_from(m, ev, lines[i], parts, 0, n) {
            once_sale_return_lines(k, ev, lines, i + 1, n + parts.len());
        }
    }
}

proof fn once_purchase_return_lines(m: ReadModel, ev: EventV, lines: Seq<JsonV>, i: int)
    requires
        keys_once(m),
    ensures
        once(purchase_return_lines_from(m, ev, lines, i)),
    decreases lines.len() - i,
{
    broadcast use group_once;

    let start: Outcome = Ok(m);
    assert(once(start));
    if i < lines.len() {
        let o = adjust_lot(start, txt(lines[i], "lotId"@), -num(lines[i], "qty"@));
        let o = add_return_line(
            o,
            ReturnLine {
                id: line_id(ev.id, i as nat),
                return_id: txt(ev.payload, "returnId"@),
                item_id: txt(lines[i], "itemId"@),
                qty: num(lines[i], "qty"@),
                unit_price_minor: 0,
                unit_cost_minor: num(lines[i], "unitCostMinor"@),
                lot_id: txt(lines[i], "lotId"@),
            },
        );
        if let Ok(n) = o {
            once_purchase_return_lines(n, ev, lines, i + 1);
        }
    }
}

// ---- reversals ----

proof fn once_clear_lots(m: ReadModel, event: Text)
    requires
        keys_once(m),
    ensures
        once(clear_lots(Ok(m), event)),
{
    let n = clear_lots(Ok(m), event)->Ok_0;
    assert forall|x: int, y: int| 0 <= x < y < n.lots.len() implies (
    #[trigger] n.lots[x]).key() != (#[trigger] n.lots[y]).key() by {
        assert(m.lots[x].key() != m.lots[y].key());
    }
}

proof fn once_unconsume(m: ReadModel, sale: Text, i: int)
    requires
        keys_once(m),
    ensures
        once(unconsume_from(m, sale, i)),
    decreases m.consumptions.len() - i,
{
    broadcast use group_once;

    let start: Outcome = Ok(m);
    assert(once(start));
    if i < m.consumptions.len() {
        if !consumed_by(m, m.consumptions[i], sale) {
            once_unconsume(m, sale, i + 1);
        } else {
            let o = adjust_lot(
                start,
                m.consumptions[i].lot_id,
                m.consumptions[i].qty_taken as int,
            );
            if let Ok(n) = o {
                if n.consumptions.len() == m.consumptions.len() {
                    once_unconsume(n, sale, i + 1);
                }
            }
        }
    }
}

proof fn once_move_lots(m: ReadModel, lines: Seq<JsonV>, key: Text, up: bool, i: int)
    requires
        keys_once(m),
    ensures
        once(move_lots_from(m, lines, key, up, i)),
    decreases lines.len() - i,
{
    broadcast use group_once;

    let start: Outcome = Ok(m);
    assert(once(start));
    if i < lines.len() {
        let amount = num(lines[i], key);
        let delta = if up {
            amount as int
        } else {
            -amount
        };
        let o = adjust_lot(start, txt(lines[i], "lotId"@), delta);
        if let Ok(n) = o {
            once_move_lots(n, lines, key, up, i + 1);
        }
    }
}

proof fn once_unreturn(m: ReadModel, lines: Seq<JsonV>, i: int)
    requires
        keys_once(m),
    ensures
        once(unreturn_from(m, lines, i)),
    decreases lines.len() - i,
{
    if i < lines.len() {
        let parts = list(lines[i], "lotReturns"@);
        once_move_lots(m, parts, "qtyReturned"@, false, 0);
        if let Ok(n) = move_lots_from(m, parts, "qtyReturned"@, false, 0) {
            once_unreturn(n, lines, i + 1);
        }
    }
}

proof fn once_revert_lots(m: ReadModel, target: EventV)
    requires
        keys_once(m),
    ensures
        once(revert_lots(Ok(m), target)),
{
    let tp = target.payload;
    once_clear_lots(m, target.id);
    once_unconsume(m, txt(tp, "saleId"@), 0);
    once_move_lots(m, list(tp, "lines"@), "qty"@, true, 0);
    once_move_lots(m, list(tp, "lines"@), "qtyDelta"@, false, 0);
    once_unreturn(m, list(tp, "lines"@), 0);
}

proof fn once_reopen(m: ReadModel, event: Text, i: int)
    requires
        keys_once(m),
    ensures
        once(reopen_from(m, event, i)),
    decreases m.allocations.len() - i,
{
    broadcast use group_once;

    let start: Outcome = Ok(m);
    assert(once(start));
    if i < m.allocations.len() {
        let a = m.allocations[i];
        if a.event_id != event {
            once_reopen(m, event, i + 1);
        } else {
            let o = adjust_outstanding(
                start,
                a.target_type == "sale"@,
                a.target_id,
                a.amount_minor as int,
            );
            if let Ok(n) = o {
                if n.allocations.len() == m.allocations.len() {
                    once_reopen(n, event, i + 1);
                }
            }
        }
    }
}

proof fn once_unallocate(m: ReadModel, event: Text, party: Text, i: int)
    requires
        keys_once(m),
    ensures
        once(unallocate_from(m, event, party, i)),
    decreases m.allocations.len() - i,
{
    broadcast use group_once;

    let start: Outcome = Ok(m);
    assert(once(start));
    if i < m.allocations.len() {
        let amount = m.allocations[i].amount_minor as int;
        if m.allocations[i].event_id != event {
            once_unallocate(m, event, party, i + 1);
        } else {
            let o = if m.allocations[i].target_type == "sale"@ {
                adjust_party(start, party, amount, 0, amount, 0)
            } else {
                adjust_party(start, party, 0, amount, 0, amount)
            };
            if let Ok(n) = o {
                if n.allocations.len() == m.allocations.len() {
                    once_unallocate(n, event, party, i + 1);
                }
            }
        }
    }
}

proof fn once_unpay(m: ReadModel, target: EventV, incoming: bool)
    requires
        keys_once(m),
    ensures
        once(unpay(m, target, incoming)),
{
    broadcast use {group_once, lemma_removed};

    let start: Outcome = Ok(m);
    assert(once(start));
    let tp = target.payload;
    let party = txt(
        tp,
        if incoming {
            "customerId"@
        } else {
            "supplierId"@
        },
    );
    lemma_has(m.payments, txt(tp, "paymentId"@));
    if let Some(i) = place(m.payments, txt(tp, "paymentId"@)) {
        if let Some(allocated) = allocated_by(m.allocations, target.id) {
            let rest = m.payments[i].amount_minor - allocated;
            let o = if incoming {
                adjust_party(start, party, allocated as int, 0, -rest, 0)
            } else {
                adjust_party(start, party, 0, allocated as int, 0, -rest)
            };
            assert(once(o));
            if let Ok(n) = o {
                assert(n.payments == m.payments);
            }
        }
    }
}

proof fn once_revert_balances(m: ReadModel, target: EventV)
    requires
        keys_once(m),
    ensures
        once(revert_balances(Ok(m), target)),
{
    broadcast use {group_once, lemma_updated};

    let ty = target.event_type;
    let tp = target.payload;
    let start: Outcome = Ok(m);
    assert(once(start));
    if ty == "PaymentReceived"@ || ty == "PaymentMade"@ || ty == "PaymentAllocated"@ {
        once_reopen(m, target.id, 0);
        if let Ok(n) = reopen_from(m, target.id, 0) {
            once_unallocate(n, target.id, txt(tp, "partyId"@), 0);
            once_unpay(n, target, ty == "PaymentReceived"@);
            let o = if ty == "PaymentAllocated"@ {
                unallocate_from(n, target.id, txt(tp, "partyId"@), 0)
            } else {
                unpay(n, target, ty == "PaymentReceived"@)
            };
            if let Ok(k) = o {
                lemma_filter_distinct(k.allocations, |a: Allocation<Text>| a.event_id != target.id);
            }
        }
    } else if ty == "SaleRecorded"@ {
        lemma_has(m.sales, txt(tp, "saleId"@));
        if let Some(i) = place(m.sales, txt(tp, "saleId"@)) {
            let o: Outcome = Ok(ReadModel { sales: voided(m.sales, i), ..m });
            assert(once(o));
        }
    } else if ty == "PurchaseRecorded"@ {
        lemma_has(m.purchases, txt(tp, "purchaseId"@));
        if let Some(i) = place(m.purchases, txt(tp, "purchaseId"@)) {
            let o: Outcome = Ok(ReadModel { purchases: voided(m.purchases, i), ..m });
            assert(once(o));
        }
    }
}

// ---- events ----

proof fn once_master_data(m: ReadModel, ev: EventV)
    requires
        keys_once(m),
    ensures
        once(user_registered(m, ev)),
        once(account_opened(m, ev)),
        once(item_defined(m, ev)),
        once(party_created(m, ev)),
        once(user_updated(m, ev)),
        once(account_updated(m, ev)),
        once(item_updated(m, ev)),
        once(party_updated(m, ev)),
        once(item_deleted(m, ev)),
        once(party_deleted(m, ev)),
{
    broadcast use {lemma_pushed, lemma_updated, lemma_removed};

    lemma_has(m.users, txt(ev.payload, "userId"@));
    lemma_has(m.accounts, txt(ev.payload, "accountId"@));
    lemma_has(m.items, txt(ev.payload, "itemId"@));
    lemma_has(m.parties, txt(ev.payload, "partyId"@));
}

proof fn once_purchase(m: ReadModel, ev: EventV)
    requires
        keys_once(m),
    ensures
        once(purchase_recorded(m, ev)),
{
    broadcast use group_once;

    let p = ev.payload;
    let lines = list(p, "lines"@);
    let start: Outcome = Ok(m);
    assert(once(start));
    if let Some(total) = worth(lines, "qty"@, "unitCostMinor"@) {
        let o = add_purchase(
            start,
            invoice(ev, txt(p, "purchaseId"@), opt_txt(p, "supplierId"@), total),
        );
        if let Ok(n) = o {
            once_purchase_lines(n, ev, lines, 0);
        }
        assert(once(purchase_lines(o, ev, lines)));
    }
}

proof fn once_sale(m: ReadModel, ev: EventV)
    requires
        keys_once(m),
    ensures
        once(sale_recorded(m, ev)),
{
    broadcast use group_once;

    let p = ev.payload;
    let lines = list(p, "lines"@);
    let start: Outcome = Ok(m);
    assert(once(start));
    if let Some(revenue) = worth(lines, "qty"@, "unitPriceMinor"@) {
        let o = add_sale(
            start,
            invoice(ev, txt(p, "saleId"@), opt_txt(p, "customerId"@), revenue),
        );
        if let Ok(n) = o {
            once_sale_lines(n, ev, lines, 0);
        }
        assert(once(sale_lines(o, ev, lines)));
    }
}

proof fn once_payment(m: ReadModel, ev: EventV, incoming: bool)
    requires
        keys_once(m),
    ensures
        once(payment(m, ev, incoming)),
{
    broadcast use group_once;

    let p = ev.payload;
    let id = txt(p, "paymentId"@);
    let amount = num(p, "amountMinor"@);
    let date = txt(p, "date"@);
    let party = txt(
        p,
        if incoming {
            "customerId"@
        } else {
            "supplierId"@
        },
    );
    let start: Outcome = Ok(m);
    assert(once(start));
    let o = add_payment(
        start,
        Payment {
            id,
            event_id: ev.id,
            party_id: party,
            direction: if incoming {
                "in"@
            } else {
                "out"@
            },
            amount_minor: amount,
            date,
        },
    );
    let o = if incoming {
        post_role(
            post_role(o, ev.id, id, 0, "bank"@, amount, 0, date),
            ev.id,
            id,
            1,
            "accounts_receivable"@,
            0,
            amount,
            date,
        )
    } else {
        post_role(
            post_role(o, ev.id, id, 0, "accounts_payable"@, amount, 0, date),
            ev.id,
            id,
            1,
            "bank"@,
            0,
            amount,
            date,
        )
    };
    assert(once(o));
    let parts = list(p, "allocations"@);
    if let Ok(n) = o {
        once_settle(n, ev, incoming, party, parts, 0);
    }
    assert(once(settle(o, ev, incoming, party, parts)));
}

proof fn once_sale_return(m: ReadModel, ev: EventV)
    requires
        keys_once(m),
    ensures
        once(sale_return(m, ev)),
{
    broadcast use group_once;

    let p = ev.payload;
    let lines = list(p, "lines"@);
    let start: Outcome = Ok(m);
    assert(once(start));
    let revenue = worth(lines, "qty"@, "unitPriceMinor"@);
    let cost = nested_worth(lines, "lotReturns"@, "qtyReturned"@, "unitCostMinor"@);
    if revenue is Some && cost is Some {
        let o = add_return(
            start,
            Return {
                id: txt(p, "returnId"@),
                event_id: ev.id,
                return_type: "sale_return"@,
                original_id: txt(p, "originalSaleId"@),
                date: txt(p, "date"@),
                revenue_reversed_minor: revenue->0,
                cost_restored_minor: cost->0,
            },
        );
        if let Ok(n) = o {
            once_sale_return_lines(n, ev, lines, 0, 0);
        }
        assert(once(sale_return_lines(o, ev, lines)));
    }
}

proof fn once_purchase_return(m: ReadModel, ev: EventV)
    requires
        keys_once(m),
    ensures
        once(purchase_return(m, ev)),
{
    broadcast use group_once;

    let p = ev.payload;
    let lines = list(p, "lines"@);
    let start: Outcome = Ok(m);
    assert(once(start));
    if let Some(cost) = worth(lines, "qty"@, "unitCostMinor"@) {
        let o = add_return(
            start,
            Return {
                id: txt(p, "returnId"@),
                event_id: ev.id,
                return_type: "purchase_return"@,
                original_id: txt(p, "originalPurchaseId"@),
                date: txt(p, "date"@),
                revenue_reversed_minor: 0,
                cost_restored_minor: cost,
            },
        );
        if let Ok(n) = o {
            once_purchase_return_lines(n, ev, lines, 0);
        }
        assert(once(purchase_return_lines(o, ev, lines)));
    }
}

proof fn once_movements(m: ReadModel, ev: EventV)
    requires
        keys_once(m),
    ensures
        once(expense_recorded(m, ev)),
        once(transfer_recorded(m, ev)),
        once(inventory_adjusted(m, ev)),
        once(inventory_found(m, ev)),
        once(opening_balances(m, ev)),
        once(payment_allocated(m, ev)),
{
    broadcast use group_once;

    let p = ev.payload;
    let start: Outcome = Ok(m);
    assert(once(start));
    once_write_off(m, ev, list(p, "lines"@), 0);
    once_found(m, ev, list(p, "lines"@), 0);
    once_allocate(m, ev, list(p, "allocations"@), 0);
    let accounts = list(p, "accountBalances"@);
    once_given(m, ev, accounts, txt(p, "date"@), "opening balance"@, 0);
    if let Ok(n) = given_lines_from(m, ev, accounts, txt(p, "date"@), "opening balance"@, 0) {
        once_opening_lots(n, ev, list(p, "lots"@), 0);
    }
}

proof fn once_reversal(m: ReadModel, log: Seq<EventV>, ev: EventV)
    requires
        keys_once(m),
    ensures
        once(transaction_reversed(m, log, ev)),
{
    if let Some(target) = lookup(log, txt(ev.payload, "targetEventId"@)) {
        let lines = list(ev.payload, "reversalJournalLines"@);
        let date = txt(target.payload, "date"@);
        once_given(m, ev, lines, date, "reversal"@, 0);
        let o = given_lines_from(m, ev, lines, date, "reversal"@, 0);
        if let Ok(n) = o {
            once_revert_lots(n, target);
            if let Ok(k) = revert_lots(o, target) {
                once_revert_balances(k, target);
            }
        }
    }
}

/// Whatever an event does, no key comes to occur twice in a table.
pub proof fn law_keys_stay_unique(m: ReadModel, log: Seq<EventV>, ev: EventV)
    requires
        keys_once(m),
        project(m, log, ev) is Ok,
    ensures
        keys_once(project(m, log, ev)->Ok_0),
{
    once_master_data(m, ev);
    once_purchase(m, ev);
    once_sale(m, ev);
    once_payment(m, ev, true);
    once_payment(m, ev, false);
    once_sale_return(m, ev);
    once_purchase_return(m, ev);
    once_movements(m, ev);
    once_reversal(m, log, ev);
}

/// Replaying any log gives tables in which no key occurs twice.
pub proof fn law_replayed_keys_are_unique(log: Seq<EventV>, events: Seq<EventV>)
    requires
        replay_from(no_rows(), log, events, 0) is Ok,
    ensures
        keys_once(replay_from(no_rows(), log, events, 0)->Ok_0),
{
    lemma_replayed_keys(no_rows(), log, events, 0);
}

proof fn lemma_replayed_keys(m: ReadModel, log: Seq<EventV>, events: Seq<EventV>, i: int)
    requires
        keys_once(m),
        replay_from(m, log, events, i) is Ok,
    ensures
        keys_once(replay_from(m, log, events, i)->Ok_0),
    decreases events.len() - i,
{
    if i < events.len() {
        law_keys_stay_unique(m, log, events[i]);
        lemma_replayed_keys(project(m, log, events[i])->Ok_0, log, events, i + 1);
    }
}

} // verus!
