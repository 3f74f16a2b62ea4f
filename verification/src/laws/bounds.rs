//! Granted requests leave every lot with something between nothing and what it received.

use crate::commands::Refusal;
use crate::commands::guards::{claim, restored, taken};
use crate::commands::movement::{
    adjust_line_json, adjust_lines_valid, adjust_request, found_line_json, found_lines_valid,
    found_request, AdjustLineInput, FoundLineInput,
};
use crate::commands::purchase::{
    purchase_line_json, purchase_lines_valid, purchase_payload, purchase_request,
    purchase_return_line_json, purchase_return_payload, purchase_return_request, purchase_total,
    return_lines_valid, PurchaseLineInput, PurchaseReturnLineInput,
};
use crate::commands::sale::{
    lot_return_json, lot_return_request, lot_returns_request, return_line_json, return_line_request,
    return_lines_request, sale_return_payload, sale_return_request, ReturnState, SaleReturnV,
};
use crate::events::EventV;
use crate::json::{list, num, opt_txt, txt, JsonV};
use crate::laws::fifo::within_stock;
use crate::laws::sales::reduced;
use crate::model::{
    add_lot, add_purchase, add_purchase_line, add_return, add_return_line, adjust_lines_from,
    adjust_lot, fits, found_lines_from, inventory_adjusted, inventory_found, invoice, line_id,
    named_or_role, nested_worth, post, post_role, product, purchase_line, purchase_lines,
    purchase_lines_from, purchase_recorded, purchase_return, purchase_return_lines,
    purchase_return_lines_from, purchased_lot, restock_from, sale_return, sale_return_lines,
    sale_return_lines_from, stocked_lot, worth, Text,
};
use crate::reconciliation::in_bounds;
use crate::rows::{distinct, lemma_has, lemma_place, lookup, Keyed};
use crate::tables::{Lot, ReadModel, Return, ReturnLine};
use vstd::prelude::*;

verus! {

/// Every lot is in bounds.
pub open spec fn lots_in_bounds(m: ReadModel) -> bool {
    forall|i: int| 0 <= i < m.lots.len() ==> in_bounds(#[trigger] m.lots[i])
}

/// What claims on a lot take out of it, or restore to it.
pub open spec fn claims(d: Map<Text, i64>, up: bool) -> spec_fn(Text) -> int {
    |lot: Text|
        if up {
            -claim(d, lot)
        } else {
            claim(d, lot) as int
        }
}

/// No lot is restored beyond what it received.
pub open spec fn within_received(m: ReadModel, d: Map<Text, i64>) -> bool {
    forall|lot: Text| #[trigger]
        d.contains_key(lot) ==> (lookup(m.lots, lot) matches Some(l) && l.qty_remaining + d[lot]
            <= l.qty_received)
}

/// Nothing negative is claimed.
pub open spec fn not_negative(d: Map<Text, i64>) -> bool {
    forall|lot: Text| #[trigger] d.contains_key(lot) ==> d[lot] >= 0
}

/// Claims are well founded: positive, and within what the lots have or may take back.
pub open spec fn founded(m: ReadModel, d: Map<Text, i64>, up: bool) -> bool {
    not_negative(d) && if up {
        within_received(m, d)
    } else {
        within_stock(m, d)
    }
}

/// Claiming more of a lot moves it on.
proof fn lemma_step(
    lots: Seq<Lot<Text>>,
    d: Map<Text, i64>,
    up: bool,
    m: ReadModel,
    lot: Text,
    qty: i64,
    e: Map<Text, i64>,
)
    requires
        distinct(lots),
        reduced(lots, claims(d, up), m.lots),
        fits(claim(d, lot) + qty),
        e == d.insert(lot, (claim(d, lot) + qty) as i64),
    ensures
        adjust_lot(
            Ok(m),
            lot,
            if up {
                qty as int
            } else {
                -qty
            },
        ) matches Ok(n) ==> reduced(lots, claims(e, up), n.lots),
{
    let o = adjust_lot(
        Ok(m),
        lot,
        if up {
            qty as int
        } else {
            -qty
        },
    );
    if let Ok(n) = o {
        lemma_has(m.lots, lot);
        assert forall|i: int| 0 <= i < lots.len() implies (#[trigger] n.lots[i]).qty_remaining
            == lots[i].qty_remaining - claims(e, up)(lots[i].id) && n.lots[i] == (Lot {
            qty_remaining: n.lots[i].qty_remaining,
            ..lots[i]
        }) by {
            assert(m.lots[i].id == lots[i].id);
            if lots[i].id == lot {
                assert forall|y: int| 0 <= y < i implies (#[trigger] m.lots[y]).key() != lot by {
                    assert(lots[y].key() != lots[i].key());
                    assert(m.lots[y].id == lots[y].id);
                }
                lemma_place(m.lots, lot, i);
            }
        }
    }
}

/// Lots in bounds stay so when well founded claims are carried out.
proof fn lemma_end(m: ReadModel, d: Map<Text, i64>, up: bool, n: ReadModel)
    requires
        distinct(m.lots),
        lots_in_bounds(m),
        founded(m, d, up),
        reduced(m.lots, claims(d, up), n.lots),
    ensures
        lots_in_bounds(n),
{
    assert forall|i: int| 0 <= i < n.lots.len() implies in_bounds(#[trigger] n.lots[i]) by {
        let l = m.lots[i];
        assert(in_bounds(l));
        assert forall|y: int| 0 <= y < i implies (#[trigger] m.lots[y]).key() != l.id by {
            assert(m.lots[y].key() != m.lots[i].key());
        }
        lemma_place(m.lots, l.id, i);
        if d.contains_key(l.id) {
            assert(d[l.id] >= 0);
        }
    }
}

/// A granted claim is well founded.
proof fn lemma_taken(m: ReadModel, d: Map<Text, i64>, lot: Text, qty: i64)
    requires
        founded(m, d, false),
        qty > 0,
        taken(m, d, lot, qty) is Ok,
    ensures
        founded(m, taken(m, d, lot, qty)->Ok_0, false),
{
    let e = taken(m, d, lot, qty)->Ok_0;
    assert forall|x: Text| #[trigger] e.contains_key(x) implies e[x] >= 0 && (lookup(
        m.lots,
        x,
    ) matches Some(l) && e[x] <= l.qty_remaining) by {
        if x != lot {
            assert(d.contains_key(x));
        }
    }
}

/// A granted restoration is well founded.
proof fn lemma_restored(m: ReadModel, d: Map<Text, i64>, lot: Text, qty: i64)
    requires
        founded(m, d, true),
        qty > 0,
        restored(m, d, lot, qty) is Ok,
    ensures
        founded(m, restored(m, d, lot, qty)->Ok_0, true),
{
    let e = restored(m, d, lot, qty)->Ok_0;
    assert forall|x: Text| #[trigger] e.contains_key(x) implies e[x] >= 0 && (lookup(
        m.lots,
        x,
    ) matches Some(l) && l.qty_remaining + e[x] <= l.qty_received) by {
        if x != lot {
            assert(d.contains_key(x));
        }
    }
}

proof fn lemma_start(m: ReadModel, up: bool)
    ensures
        founded(m, Map::empty(), up),
        reduced(m.lots, claims(Map::empty(), up), m.lots),
{
}

// ---- purchase returns ----

/// What the record of a returned line says.
proof fn lemma_returned_json(l: PurchaseReturnLineInput<Text>)
    ensures
        txt(purchase_return_line_json(l), "lotId"@) == l.lot_id,
        num(purchase_return_line_json(l), "qty"@) == l.qty,
{
    reveal_strlit("itemId");
    reveal_strlit("lotId");
    reveal_strlit("qty");
    reveal_strlit("unitCostMinor");
    assert("itemId"@.len() == 6);
    assert("lotId"@.len() == 5);
    assert("qty"@.len() == 3);
    assert("unitCostMinor"@.len() == 13);
}

proof fn lemma_purchase_return_lots(
    m: ReadModel,
    lines: Seq<PurchaseReturnLineInput<Text>>,
    d: Map<Text, i64>,
    ev: EventV,
    k: ReadModel,
    i: int,
)
    requires
        0 <= i,
        distinct(m.lots),
        lots_in_bounds(m),
        founded(m, d, false),
        reduced(m.lots, claims(d, false), k.lots),
        return_lines_valid(m, lines, d, i) is Ok,
    ensures
        purchase_return_lines_from(
            k,
            ev,
            Seq::new(lines.len(), |j: int| purchase_return_line_json(lines[j])),
            i,
        ) matches Ok(n) ==> lots_in_bounds(n),
    decreases lines.len() - i,
{
    let js = Seq::new(lines.len(), |j: int| purchase_return_line_json(lines[j]));
    if i < lines.len() {
        let l = lines[i];
        let e = taken(m, d, l.lot_id, l.qty)->Ok_0;
        lemma_returned_json(l);
        lemma_taken(m, d, l.lot_id, l.qty);
        lemma_step(m.lots, d, false, k, l.lot_id, l.qty, e);
        let o = adjust_lot(Ok(k), txt(js[i], "lotId"@), -num(js[i], "qty"@));
        let o = add_return_line(
            o,
            ReturnLine {
                id: line_id(ev.id, i as nat),
                return_id: txt(ev.payload, "returnId"@),
                item_id: txt(js[i], "itemId"@),
                qty: num(js[i], "qty"@),
                unit_price_minor: 0,
                unit_cost_minor: num(js[i], "unitCostMinor"@),
                lot_id: txt(js[i], "lotId"@),
            },
        );
        if let Ok(n) = o {
            lemma_purchase_return_lots(m, lines, e, ev, n, i + 1);
        }
    } else {
        lemma_end(m, d, false, k);
    }
}

/// What the payload of a purchase return says of its lines.
proof fn lemma_purchase_return_payload(
    id: Text,
    original: Text,
    date: Text,
    lines: Seq<PurchaseReturnLineInput<Text>>,
)
    ensures
        list(purchase_return_payload(id, original, date, lines), "lines"@) == Seq::new(
            lines.len(),
            |j: int| purchase_return_line_json(lines[j]),
        ),
{
    reveal_strlit("returnId");
    reveal_strlit("originalPurchaseId");
    reveal_strlit("date");
    reveal_strlit("lines");
    assert("returnId"@.len() == 8);
    assert("originalPurchaseId"@.len() == 18);
    assert("date"@.len() == 4);
    assert("lines"@.len() == 5);
}

/// A granted purchase return leaves no lot with less than nothing, nor with more than it
/// received.
pub proof fn law_granted_purchase_returns_keep_lot_bounds(
    m: ReadModel,
    id: Text,
    original: Text,
    date: Text,
    lines: Seq<PurchaseReturnLineInput<Text>>,
    ev: EventV,
)
    requires
        distinct(m.lots),
        lots_in_bounds(m),
        purchase_return_request(m, id, original, date, lines) == Ok::<JsonV, Refusal>(ev.payload),
        purchase_return(m, ev) is Ok,
    ensures
        lots_in_bounds(purchase_return(m, ev)->Ok_0),
{
    let p = ev.payload;
    lemma_purchase_return_payload(id, original, date, lines);
    let js = list(p, "lines"@);
    let cost = worth(js, "qty"@, "unitCostMinor"@)->0;
    let o = add_return(
        Ok(m),
        Return {
            id: txt(p, "returnId"@),
            event_id: ev.id,
            return_type: "purchase_return"@,
            original_id: txt(p, "originalPurchaseId"@),
            date: txt(p, "date"@),
            revenue_reversed_minor: 0,
            cost_restored_minor: cost,
        },
    );
    lemma_start(m, false);
    lemma_purchase_return_lots(m, lines, Map::empty(), ev, o->Ok_0, 0);
    let n = purchase_return_lines(o, ev, js)->Ok_0;
    assert(purchase_return(m, ev)->Ok_0.lots == n.lots);
}

// ---- write-offs ----

/// What the record of a written-off line says.
proof fn lemma_adjust_json(l: AdjustLineInput<Text>)
    ensures
        txt(adjust_line_json(l), "lotId"@) == l.lot_id,
        num(adjust_line_json(l), "qtyDelta"@) == l.qty_delta,
{
    reveal_strlit("itemId");
    reveal_strlit("lotId");
    reveal_strlit("qtyDelta");
    reveal_strlit("reasonCode");
    reveal_strlit("expenseAccountId");
    assert("itemId"@.len() == 6);
    assert("lotId"@.len() == 5);
    assert("qtyDelta"@.len() == 8);
    assert("reasonCode"@.len() == 10);
    assert("expenseAccountId"@.len() == 16);
}

proof fn lemma_write_off_lots(
    m: ReadModel,
    lines: Seq<AdjustLineInput<Text>>,
    d: Map<Text, i64>,
    ev: EventV,
    k: ReadModel,
    i: int,
)
    requires
        0 <= i,
        distinct(m.lots),
        lots_in_bounds(m),
        founded(m, d, false),
        reduced(m.lots, claims(d, false), k.lots),
        adjust_lines_valid(m, lines, d, i) is Ok,
    ensures
        adjust_lines_from(
            k,
            ev,
            Seq::new(lines.len(), |j: int| adjust_line_json(lines[j])),
            i,
        ) matches Ok(n) ==> lots_in_bounds(n),
    decreases lines.len() - i,
{
    let js = Seq::new(lines.len(), |j: int| adjust_line_json(lines[j]));
    if i < lines.len() {
        let l = lines[i];
        let q = (-l.qty_delta) as i64;
        let e = taken(m, d, l.lot_id, q)->Ok_0;
        lemma_adjust_json(l);
        lemma_taken(m, d, l.lot_id, q);
        lemma_step(m.lots, d, false, k, l.lot_id, q, e);
        if adjust_lines_from(k, ev, js, i) is Ok {
            let id = txt(ev.payload, "adjustmentId"@);
            let date = txt(ev.payload, "date"@);
            let value = (q * lookup(k.lots, l.lot_id)->0.unit_cost_minor) as i64;
            let a = adjust_lot(Ok(k), l.lot_id, -q);
            let account = named_or_role(a->Ok_0, js[i], "expenseAccountId"@, "shrinkage"@)->Ok_0;
            let b = post(a, ev.id, id, (2 * i) as nat, account, value, 0, date, None);
            let c = post_role(b, ev.id, id, (2 * i + 1) as nat, "inventory"@, 0, value, date);
            assert(c->Ok_0.lots == a->Ok_0.lots);
            lemma_write_off_lots(m, lines, e, ev, c->Ok_0, i + 1);
        }
    } else {
        lemma_end(m, d, false, k);
    }
}

/// A granted write-off leaves no lot with less than nothing, nor with more than it
/// received.
pub proof fn law_granted_write_offs_keep_lot_bounds(
    m: ReadModel,
    id: Text,
    date: Text,
    lines: Seq<AdjustLineInput<Text>>,
    ev: EventV,
)
    requires
        distinct(m.lots),
        lots_in_bounds(m),
        adjust_request(m, id, date, lines) == Ok::<JsonV, Refusal>(ev.payload),
        inventory_adjusted(m, ev) is Ok,
    ensures
        lots_in_bounds(inventory_adjusted(m, ev)->Ok_0),
{
    reveal_strlit("adjustmentId");
    reveal_strlit("date");
    reveal_strlit("lines");
    assert("adjustmentId"@.len() == 12);
    assert("date"@.len() == 4);
    assert("lines"@.len() == 5);
    assert(list(ev.payload, "lines"@) == Seq::new(lines.len(), |j: int| adjust_line_json(lines[j])));
    lemma_start(m, false);
    lemma_write_off_lots(m, lines, Map::empty(), ev, m, 0);
}

// ---- sale returns ----

/// The record is that of a lot and a number of units of it.
pub open spec fn says(j: JsonV, part: (Text, i64)) -> bool {
    txt(j, "lotId"@) == part.0 && num(j, "qtyReturned"@) == part.1
}

/// What the record of a returned lot says.
proof fn lemma_lot_return_json(lot: Text, qty: i64, cost: i64)
    ensures
        says(lot_return_json(lot, qty, cost), (lot, qty)),
{
    reveal_strlit("lotId");
    reveal_strlit("qtyReturned");
    reveal_strlit("unitCostMinor");
    assert("lotId"@.len() == 5);
    assert("qtyReturned"@.len() == 11);
    assert("unitCostMinor"@.len() == 13);
}

/// What the record of a return line says of its lots.
proof fn lemma_return_line_json(item: Text, s: ReturnState)
    ensures
        list(return_line_json(item, s), "lotReturns"@) == s.done,
{
    reveal_strlit("itemId");
    reveal_strlit("qty");
    reveal_strlit("unitPriceMinor");
    reveal_strlit("lotReturns");
    assert("itemId"@.len() == 6);
    assert("qty"@.len() == 3);
    assert("unitPriceMinor"@.len() == 14);
    assert("lotReturns"@.len() == 10);
}

/// A granted return line records its lots one by one.
proof fn lemma_return_line_done(
    m: ReadModel,
    sale: Text,
    item: Text,
    parts: Seq<(Text, i64)>,
    j: int,
    s: ReturnState,
)
    requires
        0 <= j <= parts.len(),
        s.done.len() == j,
        forall|k: int| 0 <= k < j ==> says(#[trigger] s.done[k], parts[k]),
        lot_returns_request(m, sale, item, parts, j, s) is Ok,
    ensures
        ({
            let t = lot_returns_request(m, sale, item, parts, j, s)->Ok_0;
            t.done.len() == parts.len() && forall|k: int|
                0 <= k < parts.len() ==> says(#[trigger] t.done[k], parts[k])
        }),
    decreases parts.len() - j,
{
    if j < parts.len() {
        let t = lot_return_request(m, sale, item, parts[j], s)->Ok_0;
        let cost = lookup(m.lots, parts[j].0)->0.unit_cost_minor;
        lemma_lot_return_json(parts[j].0, parts[j].1, cost);
        assert forall|k: int| 0 <= k < j + 1 implies says(#[trigger] t.done[k], parts[k]) by {
            if k < j {
                assert(says(s.done[k], parts[k]));
            }
        }
        lemma_return_line_done(m, sale, item, parts, j + 1, t);
    }
}

proof fn lemma_restocked(
    m: ReadModel,
    sale: Text,
    item: Text,
    parts: Seq<(Text, i64)>,
    j: int,
    s: ReturnState,
    ev: EventV,
    line: JsonV,
    js: Seq<JsonV>,
    n: int,
    k: ReadModel,
)
    requires
        0 <= j <= parts.len(),
        distinct(m.lots),
        founded(m, s.demand, true),
        reduced(m.lots, claims(s.demand, true), k.lots),
        lot_returns_request(m, sale, item, parts, j, s) is Ok,
        js.len() == parts.len(),
        forall|x: int| 0 <= x < js.len() ==> says(#[trigger] js[x], parts[x]),
    ensures
        ({
            let t = lot_returns_request(m, sale, item, parts, j, s)->Ok_0;
            &&& founded(m, t.demand, true)
            &&& restock_from(k, ev, line, js, j, n) matches Ok(r) ==> reduced(
                m.lots,
                claims(t.demand, true),
                r.lots,
            )
        }),
    decreases parts.len() - j,
{
    if j < parts.len() {
        let t = lot_return_request(m, sale, item, parts[j], s)->Ok_0;
        assert(says(js[j], parts[j]));
        lemma_restored(m, s.demand, parts[j].0, parts[j].1);
        lemma_step(m.lots, s.demand, true, k, parts[j].0, parts[j].1, t.demand);
        let o = adjust_lot(Ok(k), txt(js[j], "lotId"@), num(js[j], "qtyReturned"@) as int);
        let o = add_return_line(
            o,
            ReturnLine {
                id: line_id(ev.id, (n + j) as nat),
                return_id: txt(ev.payload, "returnId"@),
                item_id: txt(line, "itemId"@),
                qty: num(js[j], "qtyReturned"@),
                unit_price_minor: num(line, "unitPriceMinor"@),
                unit_cost_minor: num(js[j], "unitCostMinor"@),
                lot_id: txt(js[j], "lotId"@),
            },
        );
        if let Ok(r) = o {
            lemma_restocked(m, sale, item, parts, j + 1, t, ev, line, js, n, r);
        } else {
            lemma_founded(m, sale, item, parts, j + 1, t);
        }
    }
}

/// The restorations of a granted return line are well founded.
proof fn lemma_founded(
    m: ReadModel,
    sale: Text,
    item: Text,
    parts: Seq<(Text, i64)>,
    j: int,
    s: ReturnState,
)
    requires
        0 <= j <= parts.len(),
        founded(m, s.demand, true),
        lot_returns_request(m, sale, item, parts, j, s) is Ok,
    ensures
        founded(m, lot_returns_request(m, sale, item, parts, j, s)->Ok_0.demand, true),
    decreases parts.len() - j,
{
    if j < parts.len() {
        lemma_restored(m, s.demand, parts[j].0, parts[j].1);
        lemma_founded(
            m,
            sale,
            item,
            parts,
            j + 1,
            lot_return_request(m, sale, item, parts[j], s)->Ok_0,
        );
    }
}

/// Granted return lines are recorded one by one.
proof fn lemma_return_lines_done(
    m: ReadModel,
    sale: Text,
    lines: Seq<SaleReturnV>,
    i: int,
    d: Map<Text, i64>,
    done: Seq<JsonV>,
)
    requires
        0 <= i <= lines.len(),
        return_lines_request(m, sale, lines, i, d, done) is Ok,
    ensures
        ({
            let all = return_lines_request(m, sale, lines, i, d, done)->Ok_0;
            all.len() == done.len() + lines.len() - i && forall|k: int|
                0 <= k < done.len() ==> #[trigger] all[k] == done[k]
        }),
    decreases lines.len() - i,
{
    if i < lines.len() {
        let s = return_line_request(m, sale, lines[i], d)->Ok_0;
        let next = done.push(return_line_json(lines[i].item_id, s));
        lemma_return_lines_done(m, sale, lines, i + 1, s.demand, next);
        let all = return_lines_request(m, sale, lines, i, d, done)->Ok_0;
        assert forall|k: int| 0 <= k < done.len() implies #[trigger] all[k] == done[k] by {
            assert(all[k] == next[k]);
        }
    }
}

proof fn lemma_sale_return_lots(
    m: ReadModel,
    sale: Text,
    lines: Seq<SaleReturnV>,
    i: int,
    d: Map<Text, i64>,
    done: Seq<JsonV>,
    ev: EventV,
    n: int,
    k: ReadModel,
)
    requires
        0 <= i <= lines.len(),
        done.len() == i,
        distinct(m.lots),
        lots_in_bounds(m),
        founded(m, d, true),
        reduced(m.lots, claims(d, true), k.lots),
        return_lines_request(m, sale, lines, i, d, done) is Ok,
    ensures
        sale_return_lines_from(
            k,
            ev,
            return_lines_request(m, sale, lines, i, d, done)->Ok_0,
            i,
            n,
        ) matches Ok(r) ==> lots_in_bounds(r),
    decreases lines.len() - i,
{
    let all = return_lines_request(m, sale, lines, i, d, done)->Ok_0;
    lemma_return_lines_done(m, sale, lines, i, d, done);
    if i < lines.len() {
        let l = lines[i];
        let s = return_line_request(m, sale, l, d)->Ok_0;
        let next = done.push(return_line_json(l.item_id, s));
        let start = ReturnState { demand: d, qty: 0, price: None, done: Seq::empty() };
        lemma_return_lines_done(m, sale, lines, i + 1, s.demand, next);
        assert(all[i] == next[i]);
        lemma_return_line_json(l.item_id, s);
        lemma_return_line_done(m, sale, l.item_id, l.lot_returns, 0, start);
        lemma_restocked(
            m,
            sale,
            l.item_id,
            l.lot_returns,
            0,
            start,
            ev,
            all[i],
            s.done,
            n,
            k,
        );
        if let Ok(r) = restock_from(k, ev, all[i], s.done, 0, n) {
            lemma_sale_return_lots(
                m,
                sale,
                lines,
                i + 1,
                s.demand,
                next,
                ev,
                n + s.done.len(),
                r,
            );
        }
    } else {
        lemma_end(m, d, true, k);
    }
}

/// What the payload of a sale return says of its lines.
proof fn lemma_sale_return_payload(id: Text, original: Text, date: Text, lines: Seq<JsonV>)
    ensures
        list(sale_return_payload(id, original, date, lines), "lines"@) == lines,
{
    reveal_strlit("returnId");
    reveal_strlit("originalSaleId");
    reveal_strlit("date");
    reveal_strlit("lines");
    assert("returnId"@.len() == 8);
    assert("originalSaleId"@.len() == 14);
    assert("date"@.len() == 4);
    assert("lines"@.len() == 5);
}

/// A granted sale return leaves no lot with less than nothing, nor with more than it
/// received.
pub proof fn law_granted_sale_returns_keep_lot_bounds(
    m: ReadModel,
    id: Text,
    original: Text,
    date: Text,
    lines: Seq<SaleReturnV>,
    ev: EventV,
)
    requires
        distinct(m.lots),
        lots_in_bounds(m),
        sale_return_request(m, id, original, date, lines) == Ok::<JsonV, Refusal>(ev.payload),
        sale_return(m, ev) is Ok,
    ensures
        lots_in_bounds(sale_return(m, ev)->Ok_0),
{
    let p = ev.payload;
    let done = return_lines_request(m, original, lines, 0, Map::empty(), Seq::empty())->Ok_0;
    lemma_sale_return_payload(id, original, date, done);
    let js = list(p, "lines"@);
    let revenue = worth(js, "qty"@, "unitPriceMinor"@)->0;
    let cost = nested_worth(js, "lotReturns"@, "qtyReturned"@, "unitCostMinor"@)->0;
    let o = add_return(
        Ok(m),
        Return {
            id: txt(p, "returnId"@),
            event_id: ev.id,
            return_type: "sale_return"@,
            original_id: txt(p, "originalSaleId"@),
            date: txt(p, "date"@),
            revenue_reversed_minor: revenue,
            cost_restored_minor: cost,
        },
    );
    lemma_start(m, true);
    lemma_sale_return_lots(
        m,
        original,
        lines,
        0,
        Map::empty(),
        Seq::empty(),
        ev,
        0,
        o->Ok_0,
    );
    let n = sale_return_lines(o, ev, js)->Ok_0;
    assert(sale_return(m, ev)->Ok_0.lots == n.lots);
}

// ---- stock that comes in ----

/// Every line brings units.
pub open spec fn lines_positive(lines: Seq<JsonV>) -> bool {
    forall|i: int| 0 <= i < lines.len() ==> num(#[trigger] lines[i], "qty"@) > 0
}

proof fn lemma_purchase_lots(m: ReadModel, ev: EventV, lines: Seq<JsonV>, i: int)
    requires
        0 <= i,
        lots_in_bounds(m),
        lines_positive(lines),
    ensures
        purchase_lines_from(m, ev, lines, i) matches Ok(n) ==> lots_in_bounds(n),
    decreases lines.len() - i,
{
    if i < lines.len() {
        let o = add_purchase_line(
            add_lot(Ok(m), purchased_lot(ev, lines[i])),
            purchase_line(ev, lines[i], i as nat),
        );
        if let Ok(n) = o {
            assert(num(lines[i], "qty"@) > 0);
            assert forall|k: int| 0 <= k < n.lots.len() implies in_bounds(#[trigger] n.lots[k]) by {
                if k < m.lots.len() {
                    assert(in_bounds(m.lots[k]));
                }
            }
            lemma_purchase_lots(n, ev, lines, i + 1);
        }
    }
}

/// The records of the lines of a granted purchase bring units, each at no less than
/// nothing.
pub proof fn lemma_bought_lines(
    m: ReadModel,
    id: Text,
    lines: Seq<PurchaseLineInput<Text>>,
    i: int,
)
    requires
        0 <= i,
        purchase_lines_valid(m, lines, i) is Ok,
    ensures
        forall|k: int|
            i <= k < lines.len() ==> num(
                #[trigger] purchase_line_json(id, lines[k], k as nat),
                "qty"@,
            ) > 0 && num(purchase_line_json(id, lines[k], k as nat), "unitCostMinor"@) >= 0,
    decreases lines.len() - i,
{
    reveal_strlit("itemId");
    reveal_strlit("qty");
    reveal_strlit("unitCostMinor");
    reveal_strlit("lotId");
    assert("itemId"@.len() == 6);
    assert("qty"@.len() == 3);
    assert("unitCostMinor"@.len() == 13);
    assert("lotId"@.len() == 5);
    if i < lines.len() {
        lemma_bought_lines(m, id, lines, i + 1);
        assert(lines[i].qty > 0);
    }
}

/// What the payload of a purchase says of its lines.
pub proof fn lemma_purchase_payload(
    id: Text,
    supplier: Text,
    date: Text,
    terms: Text,
    total: i64,
    lines: Seq<PurchaseLineInput<Text>>,
)
    ensures
        list(purchase_payload(id, supplier, date, terms, total, lines), "lines"@) == Seq::new(
            lines.len(),
            |i: int| purchase_line_json(id, lines[i], i as nat),
        ),
{
    reveal_strlit("purchaseId");
    reveal_strlit("supplierId");
    reveal_strlit("date");
    reveal_strlit("terms");
    reveal_strlit("totalMinor");
    reveal_strlit("lines");
    assert("purchaseId"@.len() == 10);
    assert("supplierId"@.len() == 10);
    assert("date"@.len() == 4);
    assert("terms"@[0] == 't');
    assert("lines"@[0] == 'l');
    assert("totalMinor"@.len() == 10);
}

/// A granted purchase leaves no lot with less than nothing, nor with more than it
/// received.
pub proof fn law_granted_purchases_keep_lot_bounds(
    m: ReadModel,
    id: Text,
    supplier: Text,
    date: Text,
    terms: Text,
    lines: Seq<PurchaseLineInput<Text>>,
    ev: EventV,
)
    requires
        lots_in_bounds(m),
        purchase_request(m, id, supplier, date, terms, lines) == Ok::<JsonV, Refusal>(ev.payload),
        purchase_recorded(m, ev) is Ok,
    ensures
        lots_in_bounds(purchase_recorded(m, ev)->Ok_0),
{
    let p = ev.payload;
    let js = list(p, "lines"@);
    lemma_purchase_payload(id, supplier, date, terms, purchase_total(lines)->0, lines);
    lemma_bought_lines(m, id, lines, 0);
    assert forall|k: int| 0 <= k < js.len() implies num(#[trigger] js[k], "qty"@) > 0 by {
        assert(js[k] == purchase_line_json(id, lines[k], k as nat));
    }
    let total = worth(js, "qty"@, "unitCostMinor"@)->0;
    let o = add_purchase(
        Ok(m),
        invoice(ev, txt(p, "purchaseId"@), opt_txt(p, "supplierId"@), total),
    );
    lemma_purchase_lots(o->Ok_0, ev, js, 0);
    let n = purchase_lines(o, ev, js)->Ok_0;
    assert(purchase_recorded(m, ev)->Ok_0.lots == n.lots);
}

proof fn lemma_found_lots(m: ReadModel, ev: EventV, lines: Seq<JsonV>, i: int)
    requires
        0 <= i,
        lots_in_bounds(m),
        lines_positive(lines),
    ensures
        found_lines_from(m, ev, lines, i) matches Ok(n) ==> lots_in_bounds(n),
    decreases lines.len() - i,
{
    if i < lines.len() && found_lines_from(m, ev, lines, i) is Ok {
        let id = txt(ev.payload, "foundId"@);
        let date = txt(ev.payload, "date"@);
        let value = product(num(lines[i], "qty"@), num(lines[i], "unitCostMinor"@))->0;
        let a = add_lot(Ok(m), stocked_lot(ev, lines[i], None));
        let account = named_or_role(a->Ok_0, lines[i], "incomeAccountId"@, "inventory_gain"@)->Ok_0;
        let b = post_role(a, ev.id, id, (2 * i) as nat, "inventory"@, value, 0, date);
        let c = post(b, ev.id, id, (2 * i + 1) as nat, account, 0, value, date, None);
        let n = c->Ok_0;
        assert(n.lots == a->Ok_0.lots);
        assert(num(lines[i], "qty"@) > 0);
        assert forall|k: int| 0 <= k < n.lots.len() implies in_bounds(#[trigger] n.lots[k]) by {
            if k < m.lots.len() {
                assert(in_bounds(m.lots[k]));
            }
        }
        lemma_found_lots(n, ev, lines, i + 1);
    }
}

proof fn lemma_found_lines(m: ReadModel, id: Text, lines: Seq<FoundLineInput<Text>>, i: int)
    requires
        0 <= i,
        found_lines_valid(m, lines, i) is Ok,
    ensures
        forall|k: int|
            i <= k < lines.len() ==> num(
                #[trigger] found_line_json(id, lines[k], k as nat),
                "qty"@,
            ) > 0,
    decreases lines.len() - i,
{
    reveal_strlit("itemId");
    reveal_strlit("lotId");
    reveal_strlit("qty");
    reveal_strlit("unitCostMinor");
    reveal_strlit("acquiredAt");
    reveal_strlit("incomeAccountId");
    assert("itemId"@.len() == 6);
    assert("lotId"@.len() == 5);
    assert("qty"@.len() == 3);
    assert("unitCostMinor"@.len() == 13);
    assert("acquiredAt"@.len() == 10);
    assert("incomeAccountId"@.len() == 15);
    if i < lines.len() {
        lemma_found_lines(m, id, lines, i + 1);
        assert(lines[i].qty > 0);
    }
}

/// Granted found stock leaves no lot with less than nothing, nor with more than it
/// received.
pub proof fn law_granted_finds_keep_lot_bounds(
    m: ReadModel,
    id: Text,
    date: Text,
    lines: Seq<FoundLineInput<Text>>,
    ev: EventV,
)
    requires
        lots_in_bounds(m),
        found_request(m, id, date, lines) == Ok::<JsonV, Refusal>(ev.payload),
        inventory_found(m, ev) is Ok,
    ensures
        lots_in_bounds(inventory_found(m, ev)->Ok_0),
{
    reveal_strlit("foundId");
    reveal_strlit("date");
    reveal_strlit("lines");
    assert("foundId"@.len() == 7);
    assert("date"@.len() == 4);
    assert("lines"@.len() == 5);
    let js = list(ev.payload, "lines"@);
    assert(js == Seq::new(lines.len(), |k: int| found_line_json(id, lines[k], k as nat)));
    lemma_found_lines(m, id, lines, 0);
    assert forall|k: int| 0 <= k < js.len() implies num(#[trigger] js[k], "qty"@) > 0 by {
        assert(js[k] == found_line_json(id, lines[k], k as nat));
    }
    lemma_found_lots(m, ev, js, 0);
}

} // verus!
