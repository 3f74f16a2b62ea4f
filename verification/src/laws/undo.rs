//! What a reversal undoes of stock: every lot that its target moved moves back.

use crate::events::EventV;
use crate::json::{list, num, opt_txt, txt, JsonV};
use crate::laws::double_entry::lemma_types;
use crate::laws::frames::{keeps_given_lines, keeps_revert_balances, keeps_sale_lines};
use crate::model::{
    add_consumption, add_return, add_return_line, add_sale, add_sale_line, adjust_lines_from,
    adjust_lot, consume_from, consumed_by, consumption, given_lines_from, inventory_adjusted,
    invoice, line_id, move_lots_from, named_or_role, nested_worth, post, post_role, product,
    project, purchase_return, purchase_return_lines, purchase_return_lines_from, restock_from,
    revert_lots, sale_line, sale_lines, sale_lines_from, sale_recorded, sale_return,
    sale_return_lines, sale_return_lines_from, transaction_reversed, unconsume_from, unreturn_from,
    worth, Text,
};
use crate::rows::{holds, lemma_has, lemma_place, lookup, place, Keyed};
use crate::tables::{Lot, LotConsumption, ReadModel, Return, ReturnLine, SaleLine};
use vstd::prelude::*;

verus! {

// ---- lots that move ----

/// A row is the first with its key.
pub open spec fn first<R: Keyed>(t: Seq<R>, i: int) -> bool {
    place(t, t[i].key()) == Some(i)
}

/// The lots, each with more left, or with less.
pub open spec fn moved_by(
    t: Seq<Lot<Text>>,
    f: spec_fn(Text) -> int,
    after: Seq<Lot<Text>>,
) -> bool {
    &&& after.len() == t.len()
    &&& forall|i: int|
        0 <= i < t.len() ==> (#[trigger] after[i]).qty_remaining == t[i].qty_remaining + (if first(
            t,
            i,
        ) {
            f(t[i].id)
        } else {
            0
        }) && after[i] == (Lot { qty_remaining: after[i].qty_remaining, ..t[i] })
}

/// The opposite move.
pub open spec fn back(f: spec_fn(Text) -> int) -> spec_fn(Text) -> int {
    |lot: Text| -f(lot)
}

/// The move of one lot.
pub open spec fn one(lot: Text, delta: int) -> spec_fn(Text) -> int {
    |x: Text|
        if x == lot {
            delta
        } else {
            0
        }
}

/// An amount, up or down.
pub open spec fn signed(amount: i64, up: bool) -> int {
    if up {
        amount as int
    } else {
        -amount
    }
}

/// What lines from line `i` on move of a lot by the amounts under a key.
pub open spec fn stated_moves(
    lines: Seq<JsonV>,
    key: Text,
    up: bool,
    lot: Text,
    i: int,
) -> int
    decreases lines.len() - i,
{
    if i >= lines.len() {
        0
    } else {
        one(txt(lines[i], "lotId"@), signed(num(lines[i], key), up))(lot) + stated_moves(
            lines,
            key,
            up,
            lot,
            i + 1,
        )
    }
}

/// What the parts of lines from line `i` on move of a lot.
pub open spec fn nested_moves(
    lines: Seq<JsonV>,
    parts: Text,
    key: Text,
    up: bool,
    lot: Text,
    i: int,
) -> int
    decreases lines.len() - i,
{
    if i >= lines.len() {
        0
    } else {
        stated_moves(list(lines[i], parts), key, up, lot, 0) + nested_moves(
            lines,
            parts,
            key,
            up,
            lot,
            i + 1,
        )
    }
}

/// What an event moves of the lots that are there.
pub open spec fn lot_moves(ev: EventV) -> spec_fn(Text) -> int {
    let ty = ev.event_type;
    let lines = list(ev.payload, "lines"@);
    if ty == "SaleRecorded"@ {
        |lot: Text| nested_moves(lines, "lotConsumption"@, "qtyTaken"@, false, lot, 0)
    } else if ty == "PurchaseReturnRecorded"@ {
        |lot: Text| stated_moves(lines, "qty"@, false, lot, 0)
    } else if ty == "InventoryAdjusted"@ {
        |lot: Text| stated_moves(lines, "qtyDelta"@, true, lot, 0)
    } else if ty == "SaleReturnRecorded"@ {
        |lot: Text| nested_moves(lines, "lotReturns"@, "qtyReturned"@, true, lot, 0)
    } else {
        |lot: Text| 0
    }
}

/// The event moves lots that are there already.
pub open spec fn moves_lots(ev: EventV) -> bool {
    let ty = ev.event_type;
    ty == "SaleRecorded"@ || ty == "PurchaseReturnRecorded"@ || ty == "InventoryAdjusted"@ || ty
        == "SaleReturnRecorded"@
}

/// Lots that were moved have their keys where they were.
pub proof fn lemma_places(t: Seq<Lot<Text>>, f: spec_fn(Text) -> int, after: Seq<Lot<Text>>, key: Text)
    requires
        moved_by(t, f, after),
    ensures
        place(after, key) == place(t, key),
{
    lemma_has(t, key);
    lemma_has(after, key);
    if let Some(i) = place(t, key) {
        assert(after[i].key() == t[i].key());
        assert forall|j: int| 0 <= j < i implies (#[trigger] after[j]).key() != key by {
            assert(t[j].key() != key);
        }
        lemma_place(after, key, i);
    } else if let Some(i) = place(after, key) {
        assert(t[i].key() == key);
    }
}

/// Two moves make one.
proof fn lemma_both(
    t: Seq<Lot<Text>>,
    f: spec_fn(Text) -> int,
    a: Seq<Lot<Text>>,
    g: spec_fn(Text) -> int,
    b: Seq<Lot<Text>>,
    h: spec_fn(Text) -> int,
)
    requires
        moved_by(t, f, a),
        moved_by(a, g, b),
        forall|x: Text| #[trigger] h(x) == f(x) + g(x),
    ensures
        moved_by(t, h, b),
{
    assert forall|i: int| 0 <= i < t.len() implies (#[trigger] b[i]).qty_remaining
        == t[i].qty_remaining + (if first(t, i) {
        h(t[i].id)
    } else {
        0
    }) && b[i] == (Lot { qty_remaining: b[i].qty_remaining, ..t[i] }) by {
        lemma_places(t, f, a, t[i].id);
        assert(a[i].id == t[i].id);
    }
}

/// Adding to what is left of a lot moves that lot.
proof fn lemma_one(m: ReadModel, lot: Text, delta: int)
    ensures
        adjust_lot(Ok(m), lot, delta) matches Ok(n) ==> moved_by(m.lots, one(lot, delta), n.lots)
            && n == (ReadModel { lots: n.lots, ..m }),
{
    lemma_has(m.lots, lot);
    if let Ok(n) = adjust_lot(Ok(m), lot, delta) {
        assert forall|i: int| 0 <= i < m.lots.len() implies (#[trigger] n.lots[i]).qty_remaining
            == m.lots[i].qty_remaining + (if first(m.lots, i) {
            one(lot, delta)(m.lots[i].id)
        } else {
            0
        }) && n.lots[i] == (Lot { qty_remaining: n.lots[i].qty_remaining, ..m.lots[i] }) by {
            lemma_has(m.lots, m.lots[i].id);
        }
    }
}

/// No move at all.
proof fn lemma_still(t: Seq<Lot<Text>>, f: spec_fn(Text) -> int)
    requires
        forall|x: Text| #[trigger] f(x) == 0,
    ensures
        moved_by(t, f, t),
{
}

/// Lots that move and move back are what they were.
proof fn lemma_there_and_back(
    t: Seq<Lot<Text>>,
    f: spec_fn(Text) -> int,
    a: Seq<Lot<Text>>,
    b: Seq<Lot<Text>>,
)
    requires
        moved_by(t, f, a),
        moved_by(a, back(f), b),
    ensures
        b == t,
{
    let none = |x: Text| 0int;
    lemma_both(t, f, a, back(f), b, none);
    assert forall|i: int| 0 <= i < t.len() implies #[trigger] b[i] == t[i] by {}
    assert(b =~= t);
}

/// Moving lots by stated amounts.
proof fn lemma_move_lots(m: ReadModel, lines: Seq<JsonV>, key: Text, up: bool, i: int)
    requires
        0 <= i,
    ensures
        move_lots_from(m, lines, key, up, i) matches Ok(n) ==> moved_by(
            m.lots,
            |lot: Text| stated_moves(lines, key, up, lot, i),
            n.lots,
        ) && n == (ReadModel { lots: n.lots, ..m }),
    decreases lines.len() - i,
{
    let all = |lot: Text| stated_moves(lines, key, up, lot, i);
    if i < lines.len() {
        let lot = txt(lines[i], "lotId"@);
        let delta = signed(num(lines[i], key), up);
        lemma_one(m, lot, delta);
        if let Ok(a) = adjust_lot(Ok(m), lot, delta) {
            lemma_move_lots(a, lines, key, up, i + 1);
            if let Ok(n) = move_lots_from(a, lines, key, up, i + 1) {
                let rest = |lot: Text| stated_moves(lines, key, up, lot, i + 1);
                lemma_both(m.lots, one(lot, delta), a.lots, rest, n.lots, all);
            }
        }
    } else {
        lemma_still(m.lots, all);
    }
}

/// Taking returned units out of lots again.
proof fn lemma_unreturn(m: ReadModel, lines: Seq<JsonV>, i: int)
    requires
        0 <= i,
    ensures
        unreturn_from(m, lines, i) matches Ok(n) ==> moved_by(
            m.lots,
            |lot: Text| nested_moves(lines, "lotReturns"@, "qtyReturned"@, false, lot, i),
            n.lots,
        ),
    decreases lines.len() - i,
{
    let all = |lot: Text| nested_moves(lines, "lotReturns"@, "qtyReturned"@, false, lot, i);
    if i < lines.len() {
        let parts = list(lines[i], "lotReturns"@);
        lemma_move_lots(m, parts, "qtyReturned"@, false, 0);
        if let Ok(a) = move_lots_from(m, parts, "qtyReturned"@, false, 0) {
            lemma_unreturn(a, lines, i + 1);
            if let Ok(n) = unreturn_from(a, lines, i + 1) {
                let head = |lot: Text| stated_moves(parts, "qtyReturned"@, false, lot, 0);
                let rest = |lot: Text|
                    nested_moves(lines, "lotReturns"@, "qtyReturned"@, false, lot, i + 1);
                lemma_both(m.lots, head, a.lots, rest, n.lots, all);
            }
        }
    } else {
        lemma_still(m.lots, all);
    }
}

/// Down is the opposite of up.
proof fn lemma_opposite(lines: Seq<JsonV>, key: Text, up: bool, lot: Text, i: int)
    ensures
        stated_moves(lines, key, !up, lot, i) == -stated_moves(lines, key, up, lot, i),
    decreases lines.len() - i,
{
    if i < lines.len() {
        lemma_opposite(lines, key, up, lot, i + 1);
    }
}

proof fn lemma_nested_opposite(
    lines: Seq<JsonV>,
    parts: Text,
    key: Text,
    up: bool,
    lot: Text,
    i: int,
)
    ensures
        nested_moves(lines, parts, key, !up, lot, i) == -nested_moves(
            lines,
            parts,
            key,
            up,
            lot,
            i,
        ),
    decreases lines.len() - i,
{
    if i < lines.len() {
        lemma_opposite(list(lines[i], parts), key, up, lot, 0);
        lemma_nested_opposite(lines, parts, key, up, lot, i + 1);
    }
}

// ---- what the events move ----

proof fn lemma_purchase_return_moves(m: ReadModel, ev: EventV, lines: Seq<JsonV>, i: int)
    requires
        0 <= i,
    ensures
        purchase_return_lines_from(m, ev, lines, i) matches Ok(n) ==> moved_by(
            m.lots,
            |lot: Text| stated_moves(lines, "qty"@, false, lot, i),
            n.lots,
        ),
    decreases lines.len() - i,
{
    let all = |lot: Text| stated_moves(lines, "qty"@, false, lot, i);
    if i < lines.len() {
        let line = lines[i];
        let lot = txt(line, "lotId"@);
        let delta = -num(line, "qty"@);
        lemma_one(m, lot, delta);
        let o = add_return_line(
            adjust_lot(Ok(m), lot, delta),
            ReturnLine {
                id: line_id(ev.id, i as nat),
                return_id: txt(ev.payload, "returnId"@),
                item_id: txt(line, "itemId"@),
                qty: num(line, "qty"@),
                unit_price_minor: 0,
                unit_cost_minor: num(line, "unitCostMinor"@),
                lot_id: lot,
            },
        );
        if let Ok(a) = o {
            lemma_purchase_return_moves(a, ev, lines, i + 1);
            if let Ok(n) = purchase_return_lines_from(a, ev, lines, i + 1) {
                let rest = |lot: Text| stated_moves(lines, "qty"@, false, lot, i + 1);
                lemma_both(m.lots, one(lot, delta), a.lots, rest, n.lots, all);
            }
        }
    } else {
        lemma_still(m.lots, all);
    }
}

proof fn lemma_adjust_moves(m: ReadModel, ev: EventV, lines: Seq<JsonV>, i: int)
    requires
        0 <= i,
    ensures
        adjust_lines_from(m, ev, lines, i) matches Ok(n) ==> moved_by(
            m.lots,
            |lot: Text| stated_moves(lines, "qtyDelta"@, true, lot, i),
            n.lots,
        ),
    decreases lines.len() - i,
{
    let all = |lot: Text| stated_moves(lines, "qtyDelta"@, true, lot, i);
    if i >= lines.len() {
        lemma_still(m.lots, all);
    } else if let Ok(n) = adjust_lines_from(m, ev, lines, i) {
        let p = ev.payload;
        let id = txt(p, "adjustmentId"@);
        let date = txt(p, "date"@);
        let line = lines[i];
        let lot = txt(line, "lotId"@);
        let qty = -num(line, "qtyDelta"@);
        let value = qty * lookup(m.lots, lot)->0.unit_cost_minor;
        let a = adjust_lot(Ok(m), lot, -qty)->Ok_0;
        let account = named_or_role(a, line, "expenseAccountId"@, "shrinkage"@)->Ok_0;
        let o = post(
            Ok(a),
            ev.id,
            id,
            (2 * i) as nat,
            account,
            value as i64,
            0,
            date,
            None,
        );
        let o = post_role(
            o,
            ev.id,
            id,
            (2 * i + 1) as nat,
            "inventory"@,
            0,
            value as i64,
            date,
        );
        let b = o->Ok_0;
        lemma_one(m, lot, -qty);
        assert(b.lots == a.lots);
        lemma_adjust_moves(b, ev, lines, i + 1);
        let rest = |lot: Text| stated_moves(lines, "qtyDelta"@, true, lot, i + 1);
        lemma_both(m.lots, one(lot, -qty), a.lots, rest, n.lots, all);
    }
}

proof fn lemma_restock_moves(
    m: ReadModel,
    ev: EventV,
    line: JsonV,
    parts: Seq<JsonV>,
    j: int,
    n: int,
)
    requires
        0 <= j,
    ensures
        restock_from(m, ev, line, parts, j, n) matches Ok(k) ==> moved_by(
            m.lots,
            |lot: Text| stated_moves(parts, "qtyReturned"@, true, lot, j),
            k.lots,
        ),
    decreases parts.len() - j,
{
    let all = |lot: Text| stated_moves(parts, "qtyReturned"@, true, lot, j);
    if j >= parts.len() {
        lemma_still(m.lots, all);
    } else if n + j < u64::MAX {
        let part = parts[j];
        let lot = txt(part, "lotId"@);
        let delta = num(part, "qtyReturned"@) as int;
        lemma_one(m, lot, delta);
        let o = add_return_line(
            adjust_lot(Ok(m), lot, delta),
            ReturnLine {
                id: line_id(ev.id, (n + j) as nat),
                return_id: txt(ev.payload, "returnId"@),
                item_id: txt(line, "itemId"@),
                qty: num(part, "qtyReturned"@),
                unit_price_minor: num(line, "unitPriceMinor"@),
                unit_cost_minor: num(part, "unitCostMinor"@),
                lot_id: lot,
            },
        );
        if let Ok(a) = o {
            lemma_restock_moves(a, ev, line, parts, j + 1, n);
            if let Ok(k) = restock_from(a, ev, line, parts, j + 1, n) {
                let rest = |lot: Text| stated_moves(parts, "qtyReturned"@, true, lot, j + 1);
                lemma_both(m.lots, one(lot, delta), a.lots, rest, k.lots, all);
            }
        }
    }
}

proof fn lemma_sale_return_moves(m: ReadModel, ev: EventV, lines: Seq<JsonV>, i: int, n: int)
    requires
        0 <= i,
    ensures
        sale_return_lines_from(m, ev, lines, i, n) matches Ok(k) ==> moved_by(
            m.lots,
            |lot: Text| nested_moves(lines, "lotReturns"@, "qtyReturned"@, true, lot, i),
            k.lots,
        ),
    decreases lines.len() - i,
{
    let all = |lot: Text| nested_moves(lines, "lotReturns"@, "qtyReturned"@, true, lot, i);
    if i < lines.len() {
        let parts = list(lines[i], "lotReturns"@);
        lemma_restock_moves(m, ev, lines[i], parts, 0, n);
        if let Ok(a) = restock_from(m, ev, lines[i], parts, 0, n) {
            lemma_sale_return_moves(a, ev, lines, i + 1, n + parts.len());
            if let Ok(k) = sale_return_lines_from(a, ev, lines, i + 1, n + parts.len()) {
                let head = |lot: Text| stated_moves(parts, "qtyReturned"@, true, lot, 0);
                let rest = |lot: Text|
                    nested_moves(lines, "lotReturns"@, "qtyReturned"@, true, lot, i + 1);
                lemma_both(m.lots, head, a.lots, rest, k.lots, all);
            }
        }
    } else {
        lemma_still(m.lots, all);
    }
}

proof fn lemma_consume_moves(m: ReadModel, ev: EventV, line: nat, parts: Seq<JsonV>, j: int)
    requires
        0 <= j,
    ensures
        consume_from(m, ev, line, parts, j) matches Ok(n) ==> moved_by(
            m.lots,
            |lot: Text| stated_moves(parts, "qtyTaken"@, false, lot, j),
            n.lots,
        ),
    decreases parts.len() - j,
{
    let all = |lot: Text| stated_moves(parts, "qtyTaken"@, false, lot, j);
    if j < parts.len() {
        let lot = txt(parts[j], "lotId"@);
        let delta = -num(parts[j], "qtyTaken"@);
        if let Ok(c) = add_consumption(Ok(m), consumption(ev, line, parts[j], j as nat)) {
            lemma_one(c, lot, delta);
            if let Ok(a) = adjust_lot(Ok(c), lot, delta) {
                lemma_consume_moves(a, ev, line, parts, j + 1);
                if let Ok(n) = consume_from(a, ev, line, parts, j + 1) {
                    let rest = |lot: Text| stated_moves(parts, "qtyTaken"@, false, lot, j + 1);
                    lemma_both(m.lots, one(lot, delta), a.lots, rest, n.lots, all);
                }
            }
        }
    } else {
        lemma_still(m.lots, all);
    }
}

proof fn lemma_sale_moves(m: ReadModel, ev: EventV, lines: Seq<JsonV>, i: int)
    requires
        0 <= i,
    ensures
        sale_lines_from(m, ev, lines, i) matches Ok(n) ==> moved_by(
            m.lots,
            |lot: Text| nested_moves(lines, "lotConsumption"@, "qtyTaken"@, false, lot, i),
            n.lots,
        ),
    decreases lines.len() - i,
{
    let all = |lot: Text| nested_moves(lines, "lotConsumption"@, "qtyTaken"@, false, lot, i);
    if i < lines.len() {
        let parts = list(lines[i], "lotConsumption"@);
        if let Ok(a) = sale_line(m, ev, lines[i], i as nat) {
            let row = sold_row(ev, lines[i], i as nat);
            lemma_consume_moves(add_sale_line(Ok(m), row)->Ok_0, ev, i as nat, parts, 0);
            lemma_sale_moves(a, ev, lines, i + 1);
            if let Ok(n) = sale_lines_from(a, ev, lines, i + 1) {
                let head = |lot: Text| stated_moves(parts, "qtyTaken"@, false, lot, 0);
                let rest = |lot: Text|
                    nested_moves(lines, "lotConsumption"@, "qtyTaken"@, false, lot, i + 1);
                lemma_both(m.lots, head, a.lots, rest, n.lots, all);
            }
        }
    } else {
        lemma_still(m.lots, all);
    }
}

/// The row that a sale line adds.
pub open spec fn sold_row(ev: EventV, line: JsonV, i: nat) -> SaleLine<Text> {
    SaleLine {
        id: line_id(ev.id, i),
        sale_id: txt(ev.payload, "saleId"@),
        item_id: txt(line, "itemId"@),
        qty: num(line, "qty"@),
        unit_price_minor: num(line, "unitPriceMinor"@),
        revenue_minor: product(num(line, "qty"@), num(line, "unitPriceMinor"@))->0,
        cogs_minor: worth(list(line, "lotConsumption"@), "qtyTaken"@, "unitCostMinor"@)->0,
        date: txt(ev.payload, "date"@),
    }
}

proof fn lemma_sale_moves_lots(m: ReadModel, ev: EventV)
    requires
        sale_recorded(m, ev) is Ok,
    ensures
        moved_by(
            m.lots,
            |lot: Text|
                nested_moves(
                    list(ev.payload, "lines"@),
                    "lotConsumption"@,
                    "qtyTaken"@,
                    false,
                    lot,
                    0,
                ),
            sale_recorded(m, ev)->Ok_0.lots,
        ),
{
    let p = ev.payload;
    let lines = list(p, "lines"@);
    let revenue = worth(lines, "qty"@, "unitPriceMinor"@)->0;
    let a = add_sale(
        Ok(m),
        invoice(ev, txt(p, "saleId"@), opt_txt(p, "customerId"@), revenue),
    );
    lemma_sale_moves(a->Ok_0, ev, lines, 0);
    assert(sale_recorded(m, ev)->Ok_0.lots == sale_lines(a, ev, lines)->Ok_0.lots);
}

proof fn lemma_purchase_return_moves_lots(m: ReadModel, ev: EventV)
    requires
        purchase_return(m, ev) is Ok,
    ensures
        moved_by(
            m.lots,
            |lot: Text| stated_moves(list(ev.payload, "lines"@), "qty"@, false, lot, 0),
            purchase_return(m, ev)->Ok_0.lots,
        ),
{
    let p = ev.payload;
    let lines = list(p, "lines"@);
    let a = add_return(
        Ok(m),
        Return {
            id: txt(p, "returnId"@),
            event_id: ev.id,
            return_type: "purchase_return"@,
            original_id: txt(p, "originalPurchaseId"@),
            date: txt(p, "date"@),
            revenue_reversed_minor: 0,
            cost_restored_minor: worth(lines, "qty"@, "unitCostMinor"@)->0,
        },
    );
    lemma_purchase_return_moves(a->Ok_0, ev, lines, 0);
    assert(purchase_return(m, ev)->Ok_0.lots == purchase_return_lines(a, ev, lines)->Ok_0.lots);
}

proof fn lemma_sale_return_moves_lots(m: ReadModel, ev: EventV)
    requires
        sale_return(m, ev) is Ok,
    ensures
        moved_by(
            m.lots,
            |lot: Text|
                nested_moves(
                    list(ev.payload, "lines"@),
                    "lotReturns"@,
                    "qtyReturned"@,
                    true,
                    lot,
                    0,
                ),
            sale_return(m, ev)->Ok_0.lots,
        ),
{
    let p = ev.payload;
    let lines = list(p, "lines"@);
    let a = add_return(
        Ok(m),
        Return {
            id: txt(p, "returnId"@),
            event_id: ev.id,
            return_type: "sale_return"@,
            original_id: txt(p, "originalSaleId"@),
            date: txt(p, "date"@),
            revenue_reversed_minor: worth(lines, "qty"@, "unitPriceMinor"@)->0,
            cost_restored_minor: nested_worth(
                lines,
                "lotReturns"@,
                "qtyReturned"@,
                "unitCostMinor"@,
            )->0,
        },
    );
    lemma_sale_return_moves(a->Ok_0, ev, lines, 0, 0);
    assert(sale_return(m, ev)->Ok_0.lots == sale_return_lines(a, ev, lines)->Ok_0.lots);
}

/// What the projection of an event that moves lots is.
proof fn lemma_projected(m: ReadModel, log: Seq<EventV>, ev: EventV)
    requires
        moves_lots(ev),
    ensures
        ev.event_type == "SaleRecorded"@ ==> project(m, log, ev) == sale_recorded(m, ev),
        ev.event_type == "PurchaseReturnRecorded"@ ==> project(m, log, ev) == purchase_return(
            m,
            ev,
        ),
        ev.event_type == "InventoryAdjusted"@ ==> project(m, log, ev) == inventory_adjusted(m, ev),
        ev.event_type == "SaleReturnRecorded"@ ==> project(m, log, ev) == sale_return(m, ev),
{
    lemma_types();
}

/// A sale, a return or a stock adjustment moves the lots that are there by what its
/// payload states, and nothing else of them.
pub proof fn law_lots_move_as_stated(m: ReadModel, log: Seq<EventV>, ev: EventV)
    requires
        moves_lots(ev),
        project(m, log, ev) is Ok,
    ensures
        moved_by(m.lots, lot_moves(ev), project(m, log, ev)->Ok_0.lots),
{
    lemma_projected(m, log, ev);
    if ev.event_type == "SaleRecorded"@ {
        lemma_sale_moves_lots(m, ev);
    } else if ev.event_type == "PurchaseReturnRecorded"@ {
        lemma_purchase_return_moves_lots(m, ev);
    } else if ev.event_type == "InventoryAdjusted"@ {
        lemma_adjust_moves(m, ev, list(ev.payload, "lines"@), 0);
    } else {
        lemma_sale_return_moves_lots(m, ev);
    }
}

// ---- what the consumption rows of a sale tell ----

/// The row takes units for a line of the sale.
pub open spec fn row_of(
    lines: Seq<SaleLine<Text>>,
    c: LotConsumption<Text>,
    sale: Text,
) -> bool {
    lookup(lines, c.sale_line_id) matches Some(l) && l.sale_id == sale
}

/// What the rows of a sale from row `i` on took of a lot.
pub open spec fn rows_taken(
    rows: Seq<LotConsumption<Text>>,
    lines: Seq<SaleLine<Text>>,
    sale: Text,
    lot: Text,
    i: int,
) -> int
    decreases rows.len() - i,
{
    if i >= rows.len() {
        0
    } else {
        (if row_of(lines, rows[i], sale) {
            one(rows[i].lot_id, rows[i].qty_taken as int)(lot)
        } else {
            0
        }) + rows_taken(rows, lines, sale, lot, i + 1)
    }
}

/// Reversing a sale moves its lots by what its rows took.
proof fn lemma_unconsume(m: ReadModel, sale: Text, i: int)
    requires
        0 <= i,
    ensures
        unconsume_from(m, sale, i) matches Ok(n) ==> moved_by(
            m.lots,
            |lot: Text| rows_taken(m.consumptions, m.sale_lines, sale, lot, i),
            n.lots,
        ),
    decreases m.consumptions.len() - i,
{
    let all = |lot: Text| rows_taken(m.consumptions, m.sale_lines, sale, lot, i);
    if i < m.consumptions.len() {
        let c = m.consumptions[i];
        let rest = |lot: Text| rows_taken(m.consumptions, m.sale_lines, sale, lot, i + 1);
        if !consumed_by(m, c, sale) {
            lemma_unconsume(m, sale, i + 1);
            assert forall|lot: Text| #[trigger] all(lot) == rest(lot) by {}
            if let Ok(n) = unconsume_from(m, sale, i + 1) {
                let none = |lot: Text| 0int;
                lemma_still(m.lots, none);
                lemma_both(m.lots, none, m.lots, rest, n.lots, all);
            }
        } else {
            lemma_one(m, c.lot_id, c.qty_taken as int);
            if let Ok(a) = adjust_lot(Ok(m), c.lot_id, c.qty_taken as int) {
                lemma_unconsume(a, sale, i + 1);
                if let Ok(n) = unconsume_from(a, sale, i + 1) {
                    lemma_both(
                        m.lots,
                        one(c.lot_id, c.qty_taken as int),
                        a.lots,
                        rest,
                        n.lots,
                        all,
                    );
                }
            }
        }
    } else {
        lemma_still(m.lots, all);
    }
}

/// The rows of the model take of every lot what a sale's payload states.
pub open spec fn rows_tell(m: ReadModel, ev: EventV) -> bool {
    forall|lot: Text| #[trigger]
        rows_taken(m.consumptions, m.sale_lines, txt(ev.payload, "saleId"@), lot, 0)
            == -nested_moves(
            list(ev.payload, "lines"@),
            "lotConsumption"@,
            "qtyTaken"@,
            false,
            lot,
            0,
        )
}

/// Reversing a sale, a return or a stock adjustment moves every lot back by what its
/// target moved it.
pub proof fn law_reversal_moves_lots_back(
    m: ReadModel,
    log: Seq<EventV>,
    ev: EventV,
    target: EventV,
)
    requires
        moves_lots(target),
        lookup(log, txt(ev.payload, "targetEventId"@)) == Some(target),
        target.event_type == "SaleRecorded"@ ==> rows_tell(m, target),
        transaction_reversed(m, log, ev) is Ok,
    ensures
        moved_by(m.lots, back(lot_moves(target)), transaction_reversed(m, log, ev)->Ok_0.lots),
{
    lemma_types();
    let tp = target.payload;
    let lines = list(tp, "lines"@);
    let given = list(ev.payload, "reversalJournalLines"@);
    let date = txt(tp, "date"@);
    keeps_given_lines(m, ev, given, date, "reversal"@, 0);
    let a = given_lines_from(m, ev, given, date, "reversal"@, 0)->Ok_0;
    let b = revert_lots(Ok(a), target)->Ok_0;
    keeps_revert_balances(b, target);
    assert(transaction_reversed(m, log, ev)->Ok_0.lots == b.lots);
    let none = |lot: Text| 0int;
    let f = back(lot_moves(target));
    lemma_still(m.lots, none);
    if target.event_type == "SaleRecorded"@ {
        let sale = txt(tp, "saleId"@);
        lemma_unconsume(a, sale, 0);
        let g = |lot: Text| rows_taken(a.consumptions, a.sale_lines, sale, lot, 0);
        lemma_both(m.lots, none, m.lots, g, b.lots, f);
    } else if target.event_type == "PurchaseReturnRecorded"@ {
        lemma_move_lots(a, lines, "qty"@, true, 0);
        let g = |lot: Text| stated_moves(lines, "qty"@, true, lot, 0);
        assert forall|lot: Text| #[trigger] f(lot) == none(lot) + g(lot) by {
            lemma_opposite(lines, "qty"@, false, lot, 0);
        }
        lemma_both(m.lots, none, m.lots, g, b.lots, f);
    } else if target.event_type == "InventoryAdjusted"@ {
        lemma_move_lots(a, lines, "qtyDelta"@, false, 0);
        let g = |lot: Text| stated_moves(lines, "qtyDelta"@, false, lot, 0);
        assert forall|lot: Text| #[trigger] f(lot) == none(lot) + g(lot) by {
            lemma_opposite(lines, "qtyDelta"@, true, lot, 0);
        }
        lemma_both(m.lots, none, m.lots, g, b.lots, f);
    } else {
        lemma_unreturn(a, lines, 0);
        let g = |lot: Text| nested_moves(lines, "lotReturns"@, "qtyReturned"@, false, lot, 0);
        assert forall|lot: Text| #[trigger] f(lot) == none(lot) + g(lot) by {
            lemma_nested_opposite(lines, "lotReturns"@, "qtyReturned"@, true, lot, 0);
        }
        lemma_both(m.lots, none, m.lots, g, b.lots, f);
    }
}

/// Every consumption is for a sale line, and every sale line of a sale, that is there.
pub open spec fn sales_known(m: ReadModel) -> bool {
    rows_known(m.consumptions, m.sale_lines) && forall|i: int|
        0 <= i < m.sale_lines.len() ==> holds(m.sales, (#[trigger] m.sale_lines[i]).sale_id)
}

/// Every consumption is for a sale line that is there.
pub open spec fn rows_known(
    rows: Seq<LotConsumption<Text>>,
    lines: Seq<SaleLine<Text>>,
) -> bool {
    forall|i: int| 0 <= i < rows.len() ==> holds(lines, (#[trigger] rows[i]).sale_line_id)
}

/// One more row takes what it says.
proof fn lemma_rows_push(
    rows: Seq<LotConsumption<Text>>,
    c: LotConsumption<Text>,
    lines: Seq<SaleLine<Text>>,
    sale: Text,
    lot: Text,
    i: int,
)
    requires
        0 <= i <= rows.len(),
    ensures
        rows_taken(rows.push(c), lines, sale, lot, i) == rows_taken(rows, lines, sale, lot, i) + (
        if row_of(lines, c, sale) {
            one(c.lot_id, c.qty_taken as int)(lot)
        } else {
            0
        }),
    decreases rows.len() - i,
{
    if i < rows.len() {
        lemma_rows_push(rows, c, lines, sale, lot, i + 1);
        assert(rows.push(c)[i] == rows[i]);
    } else {
        assert(rows.push(c)[i] == c);
        assert(rows_taken(rows.push(c), lines, sale, lot, i + 1) == 0);
    }
}

/// A row with a new key changes the place of none.
pub proof fn lemma_lookup_push<R: Keyed>(t: Seq<R>, r: R, key: Text)
    ensures
        holds(t, key) ==> lookup(t.push(r), key) == lookup(t, key) && holds(t.push(r), key),
        !holds(t, key) && r.key() == key ==> lookup(t.push(r), key) == Some(r) && holds(
            t.push(r),
            key,
        ),
{
    let n = t.push(r);
    lemma_has(t, key);
    if let Some(i) = place(t, key) {
        assert(n[i] == t[i]);
        assert forall|j: int| 0 <= j < i implies (#[trigger] n[j]).key() != key by {
            assert(n[j] == t[j]);
        }
        lemma_place(n, key, i);
    } else if r.key() == key {
        assert(n[t.len() as int] == r);
        assert forall|j: int| 0 <= j < t.len() implies (#[trigger] n[j]).key() != key by {
            assert(n[j] == t[j]);
        }
        lemma_place(n, key, t.len() as int);
    }
}

/// A new sale line changes nothing of what the rows took.
proof fn lemma_rows_line(
    rows: Seq<LotConsumption<Text>>,
    lines: Seq<SaleLine<Text>>,
    r: SaleLine<Text>,
    sale: Text,
    lot: Text,
    i: int,
)
    requires
        0 <= i,
        rows_known(rows, lines),
    ensures
        rows_taken(rows, lines.push(r), sale, lot, i) == rows_taken(rows, lines, sale, lot, i),
    decreases rows.len() - i,
{
    if i < rows.len() {
        lemma_rows_line(rows, lines, r, sale, lot, i + 1);
        assert(holds(lines, rows[i].sale_line_id));
        lemma_lookup_push(lines, r, rows[i].sale_line_id);
    }
}

/// What the consumption of a line adds to the rows.
proof fn lemma_consume_rows(
    m: ReadModel,
    ev: EventV,
    line: nat,
    parts: Seq<JsonV>,
    j: int,
    sale: Text,
    lot: Text,
)
    requires
        0 <= j,
        rows_known(m.consumptions, m.sale_lines),
        lookup(m.sale_lines, line_id(ev.id, line)) is Some,
        consume_from(m, ev, line, parts, j) is Ok,
    ensures
        ({
            let n = consume_from(m, ev, line, parts, j)->Ok_0;
            &&& n.sale_lines == m.sale_lines
            &&& rows_known(n.consumptions, n.sale_lines)
            &&& rows_taken(n.consumptions, n.sale_lines, sale, lot, 0) == rows_taken(
                m.consumptions,
                m.sale_lines,
                sale,
                lot,
                0,
            ) - (if lookup(m.sale_lines, line_id(ev.id, line))->0.sale_id == sale {
                stated_moves(parts, "qtyTaken"@, false, lot, j)
            } else {
                0
            })
        }),
    decreases parts.len() - j,
{
    if j < parts.len() {
        let c = consumption(ev, line, parts[j], j as nat);
        let o = adjust_lot(
            add_consumption(Ok(m), c),
            txt(parts[j], "lotId"@),
            -num(parts[j], "qtyTaken"@),
        );
        let a = o->Ok_0;
        assert(a.consumptions == m.consumptions.push(c));
        lemma_has(m.sale_lines, c.sale_line_id);
        assert forall|i: int| 0 <= i < a.consumptions.len() implies holds(
            a.sale_lines,
            (#[trigger] a.consumptions[i]).sale_line_id,
        ) by {
            if i < m.consumptions.len() {
                assert(a.consumptions[i] == m.consumptions[i]);
            }
        }
        lemma_rows_push(m.consumptions, c, m.sale_lines, sale, lot, 0);
        lemma_consume_rows(a, ev, line, parts, j + 1, sale, lot);
    }
}

/// What the lines of a sale add to the rows: those of the sale itself take what its
/// payload states, those of any other sale nothing.
proof fn lemma_sale_rows(
    m: ReadModel,
    ev: EventV,
    lines: Seq<JsonV>,
    i: int,
    sale: Text,
    lot: Text,
)
    requires
        0 <= i,
        rows_known(m.consumptions, m.sale_lines),
        sale_lines_from(m, ev, lines, i) is Ok,
    ensures
        ({
            let n = sale_lines_from(m, ev, lines, i)->Ok_0;
            let id = txt(ev.payload, "saleId"@);
            &&& rows_known(n.consumptions, n.sale_lines)
            &&& m.sale_lines.len() <= n.sale_lines.len()
            &&& (forall|k: int|
                0 <= k < m.sale_lines.len() ==> #[trigger] n.sale_lines[k] == m.sale_lines[k])
            &&& (forall|k: int|
                m.sale_lines.len() <= k < n.sale_lines.len() ==> (
                #[trigger] n.sale_lines[k]).sale_id == id)
            &&& rows_taken(n.consumptions, n.sale_lines, sale, lot, 0) == rows_taken(
                m.consumptions,
                m.sale_lines,
                sale,
                lot,
                0,
            ) - (if id == sale {
                nested_moves(lines, "lotConsumption"@, "qtyTaken"@, false, lot, i)
            } else {
                0
            })
        }),
    decreases lines.len() - i,
{
    if i < lines.len() {
        let parts = list(lines[i], "lotConsumption"@);
        let row = sold_row(ev, lines[i], i as nat);
        let a = add_sale_line(Ok(m), row)->Ok_0;
        let b = sale_line(m, ev, lines[i], i as nat)->Ok_0;
        lemma_lookup_push(m.sale_lines, row, row.id);
        assert forall|k: int| 0 <= k < a.consumptions.len() implies holds(
            a.sale_lines,
            (#[trigger] a.consumptions[k]).sale_line_id,
        ) by {
            lemma_lookup_push(m.sale_lines, row, m.consumptions[k].sale_line_id);
        }
        lemma_rows_line(m.consumptions, m.sale_lines, row, sale, lot, 0);
        lemma_consume_rows(a, ev, i as nat, parts, 0, sale, lot);
        lemma_sale_rows(b, ev, lines, i + 1, sale, lot);
        let n = sale_lines_from(m, ev, lines, i)->Ok_0;
        assert(b.sale_lines == m.sale_lines.push(row));
        assert forall|k: int| 0 <= k < m.sale_lines.len() implies #[trigger] n.sale_lines[k]
            == m.sale_lines[k] by {
            assert(b.sale_lines[k] == m.sale_lines[k]);
        }
        assert forall|k: int| m.sale_lines.len() <= k < n.sale_lines.len() implies (
        #[trigger] n.sale_lines[k]).sale_id == txt(ev.payload, "saleId"@) by {
            if k < b.sale_lines.len() {
                assert(b.sale_lines[k] == row);
            }
        }
    }
}

/// A sale that is not there has no rows.
proof fn lemma_no_rows(m: ReadModel, sale: Text, lot: Text, i: int)
    requires
        0 <= i,
        sales_known(m),
        !holds(m.sales, sale),
    ensures
        rows_taken(m.consumptions, m.sale_lines, sale, lot, i) == 0,
    decreases m.consumptions.len() - i,
{
    if i < m.consumptions.len() {
        lemma_no_rows(m, sale, lot, i + 1);
        let c = m.consumptions[i];
        lemma_has(m.sale_lines, c.sale_line_id);
        if let Some(k) = place(m.sale_lines, c.sale_line_id) {
            assert(holds(m.sales, m.sale_lines[k].sale_id));
        }
    }
}

/// What a sale adds to the rows and lines.
pub proof fn lemma_sold(m: ReadModel, ev: EventV, sale: Text, lot: Text)
    requires
        sales_known(m),
        sale_recorded(m, ev) is Ok,
    ensures
        ({
            let n = sale_recorded(m, ev)->Ok_0;
            let id = txt(ev.payload, "saleId"@);
            &&& sales_known(n)
            &&& !holds(m.sales, id)
            &&& holds(n.sales, id)
            &&& holds(m.sales, sale) ==> holds(n.sales, sale)
            &&& rows_taken(n.consumptions, n.sale_lines, sale, lot, 0) == rows_taken(
                m.consumptions,
                m.sale_lines,
                sale,
                lot,
                0,
            ) - (if id == sale {
                nested_moves(
                    list(ev.payload, "lines"@),
                    "lotConsumption"@,
                    "qtyTaken"@,
                    false,
                    lot,
                    0,
                )
            } else {
                0
            })
        }),
{
    let p = ev.payload;
    let lines = list(p, "lines"@);
    let id = txt(p, "saleId"@);
    let revenue = worth(lines, "qty"@, "unitPriceMinor"@)->0;
    let inv = invoice(ev, id, opt_txt(p, "customerId"@), revenue);
    let a = add_sale(Ok(m), inv)->Ok_0;
    let b = sale_lines(Ok(a), ev, lines)->Ok_0;
    let n = sale_recorded(m, ev)->Ok_0;
    assert(inv.key() == id);
    lemma_lookup_push(m.sales, inv, id);
    lemma_lookup_push(m.sales, inv, sale);
    lemma_sale_rows(a, ev, lines, 0, sale, lot);
    keeps_sale_lines(a, ev, lines, 0);
    assert(n.consumptions == b.consumptions && n.sale_lines == b.sale_lines && n.sales == b.sales);
    assert forall|k: int| 0 <= k < n.sale_lines.len() implies holds(
        n.sales,
        (#[trigger] n.sale_lines[k]).sale_id,
    ) by {
        if k < m.sale_lines.len() {
            assert(n.sale_lines[k] == m.sale_lines[k]);
            lemma_lookup_push(m.sales, inv, m.sale_lines[k].sale_id);
        }
    }
}

/// Once a sale is recorded, the consumption rows tell what it took of every lot.
pub proof fn law_rows_tell_of_a_sale(m: ReadModel, ev: EventV)
    requires
        sales_known(m),
        sale_recorded(m, ev) is Ok,
    ensures
        sales_known(sale_recorded(m, ev)->Ok_0),
        rows_tell(sale_recorded(m, ev)->Ok_0, ev),
{
    let n = sale_recorded(m, ev)->Ok_0;
    let sale = txt(ev.payload, "saleId"@);
    lemma_sold(m, ev, sale, Seq::empty());
    assert forall|lot: Text| #[trigger]
        rows_taken(n.consumptions, n.sale_lines, sale, lot, 0) == -nested_moves(
        list(ev.payload, "lines"@),
        "lotConsumption"@,
        "qtyTaken"@,
        false,
        lot,
        0,
    ) by {
        lemma_sold(m, ev, sale, lot);
        lemma_no_rows(m, sale, lot, 0);
    }
}

/// A reversal right after a sale, a return or a stock adjustment leaves every lot as it
/// was.
pub proof fn law_reversal_undoes_lots(
    m: ReadModel,
    log: Seq<EventV>,
    target: EventV,
    later: Seq<EventV>,
    ev: EventV,
)
    requires
        sales_known(m),
        moves_lots(target),
        project(m, log, target) is Ok,
        lookup(later, txt(ev.payload, "targetEventId"@)) == Some(target),
        transaction_reversed(project(m, log, target)->Ok_0, later, ev) is Ok,
    ensures
        transaction_reversed(project(m, log, target)->Ok_0, later, ev)->Ok_0.lots == m.lots,
{
    let k = project(m, log, target)->Ok_0;
    let n = transaction_reversed(k, later, ev)->Ok_0;
    law_lots_move_as_stated(m, log, target);
    lemma_projected(m, log, target);
    if target.event_type == "SaleRecorded"@ {
        law_rows_tell_of_a_sale(m, target);
    }
    law_reversal_moves_lots_back(k, later, ev, target);
    lemma_there_and_back(m.lots, lot_moves(target), k.lots, n.lots);
}

} // verus!
