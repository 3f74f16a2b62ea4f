//! Which rows each event writes, and what they say.

use crate::events::EventV;
use crate::json::{list, num, opt_txt, txt, JsonV};
use crate::laws::frames::keeps_given_lines;
use crate::laws::stock::{lemma_worth_is_exact, line_worth};
use crate::laws::undo::sold_row;
use crate::model::{
    add_consumption, add_lot, add_purchase, add_purchase_line, add_return, add_return_line,
    add_sale, add_sale_line, adjust_lot, consume_from, consumption, found_lines_from,
    given_lines_from, inventory_found, invoice, line_id, named_or_role, nested_worth, on_credit,
    opening_balances, opening_lots_from, post, post_role, product, purchase_line,
    purchase_lines_from, purchase_recorded, purchase_return, purchase_return_lines,
    purchase_return_lines_from, purchased_lot, restock_from, sale_line, sale_lines, sale_lines_from,
    sale_recorded, sale_return, sale_return_lines, sale_return_lines_from, stocked_lot, worth, Text,
};
use crate::rows::lookup;
use crate::sums::sum_over;
use crate::tables::{Lot, LotConsumption, PurchaseLine, ReadModel, Return, ReturnLine, SaleLine};
use crate::text::digits;
use vstd::prelude::*;

verus! {

/// A table with rows put behind its own.
pub open spec fn followed<R>(before: Seq<R>, after: Seq<R>, n: int) -> bool {
    after.len() == before.len() + n && after.take(before.len() as int) == before
}

proof fn lemma_followed_start<R>(t: Seq<R>)
    ensures
        followed(t, t, 0),
{
    assert(t.take(t.len() as int) =~= t);
}

proof fn lemma_followed_push<R>(before: Seq<R>, t: Seq<R>, n: int, r: R)
    requires
        followed(before, t, n),
        0 <= n,
    ensures
        followed(before, t.push(r), n + 1),
        forall|j: int| 0 <= j < t.len() ==> #[trigger] t.push(r)[j] == t[j],
        t.push(r)[before.len() + n] == r,
{
    assert(t.push(r).take(before.len() as int) =~= before) by {
        assert forall|j: int| 0 <= j < before.len() implies t.push(r)[j] == before[j] by {
            assert(t.take(before.len() as int)[j] == before[j]);
        }
    }
}

// ---- purchases ----

/// The lot that a purchase line brings: its units, all of them left, at the cost it gives,
/// acquired on the date of the purchase, from its supplier.
pub open spec fn bought(l: Lot<Text>, ev: EventV, line: JsonV) -> bool {
    &&& l.id == txt(line, "lotId"@)
    &&& l.item_id == txt(line, "itemId"@)
    &&& l.source_event_id == ev.id
    &&& l.purchase_id == Some(txt(ev.payload, "purchaseId"@))
    &&& l.unit_cost_minor == num(line, "unitCostMinor"@)
    &&& l.qty_received == num(line, "qty"@)
    &&& l.qty_remaining == num(line, "qty"@)
    &&& l.acquired_at == txt(ev.payload, "date"@)
    &&& l.supplier_id == opt_txt(ev.payload, "supplierId"@)
}

/// The row of a purchase line.
pub open spec fn bought_line(r: PurchaseLine<Text>, ev: EventV, line: JsonV, j: int) -> bool {
    &&& r.id == ev.id + "#line#"@ + digits(j as nat)
    &&& r.purchase_id == txt(ev.payload, "purchaseId"@)
    &&& r.item_id == txt(line, "itemId"@)
    &&& r.qty == num(line, "qty"@)
    &&& r.unit_cost_minor == num(line, "unitCostMinor"@)
    &&& r.lot_id == txt(line, "lotId"@)
}

proof fn lemma_bought(m: ReadModel, k: ReadModel, ev: EventV, lines: Seq<JsonV>, i: int)
    requires
        0 <= i <= lines.len(),
        followed(m.lots, k.lots, i),
        followed(m.purchase_lines, k.purchase_lines, i),
        forall|j: int| 0 <= j < i ==> bought(#[trigger] k.lots[m.lots.len() + j], ev, lines[j]),
        forall|j: int|
            0 <= j < i ==> bought_line(
                #[trigger] k.purchase_lines[m.purchase_lines.len() + j],
                ev,
                lines[j],
                j,
            ),
        purchase_lines_from(k, ev, lines, i) is Ok,
    ensures
        ({
            let n = purchase_lines_from(k, ev, lines, i)->Ok_0;
            &&& followed(m.lots, n.lots, lines.len() as int)
            &&& followed(m.purchase_lines, n.purchase_lines, lines.len() as int)
            &&& forall|j: int|
                0 <= j < lines.len() ==> bought(#[trigger] n.lots[m.lots.len() + j], ev, lines[j])
            &&& forall|j: int|
                0 <= j < lines.len() ==> bought_line(
                    #[trigger] n.purchase_lines[m.purchase_lines.len() + j],
                    ev,
                    lines[j],
                    j,
                )
        }),
    decreases lines.len() - i,
{
    if i < lines.len() {
        let lot = purchased_lot(ev, lines[i]);
        let row = purchase_line(ev, lines[i], i as nat);
        let n = add_purchase_line(add_lot(Ok(k), lot), row)->Ok_0;
        lemma_followed_push(m.lots, k.lots, i, lot);
        lemma_followed_push(m.purchase_lines, k.purchase_lines, i, row);
        lemma_bought(m, n, ev, lines, i + 1);
    }
}

/// A purchase brings one lot and one row for each of its lines.
pub proof fn law_purchases_are_written(m: ReadModel, ev: EventV)
    requires
        purchase_recorded(m, ev) is Ok,
    ensures
        ({
            let n = purchase_recorded(m, ev)->Ok_0;
            let lines = list(ev.payload, "lines"@);
            &&& followed(m.lots, n.lots, lines.len() as int)
            &&& followed(m.purchase_lines, n.purchase_lines, lines.len() as int)
            &&& forall|j: int|
                0 <= j < lines.len() ==> bought(#[trigger] n.lots[m.lots.len() + j], ev, lines[j])
            &&& forall|j: int|
                0 <= j < lines.len() ==> bought_line(
                    #[trigger] n.purchase_lines[m.purchase_lines.len() + j],
                    ev,
                    lines[j],
                    j,
                )
        }),
{
    let n = purchase_recorded(m, ev)->Ok_0;
    let p = ev.payload;
    let lines = list(p, "lines"@);
    let id = txt(p, "purchaseId"@);
    let date = txt(p, "date"@);
    let total = worth(lines, "qty"@, "unitCostMinor"@)->0;
    let a = add_purchase(Ok(m), invoice(ev, id, opt_txt(p, "supplierId"@), total))->Ok_0;
    lemma_followed_start(m.lots);
    lemma_followed_start(m.purchase_lines);
    lemma_bought(m, a, ev, lines, 0);
    let k = purchase_lines_from(a, ev, lines, 0)->Ok_0;
    let o1 = post_role(Ok(k), ev.id, id, 0, "inventory"@, total, 0, date);
    let o2 = post_role(
        o1,
        ev.id,
        id,
        1,
        if on_credit(p) {
            "accounts_payable"@
        } else {
            "bank"@
        },
        0,
        total,
        date,
    );
    assert(n.lots == k.lots && n.purchase_lines == k.purchase_lines);
}

// ---- found and opening stock ----

/// The lot that a line of found or opening stock brings: its units, all of them left, at
/// the cost it gives, acquired when it says.
pub open spec fn brought_in(l: Lot<Text>, ev: EventV, line: JsonV) -> bool {
    &&& l.id == txt(line, "lotId"@)
    &&& l.item_id == txt(line, "itemId"@)
    &&& l.source_event_id == ev.id
    &&& l.purchase_id is None
    &&& l.unit_cost_minor == num(line, "unitCostMinor"@)
    &&& l.qty_received == num(line, "qty"@)
    &&& l.qty_remaining == num(line, "qty"@)
    &&& l.acquired_at == txt(line, "acquiredAt"@)
}

proof fn lemma_opened(m: ReadModel, k: ReadModel, ev: EventV, lots: Seq<JsonV>, i: int)
    requires
        0 <= i <= lots.len(),
        followed(m.lots, k.lots, i),
        forall|j: int|
            0 <= j < i ==> brought_in(#[trigger] k.lots[m.lots.len() + j], ev, lots[j])
                && k.lots[m.lots.len() + j].supplier_id == opt_txt(lots[j], "supplierId"@),
        opening_lots_from(k, ev, lots, i) is Ok,
    ensures
        ({
            let n = opening_lots_from(k, ev, lots, i)->Ok_0;
            &&& followed(m.lots, n.lots, lots.len() as int)
            &&& forall|j: int|
                0 <= j < lots.len() ==> brought_in(
                    #[trigger] n.lots[m.lots.len() + j],
                    ev,
                    lots[j],
                ) && n.lots[m.lots.len() + j].supplier_id == opt_txt(lots[j], "supplierId"@)
        }),
    decreases lots.len() - i,
{
    if i < lots.len() {
        let lot = stocked_lot(ev, lots[i], opt_txt(lots[i], "supplierId"@));
        let n = add_lot(Ok(k), lot)->Ok_0;
        lemma_followed_push(m.lots, k.lots, i, lot);
        lemma_opened(m, n, ev, lots, i + 1);
    }
}

/// Opening stock brings one lot for each that it states, from the supplier it names.
pub proof fn law_openings_are_written(m: ReadModel, ev: EventV)
    requires
        opening_balances(m, ev) is Ok,
    ensures
        ({
            let n = opening_balances(m, ev)->Ok_0;
            let lots = list(ev.payload, "lots"@);
            &&& followed(m.lots, n.lots, lots.len() as int)
            &&& forall|j: int|
                0 <= j < lots.len() ==> brought_in(
                    #[trigger] n.lots[m.lots.len() + j],
                    ev,
                    lots[j],
                ) && n.lots[m.lots.len() + j].supplier_id == opt_txt(lots[j], "supplierId"@)
        }),
{
    let lines = list(ev.payload, "accountBalances"@);
    let date = txt(ev.payload, "date"@);
    keeps_given_lines(m, ev, lines, date, "opening balance"@, 0);
    let k = given_lines_from(m, ev, lines, date, "opening balance"@, 0)->Ok_0;
    lemma_followed_start(m.lots);
    assert(k.lots == m.lots);
    lemma_opened(m, k, ev, list(ev.payload, "lots"@), 0);
}

proof fn lemma_found(m: ReadModel, k: ReadModel, ev: EventV, lines: Seq<JsonV>, i: int)
    requires
        0 <= i <= lines.len(),
        followed(m.lots, k.lots, i),
        forall|j: int|
            0 <= j < i ==> brought_in(#[trigger] k.lots[m.lots.len() + j], ev, lines[j])
                && k.lots[m.lots.len() + j].supplier_id is None,
        found_lines_from(k, ev, lines, i) is Ok,
    ensures
        ({
            let n = found_lines_from(k, ev, lines, i)->Ok_0;
            &&& followed(m.lots, n.lots, lines.len() as int)
            &&& forall|j: int|
                0 <= j < lines.len() ==> brought_in(
                    #[trigger] n.lots[m.lots.len() + j],
                    ev,
                    lines[j],
                ) && n.lots[m.lots.len() + j].supplier_id is None
        }),
    decreases lines.len() - i,
{
    if i < lines.len() {
        let id = txt(ev.payload, "foundId"@);
        let date = txt(ev.payload, "date"@);
        let line = lines[i];
        let value = product(num(line, "qty"@), num(line, "unitCostMinor"@))->0;
        let lot = stocked_lot(ev, line, None);
        let k1 = add_lot(Ok(k), lot)->Ok_0;
        let account = named_or_role(k1, line, "incomeAccountId"@, "inventory_gain"@)->Ok_0;
        let o = post_role(Ok(k1), ev.id, id, (2 * i) as nat, "inventory"@, value, 0, date)->Ok_0;
        let q = post(Ok(o), ev.id, id, (2 * i + 1) as nat, account, 0, value, date, None)->Ok_0;
        lemma_followed_push(m.lots, k.lots, i, lot);
        lemma_found(m, q, ev, lines, i + 1);
    }
}

/// Found stock brings one lot for each of its lines, from nobody.
pub proof fn law_finds_are_written(m: ReadModel, ev: EventV)
    requires
        inventory_found(m, ev) is Ok,
    ensures
        ({
            let n = inventory_found(m, ev)->Ok_0;
            let lines = list(ev.payload, "lines"@);
            &&& followed(m.lots, n.lots, lines.len() as int)
            &&& forall|j: int|
                0 <= j < lines.len() ==> brought_in(
                    #[trigger] n.lots[m.lots.len() + j],
                    ev,
                    lines[j],
                ) && n.lots[m.lots.len() + j].supplier_id is None
        }),
{
    lemma_followed_start(m.lots);
    lemma_found(m, m, ev, list(ev.payload, "lines"@), 0);
}

// ---- sales ----

/// The row of a sale line: item, quantity and price as the line says, what it was sold for
/// and what its parts cost, on the date of the sale.
pub open spec fn sold_line(r: SaleLine<Text>, ev: EventV, line: JsonV, i: int) -> bool {
    &&& r.id == ev.id + "#line#"@ + digits(i as nat)
    &&& r.sale_id == txt(ev.payload, "saleId"@)
    &&& r.item_id == txt(line, "itemId"@)
    &&& r.qty == num(line, "qty"@)
    &&& r.unit_price_minor == num(line, "unitPriceMinor"@)
    &&& r.revenue_minor == num(line, "qty"@) * num(line, "unitPriceMinor"@)
    &&& r.cogs_minor == sum_over(
        list(line, "lotConsumption"@),
        line_worth("qtyTaken"@, "unitCostMinor"@),
    )
    &&& r.date == txt(ev.payload, "date"@)
}

/// The row of a part of a sale line: the lot, the units and the cost that it says.
pub open spec fn sold_part(r: LotConsumption<Text>, ev: EventV, part: JsonV, i: int, j: int) -> bool {
    &&& r.id == ev.id + "#lc#"@ + digits(i as nat) + "#"@ + digits(j as nat)
    &&& r.sale_line_id == ev.id + "#line#"@ + digits(i as nat)
    &&& r.lot_id == txt(part, "lotId"@)
    &&& r.qty_taken == num(part, "qtyTaken"@)
    &&& r.unit_cost_minor == num(part, "unitCostMinor"@)
}

/// How many parts the first `i` lines have.
pub open spec fn parts_in(lines: Seq<JsonV>, key: Text, i: int) -> int
    decreases i,
{
    if i <= 0 {
        0
    } else {
        parts_in(lines, key, i - 1) + list(lines[i - 1], key).len()
    }
}

/// Up to line `i`, every part has its row, in order.
pub open spec fn parts_sold(
    before: Seq<LotConsumption<Text>>,
    after: Seq<LotConsumption<Text>>,
    ev: EventV,
    lines: Seq<JsonV>,
    i: int,
) -> bool {
    forall|x: int, j: int|
        0 <= x < i && 0 <= j < list(lines[x], "lotConsumption"@).len() ==> sold_part(
            after[before.len() + parts_in(lines, "lotConsumption"@, x) + j],
            ev,
            #[trigger] list(lines[x], "lotConsumption"@)[j],
            x,
            j,
        )
}

proof fn lemma_parts_in(lines: Seq<JsonV>, key: Text, x: int, i: int)
    requires
        0 <= x < i,
    ensures
        0 <= parts_in(lines, key, x),
        parts_in(lines, key, x) + list(lines[x], key).len() <= parts_in(lines, key, i),
    decreases i,
{
    if x < i - 1 {
        lemma_parts_in(lines, key, x, i - 1);
    } else {
        lemma_parts_grow(lines, key, x);
    }
}

proof fn lemma_parts_grow(lines: Seq<JsonV>, key: Text, i: int)
    ensures
        0 <= parts_in(lines, key, i),
    decreases i,
{
    if i > 0 {
        lemma_parts_grow(lines, key, i - 1);
    }
}

/// The parts of one line.
proof fn lemma_consumed(
    before: Seq<LotConsumption<Text>>,
    m: ReadModel,
    ev: EventV,
    line: nat,
    parts: Seq<JsonV>,
    j: int,
)
    requires
        0 <= j <= parts.len(),
        followed(before, m.consumptions, j),
        forall|x: int|
            0 <= x < j ==> sold_part(
                #[trigger] m.consumptions[before.len() + x],
                ev,
                parts[x],
                line as int,
                x,
            ),
        consume_from(m, ev, line, parts, j) is Ok,
    ensures
        ({
            let n = consume_from(m, ev, line, parts, j)->Ok_0;
            &&& followed(before, n.consumptions, parts.len() as int)
            &&& forall|x: int|
                0 <= x < parts.len() ==> sold_part(
                    #[trigger] n.consumptions[before.len() + x],
                    ev,
                    parts[x],
                    line as int,
                    x,
                )
            &&& n.sale_lines == m.sale_lines
        }),
    decreases parts.len() - j,
{
    if j < parts.len() {
        let row = consumption(ev, line, parts[j], j as nat);
        let o = add_consumption(Ok(m), row);
        let n = adjust_lot(o, txt(parts[j], "lotId"@), -num(parts[j], "qtyTaken"@))->Ok_0;
        lemma_followed_push(before, m.consumptions, j, row);
        assert(n.consumptions == m.consumptions.push(row));
        assert forall|x: int| 0 <= x < j + 1 implies sold_part(
            #[trigger] n.consumptions[before.len() + x],
            ev,
            parts[x],
            line as int,
            x,
        ) by {
            if x < j {
                assert(n.consumptions[before.len() + x] == m.consumptions[before.len() + x]);
            }
        }
        lemma_consumed(before, n, ev, line, parts, j + 1);
    }
}

proof fn lemma_sold_lines(m: ReadModel, k: ReadModel, ev: EventV, lines: Seq<JsonV>, i: int)
    requires
        0 <= i <= lines.len(),
        followed(m.sale_lines, k.sale_lines, i),
        followed(m.consumptions, k.consumptions, parts_in(lines, "lotConsumption"@, i)),
        forall|j: int|
            0 <= j < i ==> sold_line(
                #[trigger] k.sale_lines[m.sale_lines.len() + j],
                ev,
                lines[j],
                j,
            ),
        parts_sold(m.consumptions, k.consumptions, ev, lines, i),
        sale_lines_from(k, ev, lines, i) is Ok,
    ensures
        ({
            let n = sale_lines_from(k, ev, lines, i)->Ok_0;
            let all = lines.len() as int;
            &&& followed(m.sale_lines, n.sale_lines, all)
            &&& followed(m.consumptions, n.consumptions, parts_in(lines, "lotConsumption"@, all))
            &&& forall|j: int|
                0 <= j < lines.len() ==> sold_line(
                    #[trigger] n.sale_lines[m.sale_lines.len() + j],
                    ev,
                    lines[j],
                    j,
                )
            &&& parts_sold(m.consumptions, n.consumptions, ev, lines, all)
        }),
    decreases lines.len() - i,
{
    if i < lines.len() {
        let key = "lotConsumption"@;
        let parts = list(lines[i], key);
        let row = sold_row(ev, lines[i], i as nat);
        lemma_worth_is_exact(parts, "qtyTaken"@, "unitCostMinor"@);
        let a = add_sale_line(Ok(k), row)->Ok_0;
        let n = sale_line(k, ev, lines[i], i as nat)->Ok_0;
        assert(n == consume_from(a, ev, i as nat, parts, 0)->Ok_0);
        lemma_followed_push(m.sale_lines, k.sale_lines, i, row);
        lemma_followed_start(k.consumptions);
        lemma_consumed(k.consumptions, a, ev, i as nat, parts, 0);
        lemma_parts_grow(lines, key, i);
        assert(n.consumptions.take(m.consumptions.len() as int) =~= m.consumptions) by {
            assert forall|x: int| 0 <= x < m.consumptions.len() implies n.consumptions[x]
                == m.consumptions[x] by {
                assert(n.consumptions.take(k.consumptions.len() as int)[x] == k.consumptions[x]);
                assert(k.consumptions.take(m.consumptions.len() as int)[x] == m.consumptions[x]);
            }
        }
        assert(parts_sold(m.consumptions, n.consumptions, ev, lines, i + 1)) by {
            assert forall|x: int, j: int|
                0 <= x < i + 1 && 0 <= j < list(lines[x], key).len() implies sold_part(
                n.consumptions[m.consumptions.len() + parts_in(lines, key, x) + j],
                ev,
                #[trigger] list(lines[x], key)[j],
                x,
                j,
            ) by {
                let at = m.consumptions.len() + parts_in(lines, key, x) + j;
                if x < i {
                    lemma_parts_in(lines, key, x, i);
                    assert(n.consumptions.take(k.consumptions.len() as int)[at]
                        == k.consumptions[at]);
                } else {
                    assert(at == k.consumptions.len() + j);
                    assert(sold_part(n.consumptions[k.consumptions.len() + j], ev, parts[j], i, j));
                }
            }
        }
        lemma_sold_lines(m, n, ev, lines, i + 1);
    }
}

/// A sale writes one row for each of its lines, and one for each part of each line.
pub proof fn law_sales_are_written(m: ReadModel, ev: EventV)
    requires
        sale_recorded(m, ev) is Ok,
    ensures
        ({
            let n = sale_recorded(m, ev)->Ok_0;
            let lines = list(ev.payload, "lines"@);
            let all = lines.len() as int;
            &&& followed(m.sale_lines, n.sale_lines, all)
            &&& followed(m.consumptions, n.consumptions, parts_in(lines, "lotConsumption"@, all))
            &&& forall|j: int|
                0 <= j < lines.len() ==> sold_line(
                    #[trigger] n.sale_lines[m.sale_lines.len() + j],
                    ev,
                    lines[j],
                    j,
                )
            &&& parts_sold(m.consumptions, n.consumptions, ev, lines, all)
        }),
{
    let n = sale_recorded(m, ev)->Ok_0;
    let p = ev.payload;
    let id = txt(p, "saleId"@);
    let date = txt(p, "date"@);
    let lines = list(p, "lines"@);
    let revenue = worth(lines, "qty"@, "unitPriceMinor"@)->0;
    let cogs = nested_worth(lines, "lotConsumption"@, "qtyTaken"@, "unitCostMinor"@)->0;
    let a = add_sale(Ok(m), invoice(ev, id, opt_txt(p, "customerId"@), revenue))->Ok_0;
    lemma_followed_start(m.sale_lines);
    lemma_followed_start(m.consumptions);
    lemma_sold_lines(m, a, ev, lines, 0);
    let debtor = if on_credit(p) {
        "accounts_receivable"@
    } else {
        "bank"@
    };
    let o = sale_lines(Ok(a), ev, lines);
    let k = o->Ok_0;
    let o = post_role(o, ev.id, id, 0, debtor, revenue, 0, date);
    let o = post_role(o, ev.id, id, 1, "sales"@, 0, revenue, date);
    let o = post_role(o, ev.id, id, 2, "cogs"@, cogs, 0, date);
    let o = post_role(o, ev.id, id, 3, "inventory"@, 0, cogs, date);
    assert(n.sale_lines == k.sale_lines && n.consumptions == k.consumptions);
}

// ---- returns ----

/// The row of a part of a sale return: the lot and the units that came back, at the price
/// of its line and at its own cost.
pub open spec fn came_back(
    r: ReturnLine<Text>,
    ev: EventV,
    line: JsonV,
    part: JsonV,
    at: int,
) -> bool {
    &&& r.id == ev.id + "#line#"@ + digits(at as nat)
    &&& r.return_id == txt(ev.payload, "returnId"@)
    &&& r.item_id == txt(line, "itemId"@)
    &&& r.qty == num(part, "qtyReturned"@)
    &&& r.unit_price_minor == num(line, "unitPriceMinor"@)
    &&& r.unit_cost_minor == num(part, "unitCostMinor"@)
    &&& r.lot_id == txt(part, "lotId"@)
}

proof fn lemma_restocked(
    before: Seq<ReturnLine<Text>>,
    m: ReadModel,
    ev: EventV,
    line: JsonV,
    parts: Seq<JsonV>,
    j: int,
    n: int,
)
    requires
        0 <= j <= parts.len(),
        followed(before, m.return_lines, j),
        forall|x: int|
            0 <= x < j ==> came_back(
                #[trigger] m.return_lines[before.len() + x],
                ev,
                line,
                parts[x],
                n + x,
            ),
        restock_from(m, ev, line, parts, j, n) is Ok,
    ensures
        ({
            let k = restock_from(m, ev, line, parts, j, n)->Ok_0;
            &&& followed(before, k.return_lines, parts.len() as int)
            &&& forall|x: int|
                0 <= x < parts.len() ==> came_back(
                    #[trigger] k.return_lines[before.len() + x],
                    ev,
                    line,
                    parts[x],
                    n + x,
                )
        }),
    decreases parts.len() - j,
{
    if j < parts.len() {
        let part = parts[j];
        let row = ReturnLine {
            id: line_id(ev.id, (n + j) as nat),
            return_id: txt(ev.payload, "returnId"@),
            item_id: txt(line, "itemId"@),
            qty: num(part, "qtyReturned"@),
            unit_price_minor: num(line, "unitPriceMinor"@),
            unit_cost_minor: num(part, "unitCostMinor"@),
            lot_id: txt(part, "lotId"@),
        };
        let o = adjust_lot(Ok(m), txt(part, "lotId"@), num(part, "qtyReturned"@) as int);
        let k = add_return_line(o, row)->Ok_0;
        lemma_followed_push(before, m.return_lines, j, row);
        assert(k.return_lines == m.return_lines.push(row));
        assert forall|x: int| 0 <= x < j + 1 implies came_back(
            #[trigger] k.return_lines[before.len() + x],
            ev,
            line,
            parts[x],
            n + x,
        ) by {
            if x < j {
                assert(k.return_lines[before.len() + x] == m.return_lines[before.len() + x]);
            }
        }
        lemma_restocked(before, k, ev, line, parts, j + 1, n);
    }
}

/// Up to line `i`, every part of a sale return has its row, in order.
pub open spec fn parts_back_written(
    before: Seq<ReturnLine<Text>>,
    after: Seq<ReturnLine<Text>>,
    ev: EventV,
    lines: Seq<JsonV>,
    i: int,
) -> bool {
    forall|x: int, j: int|
        0 <= x < i && 0 <= j < list(lines[x], "lotReturns"@).len() ==> came_back(
            after[before.len() + parts_in(lines, "lotReturns"@, x) + j],
            ev,
            lines[x],
            #[trigger] list(lines[x], "lotReturns"@)[j],
            parts_in(lines, "lotReturns"@, x) + j,
        )
}

proof fn lemma_returned_lines(m: ReadModel, k: ReadModel, ev: EventV, lines: Seq<JsonV>, i: int)
    requires
        0 <= i <= lines.len(),
        followed(m.return_lines, k.return_lines, parts_in(lines, "lotReturns"@, i)),
        parts_back_written(m.return_lines, k.return_lines, ev, lines, i),
        sale_return_lines_from(k, ev, lines, i, parts_in(lines, "lotReturns"@, i)) is Ok,
    ensures
        ({
            let n = sale_return_lines_from(
                k,
                ev,
                lines,
                i,
                parts_in(lines, "lotReturns"@, i),
            )->Ok_0;
            let all = lines.len() as int;
            &&& followed(m.return_lines, n.return_lines, parts_in(lines, "lotReturns"@, all))
            &&& parts_back_written(m.return_lines, n.return_lines, ev, lines, all)
        }),
    decreases lines.len() - i,
{
    if i < lines.len() {
        let key = "lotReturns"@;
        let parts = list(lines[i], key);
        let at0 = parts_in(lines, key, i);
        let n = restock_from(k, ev, lines[i], parts, 0, at0)->Ok_0;
        lemma_followed_start(k.return_lines);
        lemma_restocked(k.return_lines, k, ev, lines[i], parts, 0, at0);
        lemma_parts_grow(lines, key, i);
        assert(n.return_lines.take(m.return_lines.len() as int) =~= m.return_lines) by {
            assert forall|x: int| 0 <= x < m.return_lines.len() implies n.return_lines[x]
                == m.return_lines[x] by {
                assert(n.return_lines.take(k.return_lines.len() as int)[x] == k.return_lines[x]);
                assert(k.return_lines.take(m.return_lines.len() as int)[x] == m.return_lines[x]);
            }
        }
        assert(parts_back_written(m.return_lines, n.return_lines, ev, lines, i + 1)) by {
            assert forall|x: int, j: int|
                0 <= x < i + 1 && 0 <= j < list(lines[x], key).len() implies came_back(
                n.return_lines[m.return_lines.len() + parts_in(lines, key, x) + j],
                ev,
                lines[x],
                #[trigger] list(lines[x], key)[j],
                parts_in(lines, key, x) + j,
            ) by {
                let at = m.return_lines.len() + parts_in(lines, key, x) + j;
                if x < i {
                    lemma_parts_in(lines, key, x, i);
                    assert(n.return_lines.take(k.return_lines.len() as int)[at]
                        == k.return_lines[at]);
                } else {
                    assert(at == k.return_lines.len() + j);
                    assert(came_back(
                        n.return_lines[k.return_lines.len() + j],
                        ev,
                        lines[i],
                        parts[j],
                        at0 + j,
                    ));
                }
            }
        }
        lemma_returned_lines(m, n, ev, lines, i + 1);
    }
}

/// A sale return writes one row for each part of each of its lines.
pub proof fn law_sale_returns_are_written(m: ReadModel, ev: EventV)
    requires
        sale_return(m, ev) is Ok,
    ensures
        ({
            let n = sale_return(m, ev)->Ok_0;
            let lines = list(ev.payload, "lines"@);
            let all = lines.len() as int;
            &&& followed(m.return_lines, n.return_lines, parts_in(lines, "lotReturns"@, all))
            &&& parts_back_written(m.return_lines, n.return_lines, ev, lines, all)
        }),
{
    let n = sale_return(m, ev)->Ok_0;
    let p = ev.payload;
    let id = txt(p, "returnId"@);
    let original = txt(p, "originalSaleId"@);
    let date = txt(p, "date"@);
    let lines = list(p, "lines"@);
    let revenue = worth(lines, "qty"@, "unitPriceMinor"@)->0;
    let cost = nested_worth(lines, "lotReturns"@, "qtyReturned"@, "unitCostMinor"@)->0;
    let row = Return {
        id,
        event_id: ev.id,
        return_type: "sale_return"@,
        original_id: original,
        date,
        revenue_reversed_minor: revenue,
        cost_restored_minor: cost,
    };
    let a = add_return(Ok(m), row)->Ok_0;
    lemma_followed_start(m.return_lines);
    lemma_returned_lines(m, a, ev, lines, 0);
    let o = sale_return_lines(Ok(a), ev, lines);
    let k = o->Ok_0;
    let sale = lookup(m.sales, original)->0;
    let refund = if sale.party_id is Some {
        "accounts_receivable"@
    } else {
        "bank"@
    };
    let o = post_role(o, ev.id, id, 0, "sales"@, revenue, 0, date);
    let o = post_role(o, ev.id, id, 1, refund, 0, revenue, date);
    let o = post_role(o, ev.id, id, 2, "inventory"@, cost, 0, date);
    let o = post_role(o, ev.id, id, 3, "cogs"@, 0, cost, date);
    assert(o->Ok_0.return_lines == k.return_lines);
    assert(n.return_lines == k.return_lines);
}

/// The row of a line of a purchase return.
pub open spec fn went_back(r: ReturnLine<Text>, ev: EventV, line: JsonV, j: int) -> bool {
    &&& r.id == ev.id + "#line#"@ + digits(j as nat)
    &&& r.return_id == txt(ev.payload, "returnId"@)
    &&& r.item_id == txt(line, "itemId"@)
    &&& r.qty == num(line, "qty"@)
    &&& r.unit_price_minor == 0
    &&& r.unit_cost_minor == num(line, "unitCostMinor"@)
    &&& r.lot_id == txt(line, "lotId"@)
}

proof fn lemma_went_back(m: ReadModel, k: ReadModel, ev: EventV, lines: Seq<JsonV>, i: int)
    requires
        0 <= i <= lines.len(),
        followed(m.return_lines, k.return_lines, i),
        forall|j: int|
            0 <= j < i ==> went_back(
                #[trigger] k.return_lines[m.return_lines.len() + j],
                ev,
                lines[j],
                j,
            ),
        purchase_return_lines_from(k, ev, lines, i) is Ok,
    ensures
        ({
            let n = purchase_return_lines_from(k, ev, lines, i)->Ok_0;
            &&& followed(m.return_lines, n.return_lines, lines.len() as int)
            &&& forall|j: int|
                0 <= j < lines.len() ==> went_back(
                    #[trigger] n.return_lines[m.return_lines.len() + j],
                    ev,
                    lines[j],
                    j,
                )
        }),
    decreases lines.len() - i,
{
    if i < lines.len() {
        let line = lines[i];
        let row = ReturnLine {
            id: line_id(ev.id, i as nat),
            return_id: txt(ev.payload, "returnId"@),
            item_id: txt(line, "itemId"@),
            qty: num(line, "qty"@),
            unit_price_minor: 0,
            unit_cost_minor: num(line, "unitCostMinor"@),
            lot_id: txt(line, "lotId"@),
        };
        let o = adjust_lot(Ok(k), txt(line, "lotId"@), -num(line, "qty"@));
        let n = add_return_line(o, row)->Ok_0;
        lemma_followed_push(m.return_lines, k.return_lines, i, row);
        assert(n.return_lines == k.return_lines.push(row));
        assert forall|j: int| 0 <= j < i + 1 implies went_back(
            #[trigger] n.return_lines[m.return_lines.len() + j],
            ev,
            lines[j],
            j,
        ) by {
            if j < i {
                assert(n.return_lines[m.return_lines.len() + j] == k.return_lines[m.return_lines.len()
                    + j]);
            }
        }
        lemma_went_back(m, n, ev, lines, i + 1);
    }
}

/// A purchase return writes one row for each of its lines.
pub proof fn law_purchase_returns_are_written(m: ReadModel, ev: EventV)
    requires
        purchase_return(m, ev) is Ok,
    ensures
        ({
            let n = purchase_return(m, ev)->Ok_0;
            let lines = list(ev.payload, "lines"@);
            &&& followed(m.return_lines, n.return_lines, lines.len() as int)
            &&& forall|j: int|
                0 <= j < lines.len() ==> went_back(
                    #[trigger] n.return_lines[m.return_lines.len() + j],
                    ev,
                    lines[j],
                    j,
                )
        }),
{
    let n = purchase_return(m, ev)->Ok_0;
    let p = ev.payload;
    let id = txt(p, "returnId"@);
    let original = txt(p, "originalPurchaseId"@);
    let date = txt(p, "date"@);
    let lines = list(p, "lines"@);
    let cost = worth(lines, "qty"@, "unitCostMinor"@)->0;
    let row = Return {
        id,
        event_id: ev.id,
        return_type: "purchase_return"@,
        original_id: original,
        date,
        revenue_reversed_minor: 0,
        cost_restored_minor: cost,
    };
    let a = add_return(Ok(m), row)->Ok_0;
    lemma_followed_start(m.return_lines);
    lemma_went_back(m, a, ev, lines, 0);
    let o = purchase_return_lines(Ok(a), ev, lines);
    let k = o->Ok_0;
    let purchase = lookup(m.purchases, original)->0;
    let refund = if purchase.party_id is Some {
        "accounts_payable"@
    } else {
        "bank"@
    };
    let o = post_role(o, ev.id, id, 0, refund, cost, 0, date);
    let o = post_role(o, ev.id, id, 1, "inventory"@, 0, cost, date);
    assert(o->Ok_0.return_lines == k.return_lines);
    assert(n.return_lines == k.return_lines);
}

} // verus!
