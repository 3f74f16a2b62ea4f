//! What a granted sale return takes back: at the price the sale had, at the cost of the
//! lot.

use crate::commands::sale::{
    lot_return_json, lot_return_request, lot_returns_request, prices, return_line_json,
    return_line_request, return_lines_request, sale_return_request, sold_price, ReturnState,
    SaleReturnV,
};
use crate::json::{list, num, txt, JsonV};
use crate::model::{consumed_by, Text};
use crate::rows::lookup;
use crate::sums::sum_over;
use crate::tables::ReadModel;
use vstd::prelude::*;

verus! {

/// Consumption row `k` says that a line of the sale took units of the lot, at the price.
pub open spec fn sold_at(m: ReadModel, k: int, sale: Text, lot: Text, price: i64) -> bool {
    &&& 0 <= k < m.consumptions.len()
    &&& m.consumptions[k].lot_id == lot
    &&& lookup(m.sale_lines, m.consumptions[k].sale_line_id) matches Some(l) && l.sale_id == sale
        && l.unit_price_minor == price
}

/// A line of the sale took units of the lot at the price, and none took any at another.
pub open spec fn only_price(m: ReadModel, sale: Text, lot: Text, price: i64) -> bool {
    &&& exists|k: int| #[trigger] sold_at(m, k, sale, lot, price)
    &&& forall|k: int, other: i64| #[trigger]
        sold_at(m, k, sale, lot, other) ==> other == price
}

/// The record of a returned part: its lot and units as asked for, at the lot's cost.
pub open spec fn part_back(m: ReadModel, part: JsonV, asked: (Text, i64)) -> bool {
    &&& asked.1 > 0
    &&& txt(part, "lotId"@) == asked.0
    &&& num(part, "qtyReturned"@) == asked.1
    &&& lookup(m.lots, asked.0) matches Some(l) && num(part, "unitCostMinor"@) == l.unit_cost_minor
}

/// The record of a return line: item and lots as asked for, all units together, and the
/// one price at which the sale sold out of every one of the lots.
pub open spec fn line_back(m: ReadModel, sale: Text, line: JsonV, asked: SaleReturnV) -> bool {
    let parts = list(line, "lotReturns"@);
    &&& txt(line, "itemId"@) == asked.item_id
    &&& num(line, "qty"@) == sum_over(asked.lot_returns, |p: (Text, i64)| p.1 as int)
    &&& parts.len() == asked.lot_returns.len()
    &&& parts.len() > 0
    &&& forall|j: int|
        0 <= j < parts.len() ==> part_back(m, #[trigger] parts[j], asked.lot_returns[j])
            && only_price(m, sale, asked.lot_returns[j].0, num(line, "unitPriceMinor"@)) && (
        lookup(m.lots, asked.lot_returns[j].0) matches Some(l) && l.item_id == asked.item_id)
}

/// The prices found are those at which the sale sold out of the lot.
proof fn lemma_prices(m: ReadModel, sale: Text, lot: Text, n: int)
    requires
        0 <= n <= m.consumptions.len(),
    ensures
        forall|k: int, p: i64|
            k < n && #[trigger] sold_at(m, k, sale, lot, p) ==> prices(m, sale, lot, n).contains(p),
        forall|p: i64| #[trigger]
            prices(m, sale, lot, n).contains(p) ==> exists|k: int| #[trigger]
                sold_at(m, k, sale, lot, p),
    decreases n,
{
    if n > 0 {
        lemma_prices(m, sale, lot, n - 1);
        let before = prices(m, sale, lot, n - 1);
        let after = prices(m, sale, lot, n);
        let c = m.consumptions[n - 1];
        if c.lot_id == lot && consumed_by(m, c, sale) {
            let price = lookup(m.sale_lines, c.sale_line_id)->0.unit_price_minor;
            assert(sold_at(m, n - 1, sale, lot, price));
            assert(after.contains(price)) by {
                if !before.contains(price) {
                    assert(after[before.len() as int] == price);
                }
            }
        }
        assert forall|p: i64| before.contains(p) implies #[trigger] after.contains(p) by {
            let i = choose|i: int| 0 <= i < before.len() && before[i] == p;
            assert(after[i] == p);
        }
        assert forall|p: i64| #[trigger] after.contains(p) implies exists|k: int| #[trigger]
            sold_at(m, k, sale, lot, p) by {
            if !before.contains(p) {
                let i = choose|i: int| 0 <= i < after.len() && after[i] == p;
                if i < before.len() {
                    assert(before[i] == p);
                }
                assert(sold_at(m, n - 1, sale, lot, p));
            }
        }
        assert forall|k: int, p: i64| k < n && #[trigger] sold_at(m, k, sale, lot, p) implies after.contains(
            p,
        ) by {
            if k < n - 1 {
                assert(before.contains(p));
            }
        }
    }
}

proof fn lemma_sold_price(m: ReadModel, sale: Text, lot: Text)
    ensures
        sold_price(m, sale, lot) matches Ok(p) ==> only_price(m, sale, lot, p),
{
    let n = m.consumptions.len() as int;
    let ps = prices(m, sale, lot, n);
    lemma_prices(m, sale, lot, n);
    if ps.len() == 1 {
        assert(ps.contains(ps[0]));
        assert forall|k: int, other: i64| #[trigger] sold_at(m, k, sale, lot, other) implies other
            == ps[0] by {
            assert(ps.contains(other));
            let i = choose|i: int| 0 <= i < ps.len() && ps[i] == other;
        }
    }
}

proof fn lemma_part_json(lot: Text, qty: i64, cost: i64)
    ensures
        txt(lot_return_json(lot, qty, cost), "lotId"@) == lot,
        num(lot_return_json(lot, qty, cost), "qtyReturned"@) == qty,
        num(lot_return_json(lot, qty, cost), "unitCostMinor"@) == cost,
{
    reveal_strlit("lotId");
    reveal_strlit("qtyReturned");
    reveal_strlit("unitCostMinor");
    assert("lotId"@.len() == 5);
    assert("qtyReturned"@.len() == 11);
    assert("unitCostMinor"@.len() == 13);
}

proof fn lemma_line_back_json(item: Text, s: ReturnState)
    ensures
        txt(return_line_json(item, s), "itemId"@) == item,
        num(return_line_json(item, s), "qty"@) == s.qty,
        num(return_line_json(item, s), "unitPriceMinor"@) == s.price->0,
        list(return_line_json(item, s), "lotReturns"@) == s.done,
{
    reveal_strlit("itemId");
    reveal_strlit("qty");
    reveal_strlit("unitPriceMinor");
    reveal_strlit("lotReturns");
    assert("itemId"@.len() == 6);
    assert("qty"@.len() == 3);
    assert("unitPriceMinor"@.len() == 14);
    assert("lotReturns"@.len() == 10);
}

/// The first parts of a return line, as far as they were looked at.
spec fn parts_back(
    m: ReadModel,
    sale: Text,
    item: Text,
    asked: Seq<(Text, i64)>,
    n: int,
    s: ReturnState,
) -> bool {
    &&& s.done.len() == n
    &&& s.qty == sum_over(asked.take(n), |p: (Text, i64)| p.1 as int)
    &&& n > 0 ==> s.price is Some
    &&& forall|j: int|
        0 <= j < n ==> part_back(m, #[trigger] s.done[j], asked[j]) && only_price(
            m,
            sale,
            asked[j].0,
            s.price->0,
        ) && (lookup(m.lots, asked[j].0) matches Some(l) && l.item_id == item)
}

proof fn lemma_parts_back(
    m: ReadModel,
    sale: Text,
    item: Text,
    asked: Seq<(Text, i64)>,
    n: int,
    s: ReturnState,
)
    requires
        0 <= n <= asked.len(),
        parts_back(m, sale, item, asked, n, s),
        lot_returns_request(m, sale, item, asked, n, s) is Ok,
    ensures
        parts_back(
            m,
            sale,
            item,
            asked,
            asked.len() as int,
            lot_returns_request(m, sale, item, asked, n, s)->Ok_0,
        ),
    decreases asked.len() - n,
{
    if n < asked.len() {
        let part = asked[n];
        let t = lot_return_request(m, sale, item, part, s)->Ok_0;
        lemma_sold_price(m, sale, part.0);
        lemma_part_json(part.0, part.1, lookup(m.lots, part.0)->0.unit_cost_minor);
        assert(asked.take(n + 1).drop_last() =~= asked.take(n));
        assert(asked.take(n + 1).last() == part);
        assert(parts_back(m, sale, item, asked, n + 1, t)) by {
            assert forall|j: int| 0 <= j < n + 1 implies part_back(
                m,
                #[trigger] t.done[j],
                asked[j],
            ) && only_price(m, sale, asked[j].0, t.price->0) && (lookup(
                m.lots,
                asked[j].0,
            ) matches Some(l) && l.item_id == item) by {
                if j < n {
                    assert(t.done[j] == s.done[j]);
                }
            }
        }
        lemma_parts_back(m, sale, item, asked, n + 1, t);
    }
}

proof fn lemma_lines_back(
    m: ReadModel,
    sale: Text,
    lines: Seq<SaleReturnV>,
    i: int,
    d: Map<Text, i64>,
    done: Seq<JsonV>,
)
    requires
        0 <= i <= lines.len(),
        done.len() == i,
        forall|k: int| 0 <= k < i ==> line_back(m, sale, #[trigger] done[k], lines[k]),
        return_lines_request(m, sale, lines, i, d, done) is Ok,
    ensures
        ({
            let r = return_lines_request(m, sale, lines, i, d, done)->Ok_0;
            r.len() == lines.len() && forall|k: int|
                0 <= k < r.len() ==> line_back(m, sale, #[trigger] r[k], lines[k])
        }),
    decreases lines.len() - i,
{
    if i < lines.len() {
        let asked = lines[i].lot_returns;
        let item = lines[i].item_id;
        let s0 = ReturnState { demand: d, qty: 0, price: None, done: Seq::empty() };
        let s = return_line_request(m, sale, lines[i], d)->Ok_0;
        assert(asked.take(0) =~= Seq::empty());
        lemma_parts_back(m, sale, item, asked, 0, s0);
        lemma_line_back_json(item, s);
        assert(asked.take(asked.len() as int) =~= asked);
        let next = done.push(return_line_json(item, s));
        assert forall|k: int| 0 <= k < i + 1 implies line_back(
            m,
            sale,
            #[trigger] next[k],
            lines[k],
        ) by {
            if k < i {
                assert(next[k] == done[k]);
            }
        }
        lemma_lines_back(m, sale, lines, i + 1, s.demand, next);
    }
}

/// A granted sale return gives back, of a sale that is not reversed, what was asked for
/// line by line: every line at the one price at which lines of that sale sold out of
/// every one of its lots, every part at the cost of its lot.
pub proof fn law_returns_are_at_the_price_of_the_sale(
    m: ReadModel,
    id: Text,
    original: Text,
    date: Text,
    lines: Seq<SaleReturnV>,
)
    requires
        sale_return_request(m, id, original, date, lines) is Ok,
    ensures
        ({
            let p = sale_return_request(m, id, original, date, lines)->Ok_0;
            let r = list(p, "lines"@);
            &&& txt(p, "returnId"@) == id
            &&& txt(p, "originalSaleId"@) == original
            &&& txt(p, "date"@) == date
            &&& r.len() == lines.len()
            &&& lines.len() > 0
            &&& forall|i: int|
                0 <= i < r.len() ==> line_back(m, original, #[trigger] r[i], lines[i])
        }),
{
    lemma_lines_back(m, original, lines, 0, Map::empty(), Seq::empty());
    reveal_strlit("returnId");
    reveal_strlit("originalSaleId");
    reveal_strlit("date");
    reveal_strlit("lines");
    assert("returnId"@.len() == 8);
    assert("originalSaleId"@.len() == 14);
    assert("date"@.len() == 4);
    assert("lines"@.len() == 5);
}

} // verus!
