//! A granted sale sells what was asked for, out of the oldest lots.

use crate::commands::guards::{available, claim, taken};
use crate::commands::sale::{
    chosen_from, claimed_from, draw_from, holding, line_picks, oldest_first, pick_json, picks_cost,
    quantity_total, sale_line_json, sale_line_request, sale_lines_request, sale_payload,
    sale_request, stock, PickV, SaleLineV,
};
use crate::json::{list, num, txt, JsonV};
use crate::laws::fifo::{
    drawn, drawn_behind, law_claims_stay_within_stock, law_oldest_stock_goes_first, lemma_draw,
    lemma_oldest_first, picked, picked_behind, picked_of, usable,
};
use crate::laws::sales::{
    claimed_fairly, lemma_granted_line, lemma_line_json, lemma_line_picks, lemma_pick_json,
    lemma_picks_taken, lemma_sale_payload, lemma_stock_is_found, lemma_taken_is_positive,
    line_taken, lines_taken,
};
use crate::model::{plus, product, Text};
use crate::rows::{distinct, lemma_place, lookup, Keyed};
use crate::sort::{before, lemma_sorted};
use crate::sums::sum_over;
use crate::tables::{Lot, ReadModel};
use crate::text::{lemma_lex_irreflexive, lex_lt};
use vstd::prelude::*;

verus! {

/// Lot `b` came in before lot `a`; of lots of one day the one with the lesser id.
pub open spec fn came_before(b: Lot<Text>, a: Lot<Text>) -> bool {
    lex_lt(b.acquired_at, a.acquired_at) || (b.acquired_at == a.acquired_at && lex_lt(b.id, a.id))
}

/// Where line `i` of a sale takes units of a lot, every older lot of the item is drained
/// by the lines up to that one.
pub open spec fn older_are_drained(m: ReadModel, lines: Seq<JsonV>, i: int, item: Text) -> bool {
    forall|x: int, y: int|
        0 <= x < m.lots.len() && 0 <= y < m.lots.len() && line_taken(
            lines[i],
            (#[trigger] m.lots[x]).id,
        ) > 0 && (#[trigger] m.lots[y]).item_id == item && m.lots[y].qty_remaining > 0
            && came_before(m.lots[y], m.lots[x]) ==> lines_taken(lines.take(i + 1), m.lots[y].id)
            == m.lots[y].qty_remaining
}

/// The record of a part that a sale takes out of a lot: some units, at the lot's cost, of
/// the item.
pub open spec fn part_out(m: ReadModel, part: JsonV, item: Text) -> bool {
    &&& num(part, "qtyTaken"@) > 0
    &&& lookup(m.lots, txt(part, "lotId"@)) matches Some(l) && l.item_id == item
        && l.unit_cost_minor == num(part, "unitCostMinor"@)
}

/// The record of a sale line: item, quantity and price as asked for, the revenue and the
/// cost that follow, and parts that add up to the quantity; picked lots as asked for.
pub open spec fn line_out(m: ReadModel, line: JsonV, asked: SaleLineV) -> bool {
    let parts = list(line, "lotConsumption"@);
    &&& asked.qty > 0
    &&& asked.unit_price_minor >= 0
    &&& txt(line, "itemId"@) == asked.item_id
    &&& num(line, "qty"@) == asked.qty
    &&& num(line, "unitPriceMinor"@) == asked.unit_price_minor
    &&& num(line, "revenueMinor"@) == asked.qty * asked.unit_price_minor
    &&& num(line, "cogsMinor"@) == sum_over(
        parts,
        |p: JsonV| num(p, "qtyTaken"@) * num(p, "unitCostMinor"@),
    )
    &&& sum_over(parts, |p: JsonV| num(p, "qtyTaken"@) as int) == asked.qty
    &&& forall|j: int| 0 <= j < parts.len() ==> part_out(m, #[trigger] parts[j], asked.item_id)
    &&& asked.lot_picks matches Some(choice) ==> parts.len() == choice.len() && forall|j: int|
        0 <= j < parts.len() ==> txt(#[trigger] parts[j], "lotId"@) == choice[j].0 && num(
            parts[j],
            "qtyTaken"@,
        ) == choice[j].1
}

/// A lot in front of one that is picked is drained.
proof fn lemma_drains(
    m: ReadModel,
    d: Map<Text, i64>,
    lots: Seq<Lot<Text>>,
    item: Text,
    need: i64,
    i: int,
    picks: Seq<PickV>,
    k: int,
    j: int,
)
    requires
        0 <= i <= k < j < lots.len(),
        0 <= need,
        distinct(lots),
        draw_from(m, d, lots, item, need, i, picks) is Ok,
        usable(m, d, lots[k].id) > 0,
        picked_behind(
            draw_from(m, d, lots, item, need, i, picks)->Ok_0,
            lots[j].id,
            picks.len() as int,
        ),
    ensures
        picked_of(
            draw_from(m, d, lots, item, need, i, picks)->Ok_0,
            lots[k].id,
            picks.len() as int,
        ) == usable(m, d, lots[k].id),
    decreases lots.len() - i,
{
    let r = draw_from(m, d, lots, item, need, i, picks)->Ok_0;
    let q = choose|q: int| picks.len() <= q < r.len() && (#[trigger] r[q]).0 == lots[j].id;
    if need == 0 {
        assert(r == picks);
    } else {
        let n = available(m, d, lots[i].id)->Ok_0;
        if n <= 0 {
            lemma_drains(m, d, lots, item, need, i + 1, picks, k, j);
        } else {
            let take = if need <= n {
                need
            } else {
                n
            };
            let next = picks.push((lots[i].id, take, lots[i].unit_cost_minor));
            lemma_draw(m, d, lots, item, (need - take) as i64, i + 1, next);
            assert(r[picks.len() as int] == next[picks.len() as int]);
            assert(lots[i].key() != lots[j].key());
            assert(q != picks.len());
            assert(picked_behind(r, lots[j].id, next.len() as int)) by {
                assert(r[q].0 == lots[j].id);
            }
            if k > i {
                lemma_drains(m, d, lots, item, (need - take) as i64, i + 1, next, k, j);
                assert(lots[i].key() != lots[k].key());
            } else {
                if need - take == 0 {
                    assert(r == next);
                }
                assert(take == n);
                lemma_not_again(m, d, lots, i, r, next.len() as int);
            }
        }
    }
}

/// Picks drawn from later lots take nothing of an earlier one.
proof fn lemma_not_again(
    m: ReadModel,
    d: Map<Text, i64>,
    lots: Seq<Lot<Text>>,
    i: int,
    r: Seq<PickV>,
    n: int,
)
    requires
        0 <= n,
        0 <= i < lots.len(),
        distinct(lots),
        forall|p: int| n <= p < r.len() ==> drawn_behind(m, d, lots, #[trigger] r[p], i + 1),
    ensures
        picked_of(r, lots[i].id, n) == 0,
    decreases r.len() - n,
{
    if n < r.len() {
        lemma_not_again(m, d, lots, i, r, n + 1);
        assert(drawn_behind(m, d, lots, r[n], i + 1));
        let k = choose|k: int| i + 1 <= k < lots.len() && drawn(m, d, #[trigger] lots[k], r[n]);
        assert(lots[i].key() != lots[k].key());
    }
}

/// A lot that picks take units of is among them.
proof fn lemma_is_picked(r: Seq<PickV>, lot: Text, n: int)
    requires
        0 <= n,
        picked_of(r, lot, n) > 0,
    ensures
        picked_behind(r, lot, n),
    decreases r.len() - n,
{
    if n < r.len() && r[n].0 != lot {
        lemma_is_picked(r, lot, n + 1);
        let q = choose|q: int| n + 1 <= q < r.len() && (#[trigger] r[q]).0 == lot;
        assert(r[q].0 == lot);
    }
}

/// Where a lot of the item that holds units stands in order of age.
proof fn lemma_stands_in_line(t: Seq<Lot<Text>>, item: Text, x: int) -> (k: int)
    requires
        0 <= x < t.len(),
        t[x].item_id == item,
        t[x].qty_remaining > 0,
    ensures
        0 <= k < oldest_first(t, item).len(),
        oldest_first(t, item)[k] == t[x],
{
    broadcast use vstd::seq_lib::group_to_multiset_ensures;

    let held = stock(t, item);
    let lots = oldest_first(t, item);
    lemma_sorted(held);
    t.lemma_filter_contains(holding(item), x);
    assert(held.contains(t[x]));
    assert(held.to_multiset().count(t[x]) > 0);
    assert(lots.to_multiset().count(t[x]) > 0);
    assert(lots.contains(t[x]));
    choose|k: int| 0 <= k < lots.len() && lots[k] == t[x]
}

/// What drawing for one line does to an older lot.
proof fn lemma_line_drains(
    m: ReadModel,
    d: Map<Text, i64>,
    l: SaleLineV,
    done: Seq<JsonV>,
    x: int,
    y: int,
)
    requires
        distinct(m.lots),
        claimed_fairly(m, d, done),
        sale_line_request(m, d, l) is Ok,
        l.lot_picks is None,
        0 <= x < m.lots.len(),
        0 <= y < m.lots.len(),
        line_taken(sale_line_request(m, d, l)->Ok_0.json, m.lots[x].id) > 0,
        m.lots[y].item_id == l.item_id,
        m.lots[y].qty_remaining > 0,
        came_before(m.lots[y], m.lots[x]),
    ensures
        lines_taken(done.push(sale_line_request(m, d, l)->Ok_0.json), m.lots[y].id)
            == m.lots[y].qty_remaining,
{
    let g = sale_line_request(m, d, l)->Ok_0;
    let picks = line_picks(m, d, l)->Ok_0;
    let revenue = product(l.qty, l.unit_price_minor)->0;
    let cogs = picks_cost(picks)->0;
    let parts = Seq::new(picks.len(), |k: int| pick_json(picks[k]));
    let lots = oldest_first(m.lots, l.item_id);
    let a = m.lots[x];
    let b = m.lots[y];
    lemma_granted_line(m, d, l, done);
    lemma_line_json(l, revenue, cogs, picks);
    assert(list(g.json, "lotConsumption"@) == parts);
    lemma_picks_taken(picks, a.id, 0);
    assert(parts.take(0) =~= Seq::empty());
    lemma_is_picked(picks, a.id, 0);
    lemma_oldest_first(m.lots, l.item_id);
    lemma_draw(m, d, lots, l.item_id, l.qty, 0, Seq::empty());
    // where the picked lot stands
    let q = choose|q: int| 0 <= q < picks.len() && (#[trigger] picks[q]).0 == a.id;
    assert(drawn_behind(m, d, lots, picks[q], 0));
    let j = choose|j: int| 0 <= j < lots.len() && drawn(m, d, #[trigger] lots[j], picks[q]);
    lemma_stock_is_found(m.lots, l.item_id, j);
    lemma_lot_at(m.lots, x);
    assert(lots[j] == a);
    // where the older one stands
    let k = lemma_stands_in_line(m.lots, l.item_id, y);
    lemma_lot_at(m.lots, y);
    lemma_lex_irreflexive(a.acquired_at);
    lemma_lex_irreflexive(a.id);
    if j < k {
        assert(!before(lots[k], lots[j]));
    }
    assert(k < j);
    law_claims_stay_within_stock(m, d, l.item_id, picks, 0, b.id);
    lemma_line_picks(m, d, l);
    lemma_taken_is_positive(m, picks, b.id, 0);
    assert(claim(d, b.id) == lines_taken(done, b.id));
    assert(lines_taken(done, b.id) >= 0);
    assert(claim(g.demand, b.id) == lines_taken(done.push(g.json), b.id));
    assert(claim(d, b.id) <= b.qty_remaining);
    if usable(m, d, b.id) > 0 {
        assert(picked_behind(picks, lots[j].id, 0));
        lemma_drains(m, d, lots, l.item_id, l.qty, 0, Seq::empty(), k, j);
    }
}

proof fn lemma_lot_at(t: Seq<Lot<Text>>, x: int)
    requires
        distinct(t),
        0 <= x < t.len(),
    ensures
        lookup(t, t[x].id) == Some(t[x]),
{
    assert forall|j: int| 0 <= j < x implies (#[trigger] t[j]).key() != t[x].id by {
        assert(t[j].key() != t[x].key());
    }
    lemma_place(t, t[x].id, x);
}

/// Chosen lots are picked one by one.
proof fn lemma_chosen_exact(m: ReadModel, choice: Seq<(Text, i64)>, i: int, picks: Seq<PickV>)
    requires
        0 <= i <= choice.len(),
        picks.len() == i,
        forall|k: int| 0 <= k < i ==> (#[trigger] picks[k]).0 == choice[k].0 && picks[k].1 == choice[k].1,
        chosen_from(m, choice, i, picks) is Ok,
    ensures
        ({
            let r = chosen_from(m, choice, i, picks)->Ok_0;
            r.len() == choice.len() && forall|k: int|
                0 <= k < r.len() ==> (#[trigger] r[k]).0 == choice[k].0 && r[k].1 == choice[k].1
        }),
    decreases choice.len() - i,
{
    if i < choice.len() {
        let l = lookup(m.lots, choice[i].0)->0;
        lemma_chosen_exact(m, choice, i + 1, picks.push((choice[i].0, choice[i].1, l.unit_cost_minor)));
    }
}

proof fn lemma_choice_total(choice: Seq<(Text, i64)>, picks: Seq<PickV>)
    requires
        picks.len() == choice.len(),
        forall|k: int| 0 <= k < picks.len() ==> (#[trigger] picks[k]).1 == choice[k].1,
    ensures
        quantity_total(choice) matches Some(n) ==> n == picked(picks),
    decreases choice.len(),
{
    if choice.len() > 0 {
        let front = picks.drop_last();
        assert forall|k: int| 0 <= k < front.len() implies (#[trigger] front[k]).1
            == choice.drop_last()[k].1 by {
            assert(front[k] == picks[k]);
        }
        lemma_choice_total(choice.drop_last(), front);
        assert(picks[picks.len() - 1].1 == choice[choice.len() - 1].1);
        let f = |p: PickV| p.1 as int;
        assert(sum_over(picks, f) == sum_over(front, f) + f(picks.last()));
    }
}

/// What the records of picks add up to.
proof fn lemma_parts_total(picks: Seq<PickV>, parts: Seq<JsonV>)
    requires
        parts.len() == picks.len(),
        forall|k: int| 0 <= k < parts.len() ==> #[trigger] parts[k] == pick_json(picks[k]),
    ensures
        sum_over(parts, |p: JsonV| num(p, "qtyTaken"@) as int) == picked(picks),
        picks_cost(picks) matches Some(c) ==> c == sum_over(
            parts,
            |p: JsonV| num(p, "qtyTaken"@) * num(p, "unitCostMinor"@),
        ),
    decreases picks.len(),
{
    if picks.len() > 0 {
        let front = picks.drop_last();
        let back = parts.drop_last();
        assert forall|k: int| 0 <= k < back.len() implies #[trigger] back[k] == pick_json(
            front[k],
        ) by {
            assert(back[k] == parts[k]);
        }
        lemma_parts_total(front, back);
        lemma_pick_json(picks.last());
        assert(parts[parts.len() - 1] == pick_json(picks[picks.len() - 1]));
        let f = |p: PickV| p.1 as int;
        let g = |p: JsonV| num(p, "qtyTaken"@) as int;
        let h = |p: JsonV| num(p, "qtyTaken"@) * num(p, "unitCostMinor"@);
        assert(sum_over(picks, f) == sum_over(front, f) + f(picks.last()));
        assert(sum_over(parts, g) == sum_over(back, g) + g(parts.last()));
        assert(sum_over(parts, h) == sum_over(back, h) + h(parts.last()));
    }
}

/// Claimed picks are of lots of the item.
proof fn lemma_picks_of_item(
    m: ReadModel,
    d: Map<Text, i64>,
    item: Text,
    picks: Seq<PickV>,
    i: int,
)
    requires
        0 <= i,
        claimed_from(m, d, item, picks, i) is Ok,
    ensures
        forall|k: int|
            i <= k < picks.len() ==> (lookup(m.lots, (#[trigger] picks[k]).0) matches Some(l)
                && l.item_id == item),
    decreases picks.len() - i,
{
    if i < picks.len() {
        lemma_picks_of_item(m, taken(m, d, picks[i].0, picks[i].1)->Ok_0, item, picks, i + 1);
    }
}

proof fn lemma_line_out_json(l: SaleLineV, revenue: i64, cogs: i64, picks: Seq<PickV>)
    ensures
        txt(sale_line_json(l, revenue, cogs, picks), "itemId"@) == l.item_id,
        num(sale_line_json(l, revenue, cogs, picks), "revenueMinor"@) == revenue,
        num(sale_line_json(l, revenue, cogs, picks), "cogsMinor"@) == cogs,
{
    reveal_strlit("itemId");
    reveal_strlit("qty");
    reveal_strlit("unitPriceMinor");
    reveal_strlit("revenueMinor");
    reveal_strlit("cogsMinor");
    reveal_strlit("lotConsumption");
    assert("lotConsumption"@[0] == 'l');
    assert("unitPriceMinor"@[0] == 'u');
    assert("itemId"@.len() == 6);
    assert("qty"@.len() == 3);
    assert("revenueMinor"@.len() == 12);
    assert("cogsMinor"@.len() == 9);
    assert("lotConsumption"@.len() == 14);
    assert("unitPriceMinor"@.len() == 14);
}

/// The record of a granted line.
proof fn lemma_line_out(m: ReadModel, d: Map<Text, i64>, l: SaleLineV)
    requires
        distinct(m.lots),
        sale_line_request(m, d, l) is Ok,
    ensures
        line_out(m, sale_line_request(m, d, l)->Ok_0.json, l),
        sale_line_request(m, d, l)->Ok_0.revenue == l.qty * l.unit_price_minor,
{
    let g = sale_line_request(m, d, l)->Ok_0;
    let picks = line_picks(m, d, l)->Ok_0;
    let revenue = product(l.qty, l.unit_price_minor)->0;
    let cogs = picks_cost(picks)->0;
    let parts = Seq::new(picks.len(), |k: int| pick_json(picks[k]));
    lemma_line_json(l, revenue, cogs, picks);
    lemma_line_out_json(l, revenue, cogs, picks);
    assert(list(g.json, "lotConsumption"@) == parts);
    lemma_parts_total(picks, parts);
    lemma_line_picks(m, d, l);
    lemma_picks_of_item(m, d, l.item_id, picks, 0);
    assert forall|j: int| 0 <= j < parts.len() implies part_out(
        m,
        #[trigger] parts[j],
        l.item_id,
    ) by {
        lemma_pick_json(picks[j]);
        assert(picks[j].1 > 0);
    }
    match l.lot_picks {
        Some(choice) => {
            lemma_chosen_exact(m, choice, 0, Seq::empty());
            lemma_choice_total(choice, picks);
            assert forall|j: int| 0 <= j < parts.len() implies txt(
                #[trigger] parts[j],
                "lotId"@,
            ) == choice[j].0 && num(parts[j], "qtyTaken"@) == choice[j].1 by {
                lemma_pick_json(picks[j]);
            }
        },
        None => {
            law_oldest_stock_goes_first(m, d, l.item_id, l.qty);
        },
    }
}

/// The lines of a sale that were looked at so far.
spec fn lines_out(m: ReadModel, lines: Seq<SaleLineV>, done: Seq<JsonV>) -> bool {
    forall|k: int|
        0 <= k < done.len() ==> line_out(m, #[trigger] done[k], lines[k]) && (lines[k].lot_picks is None
            ==> older_are_drained(m, done, k, lines[k].item_id))
}

proof fn lemma_lines_out(
    m: ReadModel,
    lines: Seq<SaleLineV>,
    i: int,
    d: Map<Text, i64>,
    done: Seq<JsonV>,
    total: i64,
)
    requires
        0 <= i <= lines.len(),
        done.len() == i,
        distinct(m.lots),
        claimed_fairly(m, d, done),
        lines_out(m, lines, done),
        total == sum_over(lines.take(i), |l: SaleLineV| l.qty * l.unit_price_minor),
        sale_lines_request(m, lines, i, d, done, total) is Ok,
    ensures
        ({
            let r = sale_lines_request(m, lines, i, d, done, total)->Ok_0;
            &&& r.0.len() == lines.len()
            &&& lines_out(m, lines, r.0)
            &&& r.1 == sum_over(lines, |l: SaleLineV| l.qty * l.unit_price_minor)
        }),
    decreases lines.len() - i,
{
    if i < lines.len() {
        let g = sale_line_request(m, d, lines[i])->Ok_0;
        let next = done.push(g.json);
        let sum = plus(Some(total), Some(g.revenue))->0;
        lemma_granted_line(m, d, lines[i], done);
        lemma_line_out(m, d, lines[i]);
        let f = |l: SaleLineV| l.qty * l.unit_price_minor;
        assert(lines.take(i + 1).drop_last() =~= lines.take(i));
        assert(sum_over(lines.take(i + 1), f) == sum_over(lines.take(i), f) + f(lines[i]));
        assert(lines_out(m, lines, next)) by {
            assert forall|k: int| 0 <= k < next.len() implies line_out(
                m,
                #[trigger] next[k],
                lines[k],
            ) && (lines[k].lot_picks is None ==> older_are_drained(
                m,
                next,
                k,
                lines[k].item_id,
            )) by {
                if k < i {
                    assert(next[k] == done[k]);
                    assert(next.take(k + 1) =~= done.take(k + 1));
                } else if lines[k].lot_picks is None {
                    assert(next.take(k + 1) =~= next);
                    assert forall|x: int, y: int|
                        0 <= x < m.lots.len() && 0 <= y < m.lots.len() && line_taken(
                            next[k],
                            (#[trigger] m.lots[x]).id,
                        ) > 0 && (#[trigger] m.lots[y]).item_id == lines[k].item_id
                            && m.lots[y].qty_remaining > 0 && came_before(m.lots[y], m.lots[x]) implies lines_taken(
                    next.take(k + 1), m.lots[y].id) == m.lots[y].qty_remaining by {
                        lemma_line_drains(m, d, lines[i], done, x, y);
                    }
                }
            }
        }
        lemma_lines_out(m, lines, i + 1, g.demand, next, sum);
    } else {
        assert(lines.take(i) =~= lines);
    }
}

/// A granted sale records, line by line, what was asked for: its parts add up to the
/// quantity, each out of a lot of the item at that lot's cost; revenue is quantity times
/// price and cost is what the parts cost; lots that were picked are those that were asked
/// for. Where no lots were picked, a lot is touched only once every lot of the item that
/// came in before it is drained.
pub proof fn law_granted_sales_sell_the_oldest(
    m: ReadModel,
    id: Text,
    customer: Text,
    date: Text,
    terms: Text,
    lines: Seq<SaleLineV>,
)
    requires
        distinct(m.lots),
        sale_request(m, id, customer, date, terms, lines) is Ok,
    ensures
        ({
            let p = sale_request(m, id, customer, date, terms, lines)->Ok_0;
            let r = list(p, "lines"@);
            &&& txt(p, "saleId"@) == id
            &&& txt(p, "customerId"@) == customer
            &&& txt(p, "date"@) == date
            &&& txt(p, "terms"@) == terms
            &&& num(p, "totalMinor"@) == sum_over(
                lines,
                |l: SaleLineV| l.qty * l.unit_price_minor,
            )
            &&& r.len() == lines.len()
            &&& lines.len() > 0
            &&& forall|i: int| 0 <= i < r.len() ==> line_out(m, #[trigger] r[i], lines[i])
            &&& forall|i: int|
                0 <= i < r.len() && (#[trigger] lines[i]).lot_picks is None ==> older_are_drained(
                    m,
                    r,
                    i,
                    lines[i].item_id,
                )
        }),
{
    assert(claimed_fairly(m, Map::empty(), Seq::empty()));
    assert(lines.take(0) =~= Seq::empty());
    lemma_lines_out(m, lines, 0, Map::empty(), Seq::empty(), 0);
    let p = sale_request(m, id, customer, date, terms, lines)->Ok_0;
    let done = sale_lines_request(m, lines, 0, Map::empty(), Seq::empty(), 0)->Ok_0;
    lemma_sale_payload(id, customer, date, terms, done.1, done.0);
    lemma_sale_payload_heads(id, customer, date, terms, done.1, done.0);
    assert(list(p, "lines"@) == done.0);
    assert forall|i: int| 0 <= i < done.0.len() && (#[trigger] lines[i]).lot_picks is None implies older_are_drained(
    m, done.0, i, lines[i].item_id) by {
        assert(line_out(m, done.0[i], lines[i]));
    }
}

proof fn lemma_sale_payload_heads(
    id: Text,
    customer: Text,
    date: Text,
    terms: Text,
    total: i64,
    lines: Seq<JsonV>,
)
    ensures
        ({
            let p = sale_payload(id, customer, date, terms, total, lines);
            &&& txt(p, "saleId"@) == id
            &&& txt(p, "customerId"@) == customer
            &&& txt(p, "date"@) == date
            &&& txt(p, "terms"@) == terms
            &&& num(p, "totalMinor"@) == total
        }),
{
    reveal_strlit("saleId");
    reveal_strlit("customerId");
    reveal_strlit("date");
    reveal_strlit("terms");
    reveal_strlit("totalMinor");
    reveal_strlit("lines");
    assert("lines"@[0] == 'l');
    assert("terms"@[0] == 't');
    assert("customerId"@[0] == 'c');
    assert("totalMinor"@[0] == 't');
    assert("saleId"@.len() == 6);
    assert("date"@.len() == 4);
    assert("customerId"@.len() == 10);
    assert("totalMinor"@.len() == 10);
    assert("lines"@.len() == 5);
    assert("terms"@.len() == 5);
}

} // verus!
