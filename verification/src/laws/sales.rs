//! A sale that is granted takes what is there, at what it cost.

use crate::commands::Refusal;
use crate::commands::guards::claim;
use crate::commands::sale::{
    chosen_from, holding, line_picks, oldest_first, pick_json, picks_cost, sale_line_json,
    sale_line_request, sale_lines_request, sale_payload, sale_request, stock, PickV, SaleLineV,
};
use crate::events::EventV;
use crate::json::{list, num, opt_txt, txt, JsonV};
use crate::laws::fifo::{
    drawn, drawn_behind, law_claims_stay_within_stock, law_oldest_stock_goes_first, picked_of,
    within_stock,
};
use crate::laws::stock::{cost_of, lines_at_cost, parts_at_cost};
use crate::model::{
    add_consumption, add_sale, add_sale_line, adjust_lot, consume_from, consumption, invoice,
    line_id, plus, product, sale_line, sale_lines, sale_lines_from, sale_recorded, worth, Text,
};
use crate::reconciliation::in_bounds;
use crate::rows::{distinct, lemma_has, lemma_place, lookup, Keyed};
use crate::sort::lemma_sorted;
use crate::sums::sum_over;
use crate::tables::{Lot, ReadModel, SaleLine};
use vstd::prelude::*;

verus! {

/// Every pick takes units, at the unit cost of a lot that exists.
pub open spec fn sound_picks(m: ReadModel, picks: Seq<PickV>) -> bool {
    forall|p: int|
        0 <= p < picks.len() ==> (#[trigger] picks[p]).1 > 0 && cost_of(m.lots, picks[p].0) == Some(
            picks[p].2,
        )
}

proof fn lemma_chosen(m: ReadModel, choice: Seq<(Text, i64)>, i: int, picks: Seq<PickV>)
    requires
        0 <= i,
        sound_picks(m, picks),
    ensures
        chosen_from(m, choice, i, picks) matches Ok(r) ==> sound_picks(m, r),
    decreases choice.len() - i,
{
    if i < choice.len() && choice[i].1 > 0 {
        if let Some(l) = lookup(m.lots, choice[i].0) {
            let next = picks.push((choice[i].0, choice[i].1, l.unit_cost_minor));
            assert(sound_picks(m, next));
            lemma_chosen(m, choice, i + 1, next);
        }
    }
}

/// The lots of an item are found by their ids.
pub proof fn lemma_stock_is_found(t: Seq<Lot<Text>>, item: Text, k: int)
    requires
        distinct(t),
        0 <= k < oldest_first(t, item).len(),
    ensures
        lookup(t, oldest_first(t, item)[k].id) == Some(oldest_first(t, item)[k]),
{
    broadcast use vstd::seq_lib::group_to_multiset_ensures;

    let held = stock(t, item);
    let lots = oldest_first(t, item);
    lemma_sorted(held);
    assert(lots.contains(lots[k]));
    assert(lots.to_multiset().count(lots[k]) > 0);
    assert(held.contains(lots[k]));
    t.lemma_filter_contains_rev(holding(item), lots[k]);
    let i = choose|i: int| 0 <= i < t.len() && t[i] == lots[k];
    assert forall|j: int| 0 <= j < i implies (#[trigger] t[j]).key() != lots[k].id by {
        assert(t[j].key() != t[i].key());
    }
    lemma_place(t, lots[k].id, i);
}

/// However the lots of a line are picked, the picks are sound.
pub proof fn lemma_line_picks(m: ReadModel, d: Map<Text, i64>, l: SaleLineV)
    requires
        distinct(m.lots),
        l.qty > 0,
    ensures
        line_picks(m, d, l) matches Ok(r) ==> sound_picks(m, r),
{
    match l.lot_picks {
        Some(choice) => {
            lemma_chosen(m, choice, 0, Seq::empty());
        },
        None => {
            let lots = oldest_first(m.lots, l.item_id);
            if line_picks(m, d, l) is Ok {
                law_oldest_stock_goes_first(m, d, l.item_id, l.qty);
                let r = line_picks(m, d, l)->Ok_0;
                assert forall|p: int| 0 <= p < r.len() implies (#[trigger] r[p]).1 > 0 && cost_of(
                    m.lots,
                    r[p].0,
                ) == Some(r[p].2) by {
                    assert(drawn_behind(m, d, lots, r[p], 0));
                    let k = choose|k: int| 0 <= k < lots.len() && drawn(m, d, #[trigger] lots[k], r[p]);
                    lemma_stock_is_found(m.lots, l.item_id, k);
                }
            }
        },
    }
}

/// How many units of a lot a part takes.
pub open spec fn part_taken(p: JsonV, lot: Text) -> int {
    if txt(p, "lotId"@) == lot {
        num(p, "qtyTaken"@) as int
    } else {
        0
    }
}

/// How many units of a lot parts take.
pub open spec fn parts_taken(parts: Seq<JsonV>, lot: Text) -> int {
    sum_over(parts, |p: JsonV| part_taken(p, lot))
}

/// How many units of a lot a line of a sale takes.
pub open spec fn line_taken(l: JsonV, lot: Text) -> int {
    parts_taken(list(l, "lotConsumption"@), lot)
}

/// How many units of a lot the lines of a sale take.
pub open spec fn lines_taken(lines: Seq<JsonV>, lot: Text) -> int {
    sum_over(lines, |l: JsonV| line_taken(l, lot))
}

/// What the record of a pick says.
pub proof fn lemma_pick_json(p: PickV)
    ensures
        txt(pick_json(p), "lotId"@) == p.0,
        num(pick_json(p), "qtyTaken"@) == p.1,
        num(pick_json(p), "unitCostMinor"@) == p.2,
{
    reveal_strlit("lotId");
    reveal_strlit("qtyTaken");
    reveal_strlit("unitCostMinor");
    assert("lotId"@.len() == 5);
    assert("qtyTaken"@.len() == 8);
    assert("unitCostMinor"@.len() == 13);
}

/// What the record of a line says of its quantity, its price and its lots.
pub proof fn lemma_line_json(l: SaleLineV, revenue: i64, cogs: i64, picks: Seq<PickV>)
    ensures
        num(sale_line_json(l, revenue, cogs, picks), "qty"@) == l.qty,
        num(sale_line_json(l, revenue, cogs, picks), "unitPriceMinor"@) == l.unit_price_minor,
        list(sale_line_json(l, revenue, cogs, picks), "lotConsumption"@) == Seq::new(
            picks.len(),
            |i: int| pick_json(picks[i]),
        ),
{
    reveal_strlit("itemId");
    reveal_strlit("qty");
    reveal_strlit("unitPriceMinor");
    reveal_strlit("revenueMinor");
    reveal_strlit("cogsMinor");
    reveal_strlit("lotConsumption");
    assert("lotConsumption"@[0] == 'l');
    assert("unitPriceMinor"@[0] == 'u');
    assert("itemId"@.len() == 6);
    assert("qty"@.len() == 3);
    assert("revenueMinor"@.len() == 12);
    assert("cogsMinor"@.len() == 9);
}

/// What the payload of a sale says of its lines.
pub proof fn lemma_sale_payload(
    id: Text,
    customer: Text,
    date: Text,
    terms: Text,
    total: i64,
    lines: Seq<JsonV>,
)
    ensures
        list(sale_payload(id, customer, date, terms, total, lines), "lines"@) == lines,
{
    reveal_strlit("saleId");
    reveal_strlit("customerId");
    reveal_strlit("date");
    reveal_strlit("terms");
    reveal_strlit("totalMinor");
    reveal_strlit("lines");
    assert("lines"@[0] == 'l');
    assert("terms"@[0] == 't');
    assert("saleId"@.len() == 6);
    assert("customerId"@.len() == 10);
    assert("date"@.len() == 4);
    assert("totalMinor"@.len() == 10);
}

/// What picks take of a lot and what their records take are the same.
pub proof fn lemma_picks_taken(picks: Seq<PickV>, lot: Text, i: int)
    requires
        0 <= i <= picks.len(),
    ensures
        ({
            let parts = Seq::new(picks.len(), |k: int| pick_json(picks[k]));
            picked_of(picks, lot, i) == parts_taken(parts, lot) - parts_taken(parts.take(i), lot)
        }),
    decreases picks.len() - i,
{
    let parts = Seq::new(picks.len(), |k: int| pick_json(picks[k]));
    let f = |p: JsonV| part_taken(p, lot);
    if i < picks.len() {
        lemma_picks_taken(picks, lot, i + 1);
        assert(parts.take(i + 1).drop_last() =~= parts.take(i));
        assert(parts.take(i + 1).last() == pick_json(picks[i]));
        assert(sum_over(parts.take(i + 1), f) == sum_over(parts.take(i), f) + f(
            pick_json(picks[i]),
        ));
        lemma_pick_json(picks[i]);
    } else {
        assert(parts.take(i) =~= parts);
    }
}

/// Sound picks take no negative amount of any lot.
pub proof fn lemma_taken_is_positive(m: ReadModel, picks: Seq<PickV>, lot: Text, i: int)
    requires
        0 <= i,
        sound_picks(m, picks),
    ensures
        picked_of(picks, lot, i) >= 0,
    decreases picks.len() - i,
{
    if i < picks.len() {
        assert(picks[i].1 > 0);
        lemma_taken_is_positive(m, picks, lot, i + 1);
    }
}

/// The records of sound picks are at cost.
proof fn lemma_picks_at_cost(m: ReadModel, picks: Seq<PickV>)
    requires
        sound_picks(m, picks),
    ensures
        parts_at_cost(m.lots, Seq::new(picks.len(), |k: int| pick_json(picks[k]))),
{
    let parts = Seq::new(picks.len(), |k: int| pick_json(picks[k]));
    assert forall|k: int| 0 <= k < parts.len() implies cost_of(
        m.lots,
        txt(#[trigger] parts[k], "lotId"@),
    ) == Some(num(parts[k], "unitCostMinor"@)) by {
        lemma_pick_json(picks[k]);
        assert(picks[k].1 > 0);
    }
}

/// What the lines take of every lot is what is claimed, at least nothing, and they are
/// at cost.
pub open spec fn claimed_fairly(m: ReadModel, d: Map<Text, i64>, lines: Seq<JsonV>) -> bool {
    &&& within_stock(m, d)
    &&& forall|lot: Text| #[trigger] claim(d, lot) == lines_taken(lines, lot)
    &&& forall|lot: Text| #[trigger] lines_taken(lines, lot) >= 0
    &&& lines_at_cost(m.lots, lines, "lotConsumption"@)
}

pub proof fn lemma_granted_line(
    m: ReadModel,
    d: Map<Text, i64>,
    l: SaleLineV,
    done: Seq<JsonV>,
)
    requires
        distinct(m.lots),
        claimed_fairly(m, d, done),
        sale_line_request(m, d, l) is Ok,
    ensures
        claimed_fairly(
            m,
            sale_line_request(m, d, l)->Ok_0.demand,
            done.push(sale_line_request(m, d, l)->Ok_0.json),
        ),
{
    let g = sale_line_request(m, d, l)->Ok_0;
    let picks = line_picks(m, d, l)->Ok_0;
    let revenue = product(l.qty, l.unit_price_minor)->0;
    let cogs = picks_cost(picks)->0;
    let parts = Seq::new(picks.len(), |k: int| pick_json(picks[k]));
    let next = done.push(g.json);
    lemma_line_picks(m, d, l);
    lemma_line_json(l, revenue, cogs, picks);
    lemma_picks_at_cost(m, picks);
    assert(list(g.json, "lotConsumption"@) == parts);
    law_claims_stay_within_stock(m, d, l.item_id, picks, 0, Seq::empty());
    assert forall|lot: Text|
        claim(g.demand, lot) == #[trigger] lines_taken(next, lot) && lines_taken(next, lot)
            >= 0 by {
        law_claims_stay_within_stock(m, d, l.item_id, picks, 0, lot);
        lemma_picks_taken(picks, lot, 0);
        lemma_taken_is_positive(m, picks, lot, 0);
        assert(parts.take(0) =~= Seq::empty());
        let f = |x: JsonV| line_taken(x, lot);
        assert(next.drop_last() =~= done);
        assert(sum_over(next, f) == sum_over(done, f) + f(g.json));
        assert(claim(d, lot) == lines_taken(done, lot));
        assert(lines_taken(done, lot) >= 0);
    }
    assert forall|lot: Text| #[trigger] claim(g.demand, lot) == lines_taken(next, lot) by {}
    assert forall|k: int| 0 <= k < next.len() implies parts_at_cost(
        m.lots,
        list(#[trigger] next[k], "lotConsumption"@),
    ) by {
        if k < done.len() {
            assert(next[k] == done[k]);
        }
    }
}

proof fn lemma_granted_lines(
    m: ReadModel,
    lines: Seq<SaleLineV>,
    i: int,
    d: Map<Text, i64>,
    done: Seq<JsonV>,
    total: i64,
)
    requires
        0 <= i,
        distinct(m.lots),
        claimed_fairly(m, d, done),
        sale_lines_request(m, lines, i, d, done, total) is Ok,
    ensures
        exists|e: Map<Text, i64>| #[trigger]
            claimed_fairly(m, e, sale_lines_request(m, lines, i, d, done, total)->Ok_0.0),
    decreases lines.len() - i,
{
    if i < lines.len() {
        let g = sale_line_request(m, d, lines[i])->Ok_0;
        let sum = plus(Some(total), Some(g.revenue))->0;
        lemma_granted_line(m, d, lines[i], done);
        lemma_granted_lines(m, lines, i + 1, g.demand, done.push(g.json), sum);
        assert(sale_lines_request(m, lines, i, d, done, total) == sale_lines_request(
            m,
            lines,
            i + 1,
            g.demand,
            done.push(g.json),
            sum,
        ));
    } else {
        assert(sale_lines_request(m, lines, i, d, done, total)->Ok_0.0 == done);
        assert(claimed_fairly(m, d, done));
    }
}

/// A sale that is granted takes no more of any lot than the lot holds, and every unit at
/// its lot's cost.
pub proof fn law_granted_sales_take_what_is_there(
    m: ReadModel,
    id: Text,
    customer: Text,
    date: Text,
    terms: Text,
    lines: Seq<SaleLineV>,
    lot: Text,
)
    requires
        distinct(m.lots),
        sale_request(m, id, customer, date, terms, lines) is Ok,
    ensures
        ({
            let p = sale_request(m, id, customer, date, terms, lines)->Ok_0;
            let taken = lines_taken(list(p, "lines"@), lot);
            &&& taken >= 0
            &&& taken > 0 ==> (lookup(m.lots, lot) matches Some(l) && taken <= l.qty_remaining)
            &&& lines_at_cost(m.lots, list(p, "lines"@), "lotConsumption"@)
        }),
{
    let (done, total) = sale_lines_request(m, lines, 0, Map::empty(), Seq::empty(), 0)->Ok_0;
    lemma_sale_payload(id, customer, date, terms, total, done);
    assert(claimed_fairly(m, Map::empty(), Seq::<JsonV>::empty())) by {
        assert forall|x: Text| #[trigger]
            lines_taken(Seq::<JsonV>::empty(), x) == claim(Map::empty(), x) by {}
        assert forall|x: Text| #[trigger]
            claim(Map::empty(), x) == lines_taken(Seq::<JsonV>::empty(), x) by {}
    }
    lemma_granted_lines(m, lines, 0, Map::empty(), Seq::empty(), 0);
    let e = choose|e: Map<Text, i64>| #[trigger] claimed_fairly(m, e, done);
    assert(claim(e, lot) == lines_taken(done, lot));
    assert(lines_taken(done, lot) >= 0);
    if claim(e, lot) > 0 {
        assert(e.contains_key(lot));
    }
}

// ---- what the projection makes of it ----

/// The lots, each with fewer units left.
pub open spec fn reduced(lots: Seq<Lot<Text>>, less: spec_fn(Text) -> int, after: Seq<Lot<Text>>) -> bool {
    &&& after.len() == lots.len()
    &&& forall|i: int|
        0 <= i < lots.len() ==> (#[trigger] after[i]).qty_remaining == lots[i].qty_remaining - less(
            lots[i].id,
        ) && after[i] == (Lot { qty_remaining: after[i].qty_remaining, ..lots[i] })
}

proof fn lemma_consume_lots(m: ReadModel, ev: EventV, line: nat, parts: Seq<JsonV>, j: int)
    requires
        0 <= j <= parts.len(),
        distinct(m.lots),
    ensures
        consume_from(m, ev, line, parts, j) matches Ok(n) ==> distinct(n.lots) && reduced(
            m.lots,
            |lot: Text| parts_taken(parts, lot) - parts_taken(parts.take(j), lot),
            n.lots,
        ),
    decreases parts.len() - j,
{
    if j < parts.len() {
        let lot = txt(parts[j], "lotId"@);
        let q = num(parts[j], "qtyTaken"@);
        let o = adjust_lot(
            add_consumption(Ok(m), consumption(ev, line, parts[j], j as nat)),
            lot,
            -q,
        );
        if let Ok(k) = o {
            lemma_has(m.lots, lot);
            assert(distinct(k.lots)) by {
                assert forall|x: int, y: int| 0 <= x < y < k.lots.len() implies (
                #[trigger] k.lots[x]).key() != (#[trigger] k.lots[y]).key() by {
                    assert(m.lots[x].key() != m.lots[y].key());
                }
            }
            lemma_consume_lots(k, ev, line, parts, j + 1);
            if let Ok(n) = consume_from(k, ev, line, parts, j + 1) {
                assert forall|i: int| 0 <= i < m.lots.len() implies (
                #[trigger] n.lots[i]).qty_remaining == m.lots[i].qty_remaining - (parts_taken(
                    parts,
                    m.lots[i].id,
                ) - parts_taken(parts.take(j), m.lots[i].id)) && n.lots[i] == (Lot {
                    qty_remaining: n.lots[i].qty_remaining,
                    ..m.lots[i]
                }) by {
                    let x = m.lots[i].id;
                    let f = |p: JsonV| part_taken(p, x);
                    assert(parts.take(j + 1).drop_last() =~= parts.take(j));
                    assert(parts.take(j + 1).last() == parts[j]);
                    assert(sum_over(parts.take(j + 1), f) == sum_over(parts.take(j), f) + f(
                        parts[j],
                    ));
                    assert(k.lots[i].id == x);
                    if x == lot {
                        assert forall|y: int| 0 <= y < i implies (#[trigger] m.lots[y]).key()
                            != lot by {
                            assert(m.lots[y].key() != m.lots[i].key());
                        }
                        lemma_place(m.lots, lot, i);
                    }
                }
            }
        }
    } else {
        assert(parts.take(j) =~= parts);
    }
}

proof fn lemma_sale_lots(m: ReadModel, ev: EventV, lines: Seq<JsonV>, i: int)
    requires
        0 <= i <= lines.len(),
        distinct(m.lots),
    ensures
        sale_lines_from(m, ev, lines, i) matches Ok(n) ==> reduced(
            m.lots,
            |lot: Text| lines_taken(lines, lot) - lines_taken(lines.take(i), lot),
            n.lots,
        ),
    decreases lines.len() - i,
{
    if i < lines.len() {
        let parts = list(lines[i], "lotConsumption"@);
        if let Ok(k) = sale_line(m, ev, lines[i], i as nat) {
            let row = SaleLine {
                id: line_id(ev.id, i as nat),
                sale_id: txt(ev.payload, "saleId"@),
                item_id: txt(lines[i], "itemId"@),
                qty: num(lines[i], "qty"@),
                unit_price_minor: num(lines[i], "unitPriceMinor"@),
                revenue_minor: product(
                    num(lines[i], "qty"@),
                    num(lines[i], "unitPriceMinor"@),
                )->0,
                cogs_minor: worth(parts, "qtyTaken"@, "unitCostMinor"@)->0,
                date: txt(ev.payload, "date"@),
            };
            let a = add_sale_line(Ok(m), row)->Ok_0;
            lemma_consume_lots(a, ev, i as nat, parts, 0);
            lemma_sale_lots(k, ev, lines, i + 1);
            if let Ok(n) = sale_lines_from(k, ev, lines, i + 1) {
                assert forall|x: int| 0 <= x < m.lots.len() implies (
                #[trigger] n.lots[x]).qty_remaining == m.lots[x].qty_remaining - (lines_taken(
                    lines,
                    m.lots[x].id,
                ) - lines_taken(lines.take(i), m.lots[x].id)) && n.lots[x] == (Lot {
                    qty_remaining: n.lots[x].qty_remaining,
                    ..m.lots[x]
                }) by {
                    let id = m.lots[x].id;
                    let f = |l: JsonV| line_taken(l, id);
                    assert(lines.take(i + 1).drop_last() =~= lines.take(i));
                    assert(lines.take(i + 1).last() == lines[i]);
                    assert(sum_over(lines.take(i + 1), f) == sum_over(lines.take(i), f) + f(
                        lines[i],
                    ));
                    assert(parts.take(0) =~= Seq::empty());
                    assert(k.lots[x].id == id);
                }
            }
        }
    } else {
        assert(lines.take(i) =~= lines);
    }
}

/// A sale leaves every lot with what it held less what the sale took of it.
proof fn lemma_sale_recorded_lots(m: ReadModel, ev: EventV)
    requires
        distinct(m.lots),
        sale_recorded(m, ev) is Ok,
    ensures
        reduced(
            m.lots,
            |lot: Text| lines_taken(list(ev.payload, "lines"@), lot),
            sale_recorded(m, ev)->Ok_0.lots,
        ),
{
    let p = ev.payload;
    let lines = list(p, "lines"@);
    let revenue = worth(lines, "qty"@, "unitPriceMinor"@)->0;
    let o = add_sale(Ok(m), invoice(ev, txt(p, "saleId"@), opt_txt(p, "customerId"@), revenue));
    lemma_sale_lots(o->Ok_0, ev, lines, 0);
    assert(lines.take(0) =~= Seq::empty());
    let k = sale_lines(o, ev, lines)->Ok_0;
    let n = sale_recorded(m, ev)->Ok_0;
    assert(n.lots == k.lots);
    assert forall|i: int| 0 <= i < m.lots.len() implies (#[trigger] n.lots[i]).qty_remaining
        == m.lots[i].qty_remaining - lines_taken(lines, m.lots[i].id) by {
        assert(k.lots[i].qty_remaining == m.lots[i].qty_remaining - (lines_taken(
            lines,
            m.lots[i].id,
        ) - lines_taken(lines.take(0), m.lots[i].id)));
    }
}

/// A granted sale leaves no lot with less than nothing, nor with more than it received.
pub proof fn law_granted_sales_keep_lot_bounds(
    m: ReadModel,
    id: Text,
    customer: Text,
    date: Text,
    terms: Text,
    lines: Seq<SaleLineV>,
    ev: EventV,
)
    requires
        distinct(m.lots),
        forall|i: int| 0 <= i < m.lots.len() ==> in_bounds(#[trigger] m.lots[i]),
        sale_request(m, id, customer, date, terms, lines) == Ok::<JsonV, Refusal>(ev.payload),
        sale_recorded(m, ev) is Ok,
    ensures
        forall|i: int|
            0 <= i < sale_recorded(m, ev)->Ok_0.lots.len() ==> in_bounds(
                #[trigger] sale_recorded(m, ev)->Ok_0.lots[i],
            ),
{
    let n = sale_recorded(m, ev)->Ok_0;
    lemma_sale_recorded_lots(m, ev);
    assert forall|i: int| 0 <= i < n.lots.len() implies in_bounds(#[trigger] n.lots[i]) by {
        let l = m.lots[i];
        assert(in_bounds(l));
        law_granted_sales_take_what_is_there(m, id, customer, date, terms, lines, l.id);
        assert forall|y: int| 0 <= y < i implies (#[trigger] m.lots[y]).key() != l.id by {
            assert(m.lots[y].key() != m.lots[i].key());
        }
        lemma_place(m.lots, l.id, i);
    }
}

} // verus!
