//! What may be done is not refused: sales of what is there and reversals of what nothing
//! builds on.

use crate::commands::{overflow, Refusal};
use crate::commands::categories::{categories, EventCategory};
use crate::commands::guards::{
    available, claim, has_allocation, has_return, lot_seen, reconsumed_from, restored_to,
    reversal_downstream, taken,
};
use crate::commands::reversal::reversal_request;
use crate::commands::sale::{
    claimed_from, draw_from, holding, line_picks, lot_return_request, lot_returns_request,
    oldest_first, prices, return_line_json, return_line_request, return_lines_request,
    sale_line_request, sale_lines_request, sale_request, sale_return_request, sold_price, stock,
    PickV, ReturnState, SaleLineV, SaleReturnV,
};
use crate::db::Store;
use crate::events::EventV;
use crate::json::{txt, JsonV};
use crate::laws::double_entry::lemma_types;
use crate::laws::fifo::{
    drawn, drawn_behind, lemma_draw, lemma_oldest_first, picked, usable, within_stock,
};
use crate::laws::granted::{fair_terms, trades_as};
use crate::laws::prices::{only_price, sold_at};
use crate::laws::reversal::lemma_sum_sorted;
use crate::laws::sales::lemma_stock_is_found;
use crate::laws::settling::{
    lemma_named_in, lemma_reversible, lemma_units_sold, named_in, part_returnable, reversible,
    untouched_invoice,
};
use crate::model::{consumed_by, plus, Text};
use crate::rows::{distinct, lookup, Keyed};
use crate::sort::lemma_sorted;
use crate::sums::sum_over;
use crate::tables::{Lot, ReadModel, ReturnLine};
use vstd::prelude::*;

verus! {

// ---- reversals ----

/// Units that a return gave back to a lot.
pub open spec fn given_back(return_id: Text, lot: Text) -> spec_fn(ReturnLine<Text>) -> int {
    |l: ReturnLine<Text>|
        if l.return_id == return_id && l.lot_id == lot {
            l.qty as int
        } else {
            0
        }
}

/// The lot of return line `i`, where it is one of the return, still holds what the return
/// gave back to it.
pub open spec fn holds_back(m: ReadModel, return_id: Text, i: int) -> bool {
    m.return_lines[i].return_id == return_id ==> (lookup(
        m.lots,
        m.return_lines[i].lot_id,
    ) matches Some(l) ==> l.qty_remaining >= sum_over(
        m.return_lines,
        given_back(return_id, m.return_lines[i].lot_id),
    ))
}

proof fn lemma_given_back(s: Seq<ReturnLine<Text>>, return_id: Text, lot: Text)
    ensures
        restored_to(s, return_id, lot) matches Some(v) ==> v == sum_over(
            s,
            given_back(return_id, lot),
        ),
    decreases s.len(),
{
    if s.len() > 0 {
        lemma_given_back(s.drop_last(), return_id, lot);
    }
}

proof fn lemma_reconsumed(m: ReadModel, return_id: Text, i: int)
    requires
        0 <= i,
        forall|j: int| 0 <= j < i && j < m.return_lines.len() ==> #[trigger] holds_back(m, return_id, j),
    ensures
        match reconsumed_from(m, return_id, i) {
            Ok(_) => forall|j: int|
                0 <= j < m.return_lines.len() ==> #[trigger] holds_back(m, return_id, j),
            Err(e) => e == overflow() || exists|j: int|
                0 <= j < m.return_lines.len() && !#[trigger] holds_back(m, return_id, j),
        },
    decreases m.return_lines.len() - i,
{
    let s = m.return_lines;
    if i < s.len() {
        lemma_given_back(s, return_id, s[i].lot_id);
        if s[i].return_id == return_id && lot_seen(s, return_id, s[i].lot_id, i) {
            let j = choose|j: int|
                0 <= j < i && (#[trigger] s[j]).return_id == return_id && s[j].lot_id
                    == s[i].lot_id;
            assert(holds_back(m, return_id, j));
            assert(holds_back(m, return_id, i));
        }
        if holds_back(m, return_id, i) {
            lemma_reconsumed(m, return_id, i + 1);
        }
    }
}

/// Nothing stands against the reversal of an event.
pub open spec fn may_reverse(s: Store, target: Text) -> bool {
    let m = s.model;
    &&& !named_in(s.events, "TransactionReversed"@, "targetEventId"@, target)
    &&& lookup(s.events, target) matches Some(ev) && {
        let ty = ev.event_type;
        let q = ev.payload;
        &&& reversible(ty)
        &&& ty == "PurchaseRecorded"@ || ty == "InventoryFound"@ ==> forall|i: int|
            0 <= i < m.lots.len() && (#[trigger] m.lots[i]).source_event_id == target
                ==> m.lots[i].qty_remaining >= m.lots[i].qty_received
        &&& ty == "SaleRecorded"@ ==> untouched_invoice(m, txt(q, "saleId"@), "sale"@)
        &&& ty == "PurchaseRecorded"@ ==> untouched_invoice(
            m,
            txt(q, "purchaseId"@),
            "purchase"@,
        )
        &&& ty == "PaymentMade"@ || ty == "PaymentReceived"@ ==> untouched_invoice(
            m,
            Seq::empty(),
            "sale"@,
        ) && !named_in(s.events, "PaymentAllocated"@, "paymentId"@, txt(q, "paymentId"@))
        &&& ty == "SaleReturnRecorded"@ ==> forall|j: int|
            0 <= j < m.return_lines.len() ==> #[trigger] holds_back(m, txt(q, "returnId"@), j)
    }
}

proof fn lemma_untouched(m: ReadModel, log: Seq<EventV>, kind: Text, id: Text, payment: Option<Text>)
    ensures
        reversal_downstream(m, log, kind, id, payment) is Ok <==> untouched_invoice(m, id, kind)
            && (payment matches Some(p) ==> !named_in(log, "PaymentAllocated"@, "paymentId"@, p)),
{
    if let Some(p) = payment {
        lemma_named_in(log, "PaymentAllocated"@, "paymentId"@, p);
    }
    if has_allocation(m.allocations, kind, id) {
        assert(!untouched_invoice(m, id, kind));
    }
    if has_return(m.returns, id) {
        assert(!untouched_invoice(m, id, kind));
    }
}

/// A reversal is granted only where nothing stands against it, and where nothing does it
/// is refused for nothing but a count that is no integer: of an event that is reversed
/// already, of a purchase or a find that was drawn on, of an invoice that was settled or
/// returned, of a payment whose credit was allocated, and of a return whose units are gone
/// again there is none.
pub proof fn law_free_events_can_be_reversed(s: Store, target: Text, reason: Text)
    ensures
        match reversal_request(s, target, reason) {
            Ok(_) => may_reverse(s, target),
            Err(e) => may_reverse(s, target) ==> e == overflow(),
        },
{
    lemma_named_in(s.events, "TransactionReversed"@, "targetEventId"@, target);
    lemma_types();
    if let Some(ev) = lookup(s.events, target) {
        let ty = ev.event_type;
        let q = ev.payload;
        let m = s.model;
        lemma_reversible(ty);
        reveal_strlit("");
        assert(""@ =~= Seq::<char>::empty());
        lemma_untouched(m, s.events, "sale"@, txt(q, "saleId"@), None);
        lemma_untouched(m, s.events, "purchase"@, txt(q, "purchaseId"@), None);
        lemma_untouched(m, s.events, "sale"@, Seq::empty(), Some(txt(q, "paymentId"@)));
        lemma_reconsumed(m, txt(q, "returnId"@), 0);
    }
}

// ---- sales ----

/// What the lines of a sale ask of an item.
pub open spec fn asked_of(item: Text) -> spec_fn(SaleLineV) -> int {
    |l: SaleLineV|
        if l.item_id == item {
            l.qty as int
        } else {
            0
        }
}

/// What the lots of an item hold.
pub open spec fn held_of(item: Text) -> spec_fn(Lot<Text>) -> int {
    |l: Lot<Text>|
        if l.item_id == item && l.qty_remaining > 0 {
            l.qty_remaining as int
        } else {
            0
        }
}

/// What claims are on a lot.
pub open spec fn claims_on(d: Map<Text, i64>) -> spec_fn(Lot<Text>) -> int {
    |l: Lot<Text>| claim(d, l.id) as int
}

/// What a lot has.
pub open spec fn remaining() -> spec_fn(Lot<Text>) -> int {
    |l: Lot<Text>| l.qty_remaining as int
}

/// What claims leave of the lots from lot `i` on.
spec fn left_from(m: ReadModel, d: Map<Text, i64>, lots: Seq<Lot<Text>>, i: int) -> int
    decreases lots.len() - i,
{
    if i < 0 || i >= lots.len() {
        0
    } else {
        usable(m, d, lots[i].id) + left_from(m, d, lots, i + 1)
    }
}

/// Claims between nothing and what is there.
spec fn sound_claims(m: ReadModel, d: Map<Text, i64>) -> bool {
    within_stock(m, d) && forall|lot: Text| #[trigger] d.contains_key(lot) ==> d[lot] >= 0
}

proof fn lemma_left(m: ReadModel, d: Map<Text, i64>, lots: Seq<Lot<Text>>, i: int)
    requires
        0 <= i <= lots.len(),
        sound_claims(m, d),
        forall|k: int|
            0 <= k < lots.len() ==> lookup(m.lots, (#[trigger] lots[k]).id) == Some(lots[k])
                && lots[k].qty_remaining > 0,
    ensures
        left_from(m, d, lots, i) == sum_over(lots, remaining()) - sum_over(lots, claims_on(d)) - (
        sum_over(lots.take(i), remaining()) - sum_over(lots.take(i), claims_on(d))),
    decreases lots.len() - i,
{
    if i < lots.len() {
        lemma_left(m, d, lots, i + 1);
        assert(lots.take(i + 1).drop_last() =~= lots.take(i));
        assert(lots.take(i + 1).last() == lots[i]);
        assert(lookup(m.lots, lots[i].id) == Some(lots[i]));
    } else {
        assert(lots.take(i) =~= lots);
    }
}

/// The pick is of a lot before lot `i`.
spec fn picked_before(lots: Seq<Lot<Text>>, p: PickV, i: int) -> bool {
    exists|k: int| 0 <= k < i && k < lots.len() && (#[trigger] lots[k]).id == p.0
}

/// No two picks are of one lot.
spec fn once_each(picks: Seq<PickV>) -> bool {
    forall|p: int, q: int|
        0 <= p < q < picks.len() ==> (#[trigger] picks[p]).0 != (#[trigger] picks[q]).0
}

proof fn lemma_enough(
    m: ReadModel,
    d: Map<Text, i64>,
    lots: Seq<Lot<Text>>,
    item: Text,
    need: i64,
    i: int,
    picks: Seq<PickV>,
)
    requires
        0 <= i,
        0 <= need <= left_from(m, d, lots, i),
        distinct(lots),
        sound_claims(m, d),
        forall|k: int|
            0 <= k < lots.len() ==> lookup(m.lots, (#[trigger] lots[k]).id) == Some(lots[k])
                && lots[k].qty_remaining > 0,
        once_each(picks),
        forall|p: int| 0 <= p < picks.len() ==> picked_before(lots, #[trigger] picks[p], i),
    ensures
        draw_from(m, d, lots, item, need, i, picks) is Ok,
        once_each(draw_from(m, d, lots, item, need, i, picks)->Ok_0),
    decreases lots.len() - i,
{
    if need == 0 || i >= lots.len() {
    } else {
        assert(lookup(m.lots, lots[i].id) == Some(lots[i]));
        let n = available(m, d, lots[i].id)->Ok_0;
        assert(available(m, d, lots[i].id) is Ok && n >= 0);
        assert forall|p: int| 0 <= p < picks.len() implies picked_before(
            lots,
            #[trigger] picks[p],
            i + 1,
        ) by {
            assert(picked_before(lots, picks[p], i));
        }
        if n <= 0 {
            lemma_enough(m, d, lots, item, need, i + 1, picks);
        } else {
            let take = if need <= n {
                need
            } else {
                n
            };
            let pick = (lots[i].id, take, lots[i].unit_cost_minor);
            let next = picks.push(pick);
            assert forall|p: int| 0 <= p < next.len() implies picked_before(
                lots,
                #[trigger] next[p],
                i + 1,
            ) by {
                if p < picks.len() {
                    assert(picked_before(lots, picks[p], i + 1));
                } else {
                    assert(lots[i].id == next[p].0);
                }
            }
            assert(once_each(next)) by {
                assert forall|p: int, q: int| 0 <= p < q < next.len() implies (
                #[trigger] next[p]).0 != (#[trigger] next[q]).0 by {
                    if q == picks.len() {
                        assert(picked_before(lots, picks[p], i));
                        let k = choose|k: int|
                            0 <= k < i && k < lots.len() && (#[trigger] lots[k]).id == picks[p].0;
                        assert(lots[k].key() != lots[i].key());
                    } else {
                        assert(picks[p].0 != picks[q].0);
                    }
                }
            }
            if need > n {
                lemma_left_nonneg(m, d, lots, i + 1);
            } else {
                lemma_left_nonneg(m, d, lots, i + 1);
            }
            lemma_enough(m, d, lots, item, (need - take) as i64, i + 1, next);
        }
    }
}

proof fn lemma_left_nonneg(m: ReadModel, d: Map<Text, i64>, lots: Seq<Lot<Text>>, i: int)
    requires
        0 <= i,
        sound_claims(m, d),
        forall|k: int|
            0 <= k < lots.len() ==> lookup(m.lots, (#[trigger] lots[k]).id) == Some(lots[k])
                && lots[k].qty_remaining > 0,
    ensures
        left_from(m, d, lots, i) >= 0,
    decreases lots.len() - i,
{
    if i < lots.len() {
        lemma_left_nonneg(m, d, lots, i + 1);
        assert(lookup(m.lots, lots[i].id) == Some(lots[i]));
    }
}

/// A pick that the claims leave room for, of a lot of the item.
spec fn claimable(m: ReadModel, d: Map<Text, i64>, item: Text, p: PickV) -> bool {
    lookup(m.lots, p.0) matches Some(l) && l.item_id == item && 0 < p.1 && claim(d, p.0) + p.1
        <= l.qty_remaining
}

proof fn lemma_claimable(
    m: ReadModel,
    d: Map<Text, i64>,
    item: Text,
    picks: Seq<PickV>,
    i: int,
)
    requires
        0 <= i,
        sound_claims(m, d),
        once_each(picks),
        forall|p: int| i <= p < picks.len() ==> claimable(m, d, item, #[trigger] picks[p]),
    ensures
        claimed_from(m, d, item, picks, i) is Ok,
        sound_claims(m, claimed_from(m, d, item, picks, i)->Ok_0),
    decreases picks.len() - i,
{
    if i < picks.len() {
        assert(claimable(m, d, item, picks[i]));
        let e = taken(m, d, picks[i].0, picks[i].1)->Ok_0;
        assert(taken(m, d, picks[i].0, picks[i].1) is Ok);
        assert(sound_claims(m, e)) by {
            assert forall|lot: Text| #[trigger] e.contains_key(lot) implies (lookup(
                m.lots,
                lot,
            ) matches Some(l) && e[lot] <= l.qty_remaining) && e[lot] >= 0 by {
                if lot != picks[i].0 {
                    assert(d.contains_key(lot));
                }
            }
        }
        assert forall|p: int| i + 1 <= p < picks.len() implies claimable(
            m,
            e,
            item,
            #[trigger] picks[p],
        ) by {
            assert(claimable(m, d, item, picks[p]));
            assert(picks[i].0 != picks[p].0);
        }
        lemma_claimable(m, e, item, picks, i + 1);
    }
}

proof fn lemma_claims_with(d: Map<Text, i64>, lots: Seq<Lot<Text>>, lot: Text, v: i64, there: bool)
    requires
        distinct(lots),
        there == exists|k: int| 0 <= k < lots.len() && (#[trigger] lots[k]).id == lot,
    ensures
        sum_over(lots, claims_on(d.insert(lot, v))) == sum_over(lots, claims_on(d)) + (if there {
            v - claim(d, lot)
        } else {
            0
        }),
    decreases lots.len(),
{
    if lots.len() > 0 {
        let front = lots.drop_last();
        let last = lots[lots.len() - 1];
        assert(last == lots.last());
        assert forall|k: int, j: int| 0 <= k < j < front.len() implies (#[trigger] front[k]).key()
            != (#[trigger] front[j]).key() by {
            assert(lots[k].key() != lots[j].key());
        }
        let before = exists|k: int| 0 <= k < front.len() && (#[trigger] front[k]).id == lot;
        lemma_claims_with(d, front, lot, v, before);
        if before {
            let k = choose|k: int| 0 <= k < front.len() && (#[trigger] front[k]).id == lot;
            assert(lots[k].id == lot);
            assert(lots[k].key() != lots[lots.len() - 1].key());
        }
        if there && !before {
            let k = choose|k: int| 0 <= k < lots.len() && (#[trigger] lots[k]).id == lot;
            if k < front.len() {
                assert(front[k].id == lot);
            }
            assert(last.id == lot);
        }
        if last.id == lot {
            assert(lots[lots.len() - 1].id == lot);
        }
    }
}

/// How many units picks take from pick `i` on.
spec fn picked_from(picks: Seq<PickV>, i: int) -> int
    decreases picks.len() - i,
{
    if i < 0 || i >= picks.len() {
        0
    } else {
        picks[i].1 + picked_from(picks, i + 1)
    }
}

proof fn lemma_picked_from(picks: Seq<PickV>, i: int)
    requires
        0 <= i <= picks.len(),
    ensures
        picked(picks) == picked(picks.take(i)) + picked_from(picks, i),
    decreases picks.len() - i,
{
    if i < picks.len() {
        lemma_picked_from(picks, i + 1);
        let f = |p: PickV| p.1 as int;
        assert(picks.take(i + 1).drop_last() =~= picks.take(i));
        assert(picks.take(i + 1).last() == picks[i]);
        assert(sum_over(picks.take(i + 1), f) == sum_over(picks.take(i), f) + f(picks[i]));
    } else {
        assert(picks.take(i) =~= picks);
    }
}

proof fn lemma_claims_grow(
    m: ReadModel,
    d: Map<Text, i64>,
    item: Text,
    picks: Seq<PickV>,
    i: int,
    lots: Seq<Lot<Text>>,
    there: bool,
)
    requires
        0 <= i,
        distinct(lots),
        claimed_from(m, d, item, picks, i) is Ok,
        forall|p: int|
            0 <= p < picks.len() ==> there == exists|k: int|
                0 <= k < lots.len() && (#[trigger] lots[k]).id == (#[trigger] picks[p]).0,
    ensures
        sum_over(lots, claims_on(claimed_from(m, d, item, picks, i)->Ok_0)) == sum_over(
            lots,
            claims_on(d),
        ) + (if there {
            picked_from(picks, i)
        } else {
            0
        }),
    decreases picks.len() - i,
{
    if i < picks.len() {
        let e = taken(m, d, picks[i].0, picks[i].1)->Ok_0;
        lemma_claims_with(d, lots, picks[i].0, (claim(d, picks[i].0) + picks[i].1) as i64, there);
        lemma_claims_grow(m, e, item, picks, i + 1, lots, there);
    }
}

/// A line that asks for some units at a price, of the oldest stock.
pub open spec fn plain(l: SaleLineV) -> bool {
    l.qty > 0 && l.unit_price_minor >= 0 && l.lot_picks is None
}

proof fn lemma_held(t: Seq<Lot<Text>>, item: Text)
    ensures
        sum_over(oldest_first(t, item), remaining()) == sum_over(t, held_of(item)),
{
    lemma_sum_sorted(stock(t, item), remaining());
    lemma_held_stock(t, item);
}

proof fn lemma_held_stock(t: Seq<Lot<Text>>, item: Text)
    ensures
        sum_over(stock(t, item), remaining()) == sum_over(t, held_of(item)),
    decreases t.len(),
{
    reveal(Seq::filter);
    if t.len() > 0 {
        let front = t.drop_last();
        lemma_held_stock(front, item);
        if holding(item)(t.last()) {
            let s = stock(front, item);
            assert(stock(t, item) == s.push(t.last()));
            assert(s.push(t.last()).drop_last() =~= s);
        }
    }
}

proof fn lemma_of_item(t: Seq<Lot<Text>>, item: Text, k: int)
    requires
        distinct(t),
        0 <= k < oldest_first(t, item).len(),
    ensures
        lookup(t, oldest_first(t, item)[k].id) == Some(oldest_first(t, item)[k]),
        oldest_first(t, item)[k].item_id == item,
        oldest_first(t, item)[k].qty_remaining > 0,
{
    broadcast use vstd::seq_lib::group_to_multiset_ensures;

    lemma_stock_is_found(t, item, k);
    let held = stock(t, item);
    let lots = oldest_first(t, item);
    lemma_sorted(held);
    assert(lots.contains(lots[k]));
    assert(lots.to_multiset().count(lots[k]) > 0);
    assert(held.contains(lots[k]));
    t.lemma_filter_contains_rev(holding(item), lots[k]);
    let x = choose|x: int| 0 <= x < held.len() && held[x] == lots[k];
    t.lemma_filter_pred(holding(item), x);
}

/// Claims made so far: sound, and on the lots of every item what the lines before asked.
spec fn claims_of(m: ReadModel, d: Map<Text, i64>, before: Seq<SaleLineV>) -> bool {
    &&& sound_claims(m, d)
    &&& forall|item: Text|
        #![trigger oldest_first(m.lots, item)]
        sum_over(oldest_first(m.lots, item), claims_on(d)) == sum_over(before, asked_of(item))
}

proof fn lemma_fair_line(
    m: ReadModel,
    d: Map<Text, i64>,
    before: Seq<SaleLineV>,
    l: SaleLineV,
)
    requires
        distinct(m.lots),
        plain(l),
        claims_of(m, d, before),
        sum_over(before, asked_of(l.item_id)) + l.qty <= sum_over(m.lots, held_of(l.item_id)),
    ensures
        match sale_line_request(m, d, l) {
            Ok(g) => claims_of(m, g.demand, before.push(l)),
            Err(e) => e == overflow(),
        },
{
    let lots = oldest_first(m.lots, l.item_id);
    lemma_oldest_first(m.lots, l.item_id);
    lemma_held(m.lots, l.item_id);
    assert forall|k: int| 0 <= k < lots.len() implies lookup(m.lots, (#[trigger] lots[k]).id)
        == Some(lots[k]) && lots[k].qty_remaining > 0 by {
        lemma_of_item(m.lots, l.item_id, k);
    }
    lemma_left(m, d, lots, 0);
    assert(lots.take(0) =~= Seq::empty());
    lemma_enough(m, d, lots, l.item_id, l.qty, 0, Seq::empty());
    lemma_draw(m, d, lots, l.item_id, l.qty, 0, Seq::empty());
    let picks = line_picks(m, d, l)->Ok_0;
    assert(picked(Seq::<PickV>::empty()) == 0);
    assert forall|p: int| 0 <= p < picks.len() implies claimable(
        m,
        d,
        l.item_id,
        #[trigger] picks[p],
    ) by {
        assert(drawn_behind(m, d, lots, picks[p], 0));
        let k = choose|k: int| 0 <= k < lots.len() && drawn(m, d, #[trigger] lots[k], picks[p]);
        lemma_of_item(m.lots, l.item_id, k);
    }
    lemma_claimable(m, d, l.item_id, picks, 0);
    if let Ok(g) = sale_line_request(m, d, l) {
        lemma_picked_from(picks, 0);
        assert(picks.take(0) =~= Seq::empty());
        assert(before.push(l).drop_last() =~= before);
        assert forall|item: Text|
            #![trigger oldest_first(m.lots, item)]
            sum_over(oldest_first(m.lots, item), claims_on(g.demand)) == sum_over(
                before.push(l),
                asked_of(item),
            ) by {
            let others = oldest_first(m.lots, item);
            lemma_oldest_first(m.lots, item);
            assert forall|p: int| 0 <= p < picks.len() implies (item == l.item_id) == (exists|
                k: int,
            |
                0 <= k < others.len() && (#[trigger] others[k]).id == (#[trigger] picks[p]).0) by {
                assert(drawn_behind(m, d, lots, picks[p], 0));
                let k = choose|k: int|
                    0 <= k < lots.len() && drawn(m, d, #[trigger] lots[k], picks[p]);
                lemma_of_item(m.lots, l.item_id, k);
                if item == l.item_id {
                    assert(others[k].id == picks[p].0);
                }
                if exists|k: int| 0 <= k < others.len() && (#[trigger] others[k]).id == picks[p].0 {
                    let j = choose|k: int|
                        0 <= k < others.len() && (#[trigger] others[k]).id == picks[p].0;
                    lemma_of_item(m.lots, item, j);
                }
            }
            lemma_claims_grow(m, d, l.item_id, picks, 0, others, item == l.item_id);
        }
    }
}

proof fn lemma_asked_grows(lines: Seq<SaleLineV>, i: int, item: Text)
    requires
        0 <= i <= lines.len(),
        forall|k: int| 0 <= k < lines.len() ==> plain(#[trigger] lines[k]),
    ensures
        sum_over(lines.take(i), asked_of(item)) <= sum_over(lines, asked_of(item)),
    decreases lines.len() - i,
{
    if i < lines.len() {
        lemma_asked_grows(lines, i + 1, item);
        assert(lines.take(i + 1).drop_last() =~= lines.take(i));
        assert(lines.take(i + 1).last() == lines[i]);
        assert(plain(lines[i]));
    } else {
        assert(lines.take(i) =~= lines);
    }
}

proof fn lemma_fair_lines(
    m: ReadModel,
    lines: Seq<SaleLineV>,
    i: int,
    d: Map<Text, i64>,
    done: Seq<JsonV>,
    total: i64,
)
    requires
        0 <= i <= lines.len(),
        distinct(m.lots),
        claims_of(m, d, lines.take(i)),
        forall|k: int| 0 <= k < lines.len() ==> plain(#[trigger] lines[k]),
        forall|k: int|
            0 <= k < lines.len() ==> sum_over(lines, asked_of((#[trigger] lines[k]).item_id))
                <= sum_over(m.lots, held_of(lines[k].item_id)),
    ensures
        sale_lines_request(m, lines, i, d, done, total) matches Err(e) ==> e == overflow(),
    decreases lines.len() - i,
{
    if i < lines.len() {
        let l = lines[i];
        assert(plain(lines[i]));
        assert(lines.take(i + 1) =~= lines.take(i).push(l));
        assert(lines.take(i + 1).drop_last() =~= lines.take(i));
        lemma_asked_grows(lines, i + 1, l.item_id);
        lemma_fair_line(m, d, lines.take(i), l);
        if let Ok(g) = sale_line_request(m, d, l) {
            if let Some(t) = plus(Some(total), Some(g.revenue)) {
                lemma_fair_lines(m, lines, i + 1, g.demand, done.push(g.json), t);
            }
        }
    }
}

/// A sale to a customer, of units at prices, is refused for nothing but an amount that is
/// no integer, where the lots of every item hold what its lines ask for together.
pub proof fn law_sales_of_what_is_there_are_granted(
    m: ReadModel,
    id: Text,
    customer: Text,
    date: Text,
    terms: Text,
    lines: Seq<SaleLineV>,
)
    requires
        distinct(m.lots),
        lines.len() > 0,
        trades_as(m, customer, "customer"@),
        fair_terms(customer, terms),
        forall|k: int| 0 <= k < lines.len() ==> plain(#[trigger] lines[k]),
        forall|k: int|
            0 <= k < lines.len() ==> sum_over(lines, asked_of((#[trigger] lines[k]).item_id))
                <= sum_over(m.lots, held_of(lines[k].item_id)),
    ensures
        sale_request(m, id, customer, date, terms, lines) matches Err(e) ==> e == overflow(),
{
    assert(lines.take(0) =~= Seq::empty());
    assert forall|item: Text|
        #![trigger oldest_first(m.lots, item)]
        sum_over(oldest_first(m.lots, item), claims_on(Map::empty())) == sum_over(
            lines.take(0),
            asked_of(item),
        ) by {
        lemma_no_claims(oldest_first(m.lots, item));
    }
    lemma_fair_lines(m, lines, 0, Map::empty(), Seq::empty(), 0);
    reveal_strlit("cash");
    reveal_strlit("credit");
    assert("cash"@.len() == 4);
    assert("credit"@.len() == 6);
}

proof fn lemma_no_claims(lots: Seq<Lot<Text>>)
    ensures
        sum_over(lots, claims_on(Map::empty())) == 0,
    decreases lots.len(),
{
    if lots.len() > 0 {
        lemma_no_claims(lots.drop_last());
    }
}

// ---- sale returns ----

/// Units of a lot among the parts of a return line from part `j` on.
pub open spec fn back_from(parts: Seq<(Text, i64)>, j: int, lot: Text) -> int
    decreases parts.len() - j,
{
    if j < 0 || j >= parts.len() {
        0
    } else {
        (if parts[j].0 == lot {
            parts[j].1 as int
        } else {
            0
        }) + back_from(parts, j + 1, lot)
    }
}

/// Units of a lot among the lines of a return from line `i` on.
pub open spec fn all_back_from(lines: Seq<SaleReturnV>, i: int, lot: Text) -> int
    decreases lines.len() - i,
{
    if i < 0 || i >= lines.len() {
        0
    } else {
        back_from(lines[i].lot_returns, 0, lot) + all_back_from(lines, i + 1, lot)
    }
}

/// A line of a return that may be granted: of some parts, all of lots of the item, each of
/// them some units, no more than the sale took, at the one price of the line.
pub open spec fn line_returnable(m: ReadModel, sale: Text, l: SaleReturnV, price: i64) -> bool {
    l.lot_returns.len() > 0 && forall|j: int|
        0 <= j < l.lot_returns.len() ==> part_returnable(m, sale, #[trigger] l.lot_returns[j])
            && only_price(m, sale, l.lot_returns[j].0, price) && (lookup(
            m.lots,
            l.lot_returns[j].0,
        ) matches Some(x) && x.item_id == l.item_id)
}

proof fn lemma_one_price(m: ReadModel, sale: Text, lot: Text, price: i64, n: int)
    requires
        0 <= n <= m.consumptions.len(),
        forall|k: int, other: i64| #[trigger]
            sold_at(m, k, sale, lot, other) ==> other == price,
    ensures
        prices(m, sale, lot, n).len() == 0 || prices(m, sale, lot, n) == seq![price],
        forall|k: int| k < n && #[trigger] sold_at(m, k, sale, lot, price) ==> prices(
            m,
            sale,
            lot,
            n,
        ).len() > 0,
    decreases n,
{
    if n > 0 {
        lemma_one_price(m, sale, lot, price, n - 1);
        let before = prices(m, sale, lot, n - 1);
        let c = m.consumptions[n - 1];
        if c.lot_id == lot && consumed_by(m, c, sale) {
            let other = lookup(m.sale_lines, c.sale_line_id)->0.unit_price_minor;
            assert(sold_at(m, n - 1, sale, lot, other));
            if before.len() > 0 {
                assert(before[0] == price);
                assert(before.contains(price));
            } else {
                assert(prices(m, sale, lot, n) =~= seq![price]);
            }
        }
    }
}

/// Restorations that leave room for `rest` more of every lot.
spec fn room_for(m: ReadModel, d: Map<Text, i64>, rest: spec_fn(Text) -> int) -> bool {
    forall|lot: Text|
        #![trigger claim(d, lot)]
        #![trigger rest(lot)]
        claim(d, lot) >= 0 && (lookup(m.lots, lot) matches Some(l) ==> claim(d, lot) + rest(lot)
            <= l.qty_received - l.qty_remaining)
}

/// What the parts from part `j` on, and what comes after them, give back to a lot.
spec fn then_rest(parts: Seq<(Text, i64)>, j: int, rest: spec_fn(Text) -> int) -> spec_fn(
    Text,
) -> int {
    |lot: Text| back_from(parts, j, lot) + rest(lot)
}

/// What the lines from line `i` on give back to a lot.
spec fn lines_rest(lines: Seq<SaleReturnV>, i: int) -> spec_fn(Text) -> int {
    |lot: Text| all_back_from(lines, i, lot)
}

proof fn lemma_back_nonneg(m: ReadModel, sale: Text, parts: Seq<(Text, i64)>, j: int, lot: Text)
    requires
        0 <= j,
        forall|k: int| 0 <= k < parts.len() ==> part_returnable(m, sale, #[trigger] parts[k]),
    ensures
        back_from(parts, j, lot) >= 0,
    decreases parts.len() - j,
{
    if j < parts.len() {
        assert(part_returnable(m, sale, parts[j]));
        lemma_back_nonneg(m, sale, parts, j + 1, lot);
    }
}

proof fn lemma_fair_parts(
    m: ReadModel,
    sale: Text,
    l: SaleReturnV,
    price: i64,
    j: int,
    s: ReturnState,
    rest: spec_fn(Text) -> int,
)
    requires
        0 <= j,
        line_returnable(m, sale, l, price),
        s.price is Some ==> s.price->0 == price,
        room_for(m, s.demand, then_rest(l.lot_returns, j, rest)),
        forall|lot: Text| #[trigger] rest(lot) >= 0,
    ensures
        match lot_returns_request(m, sale, l.item_id, l.lot_returns, j, s) {
            Ok(r) => room_for(m, r.demand, rest),
            Err(e) => e == overflow(),
        },
    decreases l.lot_returns.len() - j,
{
    let parts = l.lot_returns;
    let now = then_rest(parts, j, rest);
    if j < parts.len() {
        let part = parts[j];
        let n = m.consumptions.len() as int;
        assert(part_returnable(m, sale, parts[j]));
        lemma_units_sold(m, sale, part.0, n);
        assert(m.consumptions.take(n) =~= m.consumptions);
        lemma_one_price(m, sale, part.0, price, n);
        assert(only_price(m, sale, part.0, price));
        let k = choose|k: int| #[trigger] sold_at(m, k, sale, part.0, price);
        assert(sold_at(m, k, sale, part.0, price));
        assert(sold_price(m, sale, part.0) == Ok::<i64, Refusal>(price));
        assert(now(part.0) == back_from(parts, j, part.0) + rest(part.0));
        lemma_back_nonneg(m, sale, parts, j + 1, part.0);
        assert(rest(part.0) >= 0);
        assert(claim(s.demand, part.0) >= 0);
        if let Ok(r) = lot_return_request(m, sale, l.item_id, part, s) {
            let next = then_rest(parts, j + 1, rest);
            assert(room_for(m, r.demand, next)) by {
                assert forall|lot: Text|
                    #![trigger claim(r.demand, lot)]
                    #![trigger next(lot)]
                    claim(r.demand, lot) >= 0 && (lookup(m.lots, lot) matches Some(x) ==> claim(
                        r.demand,
                        lot,
                    ) + next(lot) <= x.qty_received - x.qty_remaining) by {
                    assert(claim(s.demand, lot) >= 0);
                    assert(now(lot) == back_from(parts, j, lot) + rest(lot));
                }
            }
            lemma_fair_parts(m, sale, l, price, j + 1, r, rest);
        }
    } else {
        assert(room_for(m, s.demand, rest)) by {
            assert forall|lot: Text|
                #![trigger claim(s.demand, lot)]
                #![trigger rest(lot)]
                claim(s.demand, lot) >= 0 && (lookup(m.lots, lot) matches Some(x) ==> claim(
                    s.demand,
                    lot,
                ) + rest(lot) <= x.qty_received - x.qty_remaining) by {
                assert(now(lot) == rest(lot));
            }
        }
    }
}

proof fn lemma_all_back_nonneg(
    m: ReadModel,
    sale: Text,
    lines: Seq<SaleReturnV>,
    at: Seq<i64>,
    i: int,
    lot: Text,
)
    requires
        0 <= i,
        at.len() == lines.len(),
        forall|k: int|
            0 <= k < lines.len() ==> line_returnable(m, sale, #[trigger] lines[k], at[k]),
    ensures
        all_back_from(lines, i, lot) >= 0,
    decreases lines.len() - i,
{
    if i < lines.len() {
        assert(line_returnable(m, sale, lines[i], at[i]));
        lemma_back_nonneg(m, sale, lines[i].lot_returns, 0, lot);
        lemma_all_back_nonneg(m, sale, lines, at, i + 1, lot);
    }
}

proof fn lemma_fair_returns(
    m: ReadModel,
    sale: Text,
    lines: Seq<SaleReturnV>,
    at: Seq<i64>,
    i: int,
    d: Map<Text, i64>,
    done: Seq<JsonV>,
)
    requires
        0 <= i,
        at.len() == lines.len(),
        forall|k: int|
            0 <= k < lines.len() ==> line_returnable(m, sale, #[trigger] lines[k], at[k]),
        room_for(m, d, lines_rest(lines, i)),
    ensures
        return_lines_request(m, sale, lines, i, d, done) matches Err(e) ==> e == overflow(),
    decreases lines.len() - i,
{
    if i < lines.len() {
        let l = lines[i];
        let rest = lines_rest(lines, i + 1);
        let now = lines_rest(lines, i);
        assert(line_returnable(m, sale, lines[i], at[i]));
        assert forall|lot: Text| #[trigger] rest(lot) >= 0 by {
            lemma_all_back_nonneg(m, sale, lines, at, i + 1, lot);
        }
        let all = then_rest(l.lot_returns, 0, rest);
        assert(room_for(m, d, all)) by {
            assert forall|lot: Text|
                #![trigger claim(d, lot)]
                #![trigger all(lot)]
                claim(d, lot) >= 0 && (lookup(m.lots, lot) matches Some(x) ==> claim(d, lot) + all(
                    lot,
                ) <= x.qty_received - x.qty_remaining) by {
                assert(now(lot) == all(lot));
            }
        }
        let start = ReturnState { demand: d, qty: 0, price: None, done: Seq::empty() };
        lemma_fair_parts(m, sale, l, at[i], 0, start, rest);
        if let Ok(s) = return_line_request(m, sale, l, d) {
            lemma_fair_returns(
                m,
                sale,
                lines,
                at,
                i + 1,
                s.demand,
                done.push(return_line_json(l.item_id, s)),
            );
        }
    }
}

/// A return against a sale that stands is refused for nothing but a count that is no
/// integer, where every line is of parts that the sale took at one price, and no lot is
/// given back more by all lines together than it misses.
pub proof fn law_fair_sale_returns_are_not_refused(
    m: ReadModel,
    id: Text,
    original: Text,
    date: Text,
    lines: Seq<SaleReturnV>,
    at: Seq<i64>,
)
    requires
        lines.len() > 0,
        lookup(m.sales, original) matches Some(s) && !s.reversed,
        at.len() == lines.len(),
        forall|k: int|
            0 <= k < lines.len() ==> line_returnable(m, original, #[trigger] lines[k], at[k]),
        forall|lot: Text|
            lookup(m.lots, lot) matches Some(l) ==> #[trigger] all_back_from(lines, 0, lot)
                <= l.qty_received - l.qty_remaining,
    ensures
        sale_return_request(m, id, original, date, lines) matches Err(e) ==> e == overflow(),
{
    let rest = lines_rest(lines, 0);
    let d = Map::<Text, i64>::empty();
    assert(room_for(m, d, rest)) by {
        assert forall|lot: Text|
            #![trigger claim(d, lot)]
            #![trigger rest(lot)]
            claim(d, lot) >= 0 && (lookup(m.lots, lot) matches Some(x) ==> claim(d, lot) + rest(lot)
                <= x.qty_received - x.qty_remaining) by {
            assert(rest(lot) == all_back_from(lines, 0, lot));
        }
    }
    lemma_fair_returns(m, original, lines, at, 0, d, Seq::empty());
    reveal_strlit("sales");
    reveal_strlit("purchases");
    assert("sales"@.len() == 5);
    assert("purchases"@.len() == 9);
}

// ---- kinds of events ----

/// Purchases, finds and opening balances create lots; sales, purchase returns and
/// write-offs consume them, sale returns restore them; payments and allocations bear
/// allocations; and what can be reversed is all of these but opening balances, and expenses
/// and transfers.
pub proof fn law_kinds_of_effects(ty: Text)
    ensures
        categories(ty).contains(EventCategory::LotCreating) <==> ty == "PurchaseRecorded"@ || ty
            == "InventoryFound"@ || ty == "OpeningBalancesRecorded"@,
        categories(ty).contains(EventCategory::LotConsuming) <==> ty == "SaleRecorded"@ || ty
            == "PurchaseReturnRecorded"@ || ty == "InventoryAdjusted"@,
        categories(ty).contains(EventCategory::LotRestoring) <==> ty == "SaleReturnRecorded"@,
        categories(ty).contains(EventCategory::AllocationBearing) <==> ty == "PaymentMade"@ || ty
            == "PaymentReceived"@ || ty == "PaymentAllocated"@,
        categories(ty).contains(EventCategory::Transactional) <==> reversible(ty),
{
    lemma_types();
    lemma_reversible(ty);
    let c = categories(ty);
    reveal_strlit("OpeningBalancesRecorded");
    reveal_strlit("PurchaseRecorded");
    reveal_strlit("InventoryFound");
    assert("OpeningBalancesRecorded"@.len() == 23);
    assert("PurchaseRecorded"@.len() == 16);
    assert("InventoryFound"@.len() == 14);
    if c.len() > 0 {
        assert(c.contains(c[0]));
    }
    if c.contains(EventCategory::LotCreating) {
        let i = choose|i: int| 0 <= i < c.len() && c[i] == EventCategory::LotCreating;
        assert(c.len() > 0);
    }
    if c.contains(EventCategory::LotConsuming) {
        let i = choose|i: int| 0 <= i < c.len() && c[i] == EventCategory::LotConsuming;
        assert(c.len() > 0);
    }
    if c.contains(EventCategory::LotRestoring) {
        let i = choose|i: int| 0 <= i < c.len() && c[i] == EventCategory::LotRestoring;
        assert(c.len() > 0);
    }
    if c.contains(EventCategory::AllocationBearing) {
        let i = choose|i: int| 0 <= i < c.len() && c[i] == EventCategory::AllocationBearing;
        assert(c.len() > 0);
    }
}

} // verus!
