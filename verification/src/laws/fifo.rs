//! Sales draw on the oldest stock first, and never on more than there is.

use crate::commands::guards::{available, claim, taken};
use crate::commands::sale::{claimed_from, draw_from, holding, oldest_first, stock, PickV};
use crate::laws::replay::lemma_distinct_in_any_order;
use crate::model::Text;
use crate::rows::{distinct, lookup, Keyed};
use crate::sort::{in_order, lemma_sorted};
use crate::sums::sum_over;
use crate::tables::{Lot, ReadModel};
use vstd::prelude::*;

verus! {

/// How many units picks take together.
pub open spec fn picked(s: Seq<PickV>) -> int {
    sum_over(s, |p: PickV| p.1 as int)
}

/// How many units of a lot the claims leave.
pub open spec fn usable(m: ReadModel, d: Map<Text, i64>, lot: Text) -> int {
    match available(m, d, lot) {
        Ok(n) => n as int,
        Err(_) => 0,
    }
}

/// Pick `p` takes units from the lot at their cost, and no more than it has.
pub open spec fn drawn(m: ReadModel, d: Map<Text, i64>, l: Lot<Text>, p: PickV) -> bool {
    p.0 == l.id && p.2 == l.unit_cost_minor && 0 < p.1 <= usable(m, d, l.id)
}

/// Pick `p` is drawn from one of the lots from lot `i` on.
pub open spec fn drawn_behind(
    m: ReadModel,
    d: Map<Text, i64>,
    lots: Seq<Lot<Text>>,
    p: PickV,
    i: int,
) -> bool {
    exists|k: int| i <= k < lots.len() && drawn(m, d, #[trigger] lots[k], p)
}

/// Some pick behind the first `n` is of the lot.
pub open spec fn picked_behind(picks: Seq<PickV>, lot: Text, n: int) -> bool {
    exists|q: int| n <= q < picks.len() && (#[trigger] picks[q]).0 == lot
}

pub proof fn lemma_draw(
    m: ReadModel,
    d: Map<Text, i64>,
    lots: Seq<Lot<Text>>,
    item: Text,
    need: i64,
    i: int,
    picks: Seq<PickV>,
)
    requires
        0 <= i,
        0 <= need,
        distinct(lots),
    ensures
        draw_from(m, d, lots, item, need, i, picks) matches Ok(r) ==> {
            &&& picks.len() <= r.len()
            &&& forall|p: int| 0 <= p < picks.len() ==> #[trigger] r[p] == picks[p]
            &&& picked(r) == picked(picks) + need
            &&& forall|p: int|
                picks.len() <= p < r.len() ==> drawn_behind(m, d, lots, #[trigger] r[p], i)
            &&& forall|p: int|
                picks.len() <= p < r.len() - 1 ==> (#[trigger] r[p]).1 == usable(m, d, r[p].0)
            &&& forall|k: int, j: int|
                i <= k < j < lots.len() && usable(m, d, lots[k].id) > 0 && picked_behind(
                    r,
                    lots[j].id,
                    picks.len() as int,
                ) ==> picked_behind(
                    r,
                    (#[trigger] lots[k]).id,
                    picks.len() as int,
                ) && (#[trigger] lots[j]).id == lots[j].id
        },
    decreases lots.len() - i,
{
    if need == 0 || i >= lots.len() {
        if need == 0 {
            let r = draw_from(m, d, lots, item, need, i, picks)->Ok_0;
            assert(r == picks);
        }
    } else if draw_from(m, d, lots, item, need, i, picks) is Ok {
        let r = draw_from(m, d, lots, item, need, i, picks)->Ok_0;
        let n = available(m, d, lots[i].id)->Ok_0;
        if n <= 0 {
            lemma_draw(m, d, lots, item, need, i + 1, picks);
            assert forall|p: int| picks.len() <= p < r.len() implies drawn_behind(
                m,
                d,
                lots,
                #[trigger] r[p],
                i,
            ) by {
                assert(drawn_behind(m, d, lots, r[p], i + 1));
            }
        } else {
            let take = if need <= n {
                need
            } else {
                n
            };
            let pick = (lots[i].id, take, lots[i].unit_cost_minor);
            let next = picks.push(pick);
            let f = |p: PickV| p.1 as int;
            assert(next.drop_last() =~= picks);
            assert(sum_over(next, f) == sum_over(picks, f) + f(pick));
            lemma_draw(m, d, lots, item, (need - take) as i64, i + 1, next);
            assert(r[picks.len() as int] == next[picks.len() as int]);
            assert(drawn(m, d, lots[i], pick));
            assert forall|p: int| 0 <= p < picks.len() implies #[trigger] r[p] == picks[p] by {
                assert(r[p] == next[p]);
            }
            assert forall|p: int| picks.len() <= p < r.len() implies drawn_behind(
                m,
                d,
                lots,
                #[trigger] r[p],
                i,
            ) by {
                if p > picks.len() {
                    assert(drawn_behind(m, d, lots, r[p], i + 1));
                }
            }
            assert forall|p: int| picks.len() <= p < r.len() - 1 implies (#[trigger] r[p]).1
                == usable(m, d, r[p].0) by {
                if p == picks.len() && take != n {
                    assert(need - take == 0);
                    assert(r == next);
                }
            }
            assert forall|k: int, j: int|
                i <= k < j < lots.len() && usable(m, d, lots[k].id) > 0 && picked_behind(
                    r,
                    lots[j].id,
                    picks.len() as int,
                ) implies picked_behind(r, (#[trigger] lots[k]).id, picks.len() as int) && (
            #[trigger] lots[j]).id == lots[j].id by {
                if k == i {
                    assert(r[picks.len() as int].0 == lots[k].id);
                } else {
                    let q = choose|q: int|
                        picks.len() <= q < r.len() && (#[trigger] r[q]).0 == lots[j].id;
                    if q == picks.len() {
                        assert(lots[i].key() != lots[j].key());
                    } else {
                        assert(picked_behind(r, lots[j].id, next.len() as int));
                        assert(picked_behind(r, lots[k].id, next.len() as int));
                        let w = choose|w: int|
                            next.len() <= w < r.len() && (#[trigger] r[w]).0 == lots[k].id;
                        assert(r[w].0 == lots[k].id);
                    }
                }
            }
        }
    }
}

/// The lots of an item that hold units, in any order.
pub proof fn lemma_oldest_first(t: Seq<Lot<Text>>, item: Text)
    requires
        distinct(t),
    ensures
        distinct(oldest_first(t, item)),
        in_order(oldest_first(t, item)),
{
    let held = stock(t, item);
    lemma_sorted(held);
    lemma_filter_distinct(t, holding(item));
    lemma_distinct_in_any_order(held, oldest_first(t, item));
}

/// Leaving rows out leaves keys that occur once.
pub proof fn lemma_filter_distinct<R: Keyed>(t: Seq<R>, f: spec_fn(R) -> bool)
    requires
        distinct(t),
    ensures
        distinct(t.filter(f)),
    decreases t.len(),
{
    reveal(Seq::filter);
    if t.len() > 0 {
        let front = t.drop_last();
        assert(distinct(front)) by {
            assert forall|i: int, j: int| 0 <= i < j < front.len() implies (
            #[trigger] front[i]).key() != (#[trigger] front[j]).key() by {
                assert(front[i] == t[i] && front[j] == t[j]);
            }
        }
        lemma_filter_distinct(front, f);
        let s = front.filter(f);
        if f(t.last()) {
            let r = s.push(t.last());
            assert forall|i: int, j: int| 0 <= i < j < r.len() implies (#[trigger] r[i]).key() != (
            #[trigger] r[j]).key() by {
                if j == s.len() {
                    assert(s.contains(s[i]));
                    front.lemma_filter_contains_rev(f, s[i]);
                    let k = choose|k: int| 0 <= k < front.len() && front[k] == s[i];
                    assert(t[k].key() != t[t.len() - 1].key());
                }
            }
        }
    }
}

/// What is drawn for a sale adds up to what is sold; every pick is at its lot's cost and
/// within what the lot has left; a lot is drained before the next is touched; and no lot
/// is touched while an older one that has units is not.
pub proof fn law_oldest_stock_goes_first(
    m: ReadModel,
    d: Map<Text, i64>,
    item: Text,
    qty: i64,
)
    requires
        0 <= qty,
        distinct(m.lots),
        draw_from(m, d, oldest_first(m.lots, item), item, qty, 0, Seq::empty()) is Ok,
    ensures
        ({
            let lots = oldest_first(m.lots, item);
            let r = draw_from(m, d, lots, item, qty, 0, Seq::empty())->Ok_0;
            &&& in_order(lots)
            &&& picked(r) == qty
            &&& forall|p: int| 0 <= p < r.len() ==> drawn_behind(m, d, lots, #[trigger] r[p], 0)
            &&& forall|p: int|
                0 <= p < r.len() - 1 ==> (#[trigger] r[p]).1 == usable(m, d, r[p].0)
            &&& forall|k: int, j: int|
                0 <= k < j < lots.len() && usable(m, d, (#[trigger] lots[k]).id) > 0
                    && picked_behind(r, (#[trigger] lots[j]).id, 0) ==> picked_behind(
                    r,
                    lots[k].id,
                    0,
                )
        }),
{
    let lots = oldest_first(m.lots, item);
    lemma_oldest_first(m.lots, item);
    lemma_draw(m, d, lots, item, qty, 0, Seq::empty());
}

/// How many units of a lot picks take from pick `i` on.
pub open spec fn picked_of(picks: Seq<PickV>, lot: Text, i: int) -> int
    decreases picks.len() - i,
{
    if i < 0 || i >= picks.len() {
        0
    } else {
        (if picks[i].0 == lot {
            picks[i].1 as int
        } else {
            0
        }) + picked_of(picks, lot, i + 1)
    }
}

/// No lot is claimed beyond what it has.
pub open spec fn within_stock(m: ReadModel, d: Map<Text, i64>) -> bool {
    forall|lot: Text| #[trigger]
        d.contains_key(lot) ==> (lookup(m.lots, lot) matches Some(l) && d[lot] <= l.qty_remaining)
}

/// Claims that are granted are what was claimed before and what is picked, and stay
/// within what every lot has.
pub proof fn law_claims_stay_within_stock(
    m: ReadModel,
    d: Map<Text, i64>,
    item: Text,
    picks: Seq<PickV>,
    i: int,
    lot: Text,
)
    requires
        0 <= i,
        within_stock(m, d),
        claimed_from(m, d, item, picks, i) is Ok,
    ensures
        within_stock(m, claimed_from(m, d, item, picks, i)->Ok_0),
        claim(claimed_from(m, d, item, picks, i)->Ok_0, lot) == claim(d, lot) + picked_of(
            picks,
            lot,
            i,
        ),
    decreases picks.len() - i,
{
    if i < picks.len() {
        let e = taken(m, d, picks[i].0, picks[i].1)->Ok_0;
        assert(within_stock(m, e)) by {
            assert forall|lot: Text| #[trigger] e.contains_key(lot) implies (lookup(
                m.lots,
                lot,
            ) matches Some(l) && e[lot] <= l.qty_remaining) by {
                if lot != picks[i].0 {
                    assert(d.contains_key(lot));
                }
            }
        }
        law_claims_stay_within_stock(m, e, item, picks, i + 1, lot);
    }
}

} // verus!
