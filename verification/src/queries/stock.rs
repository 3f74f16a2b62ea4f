//! Stock on hand and what it is worth.

use crate::error::DbError;
use crate::groups::{group_total, grouped, lemma_grouped_empty, lemma_grouped_step, note};
use crate::model::Text;
use crate::queries::common::{number_result, or_overflow};
use crate::reconciliation::{stock_value, value_of_stock};
use crate::rows::rows;
use crate::sums::{accrue, total};
use crate::tables::{Lot, ReadModel, Tables};
use crate::text::same;
use vstd::prelude::*;
use vstd::string::*;

verus! {

/// Units of an item on hand.
#[derive(Debug, PartialEq, Eq)]
pub struct StockOnHand {
    pub item_id: String,
    pub qty: i64,
}

/// The item of a lot that holds units.
pub open spec fn held_key() -> spec_fn(Lot<Text>) -> Option<Text> {
    |l: Lot<Text>|
        if l.qty_remaining > 0 {
            Some(l.item_id)
        } else {
            None
        }
}

/// Units of an item on hand.
pub open spec fn units_on_hand(m: ReadModel, item: Text) -> Option<i64> {
    group_total(m.lots, held_key(), |l: Lot<Text>| l.qty_remaining as int, item)
}

/// The items of a report.
pub open spec fn stocked_items(v: Seq<StockOnHand>) -> Seq<Text> {
    Seq::new(v.len(), |i: int| v[i].item_id@)
}

fn sum_on_hand(t: &Tables, item_id: &str) -> (r: Option<i64>)
    ensures
        r == units_on_hand(t@, item_id@),
{
    let ghost s = t@.lots;
    let ghost k = item_id@;
    let ghost g = |l: Lot<Text>| l.qty_remaining as int;
    let ghost f = |l: Lot<Text>|
        if held_key()(l) == Some(k) {
            g(l)
        } else {
            0
        };
    let mut sum: Option<i64> = Some(0);
    let mut i: usize = 0;
    while i < t.lots.len()
        invariant
            i <= t.lots@.len(),
            s == rows(t.lots@),
            k == item_id@,
            g == (|l: Lot<Text>| l.qty_remaining as int),
            f == (|l: Lot<Text>|
                if held_key()(l) == Some(k) {
                    g(l)
                } else {
                    0
                }),
            sum == total(s.take(i as int), f),
        decreases t.lots@.len() - i,
    {
        assert(s.take(i + 1).drop_last() =~= s.take(i as int));
        assert(s.take(i + 1).last() == t.lots@[i as int]@);
        let l = &t.lots[i];
        let figure: i128 = if l.qty_remaining > 0 && same(l.item_id.as_str(), item_id) {
            l.qty_remaining as i128
        } else {
            0
        };
        sum = accrue(sum, figure);
        i += 1;
    }
    assert(s.take(s.len() as int) =~= s);
    sum
}

/// Units on hand of every item that has some, by item.
pub fn stock_on_hand(t: &Tables) -> (r: Result<Vec<StockOnHand>, DbError>)
    ensures
        match r {
            Ok(v) => grouped(stocked_items(v@), t@.lots, held_key()) && forall|i: int|
                0 <= i < v@.len() ==> units_on_hand(t@, (#[trigger] v@[i]).item_id@) == Some(
                    v@[i].qty,
                ),
            Err(e) => e@ == DbError::<Text>::Overflow && exists|x: Text| #[trigger]
                units_on_hand(t@, x) is None,
        },
{
    let ghost s = t@.lots;
    let mut keys: Vec<String> = Vec::new();
    let mut i: usize = 0;
    proof {
        lemma_grouped_empty(s, held_key());
        assert(rows(keys@) =~= Seq::<Text>::empty());
    }
    while i < t.lots.len()
        invariant
            i <= t.lots@.len(),
            s == rows(t.lots@),
            grouped(rows(keys@), s.take(i as int), held_key()),
        decreases t.lots@.len() - i,
    {
        assert(s[i as int] == t.lots@[i as int]@);
        let ghost before = rows(keys@);
        if t.lots[i].qty_remaining > 0 {
            note(&mut keys, t.lots[i].item_id.as_str());
        }
        proof {
            lemma_grouped_step(before, rows(keys@), s, held_key(), i as int);
        }
        i += 1;
    }
    assert(s.take(s.len() as int) =~= s);
    let mut out: Vec<StockOnHand> = Vec::new();
    let mut j: usize = 0;
    while j < keys.len()
        invariant
            j <= keys@.len(),
            out@.len() == j,
            forall|k: int|
                0 <= k < j ==> (#[trigger] out@[k]).item_id@ == rows(keys@)[k] && units_on_hand(
                    t@,
                    out@[k].item_id@,
                ) == Some(out@[k].qty),
        decreases keys@.len() - j,
    {
        let item_id = keys[j].as_str();
        match sum_on_hand(t, item_id) {
            Some(qty) => {
                out.push(StockOnHand { item_id: item_id.to_owned(), qty });
            },
            None => {
                return Err(DbError::Overflow);
            },
        }
        j += 1;
    }
    assert(stocked_items(out@) =~= rows(keys@));
    Ok(out)
}

/// What the stock is worth by its lots.
pub fn inventory_valuation(t: &Tables) -> (r: Result<i64, DbError>)
    ensures
        number_result(r) == or_overflow(stock_value(t@)),
{
    match value_of_stock(t) {
        Some(v) => Ok(v),
        None => Err(DbError::Overflow),
    }
}

} // verus!
