//! What reports say of the rows they are made from.

use crate::commands::sale::{holding, oldest_first};
use crate::dates::{age_of, days_between, within_days, Age};
use crate::model::Text;
use crate::queries::aging::{
    aged, aging_from, band_units, band_used, band_value, buckets_from, in_band, invoice_band,
    is_open, lemma_bucket_names, lot_ages_from, open_invoices, provenance, sold_ages_from,
    stock_band, AgeAtSale, AgingBucket, AgingInvoice, INVOICE_BANDS, LotAge, STOCK_BANDS,
};
use crate::rows::lookup;
use crate::sort::{before, lemma_sorted, sorted};
use crate::sums::{lemma_total_is_exact, narrow, sum_over};
use crate::tables::{Invoice, Lot, ReadModel};
use crate::text::lex_lt;
use vstd::prelude::*;

verus! {

// ---- invoices by age ----

/// The calendar tells whether days have passed by counting them.
pub open spec fn counts_days(anchor: Text, date: Text, days: i64) -> bool {
    within_days(anchor, date, days) <==> (days_between(anchor, date) matches Some(d) && d <= days)
}

/// The row is of the invoice: its id, date and what is outstanding on it.
pub open spec fn row_of(r: AgingInvoice<Text>, x: Invoice<Text>) -> bool {
    r.invoice_id == x.id && r.date == x.date && r.outstanding_minor == x.outstanding_minor
}

proof fn lemma_aging(
    s: Seq<Invoice<Text>>,
    anchor: Text,
    ages: Seq<Age>,
    i: int,
    done: Seq<AgingInvoice<Text>>,
)
    requires
        0 <= i <= s.len(),
        done.len() == i,
        ages.len() == s.len(),
        forall|k: int| 0 <= k < i ==> row_of(#[trigger] done[k], s[k]) && ages[k].days == Some(
            done[k].age_days,
        ) && done[k].bucket == invoice_band(ages[k].band as int),
        aging_from(s, ages, i, done) is Ok,
    ensures
        ({
            let r = aging_from(s, ages, i, done)->Ok_0;
            r.len() == s.len() && forall|k: int|
                0 <= k < r.len() ==> row_of(#[trigger] r[k], s[k]) && ages[k].days == Some(
                    r[k].age_days,
                ) && r[k].bucket == invoice_band(ages[k].band as int)
        }),
    decreases s.len() - i,
{
    if i < s.len() {
        let x = AgingInvoice {
            invoice_id: s[i].id,
            date: s[i].date,
            outstanding_minor: s[i].outstanding_minor,
            age_days: ages[i].days->0,
            bucket: invoice_band(ages[i].band as int),
        };
        lemma_aging(s, anchor, ages, i + 1, done.push(x));
    }
}

/// An aging report has one row for every invoice it is made from. Where the calendar
/// counts days, a row of `d` days is in the bucket 0-30d exactly where `d` is at most 30,
/// in 31-60d exactly where it is more than 30 and at most 60, in 61-90d exactly where it
/// is more than 60 and at most 90, and in 90d+ exactly where it is more than 90.
pub proof fn law_invoices_age_by_days(s: Seq<Invoice<Text>>, anchor: Text, ages: Seq<Age>)
    requires
        ages.len() == s.len(),
        forall|i: int|
            0 <= i < s.len() ==> #[trigger] ages[i] == age_of(anchor, s[i].date, INVOICE_BANDS)
                && counts_days(anchor, s[i].date, 30) && counts_days(anchor, s[i].date, 60)
                && counts_days(anchor, s[i].date, 90),
        aging_from(s, ages, 0, Seq::empty()) is Ok,
    ensures
        ({
            let r = aging_from(s, ages, 0, Seq::empty())->Ok_0;
            &&& r.len() == s.len()
            &&& forall|i: int|
                0 <= i < r.len() ==> {
                    let d = (#[trigger] r[i]).age_days;
                    &&& r[i].invoice_id == s[i].id
                    &&& r[i].date == s[i].date
                    &&& r[i].outstanding_minor == s[i].outstanding_minor
                    &&& days_between(anchor, s[i].date) == Some(d)
                    &&& r[i].bucket == "0-30d"@ <==> d <= 30
                    &&& r[i].bucket == "31-60d"@ <==> 30 < d <= 60
                    &&& r[i].bucket == "61-90d"@ <==> 60 < d <= 90
                    &&& r[i].bucket == "90d+"@ <==> d > 90
                }
        }),
{
    lemma_aging(s, anchor, ages, 0, Seq::empty());
    lemma_bucket_names();
}

/// The invoice is due: it was on credit and something is outstanding.
pub open spec fn due(x: Invoice<Text>) -> bool {
    x.terms == "credit"@ && x.outstanding_minor > 0
}

/// The invoices that age are just those on credit with something outstanding, the oldest
/// first, those of one day by their id.
pub proof fn law_due_invoices_age(t: Seq<Invoice<Text>>)
    ensures
        open_invoices(t).len() == t.filter(|x: Invoice<Text>| due(x)).len(),
        forall|x: Invoice<Text>| #[trigger]
            open_invoices(t).contains(x) <==> t.contains(x) && due(x),
        forall|i: int, j: int|
            0 <= i < j < open_invoices(t).len() ==> {
                let a = #[trigger] open_invoices(t)[i];
                let b = #[trigger] open_invoices(t)[j];
                !lex_lt(b.date, a.date) && (b.date == a.date ==> !lex_lt(b.id, a.id))
            },
{
    broadcast use vstd::seq_lib::group_to_multiset_ensures;

    let f = |x: Invoice<Text>| is_open(x);
    let g = |x: Invoice<Text>| due(x);
    assert(f =~= g);
    let s = t.filter(f);
    lemma_sorted(s);
    assert forall|x: Invoice<Text>| #[trigger] open_invoices(t).contains(x) <==> t.contains(x)
        && due(x) by {
        assert(open_invoices(t).to_multiset().count(x) == s.to_multiset().count(x));
        if s.contains(x) {
            t.lemma_filter_contains_rev(f, x);
            let i = choose|i: int| 0 <= i < s.len() && s[i] == x;
            t.lemma_filter_pred(f, i);
        }
        if t.contains(x) && due(x) {
            let i = choose|i: int| 0 <= i < t.len() && t[i] == x;
            t.lemma_filter_contains(f, i);
        }
    }
    assert forall|i: int, j: int| 0 <= i < j < open_invoices(t).len() implies {
        let a = #[trigger] open_invoices(t)[i];
        let b = #[trigger] open_invoices(t)[j];
        !lex_lt(b.date, a.date) && (b.date == a.date ==> !lex_lt(b.id, a.id))
    } by {
        assert(!before(open_invoices(t)[j], open_invoices(t)[i]));
    }
}

// ---- stock by age ----

/// The lot holds units that are more than `over` and at most `upto` days old.
pub open spec fn aged_within(
    l: Lot<Text>,
    anchor: Text,
    over: Option<i64>,
    upto: Option<i64>,
) -> bool {
    &&& l.qty_remaining > 0
    &&& over matches Some(n) ==> !within_days(anchor, l.acquired_at, n)
    &&& upto matches Some(n) ==> within_days(anchor, l.acquired_at, n)
}

/// Units of lots of an age.
pub open spec fn aged_units(
    lots: Seq<Lot<Text>>,
    anchor: Text,
    over: Option<i64>,
    upto: Option<i64>,
) -> int {
    sum_over(
        lots,
        |l: Lot<Text>|
            if aged_within(l, anchor, over, upto) {
                l.qty_remaining as int
            } else {
                0
            },
    )
}

/// What units of lots of an age cost.
pub open spec fn aged_cost(
    lots: Seq<Lot<Text>>,
    anchor: Text,
    over: Option<i64>,
    upto: Option<i64>,
) -> int {
    sum_over(
        lots,
        |l: Lot<Text>|
            if aged_within(l, anchor, over, upto) {
                l.qty_remaining * l.unit_cost_minor
            } else {
                0
            },
    )
}

/// The bucket holds units and their cost, of an age.
pub open spec fn bucket_of(
    b: AgingBucket<Text>,
    lots: Seq<Lot<Text>>,
    anchor: Text,
    over: Option<i64>,
    upto: Option<i64>,
) -> bool {
    &&& b.units == aged_units(lots, anchor, over, upto)
    &&& b.value_minor == aged_cost(lots, anchor, over, upto)
    &&& exists|k: int| 0 <= k < lots.len() && aged_within(#[trigger] lots[k], anchor, over, upto)
}

/// Sums over lots with their ages are sums over lots.
proof fn lemma_aged_sum(
    lots: Seq<Lot<Text>>,
    ages: Seq<Age>,
    f: spec_fn((Lot<Text>, Age)) -> int,
    g: spec_fn(Lot<Text>) -> int,
)
    requires
        ages.len() == lots.len(),
        forall|i: int| 0 <= i < lots.len() ==> f((#[trigger] lots[i], ages[i])) == g(lots[i]),
    ensures
        sum_over(aged(lots, ages), f) == sum_over(lots, g),
    decreases lots.len(),
{
    if lots.len() > 0 {
        let front = lots.drop_last();
        let back = ages.drop_last();
        assert forall|i: int| 0 <= i < front.len() implies f((#[trigger] front[i], back[i])) == g(
            front[i],
        ) by {
            assert(front[i] == lots[i] && back[i] == ages[i]);
        }
        lemma_aged_sum(front, back, f, g);
        assert(aged(lots, ages).drop_last() =~= aged(front, back));
        assert(aged(lots, ages).last() == (lots[lots.len() - 1], ages[lots.len() - 1]));
    }
}

/// Ages by the calendar.
pub open spec fn lots_aged(lots: Seq<Lot<Text>>, anchor: Text, ages: Seq<Age>) -> bool {
    ages.len() == lots.len() && forall|i: int|
        0 <= i < lots.len() && (#[trigger] lots[i]).qty_remaining > 0 ==> ages[i] == age_of(
            anchor,
            lots[i].acquired_at,
            STOCK_BANDS,
        )
}

proof fn lemma_bucket(
    lots: Seq<Lot<Text>>,
    anchor: Text,
    ages: Seq<Age>,
    b: int,
    over: Option<i64>,
    upto: Option<i64>,
    name: Text,
)
    requires
        lots_aged(lots, anchor, ages),
        forall|i: int|
            0 <= i < lots.len() ==> (in_band((#[trigger] lots[i], ages[i]), b) <==> aged_within(
                lots[i],
                anchor,
                over,
                upto,
            )),
        band_used(aged(lots, ages), b),
        band_units(aged(lots, ages), b) is Some,
        band_value(aged(lots, ages), b) is Some,
    ensures
        bucket_of(
            (AgingBucket {
                bucket: name,
                units: band_units(aged(lots, ages), b)->0,
                value_minor: band_value(aged(lots, ages), b)->0,
            }),
            lots,
            anchor,
            over,
            upto,
        ),
{
    let s = aged(lots, ages);
    let f = |p: (Lot<Text>, Age)|
        if in_band(p, b) {
            p.0.qty_remaining as int
        } else {
            0
        };
    let g = |p: (Lot<Text>, Age)|
        if in_band(p, b) {
            p.0.qty_remaining * p.0.unit_cost_minor
        } else {
            0
        };
    lemma_total_is_exact(s, f);
    lemma_total_is_exact(s, g);
    lemma_aged_sum(
        lots,
        ages,
        f,
        |l: Lot<Text>|
            if aged_within(l, anchor, over, upto) {
                l.qty_remaining as int
            } else {
                0
            },
    );
    lemma_aged_sum(
        lots,
        ages,
        g,
        |l: Lot<Text>|
            if aged_within(l, anchor, over, upto) {
                l.qty_remaining * l.unit_cost_minor
            } else {
                0
            },
    );
    let k = choose|k: int| 0 <= k < s.len() && in_band(#[trigger] s[k], b);
    assert(s[k] == (lots[k], ages[k]));
    assert(aged_within(lots[k], anchor, over, upto));
}

/// What is said of a bucket by its name.
pub open spec fn bucket_tells(b: AgingBucket<Text>, lots: Seq<Lot<Text>>, anchor: Text) -> bool {
    ||| b.bucket == "0-30d"@ && bucket_of(b, lots, anchor, None, Some(30))
    ||| b.bucket == "31-90d"@ && bucket_of(b, lots, anchor, Some(30), Some(90))
    ||| b.bucket == "91-180d"@ && bucket_of(b, lots, anchor, Some(90), Some(180))
    ||| b.bucket == "180d+"@ && bucket_of(b, lots, anchor, Some(180), None)
}

/// A limit that is kept keeps every later one.
pub open spec fn limits_nest(lots: Seq<Lot<Text>>, anchor: Text) -> bool {
    forall|i: int|
        0 <= i < lots.len() ==> (within_days(anchor, (#[trigger] lots[i]).acquired_at, 30)
            ==> within_days(anchor, lots[i].acquired_at, 90)) && (within_days(
            anchor,
            lots[i].acquired_at,
            90,
        ) ==> within_days(anchor, lots[i].acquired_at, 180))
}

proof fn lemma_buckets(
    lots: Seq<Lot<Text>>,
    anchor: Text,
    ages: Seq<Age>,
    b: int,
    done: Seq<AgingBucket<Text>>,
)
    requires
        0 <= b <= 4,
        lots_aged(lots, anchor, ages),
        limits_nest(lots, anchor),
        forall|k: int| 0 <= k < done.len() ==> bucket_tells(#[trigger] done[k], lots, anchor),
    ensures
        buckets_from(aged(lots, ages), b, done) matches Ok(r) ==> forall|k: int|
            0 <= k < r.len() ==> bucket_tells(#[trigger] r[k], lots, anchor),
    decreases 4 - b,
{
    let s = aged(lots, ages);
    if b < 4 && buckets_from(s, b, done) is Ok {
        if !band_used(s, b) {
            lemma_buckets(lots, anchor, ages, b + 1, done);
        } else {
            let x = AgingBucket {
                bucket: stock_band(b),
                units: band_units(s, b)->0,
                value_minor: band_value(s, b)->0,
            };
            let over: Option<i64> = if b == 0 {
                None
            } else if b == 1 {
                Some(30i64)
            } else if b == 2 {
                Some(90i64)
            } else {
                Some(180i64)
            };
            let upto: Option<i64> = if b == 0 {
                Some(30i64)
            } else if b == 1 {
                Some(90i64)
            } else if b == 2 {
                Some(180i64)
            } else {
                None
            };
            assert forall|i: int| 0 <= i < lots.len() implies (in_band(
                (#[trigger] lots[i], ages[i]),
                b,
            ) <==> aged_within(lots[i], anchor, over, upto)) by {
                if lots[i].qty_remaining > 0 {
                    assert(ages[i] == age_of(anchor, lots[i].acquired_at, STOCK_BANDS));
                }
            }
            lemma_bucket(lots, anchor, ages, b, over, upto, stock_band(b));
            assert(bucket_tells(x, lots, anchor));
            lemma_buckets(lots, anchor, ages, b + 1, done.push(x));
        }
    }
}

/// Every bucket of stock says of which age it holds units: 0-30d up to 30 days, 31-90d
/// over 30 and up to 90, 91-180d over 90 and up to 180, 180d+ over 180; with the units of
/// all lots of that age and what they cost.
pub proof fn law_stock_ages_by_days(lots: Seq<Lot<Text>>, anchor: Text, ages: Seq<Age>)
    requires
        lots_aged(lots, anchor, ages),
        limits_nest(lots, anchor),
    ensures
        buckets_from(aged(lots, ages), 0, Seq::empty()) matches Ok(r) ==> forall|k: int|
            0 <= k < r.len() ==> bucket_tells(#[trigger] r[k], lots, anchor),
{
    lemma_buckets(lots, anchor, ages, 0, Seq::empty());
}

proof fn lemma_buckets_cover(
    s: Seq<(Lot<Text>, Age)>,
    b: int,
    done: Seq<AgingBucket<Text>>,
    c: int,
)
    requires
        0 <= b <= 4,
        0 <= c < 4,
        band_used(s, c),
        c < b ==> exists|k: int| 0 <= k < done.len() && (#[trigger] done[k]).bucket == stock_band(c),
    ensures
        buckets_from(s, b, done) matches Ok(r) ==> exists|k: int|
            0 <= k < r.len() && (#[trigger] r[k]).bucket == stock_band(c),
    decreases 4 - b,
{
    if b < 4 && buckets_from(s, b, done) is Ok {
        if !band_used(s, b) {
            lemma_buckets_cover(s, b + 1, done, c);
        } else {
            let x = AgingBucket {
                bucket: stock_band(b),
                units: band_units(s, b)->0,
                value_minor: band_value(s, b)->0,
            };
            let next = done.push(x);
            assert(next[done.len() as int].bucket == stock_band(b));
            if c < b {
                let k = choose|k: int|
                    0 <= k < done.len() && (#[trigger] done[k]).bucket == stock_band(c);
                assert(next[k].bucket == stock_band(c));
            }
            lemma_buckets_cover(s, b + 1, next, c);
        }
    }
}

/// Every lot that holds units is in a bucket: one up to 30 days old in 0-30d, one over 30
/// and up to 90 in 31-90d, one over 90 and up to 180 in 91-180d, any other in 180d+.
pub proof fn law_all_stock_is_aged(lots: Seq<Lot<Text>>, anchor: Text, ages: Seq<Age>, i: int)
    requires
        lots_aged(lots, anchor, ages),
        0 <= i < lots.len(),
        lots[i].qty_remaining > 0,
    ensures
        buckets_from(aged(lots, ages), 0, Seq::empty()) matches Ok(r) ==> exists|k: int|
            0 <= k < r.len() && (#[trigger] r[k]).bucket == if within_days(
                anchor,
                lots[i].acquired_at,
                30,
            ) {
                "0-30d"@
            } else if within_days(anchor, lots[i].acquired_at, 90) {
                "31-90d"@
            } else if within_days(anchor, lots[i].acquired_at, 180) {
                "91-180d"@
            } else {
                "180d+"@
            },
{
    let s = aged(lots, ages);
    assert(s[i] == (lots[i], ages[i]));
    assert(ages[i] == age_of(anchor, lots[i].acquired_at, STOCK_BANDS));
    let c = ages[i].band as int;
    assert(in_band(s[i], c));
    lemma_buckets_cover(s, 0, Seq::empty(), c);
}

// ---- lots and sales by age ----

proof fn lemma_lot_ages(
    lots: Seq<Lot<Text>>,
    days: Seq<Option<i64>>,
    i: int,
    done: Seq<LotAge<Text>>,
)
    requires
        0 <= i <= lots.len(),
        done.len() == i,
        forall|k: int| 0 <= k < i ==> lot_aged(#[trigger] done[k], lots[k], days[k]),
        lot_ages_from(lots, days, i, done) is Ok,
    ensures
        ({
            let r = lot_ages_from(lots, days, i, done)->Ok_0;
            r.len() == lots.len() && forall|k: int|
                0 <= k < r.len() ==> lot_aged(#[trigger] r[k], lots[k], days[k])
        }),
    decreases lots.len() - i,
{
    if i < lots.len() {
        let x = LotAge {
            lot_id: lots[i].id,
            qty_remaining: lots[i].qty_remaining,
            unit_cost_minor: lots[i].unit_cost_minor,
            age_days: days[i]->0,
            value_on_hand_minor: narrow(lots[i].qty_remaining * lots[i].unit_cost_minor)->0,
        };
        lemma_lot_ages(lots, days, i + 1, done.push(x));
    }
}

/// The row says of the lot what is left of it, its cost, its age and what it is worth:
/// the units that are left times their cost.
pub open spec fn lot_aged(r: LotAge<Text>, l: Lot<Text>, days: Option<i64>) -> bool {
    &&& r.lot_id == l.id
    &&& r.qty_remaining == l.qty_remaining
    &&& r.unit_cost_minor == l.unit_cost_minor
    &&& days == Some(r.age_days)
    &&& r.value_on_hand_minor == l.qty_remaining * l.unit_cost_minor
}

/// A report on the lots of an item has one row for every one of them.
pub proof fn law_lots_are_told_one_by_one(lots: Seq<Lot<Text>>, days: Seq<Option<i64>>)
    requires
        lot_ages_from(lots, days, 0, Seq::empty()) is Ok,
    ensures
        ({
            let r = lot_ages_from(lots, days, 0, Seq::empty())->Ok_0;
            r.len() == lots.len() && forall|k: int|
                0 <= k < r.len() ==> lot_aged(#[trigger] r[k], lots[k], days[k])
        }),
{
    lemma_lot_ages(lots, days, 0, Seq::empty());
}

/// The lots of an item that are reported are those that hold units, the oldest first, those
/// of one day by their id.
pub proof fn law_stock_in_order_of_age(t: Seq<Lot<Text>>, item: Text)
    ensures
        forall|l: Lot<Text>| #[trigger]
            oldest_first(t, item).contains(l) <==> t.contains(l) && l.item_id == item
                && l.qty_remaining > 0,
        forall|i: int, j: int|
            0 <= i < j < oldest_first(t, item).len() ==> {
                let a = #[trigger] oldest_first(t, item)[i];
                let b = #[trigger] oldest_first(t, item)[j];
                !lex_lt(b.acquired_at, a.acquired_at) && (b.acquired_at == a.acquired_at
                    ==> !lex_lt(b.id, a.id))
            },
{
    broadcast use vstd::seq_lib::group_to_multiset_ensures;

    let f = holding(item);
    let s = t.filter(f);
    let r = oldest_first(t, item);
    lemma_sorted(s);
    assert forall|l: Lot<Text>| #[trigger] r.contains(l) <==> t.contains(l) && l.item_id == item
        && l.qty_remaining > 0 by {
        assert(r.to_multiset().count(l) == s.to_multiset().count(l));
        if s.contains(l) {
            t.lemma_filter_contains_rev(f, l);
            let i = choose|i: int| 0 <= i < s.len() && s[i] == l;
            t.lemma_filter_pred(f, i);
        }
        if t.contains(l) && f(l) {
            let i = choose|i: int| 0 <= i < t.len() && t[i] == l;
            t.lemma_filter_contains(f, i);
        }
    }
    assert forall|i: int, j: int| 0 <= i < j < r.len() implies {
        let a = #[trigger] oldest_first(t, item)[i];
        let b = #[trigger] oldest_first(t, item)[j];
        !lex_lt(b.acquired_at, a.acquired_at) && (b.acquired_at == a.acquired_at ==> !lex_lt(
            b.id,
            a.id,
        ))
    } by {
        assert(!before(r[j], r[i]));
    }
}

// ---- ages at sale ----

/// The row tells of consumption `k`: which item its line sold, when its sale was, when its
/// lot came in, how many days lie between, and how many units it took.
pub open spec fn told_of_sale(
    m: ReadModel,
    days: Seq<Option<i64>>,
    k: int,
    r: AgeAtSale<Text>,
) -> bool {
    &&& 0 <= k < m.consumptions.len()
    &&& r.qty_taken == m.consumptions[k].qty_taken
    &&& days[k] == Some(r.age_at_sale_days)
    &&& lookup(m.lots, m.consumptions[k].lot_id) matches Some(lot) && r.acquired_at
        == lot.acquired_at
    &&& lookup(m.sale_lines, m.consumptions[k].sale_line_id) matches Some(l) && r.item_id
        == l.item_id && (lookup(m.sales, l.sale_id) matches Some(x) && r.sale_date == x.date)
}

/// The lot, the line and the sale of consumption `k` are all there.
pub open spec fn traceable(m: ReadModel, k: int) -> bool {
    &&& 0 <= k < m.consumptions.len()
    &&& lookup(m.lots, m.consumptions[k].lot_id) is Some
    &&& lookup(m.sale_lines, m.consumptions[k].sale_line_id) matches Some(l) && lookup(
        m.sales,
        l.sale_id,
    ) is Some
}

/// Some row tells of consumption `k`.
pub open spec fn row_at_sale(
    m: ReadModel,
    days: Seq<Option<i64>>,
    k: int,
    r: Seq<AgeAtSale<Text>>,
) -> bool {
    exists|x: AgeAtSale<Text>| #[trigger] r.contains(x) && told_of_sale(m, days, k, x)
}

/// The row tells of some consumption.
pub open spec fn of_some_sale(m: ReadModel, days: Seq<Option<i64>>, x: AgeAtSale<Text>) -> bool {
    exists|k: int| #[trigger] told_of_sale(m, days, k, x)
}

/// How many of the consumptions from consumption `i` on can be traced.
pub open spec fn traced_from(m: ReadModel, i: int) -> nat
    decreases m.consumptions.len() - i,
{
    if i < 0 || i >= m.consumptions.len() {
        0
    } else {
        (if traceable(m, i) {
            1nat
        } else {
            0
        }) + traced_from(m, i + 1)
    }
}

proof fn lemma_sold_ages(
    m: ReadModel,
    days: Seq<Option<i64>>,
    i: int,
    done: Seq<AgeAtSale<Text>>,
)
    requires
        0 <= i,
        forall|x: AgeAtSale<Text>| #[trigger] done.contains(x) ==> of_some_sale(m, days, x),
        forall|k: int| #[trigger] traceable(m, k) && k < i ==> row_at_sale(m, days, k, done),
    ensures
        sold_ages_from(m, days, i, done) matches Ok(r) ==> {
            &&& r.len() == done.len() + traced_from(m, i)
            &&& forall|x: AgeAtSale<Text>| #[trigger]
                r.contains(x) ==> of_some_sale(m, days, x)
            &&& forall|k: int| #[trigger] traceable(m, k) ==> row_at_sale(m, days, k, r)
            &&& forall|a: int, b: int|
                0 <= a < b < r.len() ==> {
                    let x = #[trigger] r[a];
                    let y = #[trigger] r[b];
                    !lex_lt(y.sale_date, x.sale_date) && (y.sale_date == x.sale_date ==> !lex_lt(
                        y.item_id,
                        x.item_id,
                    ))
                }
        },
    decreases m.consumptions.len() - i,
{
    broadcast use vstd::seq_lib::group_to_multiset_ensures;

    if i >= m.consumptions.len() {
        let r = sorted(done);
        lemma_sorted(done);
        assert forall|x: AgeAtSale<Text>| #[trigger] r.contains(x) <==> done.contains(x) by {
            assert(r.to_multiset().count(x) == done.to_multiset().count(x));
        }
        assert forall|k: int| #[trigger] traceable(m, k) implies row_at_sale(m, days, k, r) by {
            assert(row_at_sale(m, days, k, done));
            let x = choose|x: AgeAtSale<Text>| #[trigger]
                done.contains(x) && told_of_sale(m, days, k, x);
            assert(r.contains(x));
        }
        assert forall|a: int, b: int| 0 <= a < b < r.len() implies {
            let x = #[trigger] r[a];
            let y = #[trigger] r[b];
            !lex_lt(y.sale_date, x.sale_date) && (y.sale_date == x.sale_date ==> !lex_lt(
                y.item_id,
                x.item_id,
            ))
        } by {
            assert(!before(r[b], r[a]));
        }
    } else if sold_ages_from(m, days, i, done) is Ok {
        let c = m.consumptions[i];
        match provenance(m, c) {
            None => {
                assert(!traceable(m, i));
                lemma_sold_ages(m, days, i + 1, done);
            },
            Some(p) => {
                assert(traceable(m, i));
                let row = AgeAtSale {
                    item_id: p.0,
                    sale_date: p.1,
                    acquired_at: p.2,
                    age_at_sale_days: days[i]->0,
                    qty_taken: c.qty_taken,
                };
                let next = done.push(row);
                assert(told_of_sale(m, days, i, row));
                assert(next[done.len() as int] == row);
                assert(next.contains(row));
                assert forall|x: AgeAtSale<Text>| #[trigger] next.contains(x) implies of_some_sale(
                    m,
                    days,
                    x,
                ) by {
                    let j = choose|j: int| 0 <= j < next.len() && next[j] == x;
                    if j < done.len() {
                        assert(done[j] == x);
                        assert(done.contains(x));
                    }
                }
                assert forall|k: int| #[trigger]
                    traceable(m, k) && k < i + 1 implies row_at_sale(m, days, k, next) by {
                    if k < i {
                        assert(row_at_sale(m, days, k, done));
                        let x = choose|x: AgeAtSale<Text>| #[trigger]
                            done.contains(x) && told_of_sale(m, days, k, x);
                        let j = choose|j: int| 0 <= j < done.len() && done[j] == x;
                        assert(next[j] == x);
                        assert(next.contains(x));
                    }
                }
                lemma_sold_ages(m, days, i + 1, next);
            },
        }
    }
}

/// The ages of sold units are told for just the consumptions whose lot, line and sale are
/// there, one row for each, in the order of the sales and then of the items.
pub proof fn law_sold_units_are_told_with_their_age(m: ReadModel, days: Seq<Option<i64>>)
    ensures
        sold_ages_from(m, days, 0, Seq::empty()) matches Ok(r) ==> {
            &&& r.len() == traced_from(m, 0)
            &&& forall|x: AgeAtSale<Text>| #[trigger]
                r.contains(x) ==> of_some_sale(m, days, x)
            &&& forall|k: int| #[trigger] traceable(m, k) ==> row_at_sale(m, days, k, r)
            &&& forall|a: int, b: int|
                0 <= a < b < r.len() ==> {
                    let x = #[trigger] r[a];
                    let y = #[trigger] r[b];
                    !lex_lt(y.sale_date, x.sale_date) && (y.sale_date == x.sale_date ==> !lex_lt(
                        y.item_id,
                        x.item_id,
                    ))
                }
        },
{
    lemma_sold_ages(m, days, 0, Seq::empty());
}

} // verus!
