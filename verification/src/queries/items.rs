//! Sums by item.

use crate::error::DbError;
use crate::groups::{ascending, group_total, grouped, lemma_grouped_empty, lemma_grouped_step, note};
use crate::model::Text;
use crate::reconciliation::{is_standing, stands};
use crate::rows::{find, lookup, rows};
use crate::sums::{accrue, total};
use crate::tables::{ReadModel, ReturnLine, SaleLine, Tables};
use crate::text::{lex_lt, same};
use vstd::prelude::*;
use vstd::string::*;

verus! {

/// The line counts: every line does, or only those of standing sales.
pub open spec fn in_scope(m: ReadModel, l: SaleLine<Text>, all: bool) -> bool {
    all || stands(m, l)
}

/// The item of a sale line that counts.
pub open spec fn item_key(m: ReadModel, all: bool) -> spec_fn(SaleLine<Text>) -> Option<Text> {
    |l: SaleLine<Text>|
        if in_scope(m, l, all) {
            Some(l.item_id)
        } else {
            None
        }
}

pub open spec fn qty_figure() -> spec_fn(SaleLine<Text>) -> int {
    |l: SaleLine<Text>| l.qty as int
}

pub open spec fn line_revenue_figure() -> spec_fn(SaleLine<Text>) -> int {
    |l: SaleLine<Text>| l.revenue_minor as int
}

pub open spec fn cogs_figure() -> spec_fn(SaleLine<Text>) -> int {
    |l: SaleLine<Text>| l.cogs_minor as int
}

pub open spec fn profit_figure() -> spec_fn(SaleLine<Text>) -> int {
    |l: SaleLine<Text>| l.revenue_minor - l.cogs_minor
}

/// The sum of a figure over the sale lines of an item that count.
pub open spec fn item_total(
    m: ReadModel,
    all: bool,
    figure: spec_fn(SaleLine<Text>) -> int,
    item: Text,
) -> Option<i64> {
    group_total(m.sale_lines, item_key(m, all), figure, item)
}

fn counts_for(t: &Tables, l: &SaleLine, all: bool) -> (r: bool)
    ensures
        r == in_scope(t@, l@, all),
{
    all || is_standing(t, l)
}

fn sold_items(t: &Tables, all: bool) -> (r: Vec<String>)
    ensures
        grouped(rows(r@), t@.sale_lines, item_key(t@, all)),
{
    let ghost s = t@.sale_lines;
    let ghost key = item_key(t@, all);
    let mut keys: Vec<String> = Vec::new();
    let mut i: usize = 0;
    proof {
        lemma_grouped_empty(s, key);
        assert(rows(keys@) =~= Seq::<Text>::empty());
    }
    while i < t.sale_lines.len()
        invariant
            i <= t.sale_lines@.len(),
            s == rows(t.sale_lines@),
            key == item_key(t@, all),
            grouped(rows(keys@), s.take(i as int), key),
        decreases t.sale_lines@.len() - i,
    {
        assert(s[i as int] == t.sale_lines@[i as int]@);
        let ghost before = rows(keys@);
        if counts_for(t, &t.sale_lines[i], all) {
            note(&mut keys, t.sale_lines[i].item_id.as_str());
        }
        proof {
            lemma_grouped_step(before, rows(keys@), s, key, i as int);
        }
        i += 1;
    }
    assert(s.take(s.len() as int) =~= s);
    keys
}

/// Units, revenue, cost and profit of an item.
struct ItemSums {
    qty: Option<i64>,
    revenue: Option<i64>,
    cogs: Option<i64>,
    profit: Option<i64>,
}

fn item_sums(t: &Tables, all: bool, item_id: &str) -> (r: ItemSums)
    ensures
        r.qty == item_total(t@, all, qty_figure(), item_id@),
        r.revenue == item_total(t@, all, line_revenue_figure(), item_id@),
        r.cogs == item_total(t@, all, cogs_figure(), item_id@),
        r.profit == item_total(t@, all, profit_figure(), item_id@),
{
    let ghost s = t@.sale_lines;
    let ghost key = item_key(t@, all);
    let ghost k = item_id@;
    let ghost f1 = |l: SaleLine<Text>|
        if key(l) == Some(k) {
            qty_figure()(l)
        } else {
            0
        };
    let ghost f2 = |l: SaleLine<Text>|
        if key(l) == Some(k) {
            line_revenue_figure()(l)
        } else {
            0
        };
    let ghost f3 = |l: SaleLine<Text>|
        if key(l) == Some(k) {
            cogs_figure()(l)
        } else {
            0
        };
    let ghost f4 = |l: SaleLine<Text>|
        if key(l) == Some(k) {
            profit_figure()(l)
        } else {
            0
        };
    let mut sums = ItemSums { qty: Some(0), revenue: Some(0), cogs: Some(0), profit: Some(0) };
    let mut i: usize = 0;
    while i < t.sale_lines.len()
        invariant
            i <= t.sale_lines@.len(),
            s == rows(t.sale_lines@),
            key == item_key(t@, all),
            k == item_id@,
            f1 == (|l: SaleLine<Text>|
                if key(l) == Some(k) {
                    qty_figure()(l)
                } else {
                    0
                }),
            f2 == (|l: SaleLine<Text>|
                if key(l) == Some(k) {
                    line_revenue_figure()(l)
                } else {
                    0
                }),
            f3 == (|l: SaleLine<Text>|
                if key(l) == Some(k) {
                    cogs_figure()(l)
                } else {
                    0
                }),
            f4 == (|l: SaleLine<Text>|
                if key(l) == Some(k) {
                    profit_figure()(l)
                } else {
                    0
                }),
            sums.qty == total(s.take(i as int), f1),
            sums.revenue == total(s.take(i as int), f2),
            sums.cogs == total(s.take(i as int), f3),
            sums.profit == total(s.take(i as int), f4),
        decreases t.sale_lines@.len() - i,
    {
        assert(s.take(i + 1).drop_last() =~= s.take(i as int));
        assert(s.take(i + 1).last() == t.sale_lines@[i as int]@);
        let l = &t.sale_lines[i];
        let (qty, revenue, cogs): (i128, i128, i128) = if same(l.item_id.as_str(), item_id)
            && counts_for(t, l, all) {
            (l.qty as i128, l.revenue_minor as i128, l.cogs_minor as i128)
        } else {
            (0, 0, 0)
        };
        sums.qty = accrue(sums.qty, qty);
        sums.revenue = accrue(sums.revenue, revenue);
        sums.cogs = accrue(sums.cogs, cogs);
        sums.profit = accrue(sums.profit, revenue - cogs);
        i += 1;
    }
    assert(s.take(s.len() as int) =~= s);
    sums
}

/// Revenue, cost and gross profit of an item.
#[derive(Debug, PartialEq, Eq)]
pub struct ItemMargin {
    pub item_id: String,
    pub revenue_minor: i64,
    pub cogs_minor: i64,
    /// What a margin in percent of the revenue is worked out from.
    pub profit_minor: i64,
}

/// The items of a report.
pub open spec fn margin_items(v: Seq<ItemMargin>) -> Seq<Text> {
    Seq::new(v.len(), |i: int| v[i].item_id@)
}

/// Revenue, cost and gross profit of every item with a standing sale, by item.
pub fn gross_margin_per_item(t: &Tables) -> (r: Result<Vec<ItemMargin>, DbError>)
    ensures
        match r {
            Ok(v) => grouped(margin_items(v@), t@.sale_lines, item_key(t@, false)) && forall|i: int|
                0 <= i < v@.len() ==> item_total(
                    t@,
                    false,
                    line_revenue_figure(),
                    (#[trigger] v@[i]).item_id@,
                ) == Some(v@[i].revenue_minor) && item_total(
                    t@,
                    false,
                    cogs_figure(),
                    v@[i].item_id@,
                ) == Some(v@[i].cogs_minor) && item_total(
                    t@,
                    false,
                    profit_figure(),
                    v@[i].item_id@,
                ) == Some(v@[i].profit_minor),
            Err(e) => e@ == DbError::<Text>::Overflow && exists|x: Text| #[trigger]
                item_total(t@, false, line_revenue_figure(), x) is None || item_total(
                    t@,
                    false,
                    cogs_figure(),
                    x,
                ) is None || item_total(t@, false, profit_figure(), x) is None,
        },
{
    let keys = sold_items(t, false);
    let mut out: Vec<ItemMargin> = Vec::new();
    let mut j: usize = 0;
    while j < keys.len()
        invariant
            j <= keys@.len(),
            out@.len() == j,
            forall|k: int|
                0 <= k < j ==> (#[trigger] out@[k]).item_id@ == rows(keys@)[k] && item_total(
                    t@,
                    false,
                    line_revenue_figure(),
                    out@[k].item_id@,
                ) == Some(out@[k].revenue_minor) && item_total(
                    t@,
                    false,
                    cogs_figure(),
                    out@[k].item_id@,
                ) == Some(out@[k].cogs_minor) && item_total(
                    t@,
                    false,
                    profit_figure(),
                    out@[k].item_id@,
                ) == Some(out@[k].profit_minor),
        decreases keys@.len() - j,
    {
        let item_id = keys[j].as_str();
        let sums = item_sums(t, false, item_id);
        match (sums.revenue, sums.cogs, sums.profit) {
            (Some(revenue_minor), Some(cogs_minor), Some(profit_minor)) => {
                out.push(
                    ItemMargin {
                        item_id: item_id.to_owned(),
                        revenue_minor,
                        cogs_minor,
                        profit_minor,
                    },
                );
            },
            _ => {
                return Err(DbError::Overflow);
            },
        }
        j += 1;
    }
    assert(margin_items(out@) =~= rows(keys@));
    Ok(out)
}

/// Units and gross profit of an item.
#[derive(Debug, PartialEq, Eq)]
pub struct SellerRow {
    pub item_id: String,
    pub units: i64,
    pub profit_minor: i64,
}

/// The items of a report.
pub open spec fn seller_items(v: Seq<SellerRow>) -> Seq<Text> {
    Seq::new(v.len(), |i: int| v[i].item_id@)
}

/// Best sellers first; items that sold alike in ascending order.
pub open spec fn best_first(v: Seq<SellerRow>) -> bool {
    forall|i: int, j: int|
        0 <= i < j < v.len() ==> (#[trigger] v[i]).units > (#[trigger] v[j]).units || (v[i].units
            == v[j].units && lex_lt(v[i].item_id@, v[j].item_id@))
}

/// The row says what its item sold.
pub open spec fn sold_right(m: ReadModel, s: SellerRow) -> bool {
    item_total(m, false, qty_figure(), s.item_id@) == Some(s.units) && item_total(
        m,
        false,
        profit_figure(),
        s.item_id@,
    ) == Some(s.profit_minor)
}

fn place_seller(out: &mut Vec<SellerRow>, e: SellerRow)
    requires
        best_first(old(out)@),
        forall|k: int|
            0 <= k < old(out)@.len() ==> lex_lt((#[trigger] old(out)@[k]).item_id@, e.item_id@),
    ensures
        best_first(final(out)@),
        exists|at: int|
            0 <= at <= old(out)@.len() && final(out)@ == #[trigger] old(out)@.insert(at, e),
{
    let ghost s = out@;
    let mut at: usize = out.len();
    while at > 0 && out[at - 1].units < e.units
        invariant
            at <= out@.len(),
            out@ == s,
            forall|j: int| at <= j < s.len() ==> (#[trigger] s[j]).units < e.units,
        ensures
            at > 0 ==> s[at - 1].units >= e.units,
        decreases at,
    {
        at -= 1;
    }
    proof {
        let r = s.insert(at as int, e);
        assert forall|i: int, j: int| 0 <= i < j < r.len() implies (#[trigger] r[i]).units > (
        #[trigger] r[j]).units || (r[i].units == r[j].units && lex_lt(r[i].item_id@, r[j].item_id@)) by {
            if j < at {
                assert(r[i] == s[i] && r[j] == s[j]);
            } else if j == at {
                assert(r[i] == s[i]);
                if i < at - 1 {
                    assert(s[i].units >= s[at - 1].units);
                }
            } else if i < at {
                assert(r[i] == s[i] && r[j] == s[j - 1]);
            } else if i == at {
                assert(r[j] == s[j - 1]);
            } else {
                assert(r[i] == s[i - 1] && r[j] == s[j - 1]);
            }
        }
    }
    out.insert(at, e);
}

/// Units and gross profit of every item with a standing sale, best sellers first.
pub fn sellers_by_units(t: &Tables) -> (r: Result<Vec<SellerRow>, DbError>)
    ensures
        match r {
            Ok(v) => {
                &&& best_first(v@)
                &&& forall|i: int| 0 <= i < v@.len() ==> sold_right(t@, #[trigger] v@[i])
                &&& forall|x: Text| #[trigger]
                    seller_items(v@).contains(x) <==> exists|k: int|
                        0 <= k < t@.sale_lines.len() && item_key(t@, false)(
                            #[trigger] t@.sale_lines[k],
                        ) == Some(x)
            },
            Err(e) => e@ == DbError::<Text>::Overflow && exists|x: Text| #[trigger]
                item_total(t@, false, qty_figure(), x) is None || item_total(
                    t@,
                    false,
                    profit_figure(),
                    x,
                ) is None,
        },
{
    let keys = sold_items(t, false);
    let ghost ks = rows(keys@);
    let mut out: Vec<SellerRow> = Vec::new();
    let mut j: usize = 0;
    assert(seller_items(out@) =~= ks.take(0));
    while j < keys.len()
        invariant
            j <= keys@.len(),
            ks == rows(keys@),
            ascending(ks),
            best_first(out@),
            forall|k: int| 0 <= k < out@.len() ==> sold_right(t@, #[trigger] out@[k]),
            forall|x: Text| #[trigger]
                seller_items(out@).contains(x) <==> ks.take(j as int).contains(x),
        decreases keys@.len() - j,
    {
        let item_id = keys[j].as_str();
        let sums = item_sums(t, false, item_id);
        match (sums.qty, sums.profit) {
            (Some(units), Some(profit_minor)) => {
                let row = SellerRow { item_id: item_id.to_owned(), units, profit_minor };
                let ghost was = out@;
                assert(ks[j as int] == item_id@);
                proof {
                    assert forall|k: int| 0 <= k < was.len() implies lex_lt(
                        (#[trigger] was[k]).item_id@,
                        row.item_id@,
                    ) by {
                        assert(seller_items(was)[k] == was[k].item_id@);
                        assert(seller_items(was).contains(was[k].item_id@));
                        let p = ks.take(j as int);
                        let n = choose|n: int| 0 <= n < p.len() && p[n] == was[k].item_id@;
                        assert(ks[n] == was[k].item_id@);
                    }
                }
                place_seller(&mut out, row);
                proof {
                    let at = choose|at: int|
                        0 <= at <= was.len() && out@ == #[trigger] was.insert(at, row);
                    assert forall|k: int| 0 <= k < out@.len() implies sold_right(
                        t@,
                        #[trigger] out@[k],
                    ) by {
                        if k < at {
                            assert(out@[k] == was[k]);
                        } else if k > at {
                            assert(out@[k] == was[k - 1]);
                        }
                    }
                    lemma_one_more(seller_items(was), seller_items(out@), at, ks, j as int);
                }
            },
            _ => {
                return Err(DbError::Overflow);
            },
        }
        j += 1;
    }
    assert(ks.take(ks.len() as int) =~= ks);
    Ok(out)
}

/// A key put anywhere into a run: the run holds the keys up to and with that one.
proof fn lemma_one_more(before: Seq<Text>, after: Seq<Text>, at: int, keys: Seq<Text>, j: int)
    requires
        0 <= j < keys.len(),
        0 <= at <= before.len(),
        after =~= before.insert(at, keys[j]),
        forall|x: Text| #[trigger] before.contains(x) <==> keys.take(j).contains(x),
    ensures
        forall|x: Text| #[trigger] after.contains(x) <==> keys.take(j + 1).contains(x),
{
    let p = keys.take(j);
    let q = keys.take(j + 1);
    assert forall|x: Text| #[trigger] after.contains(x) <==> q.contains(x) by {
        if after.contains(x) {
            let n = choose|n: int| 0 <= n < after.len() && after[n] == x;
            if n == at {
                assert(q[j] == x);
            } else {
                let o = if n < at {
                    n
                } else {
                    n - 1
                };
                assert(before[o] == x);
                assert(before.contains(x));
                let k = choose|k: int| 0 <= k < p.len() && p[k] == x;
                assert(q[k] == x);
            }
        }
        if q.contains(x) {
            let k = choose|k: int| 0 <= k < q.len() && q[k] == x;
            if k == j {
                assert(after[at] == x);
            } else {
                assert(p[k] == x);
                assert(before.contains(x));
                let n = choose|n: int| 0 <= n < before.len() && before[n] == x;
                if n < at {
                    assert(after[n] == x);
                } else {
                    assert(after[n + 1] == x);
                }
            }
        }
    }
}

/// Units sold and returned of an item.
#[derive(Debug, PartialEq, Eq)]
pub struct ReturnRate {
    pub item_id: String,
    pub sold_qty: i64,
    pub returned_qty: i64,
}

/// The return line brings units of an item back from a sale.
pub open spec fn brought_back(m: ReadModel, l: ReturnLine<Text>, item: Text) -> bool {
    l.item_id == item && (lookup(m.returns, l.return_id) matches Some(r) && r.return_type
        == "sale_return"@)
}

/// Units of an item that came back from sales.
pub open spec fn returned_units(m: ReadModel, item: Text) -> Option<i64> {
    total(
        m.return_lines,
        |l: ReturnLine<Text>|
            if brought_back(m, l, item) {
                l.qty as int
            } else {
                0
            },
    )
}

fn sum_returned_units(t: &Tables, item_id: &str) -> (r: Option<i64>)
    ensures
        r == returned_units(t@, item_id@),
{
    let ghost m = t@;
    let ghost s = m.return_lines;
    let ghost f = |l: ReturnLine<Text>|
        if brought_back(m, l, item_id@) {
            l.qty as int
        } else {
            0
        };
    let mut sum: Option<i64> = Some(0);
    let mut i: usize = 0;
    while i < t.return_lines.len()
        invariant
            i <= t.return_lines@.len(),
            m == t@,
            s == rows(t.return_lines@),
            f == (|l: ReturnLine<Text>|
                if brought_back(m, l, item_id@) {
                    l.qty as int
                } else {
                    0
                }),
            sum == total(s.take(i as int), f),
        decreases t.return_lines@.len() - i,
    {
        assert(s.take(i + 1).drop_last() =~= s.take(i as int));
        assert(s.take(i + 1).last() == t.return_lines@[i as int]@);
        let l = &t.return_lines[i];
        let back = same(l.item_id.as_str(), item_id) && match find(
            &t.returns,
            l.return_id.as_str(),
        ) {
            Some(k) => same(t.returns[k].return_type.as_str(), "sale_return"),
            None => false,
        };
        let figure: i128 = if back {
            l.qty as i128
        } else {
            0
        };
        sum = accrue(sum, figure);
        i += 1;
    }
    assert(s.take(s.len() as int) =~= s);
    sum
}

/// The items of a report.
pub open spec fn returned_items(v: Seq<ReturnRate>) -> Seq<Text> {
    Seq::new(v.len(), |i: int| v[i].item_id@)
}

/// Units sold and returned of every item that was ever sold, by item.
pub fn return_rate_per_item(t: &Tables) -> (r: Result<Vec<ReturnRate>, DbError>)
    ensures
        match r {
            Ok(v) => grouped(returned_items(v@), t@.sale_lines, item_key(t@, true)) && forall|
                i: int,
            |
                0 <= i < v@.len() ==> item_total(
                    t@,
                    true,
                    qty_figure(),
                    (#[trigger] v@[i]).item_id@,
                ) == Some(v@[i].sold_qty) && returned_units(t@, v@[i].item_id@) == Some(
                    v@[i].returned_qty,
                ),
            Err(e) => e@ == DbError::<Text>::Overflow && exists|x: Text| #[trigger]
                item_total(t@, true, qty_figure(), x) is None || returned_units(t@, x) is None,
        },
{
    let keys = sold_items(t, true);
    let mut out: Vec<ReturnRate> = Vec::new();
    let mut j: usize = 0;
    while j < keys.len()
        invariant
            j <= keys@.len(),
            out@.len() == j,
            forall|k: int|
                0 <= k < j ==> (#[trigger] out@[k]).item_id@ == rows(keys@)[k] && item_total(
                    t@,
                    true,
                    qty_figure(),
                    out@[k].item_id@,
                ) == Some(out@[k].sold_qty) && returned_units(t@, out@[k].item_id@) == Some(
                    out@[k].returned_qty,
                ),
        decreases keys@.len() - j,
    {
        let item_id = keys[j].as_str();
        let sums = item_sums(t, true, item_id);
        match (sums.qty, sum_returned_units(t, item_id)) {
            (Some(sold_qty), Some(returned_qty)) => {
                out.push(ReturnRate { item_id: item_id.to_owned(), sold_qty, returned_qty });
            },
            _ => {
                return Err(DbError::Overflow);
            },
        }
        j += 1;
    }
    assert(returned_items(out@) =~= rows(keys@));
    Ok(out)
}

} // verus!
