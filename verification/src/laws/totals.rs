//! What the figures of reports add up.

use crate::groups::{group_total, grouped};
use crate::json::{opt_txt, JsonV};
use crate::laws::periods::{lemma_sum_plus, lemma_sum_same, lemma_total_same};
use crate::laws::reversal::share;
use crate::model::Text;
use crate::queries::common::since;
use crate::queries::items::{
    brought_back, cogs_figure, item_key, item_total, line_revenue_figure, profit_figure, qty_figure,
    returned_units,
};
use crate::queries::monthly::{dated, month_key, revenue_figure, units_figure, DatedLine};
use crate::queries::profit::{
    gross_profit_outcome, net_profit_outcome, of_type, operating, recent, recent_profit,
};
use crate::queries::statements::{balance_sheet_outcome, type_total};
use crate::queries::stock::{held_key, units_on_hand};
use crate::reconciliation::{lot_value, stock_value};
use crate::rows::{lookup, own};
use crate::sort::{before, lemma_sorted, sorted};
use crate::sums::{lemma_total_is_exact, sum_over, total};
use crate::tables::{Account, Balance, JournalLine, Lot, ReadModel, ReturnLine, SaleLine};
use crate::text::{lemma_lex_asymmetric, lemma_lex_irreflexive, lemma_lex_total, lex_le, lex_lt};
use vstd::prelude::*;

verus! {

// ---- the balance sheet ----

/// The balances of all accounts whose document gives them the type.
pub open spec fn balances_of_type(t: Seq<Account<Text, JsonV>>, ty: Text) -> int {
    sum_over(
        t,
        |a: Account<Text, JsonV>|
            if opt_txt(a.doc, "type"@) == Some(ty) {
                a.balance_minor as int
            } else {
                0
            },
    )
}

proof fn lemma_type_total(m: ReadModel, ty: Text)
    ensures
        type_total(m, ty) matches Some(v) ==> v == balances_of_type(m.accounts, ty),
{
    let f = |a: Account<Text, JsonV>|
        if of_type(a, ty) {
            a.balance_minor as int
        } else {
            0
        };
    let g = |a: Account<Text, JsonV>|
        if opt_txt(a.doc, "type"@) == Some(ty) {
            a.balance_minor as int
        } else {
            0
        };
    lemma_total_is_exact(m.accounts, f);
    lemma_sum_same(m.accounts, f, g);
}

/// A balance sheet gives as assets, liabilities and equity the balances of the accounts of
/// those types.
pub proof fn law_balance_sheet_adds_up(m: ReadModel)
    ensures
        balance_sheet_outcome(m) matches Ok(b) ==> {
            &&& b.assets_minor == balances_of_type(m.accounts, "asset"@)
            &&& b.liabilities_minor == balances_of_type(m.accounts, "liability"@)
            &&& b.equity_minor == balances_of_type(m.accounts, "equity"@)
        },
{
    lemma_type_total(m, "asset"@);
    lemma_type_total(m, "liability"@);
    lemma_type_total(m, "equity"@);
}

// ---- profit from a day on ----

/// The sale of the line is there and not reversed.
pub open spec fn unreversed(m: ReadModel, l: SaleLine<Text>) -> bool {
    lookup(m.sales, l.sale_id) matches Some(s) && !s.reversed
}

/// The line is of a sale that is not reversed, and dated no earlier than a day.
pub open spec fn sold_since(m: ReadModel, l: SaleLine<Text>, day: Text) -> bool {
    unreversed(m, l) && !lex_lt(l.date, day)
}

/// What lines sold since a day brought.
pub open spec fn revenue_since(m: ReadModel, day: Text) -> int {
    sum_over(
        m.sale_lines,
        |l: SaleLine<Text>|
            if sold_since(m, l, day) {
                l.revenue_minor as int
            } else {
                0
            },
    )
}

/// What lines sold since a day cost.
pub open spec fn cost_since(m: ReadModel, day: Text) -> int {
    sum_over(
        m.sale_lines,
        |l: SaleLine<Text>|
            if sold_since(m, l, day) {
                l.cogs_minor as int
            } else {
                0
            },
    )
}

/// What was debited since a day, less what was credited, to expense accounts other than
/// cost of goods.
pub open spec fn expense_since(m: ReadModel, day: Text) -> int {
    sum_over(
        m.journal,
        |l: JournalLine<Text>|
            if !lex_lt(l.date, day) && (lookup(m.accounts, l.account_id) matches Some(a) && opt_txt(
                a.doc,
                "type"@,
            ) == Some("expense"@) && opt_txt(a.doc, "system_role"@) != Some("cogs"@)) {
                l.debit_minor - l.credit_minor
            } else {
                0
            },
    )
}

/// A day is not before another exactly where the other is that day or comes before it.
proof fn lemma_not_before(day: Text, date: Text)
    ensures
        lex_le(day, date) <==> !lex_lt(date, day),
{
    lemma_lex_total(day, date);
    lemma_lex_irreflexive(day);
    if lex_lt(day, date) {
        lemma_lex_asymmetric(day, date);
    }
}

/// Gross profit since a day is what the lines of sales that are not reversed brought, dated
/// no earlier than that day, less what they cost.
pub proof fn law_gross_profit_adds_up(m: ReadModel, day: Text)
    ensures
        gross_profit_outcome(m, Some(day)) matches Ok(g) ==> {
            &&& g.revenue_minor == revenue_since(m, day)
            &&& g.cogs_minor == cost_since(m, day)
            &&& g.gross_profit_minor == g.revenue_minor - g.cogs_minor
        },
        recent_profit(m, Some(day)) matches Some(p) ==> p == revenue_since(m, day) - cost_since(
            m,
            day,
        ),
{
    let limit = Some(day);
    let f = |l: SaleLine<Text>|
        if recent(m, l, limit) {
            l.revenue_minor as int
        } else {
            0
        };
    let g = |l: SaleLine<Text>|
        if recent(m, l, limit) {
            l.cogs_minor as int
        } else {
            0
        };
    let h = |l: SaleLine<Text>|
        if recent(m, l, limit) {
            l.revenue_minor - l.cogs_minor
        } else {
            0
        };
    let f1 = |l: SaleLine<Text>|
        if sold_since(m, l, day) {
            l.revenue_minor as int
        } else {
            0
        };
    let g1 = |l: SaleLine<Text>|
        if sold_since(m, l, day) {
            l.cogs_minor as int
        } else {
            0
        };
    let t = m.sale_lines;
    lemma_total_is_exact(t, f);
    lemma_total_is_exact(t, g);
    lemma_total_is_exact(t, h);
    assert forall|i: int| 0 <= i < t.len() implies f(#[trigger] t[i]) == f1(t[i]) && g(t[i]) == g1(
        t[i],
    ) && f1(t[i]) == h(t[i]) + g1(t[i]) by {
        lemma_not_before(day, t[i].date);
    }
    lemma_sum_same(t, f, f1);
    lemma_sum_same(t, g, g1);
    lemma_sum_plus(t, h, g1, f1);
}

/// Where the day is none, no line counts.
pub proof fn law_no_day_no_profit(m: ReadModel)
    ensures
        gross_profit_outcome(m, None) matches Ok(g) ==> g.revenue_minor == 0 && g.cogs_minor == 0
            && g.gross_profit_minor == 0,
{
    let limit: Option<Text> = None;
    let f = |l: SaleLine<Text>|
        if recent(m, l, limit) {
            l.revenue_minor as int
        } else {
            0
        };
    let g = |l: SaleLine<Text>|
        if recent(m, l, limit) {
            l.cogs_minor as int
        } else {
            0
        };
    let h = |l: SaleLine<Text>|
        if recent(m, l, limit) {
            l.revenue_minor - l.cogs_minor
        } else {
            0
        };
    let z = |l: SaleLine<Text>| 0int;
    let t = m.sale_lines;
    lemma_total_is_exact(t, f);
    lemma_total_is_exact(t, g);
    lemma_total_is_exact(t, h);
    lemma_sum_same(t, f, z);
    lemma_sum_same(t, g, z);
    lemma_sum_same(t, h, z);
    lemma_sum_plus(t, z, z, z);
}

/// Net profit since a day is the gross profit less what was debited, less what was
/// credited, since that day to expense accounts other than cost of goods.
pub proof fn law_net_profit_adds_up(m: ReadModel, day: Text)
    ensures
        net_profit_outcome(m, Some(day)) matches Ok(v) ==> v == revenue_since(m, day) - cost_since(
            m,
            day,
        ) - expense_since(m, day),
{
    law_gross_profit_adds_up(m, day);
    let limit = Some(day);
    let f = |l: JournalLine<Text>|
        if operating(m, l) && since(l.date, limit) {
            l.debit_minor - l.credit_minor
        } else {
            0
        };
    let g = |l: JournalLine<Text>|
        if !lex_lt(l.date, day) && (lookup(m.accounts, l.account_id) matches Some(a) && opt_txt(
            a.doc,
            "type"@,
        ) == Some("expense"@) && opt_txt(a.doc, "system_role"@) != Some("cogs"@)) {
            l.debit_minor - l.credit_minor
        } else {
            0
        };
    let t = m.journal;
    lemma_total_is_exact(t, f);
    assert forall|i: int| 0 <= i < t.len() implies f(#[trigger] t[i]) == g(t[i]) by {
        lemma_not_before(day, t[i].date);
    }
    lemma_sum_same(t, f, g);
}

/// The sum of a figure over the rows with a key, where it is given, is exact.
proof fn lemma_group_exact<R>(
    t: Seq<R>,
    key: spec_fn(R) -> Option<Text>,
    figure: spec_fn(R) -> int,
    k: Text,
    own: spec_fn(R) -> int,
)
    requires
        forall|i: int|
            0 <= i < t.len() ==> own(#[trigger] t[i]) == if key(t[i]) == Some(k) {
                figure(t[i])
            } else {
                0
            },
    ensures
        group_total(t, key, figure, k) matches Some(v) ==> v == sum_over(t, own),
{
    let f = |r: R|
        if key(r) == Some(k) {
            figure(r)
        } else {
            0
        };
    lemma_total_same(t, f, own);
    lemma_total_is_exact(t, own);
}

// ---- stock ----

/// Units of the item that a lot holds.
pub open spec fn units_in(item: Text) -> spec_fn(Lot<Text>) -> int {
    |l: Lot<Text>|
        if l.item_id == item && l.qty_remaining > 0 {
            l.qty_remaining as int
        } else {
            0
        }
}

/// Stock on hand is reported of just the items of which some lot holds units, each with
/// all that its lots hold.
pub proof fn law_stock_on_hand_adds_up(m: ReadModel, keys: Seq<Text>, item: Text)
    requires
        grouped(keys, m.lots, held_key()),
    ensures
        keys.contains(item) <==> exists|i: int|
            0 <= i < m.lots.len() && (#[trigger] m.lots[i]).item_id == item
                && m.lots[i].qty_remaining > 0,
        units_on_hand(m, item) matches Some(v) ==> v == sum_over(m.lots, units_in(item)),
        forall|i: int, j: int| 0 <= i < j < keys.len() ==> lex_lt(#[trigger] keys[i], #[trigger] keys[j]),
{
    lemma_group_exact(
        m.lots,
        held_key(),
        |l: Lot<Text>| l.qty_remaining as int,
        item,
        units_in(item),
    );
    if keys.contains(item) {
        let i = choose|i: int| 0 <= i < m.lots.len() && held_key()(#[trigger] m.lots[i]) == Some(item);
        assert(m.lots[i].item_id == item);
    }
    if exists|i: int|
        0 <= i < m.lots.len() && (#[trigger] m.lots[i]).item_id == item && m.lots[i].qty_remaining
            > 0 {
        let i = choose|i: int|
            0 <= i < m.lots.len() && (#[trigger] m.lots[i]).item_id == item
                && m.lots[i].qty_remaining > 0;
        assert(held_key()(m.lots[i]) == Some(item));
    }
}

/// The stock is worth what the units left in all lots cost.
pub proof fn law_valuation_adds_up(m: ReadModel)
    ensures
        stock_value(m) matches Some(v) ==> v == sum_over(
            m.lots,
            |l: Lot<Text>| l.qty_remaining * l.unit_cost_minor,
        ),
{
    let f = |l: Lot<Text>| lot_value(l);
    let g = |l: Lot<Text>| l.qty_remaining * l.unit_cost_minor;
    lemma_total_is_exact(m.lots, f);
    lemma_sum_same(m.lots, f, g);
}

// ---- items ----

/// A figure of a line of the item, of every one or of one whose sale is not reversed.
pub open spec fn item_share(
    m: ReadModel,
    all: bool,
    item: Text,
    figure: spec_fn(SaleLine<Text>) -> int,
) -> spec_fn(SaleLine<Text>) -> int {
    |l: SaleLine<Text>|
        if l.item_id == item && (all || unreversed(m, l)) {
            figure(l)
        } else {
            0
        }
}

/// A figure of the lines of an item, of all of them or of those whose sale is not
/// reversed.
pub open spec fn item_sum(
    m: ReadModel,
    all: bool,
    item: Text,
    figure: spec_fn(SaleLine<Text>) -> int,
) -> int {
    sum_over(m.sale_lines, item_share(m, all, item, figure))
}

proof fn lemma_item_total(
    m: ReadModel,
    all: bool,
    figure: spec_fn(SaleLine<Text>) -> int,
    own: spec_fn(SaleLine<Text>) -> int,
    item: Text,
)
    requires
        forall|l: SaleLine<Text>| #[trigger] figure(l) == own(l),
    ensures
        item_total(m, all, figure, item) matches Some(v) ==> v == item_sum(m, all, item, own),
{
    let t = m.sale_lines;
    let key = item_key(m, all);
    let share = item_share(m, all, item, own);
    assert forall|i: int| 0 <= i < t.len() implies share(#[trigger] t[i]) == if key(t[i]) == Some(
        item,
    ) {
        figure(t[i])
    } else {
        0
    } by {
        assert(figure(t[i]) == own(t[i]));
    }
    lemma_group_exact(t, key, figure, item, share);
}

/// Margins and sales are of the lines of an item whose sale is not reversed: what they
/// sold, brought and cost, and the profit is the difference.
pub proof fn law_margins_add_up(m: ReadModel, item: Text)
    ensures
        item_total(m, false, qty_figure(), item) matches Some(v) ==> v == item_sum(
            m,
            false,
            item,
            |l: SaleLine<Text>| l.qty as int,
        ),
        item_total(m, false, line_revenue_figure(), item) matches Some(v) ==> v == item_sum(
            m,
            false,
            item,
            |l: SaleLine<Text>| l.revenue_minor as int,
        ),
        item_total(m, false, cogs_figure(), item) matches Some(v) ==> v == item_sum(
            m,
            false,
            item,
            |l: SaleLine<Text>| l.cogs_minor as int,
        ),
        item_total(m, false, profit_figure(), item) matches Some(v) ==> v == item_sum(
            m,
            false,
            item,
            |l: SaleLine<Text>| l.revenue_minor - l.cogs_minor,
        ),
{
    lemma_item_total(m, false, qty_figure(), |l: SaleLine<Text>| l.qty as int, item);
    lemma_item_total(
        m,
        false,
        line_revenue_figure(),
        |l: SaleLine<Text>| l.revenue_minor as int,
        item,
    );
    lemma_item_total(m, false, cogs_figure(), |l: SaleLine<Text>| l.cogs_minor as int, item);
    lemma_item_total(
        m,
        false,
        profit_figure(),
        |l: SaleLine<Text>| l.revenue_minor - l.cogs_minor,
        item,
    );
}

/// Margins and sales are reported of just the items with a line whose sale is not
/// reversed, return rates of just those with any line, in ascending order.
pub proof fn law_sold_items_are_reported(m: ReadModel, all: bool, keys: Seq<Text>, item: Text)
    requires
        grouped(keys, m.sale_lines, item_key(m, all)),
    ensures
        keys.contains(item) <==> exists|i: int|
            0 <= i < m.sale_lines.len() && (#[trigger] m.sale_lines[i]).item_id == item && (all
                || unreversed(m, m.sale_lines[i])),
        forall|i: int, j: int| 0 <= i < j < keys.len() ==> lex_lt(#[trigger] keys[i], #[trigger] keys[j]),
{
    let key = item_key(m, all);
    if keys.contains(item) {
        let i = choose|i: int|
            0 <= i < m.sale_lines.len() && key(#[trigger] m.sale_lines[i]) == Some(item);
        assert(m.sale_lines[i].item_id == item);
    }
    if exists|i: int|
        0 <= i < m.sale_lines.len() && (#[trigger] m.sale_lines[i]).item_id == item && (all
            || unreversed(m, m.sale_lines[i])) {
        let i = choose|i: int|
            0 <= i < m.sale_lines.len() && (#[trigger] m.sale_lines[i]).item_id == item && (all
                || unreversed(m, m.sale_lines[i]));
        assert(key(m.sale_lines[i]) == Some(item));
    }
}

/// The return rate of an item is made of all units ever sold of it, whatever became of the
/// sale, and of the units that lines of sale returns brought back.
pub proof fn law_return_rates_add_up(m: ReadModel, item: Text)
    ensures
        item_total(m, true, qty_figure(), item) matches Some(v) ==> v == item_sum(
            m,
            true,
            item,
            |l: SaleLine<Text>| l.qty as int,
        ),
        returned_units(m, item) matches Some(v) ==> v == sum_over(
            m.return_lines,
            |l: ReturnLine<Text>|
                if l.item_id == item && (lookup(m.returns, l.return_id) matches Some(r)
                    && r.return_type == "sale_return"@) {
                    l.qty as int
                } else {
                    0
                },
        ),
{
    lemma_item_total(m, true, qty_figure(), |l: SaleLine<Text>| l.qty as int, item);
    let f = |l: ReturnLine<Text>|
        if brought_back(m, l, item) {
            l.qty as int
        } else {
            0
        };
    let g = |l: ReturnLine<Text>|
        if l.item_id == item && (lookup(m.returns, l.return_id) matches Some(r) && r.return_type
            == "sale_return"@) {
            l.qty as int
        } else {
            0
        };
    lemma_total_is_exact(m.return_lines, f);
    lemma_sum_same(m.return_lines, f, g);
}

// ---- months ----

/// A report by month has a row for just the months of lines of the item that are of sales
/// not reversed and dated no earlier than the day it starts with, in ascending order, and
/// gives for each the units and the revenue of those lines.
pub proof fn law_months_add_up(
    m: ReadModel,
    item: Text,
    day: Text,
    months: Seq<Option<Text>>,
    keys: Seq<Text>,
    month: Text,
)
    requires
        months.len() == m.sale_lines.len(),
        grouped(keys, dated(m.sale_lines, months), month_key(m, item, Some(day))),
    ensures
        keys.contains(month) <==> exists|i: int|
            0 <= i < m.sale_lines.len() && (#[trigger] m.sale_lines[i]).item_id == item
                && sold_since(m, m.sale_lines[i], day) && months[i] == Some(month),
        group_total(
            dated(m.sale_lines, months),
            month_key(m, item, Some(day)),
            units_figure(),
            month,
        ) matches Some(v) ==> v == month_sum(
            m,
            item,
            day,
            months,
            month,
            |l: SaleLine<Text>| l.qty as int,
            m.sale_lines.len() as int,
        ),
        group_total(
            dated(m.sale_lines, months),
            month_key(m, item, Some(day)),
            revenue_figure(),
            month,
        ) matches Some(v) ==> v == month_sum(
            m,
            item,
            day,
            months,
            month,
            |l: SaleLine<Text>| l.revenue_minor as int,
            m.sale_lines.len() as int,
        ),
        forall|i: int, j: int| 0 <= i < j < keys.len() ==> lex_lt(#[trigger] keys[i], #[trigger] keys[j]),
{
    let s = dated(m.sale_lines, months);
    let key = month_key(m, item, Some(day));
    if keys.contains(month) {
        let i = choose|i: int| 0 <= i < s.len() && key(#[trigger] s[i]) == Some(month);
        lemma_not_before(day, m.sale_lines[i].date);
        assert(m.sale_lines[i].item_id == item);
    }
    if exists|i: int|
        0 <= i < m.sale_lines.len() && (#[trigger] m.sale_lines[i]).item_id == item && sold_since(
            m,
            m.sale_lines[i],
            day,
        ) && months[i] == Some(month) {
        let i = choose|i: int|
            0 <= i < m.sale_lines.len() && (#[trigger] m.sale_lines[i]).item_id == item
                && sold_since(m, m.sale_lines[i], day) && months[i] == Some(month);
        lemma_not_before(day, m.sale_lines[i].date);
        assert(key(s[i]) == Some(month));
    }
    let own = |l: SaleLine<Text>| l.qty as int;
    let other = |l: SaleLine<Text>| l.revenue_minor as int;
    lemma_month_sum(m, item, day, months, month, units_figure(), own, s.len() as int);
    lemma_month_sum(m, item, day, months, month, revenue_figure(), other, s.len() as int);
    assert(s.take(s.len() as int) =~= s);
    lemma_total_is_exact(s, month_share(key, units_figure(), month));
    lemma_total_is_exact(s, month_share(key, revenue_figure(), month));
    lemma_group_share(s, key, units_figure(), month);
    lemma_group_share(s, key, revenue_figure(), month);
}

/// What a figure of the first `n` lines comes to that are of the item, not reversed, not
/// before the day, and of the month.
pub open spec fn month_sum(
    m: ReadModel,
    item: Text,
    day: Text,
    months: Seq<Option<Text>>,
    month: Text,
    figure: spec_fn(SaleLine<Text>) -> int,
    n: int,
) -> int
    decreases n,
{
    if n <= 0 {
        0
    } else {
        month_sum(m, item, day, months, month, figure, n - 1) + if m.sale_lines[n - 1].item_id
            == item && sold_since(m, m.sale_lines[n - 1], day) && months[n - 1] == Some(month) {
            figure(m.sale_lines[n - 1])
        } else {
            0
        }
    }
}

spec fn month_share(
    key: spec_fn(DatedLine) -> Option<Text>,
    figure: spec_fn(DatedLine) -> int,
    month: Text,
) -> spec_fn(DatedLine) -> int {
    |p: DatedLine|
        if key(p) == Some(month) {
            figure(p)
        } else {
            0
        }
}

proof fn lemma_group_share(
    s: Seq<DatedLine>,
    key: spec_fn(DatedLine) -> Option<Text>,
    figure: spec_fn(DatedLine) -> int,
    month: Text,
)
    ensures
        group_total(s, key, figure, month) == total(s, month_share(key, figure, month)),
{
    let f = |p: DatedLine|
        if key(p) == Some(month) {
            figure(p)
        } else {
            0
        };
    lemma_total_same(s, f, month_share(key, figure, month));
}

proof fn lemma_month_sum(
    m: ReadModel,
    item: Text,
    day: Text,
    months: Seq<Option<Text>>,
    month: Text,
    figure: spec_fn(DatedLine) -> int,
    own: spec_fn(SaleLine<Text>) -> int,
    n: int,
)
    requires
        0 <= n <= m.sale_lines.len(),
        months.len() == m.sale_lines.len(),
        forall|p: DatedLine| #[trigger] figure(p) == own(p.0),
    ensures
        sum_over(
            dated(m.sale_lines, months).take(n),
            month_share(month_key(m, item, Some(day)), figure, month),
        ) == month_sum(m, item, day, months, month, own, n),
    decreases n,
{
    let s = dated(m.sale_lines, months);
    let f = month_share(month_key(m, item, Some(day)), figure, month);
    if n > 0 {
        lemma_month_sum(m, item, day, months, month, figure, own, n - 1);
        assert(s.take(n).drop_last() =~= s.take(n - 1));
        assert(s.take(n).last() == (m.sale_lines[n - 1], months[n - 1]));
        lemma_not_before(day, m.sale_lines[n - 1].date);
        assert(figure(s[n - 1]) == own(m.sale_lines[n - 1]));
    }
}

// ---- parties ----

/// The balances of parties are reported all, by party.
pub proof fn law_party_balances_are_reported(t: Seq<Balance<Text>>)
    ensures
        sorted(t).len() == t.len(),
        forall|b: Balance<Text>| #[trigger] sorted(t).contains(b) <==> t.contains(b),
        forall|i: int, j: int|
            0 <= i < j < sorted(t).len() ==> !lex_lt(
                (#[trigger] sorted(t)[j]).party_id,
                (#[trigger] sorted(t)[i]).party_id,
            ),
{
    broadcast use vstd::seq_lib::group_to_multiset_ensures;

    lemma_sorted(t);
    assert forall|b: Balance<Text>| #[trigger] sorted(t).contains(b) <==> t.contains(b) by {
        assert(sorted(t).to_multiset().count(b) == t.to_multiset().count(b));
    }
    assert forall|i: int, j: int| 0 <= i < j < sorted(t).len() implies !lex_lt(
        (#[trigger] sorted(t)[j]).party_id,
        (#[trigger] sorted(t)[i]).party_id,
    ) by {
        assert(!before(sorted(t)[j], sorted(t)[i]));
    }
}

} // verus!
