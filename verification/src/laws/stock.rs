//! What the stock is worth follows the books.

use crate::events::EventV;
use crate::json::{list, num, opt_txt, txt, JsonV};
use crate::laws::double_entry::lemma_types;
use crate::laws::frames::{
    keeps_allocate, keeps_given_lines, keeps_opening_lots, keeps_purchase_lines,
    keeps_purchase_return_lines, keeps_revert_balances, keeps_revert_lots, keeps_sale_lines,
    keeps_sale_return_lines, keeps_settle,
};
use crate::laws::reversal::stated;
use crate::laws::roles::{
    held_after, held_in, lemma_opening_holds, lemma_other_role, lemma_post_holds,
    lemma_update_holds,
};
use crate::laws::unbooked::only;
use crate::laws::undo::{
    back, first, law_reversal_moves_lots_back, lemma_places, lot_moves, moved_by, moves_lots,
    rows_tell,
};
use crate::laws::unpaid::law_reversal_empties_lots;
use crate::model::{
    account_updated, add_consumption, add_expense, add_lot, add_payment, add_purchase,
    add_purchase_line, add_return, add_return_line, add_sale, add_sale_line, adjust_lines_from,
    adjust_lot, adjust_outstanding, adjust_party, consume_from, consumption, expense_recorded,
    found_lines_from, given_lines_from, invoice, journal_line, line_id, named_or_role, nested_worth,
    on_credit, opening_balances, opening_lots_from, payment, post, post_role, product, project,
    purchase_line, purchase_lines, purchase_lines_from, purchase_recorded, purchase_return,
    purchase_return_lines, purchase_return_lines_from, purchased_lot, reduction, restock_from,
    revert_lots, role_id, sale_line, sale_lines, sale_lines_from, sale_recorded, sale_return,
    sale_return_lines, sale_return_lines_from, settle, stocked_lot, transaction_reversed,
    transfer_recorded, worth, Fault, Outcome, Text,
};
use crate::reconciliation::lot_value;
use crate::rows::{distinct, hit, lemma_has, lemma_place, lookup, place, Keyed};
use crate::sums::sum_over;
use crate::tables::{Expense, JournalLine, Lot, Payment, ReadModel, Return, ReturnLine, SaleLine};
use vstd::prelude::*;

verus! {

/// What lots are worth.
pub open spec fn value(lots: Seq<Lot<Text>>) -> int {
    sum_over(lots, |l: Lot<Text>| lot_value(l))
}

/// What a journal line books on an account, debit less credit.
pub open spec fn entry(l: JournalLine<Text>, account: Text) -> int {
    if l.account_id == account {
        l.debit_minor - l.credit_minor
    } else {
        0
    }
}

/// What a journal books on an account, debits less credits.
pub open spec fn book(journal: Seq<JournalLine<Text>>, account: Text) -> int {
    sum_over(journal, |l: JournalLine<Text>| entry(l, account))
}

/// By how much the stock is worth more than the inventory account says.
pub open spec fn drift(m: ReadModel) -> int {
    value(m.lots) - book(m.journal, role_id(m, "inventory"@)->Ok_0)
}

/// The same after some steps, for a given inventory account.
pub open spec fn drift_after(o: Outcome, inv: Text) -> int {
    match o {
        Ok(m) => value(m.lots) - book(m.journal, inv),
        Err(_) => 0,
    }
}

/// What a step adds to the drift.
pub open spec fn drifted(o: Outcome, next: Outcome, inv: Text, by: int) -> int {
    if next is Ok {
        drift_after(o, inv) + by
    } else {
        0
    }
}

/// The inventory account is the given one after some steps, unless these failed.
pub open spec fn kept_after(o: Outcome, inv: Text) -> bool {
    held_after(o, "inventory"@, inv)
}

/// One row that changes moves a sum by the difference.
pub proof fn lemma_sum_update<R>(t: Seq<R>, i: int, x: R, f: spec_fn(R) -> int)
    requires
        0 <= i < t.len(),
    ensures
        sum_over(t.update(i, x), f) == sum_over(t, f) - f(t[i]) + f(x),
    decreases t.len(),
{
    let u = t.update(i, x);
    if i == t.len() - 1 {
        assert(u.drop_last() =~= t.drop_last());
    } else {
        lemma_sum_update(t.drop_last(), i, x, f);
        assert(u.drop_last() =~= t.drop_last().update(i, x));
    }
}

/// One row more adds its figure.
pub proof fn lemma_sum_push<R>(t: Seq<R>, x: R, f: spec_fn(R) -> int)
    ensures
        sum_over(t.push(x), f) == sum_over(t, f) + f(x),
{
    assert(t.push(x).drop_last() =~= t);
}

/// One row more in a prefix adds its figure.
pub proof fn lemma_sum_take<R>(t: Seq<R>, i: int, f: spec_fn(R) -> int)
    requires
        0 <= i < t.len(),
    ensures
        sum_over(t.take(i + 1), f) == sum_over(t.take(i), f) + f(t[i]),
{
    assert(t.take(i + 1).drop_last() =~= t.take(i));
    assert(t.take(i + 1).last() == t[i]);
}

broadcast proof fn lemma_post(
    o: Outcome,
    event: Text,
    txn: Text,
    index: nat,
    account: Text,
    debit: i64,
    credit: i64,
    date: Text,
    memo: Option<Text>,
    inv: Text,
)
    ensures
        #[trigger] drift_after(post(o, event, txn, index, account, debit, credit, date, memo), inv)
            == drifted(
            o,
            post(o, event, txn, index, account, debit, credit, date, memo),
            inv,
            if account == inv {
                credit - debit
            } else {
                0
            },
        ),
        kept_after(o, inv) ==> kept_after(
            post(o, event, txn, index, account, debit, credit, date, memo),
            inv,
        ),
{
    if let Ok(m) = o {
        if let Ok(n) = post(o, event, txn, index, account, debit, credit, date, memo) {
            let line = journal_line(event, txn, index, account, debit, credit, date, memo);
            lemma_sum_push(m.journal, line, |l: JournalLine<Text>| entry(l, inv));
            if held_in(m, "inventory"@, inv) {
                lemma_post_holds(
                    m,
                    event,
                    txn,
                    index,
                    account,
                    debit,
                    credit,
                    date,
                    memo,
                    "inventory"@,
                    inv,
                );
            }
        }
    }
}

broadcast proof fn lemma_post_role(
    o: Outcome,
    event: Text,
    txn: Text,
    index: nat,
    role: Text,
    debit: i64,
    credit: i64,
    date: Text,
    inv: Text,
)
    requires
        kept_after(o, inv),
    ensures
        #[trigger] drift_after(post_role(o, event, txn, index, role, debit, credit, date), inv)
            == drifted(
            o,
            post_role(o, event, txn, index, role, debit, credit, date),
            inv,
            if role == "inventory"@ {
                credit - debit
            } else {
                0
            },
        ),
        kept_after(post_role(o, event, txn, index, role, debit, credit, date), inv),
{
    if let Ok(m) = o {
        if let Ok(account) = role_id(m, role) {
            lemma_post(Ok(m), event, txn, index, account, debit, credit, date, None, inv);
            if role != "inventory"@ {
                lemma_other_role(m, "inventory"@, inv, role);
            }
        }
    }
}

broadcast proof fn lemma_adjust_party(
    o: Outcome,
    party: Text,
    receivable: int,
    payable: int,
    credit: int,
    debit: int,
    inv: Text,
)
    ensures
        #[trigger] drift_after(adjust_party(o, party, receivable, payable, credit, debit), inv)
            == drifted(o, adjust_party(o, party, receivable, payable, credit, debit), inv, 0),
        kept_after(o, inv) ==> kept_after(
            adjust_party(o, party, receivable, payable, credit, debit),
            inv,
        ),
{
}

broadcast proof fn lemma_adjust_outstanding(o: Outcome, sale: bool, id: Text, delta: int, inv: Text)
    ensures
        #[trigger] drift_after(adjust_outstanding(o, sale, id, delta), inv) == drifted(
            o,
            adjust_outstanding(o, sale, id, delta),
            inv,
            0,
        ),
        kept_after(o, inv) ==> kept_after(adjust_outstanding(o, sale, id, delta), inv),
{
}

// ---- lots ----

/// The unit cost of a lot, where there is one.
pub open spec fn cost_of(lots: Seq<Lot<Text>>, lot: Text) -> Option<i64> {
    match lookup(lots, lot) {
        Some(l) => Some(l.unit_cost_minor),
        None => None,
    }
}

/// What an adjusted lot changes: the value of the stock, and no unit cost.
proof fn lemma_adjust_lot(m: ReadModel, lot: Text, delta: int)
    ensures
        adjust_lot(Ok(m), lot, delta) matches Ok(n) ==> {
            &&& n == (ReadModel { lots: n.lots, ..m })
            &&& value(n.lots) == value(m.lots) + match cost_of(m.lots, lot) {
                Some(c) => delta * c,
                None => 0,
            }
            &&& forall|k: Text| #[trigger] cost_of(n.lots, k) == cost_of(m.lots, k)
        },
{
    if let Ok(n) = adjust_lot(Ok(m), lot, delta) {
        lemma_has(m.lots, lot);
        if let Some(i) = place(m.lots, lot) {
            let old = m.lots[i];
            let new = Lot { qty_remaining: (old.qty_remaining + delta) as i64, ..old };
            lemma_sum_update(m.lots, i, new, |l: Lot<Text>| lot_value(l));
            assert((old.qty_remaining + delta) * old.unit_cost_minor == old.qty_remaining
                * old.unit_cost_minor + delta * old.unit_cost_minor) by (nonlinear_arith);
            assert forall|k: Text| #[trigger] cost_of(n.lots, k) == cost_of(m.lots, k) by {
                lemma_has(m.lots, k);
                lemma_has(n.lots, k);
                if let Some(p) = place(m.lots, k) {
                    assert forall|j: int| 0 <= j < p implies (#[trigger] n.lots[j]).key() != k by {
                        assert(m.lots[j].key() != k);
                    }
                    assert(hit(n.lots, k, p));
                    lemma_place(n.lots, k, p);
                } else if let Some(p) = place(n.lots, k) {
                    assert(m.lots[p].key() == k);
                }
            }
        }
    }
}

/// A lot that is added brings its value and leaves the other lots' unit costs.
proof fn lemma_add_lot(m: ReadModel, l: Lot<Text>)
    ensures
        add_lot(Ok(m), l) matches Ok(n) ==> {
            &&& n == (ReadModel { lots: n.lots, ..m })
            &&& value(n.lots) == value(m.lots) + lot_value(l)
        },
{
    lemma_sum_push(m.lots, l, |l: Lot<Text>| lot_value(l));
}

/// What a line of quantity times unit amount is worth.
pub open spec fn line_worth(qty: Text, unit: Text) -> spec_fn(JsonV) -> int {
    |l: JsonV| num(l, qty) * num(l, unit)
}

/// What lines are worth, where it is given, is exact.
pub proof fn lemma_worth_is_exact(lines: Seq<JsonV>, qty: Text, unit: Text)
    ensures
        worth(lines, qty, unit) matches Some(w) ==> w == sum_over(lines, line_worth(qty, unit)),
    decreases lines.len(),
{
    if lines.len() > 0 {
        lemma_worth_is_exact(lines.drop_last(), qty, unit);
    }
}

/// What the parts of a line are worth.
pub open spec fn parts_worth(key: Text, qty: Text, unit: Text) -> spec_fn(JsonV) -> int {
    |l: JsonV| sum_over(list(l, key), line_worth(qty, unit))
}

/// What the parts of lines are worth, where it is given, is exact.
pub proof fn lemma_nested_worth(lines: Seq<JsonV>, key: Text, qty: Text, unit: Text)
    ensures
        nested_worth(lines, key, qty, unit) matches Some(w) ==> w == sum_over(
            lines,
            parts_worth(key, qty, unit),
        ),
    decreases lines.len(),
{
    if lines.len() > 0 {
        lemma_nested_worth(lines.drop_last(), key, qty, unit);
        lemma_worth_is_exact(list(lines.last(), key), qty, unit);
    }
}

proof fn lemma_purchase_lines(m: ReadModel, ev: EventV, lines: Seq<JsonV>, i: int)
    requires
        0 <= i <= lines.len(),
    ensures
        purchase_lines_from(m, ev, lines, i) matches Ok(n) ==> value(n.lots) == value(m.lots)
            + sum_over(lines, line_worth("qty"@, "unitCostMinor"@)) - sum_over(
            lines.take(i),
            line_worth("qty"@, "unitCostMinor"@),
        ),
    decreases lines.len() - i,
{
    let f = line_worth("qty"@, "unitCostMinor"@);
    if i < lines.len() {
        let lot = purchased_lot(ev, lines[i]);
        lemma_add_lot(m, lot);
        lemma_sum_take(lines, i, f);
        let o = add_purchase_line(add_lot(Ok(m), lot), purchase_line(ev, lines[i], i as nat));
        if let Ok(n) = o {
            lemma_purchase_lines(n, ev, lines, i + 1);
        }
    } else {
        assert(lines.take(i) =~= lines);
    }
}

/// The parts name lots at their unit cost.
pub open spec fn parts_at_cost(lots: Seq<Lot<Text>>, parts: Seq<JsonV>) -> bool {
    forall|k: int|
        0 <= k < parts.len() ==> cost_of(lots, txt(#[trigger] parts[k], "lotId"@)) == Some(
            num(parts[k], "unitCostMinor"@),
        )
}

/// The parts of all lines name lots at their unit cost.
pub open spec fn lines_at_cost(lots: Seq<Lot<Text>>, lines: Seq<JsonV>, key: Text) -> bool {
    forall|k: int| 0 <= k < lines.len() ==> parts_at_cost(lots, list(#[trigger] lines[k], key))
}

/// Stock with the same unit costs is at cost alike.
proof fn lemma_at_cost(a: Seq<Lot<Text>>, b: Seq<Lot<Text>>, lines: Seq<JsonV>, key: Text)
    requires
        forall|k: Text| #[trigger] cost_of(b, k) == cost_of(a, k),
    ensures
        lines_at_cost(a, lines, key) ==> lines_at_cost(b, lines, key),
        parts_at_cost(a, lines) ==> parts_at_cost(b, lines),
{
    if lines_at_cost(a, lines, key) {
        assert forall|k: int| 0 <= k < lines.len() implies parts_at_cost(
            b,
            list(#[trigger] lines[k], key),
        ) by {
            let parts = list(lines[k], key);
            assert(parts_at_cost(a, parts));
            assert forall|n: int| 0 <= n < parts.len() implies cost_of(
                b,
                txt(#[trigger] parts[n], "lotId"@),
            ) == Some(num(parts[n], "unitCostMinor"@)) by {
                assert(cost_of(a, txt(parts[n], "lotId"@)) == Some(
                    num(parts[n], "unitCostMinor"@),
                ));
            }
        }
    }
    if parts_at_cost(a, lines) {
        assert forall|n: int| 0 <= n < lines.len() implies cost_of(
            b,
            txt(#[trigger] lines[n], "lotId"@),
        ) == Some(num(lines[n], "unitCostMinor"@)) by {
            assert(cost_of(a, txt(lines[n], "lotId"@)) == Some(num(lines[n], "unitCostMinor"@)));
        }
    }
}

proof fn lemma_consume(m: ReadModel, ev: EventV, line: nat, parts: Seq<JsonV>, j: int)
    requires
        0 <= j <= parts.len(),
        parts_at_cost(m.lots, parts),
    ensures
        consume_from(m, ev, line, parts, j) matches Ok(n) ==> {
            &&& value(n.lots) == value(m.lots) - sum_over(
                parts,
                line_worth("qtyTaken"@, "unitCostMinor"@),
            ) + sum_over(parts.take(j), line_worth("qtyTaken"@, "unitCostMinor"@))
            &&& forall|k: Text| #[trigger] cost_of(n.lots, k) == cost_of(m.lots, k)
        },
    decreases parts.len() - j,
{
    let f = line_worth("qtyTaken"@, "unitCostMinor"@);
    if j < parts.len() {
        let o = add_consumption(Ok(m), consumption(ev, line, parts[j], j as nat));
        if let Ok(k) = o {
            let lot = txt(parts[j], "lotId"@);
            let q = num(parts[j], "qtyTaken"@);
            lemma_adjust_lot(k, lot, -q);
            lemma_sum_take(parts, j, f);
            if let Ok(n) = adjust_lot(o, lot, -q) {
                let c = num(parts[j], "unitCostMinor"@);
                assert(cost_of(m.lots, lot) == Some(c));
                assert((-q) * c == -(q * c)) by (nonlinear_arith);
                lemma_at_cost(m.lots, n.lots, parts, ""@);
                lemma_consume(n, ev, line, parts, j + 1);
            }
        }
    } else {
        assert(parts.take(j) =~= parts);
    }
}

proof fn lemma_sale_lines(m: ReadModel, ev: EventV, lines: Seq<JsonV>, i: int)
    requires
        0 <= i <= lines.len(),
        lines_at_cost(m.lots, lines, "lotConsumption"@),
    ensures
        sale_lines_from(m, ev, lines, i) matches Ok(n) ==> value(n.lots) == value(m.lots)
            - sum_over(lines, parts_worth("lotConsumption"@, "qtyTaken"@, "unitCostMinor"@))
            + sum_over(
            lines.take(i),
            parts_worth("lotConsumption"@, "qtyTaken"@, "unitCostMinor"@),
        ),
    decreases lines.len() - i,
{
    let f = parts_worth("lotConsumption"@, "qtyTaken"@, "unitCostMinor"@);
    if i < lines.len() {
        let parts = list(lines[i], "lotConsumption"@);
        lemma_sum_take(lines, i, f);
        if let Ok(n) = sale_line(m, ev, lines[i], i as nat) {
            let row = SaleLine {
                id: line_id(ev.id, i as nat),
                sale_id: txt(ev.payload, "saleId"@),
                item_id: txt(lines[i], "itemId"@),
                qty: num(lines[i], "qty"@),
                unit_price_minor: num(lines[i], "unitPriceMinor"@),
                revenue_minor: product(
                    num(lines[i], "qty"@),
                    num(lines[i], "unitPriceMinor"@),
                )->0,
                cogs_minor: worth(parts, "qtyTaken"@, "unitCostMinor"@)->0,
                date: txt(ev.payload, "date"@),
            };
            let k = add_sale_line(Ok(m), row)->Ok_0;
            assert(k.lots == m.lots);
            lemma_consume(k, ev, i as nat, parts, 0);
            assert(parts.take(0) =~= Seq::empty());
            lemma_at_cost(m.lots, n.lots, lines, "lotConsumption"@);
            lemma_sale_lines(n, ev, lines, i + 1);
        }
    } else {
        assert(lines.take(i) =~= lines);
    }
}

proof fn lemma_restock(m: ReadModel, ev: EventV, line: JsonV, parts: Seq<JsonV>, j: int, n: int)
    requires
        0 <= j <= parts.len(),
        parts_at_cost(m.lots, parts),
    ensures
        restock_from(m, ev, line, parts, j, n) matches Ok(k) ==> {
            &&& value(k.lots) == value(m.lots) + sum_over(
                parts,
                line_worth("qtyReturned"@, "unitCostMinor"@),
            ) - sum_over(parts.take(j), line_worth("qtyReturned"@, "unitCostMinor"@))
            &&& forall|x: Text| #[trigger] cost_of(k.lots, x) == cost_of(m.lots, x)
        },
    decreases parts.len() - j,
{
    let f = line_worth("qtyReturned"@, "unitCostMinor"@);
    if j < parts.len() && n + j < u64::MAX {
        let part = parts[j];
        let lot = txt(part, "lotId"@);
        let q = num(part, "qtyReturned"@) as int;
        lemma_adjust_lot(m, lot, q);
        lemma_sum_take(parts, j, f);
        let o = add_return_line(
            adjust_lot(Ok(m), lot, q),
            ReturnLine {
                id: line_id(ev.id, (n + j) as nat),
                return_id: txt(ev.payload, "returnId"@),
                item_id: txt(line, "itemId"@),
                qty: num(part, "qtyReturned"@),
                unit_price_minor: num(line, "unitPriceMinor"@),
                unit_cost_minor: num(part, "unitCostMinor"@),
                lot_id: lot,
            },
        );
        if let Ok(k) = o {
            assert(cost_of(m.lots, lot) == Some(num(part, "unitCostMinor"@)));
            lemma_at_cost(m.lots, k.lots, parts, ""@);
            lemma_restock(k, ev, line, parts, j + 1, n);
        }
    } else if j >= parts.len() {
        assert(parts.take(j) =~= parts);
    }
}

proof fn lemma_sale_return_lines(m: ReadModel, ev: EventV, lines: Seq<JsonV>, i: int, n: int)
    requires
        0 <= i <= lines.len(),
        lines_at_cost(m.lots, lines, "lotReturns"@),
    ensures
        sale_return_lines_from(m, ev, lines, i, n) matches Ok(k) ==> value(k.lots) == value(m.lots)
            + sum_over(lines, parts_worth("lotReturns"@, "qtyReturned"@, "unitCostMinor"@))
            - sum_over(
            lines.take(i),
            parts_worth("lotReturns"@, "qtyReturned"@, "unitCostMinor"@),
        ),
    decreases lines.len() - i,
{
    let f = parts_worth("lotReturns"@, "qtyReturned"@, "unitCostMinor"@);
    if i < lines.len() {
        let parts = list(lines[i], "lotReturns"@);
        assert(parts_at_cost(m.lots, parts));
        lemma_sum_take(lines, i, f);
        lemma_restock(m, ev, lines[i], parts, 0, n);
        assert(parts.take(0) =~= Seq::empty());
        if let Ok(k) = restock_from(m, ev, lines[i], parts, 0, n) {
            lemma_at_cost(m.lots, k.lots, lines, "lotReturns"@);
            lemma_sale_return_lines(k, ev, lines, i + 1, n + parts.len());
        }
    } else {
        assert(lines.take(i) =~= lines);
    }
}

proof fn lemma_purchase_return_lines(m: ReadModel, ev: EventV, lines: Seq<JsonV>, i: int)
    requires
        0 <= i <= lines.len(),
        parts_at_cost(m.lots, lines),
    ensures
        purchase_return_lines_from(m, ev, lines, i) matches Ok(k) ==> value(k.lots) == value(m.lots)
            - sum_over(lines, line_worth("qty"@, "unitCostMinor"@)) + sum_over(
            lines.take(i),
            line_worth("qty"@, "unitCostMinor"@),
        ),
    decreases lines.len() - i,
{
    let f = line_worth("qty"@, "unitCostMinor"@);
    if i < lines.len() {
        let line = lines[i];
        let lot = txt(line, "lotId"@);
        let q = num(line, "qty"@);
        lemma_adjust_lot(m, lot, -q);
        lemma_sum_take(lines, i, f);
        let o = add_return_line(
            adjust_lot(Ok(m), lot, -q),
            ReturnLine {
                id: line_id(ev.id, i as nat),
                return_id: txt(ev.payload, "returnId"@),
                item_id: txt(line, "itemId"@),
                qty: q,
                unit_price_minor: 0,
                unit_cost_minor: num(line, "unitCostMinor"@),
                lot_id: lot,
            },
        );
        if let Ok(k) = o {
            let c = num(line, "unitCostMinor"@);
            assert(cost_of(m.lots, lot) == Some(c));
            assert((-q) * c == -(q * c)) by (nonlinear_arith);
            lemma_at_cost(m.lots, k.lots, lines, ""@);
            lemma_purchase_return_lines(k, ev, lines, i + 1);
        }
    } else {
        assert(lines.take(i) =~= lines);
    }
}

/// No line names the account under `key`.
pub open spec fn lines_spare(lines: Seq<JsonV>, key: Text, account: Text) -> bool {
    forall|k: int| 0 <= k < lines.len() ==> opt_txt(#[trigger] lines[k], key) != Some(account)
}

proof fn lemma_adjust_lines(m: ReadModel, ev: EventV, lines: Seq<JsonV>, i: int, inv: Text)
    requires
        0 <= i,
        held_in(m, "inventory"@, inv),
        lines_spare(lines, "expenseAccountId"@, inv),
    ensures
        adjust_lines_from(m, ev, lines, i) matches Ok(n) ==> held_in(n, "inventory"@, inv) && drift_after(
            Ok(n),
            inv,
        ) == drift_after(Ok(m), inv),
    decreases lines.len() - i,
{
    broadcast use lemma_post_role;

    lemma_roles();
    if i < lines.len() && adjust_lines_from(m, ev, lines, i) is Ok {
        let id = txt(ev.payload, "adjustmentId"@);
        let date = txt(ev.payload, "date"@);
        let line = lines[i];
        let lot = txt(line, "lotId"@);
        let qty = -num(line, "qtyDelta"@);
        let l = lookup(m.lots, lot)->0;
        let v = (qty * l.unit_cost_minor) as i64;
        lemma_adjust_lot(m, lot, -qty);
        assert((-qty) * l.unit_cost_minor == -(qty * l.unit_cost_minor)) by (nonlinear_arith);
        let k = adjust_lot(Ok(m), lot, -qty)->Ok_0;
        let account = named_or_role(k, line, "expenseAccountId"@, "shrinkage"@)->Ok_0;
        assert(opt_txt(lines[i], "expenseAccountId"@) != Some(inv));
        lemma_other_role(k, "inventory"@, inv, "shrinkage"@);
        let start: Outcome = Ok(k);
        let o = post(start, ev.id, id, (2 * i) as nat, account, v, 0, date, None);
        lemma_post(start, ev.id, id, (2 * i) as nat, account, v, 0, date, None, inv);
        let p = post_role(o, ev.id, id, (2 * i + 1) as nat, "inventory"@, 0, v, date);
        assert(drift_after(p, inv) == drifted(o, p, inv, v as int));
        lemma_adjust_lines(p->Ok_0, ev, lines, i + 1, inv);
    }
}

proof fn lemma_found_lines(m: ReadModel, ev: EventV, lines: Seq<JsonV>, i: int, inv: Text)
    requires
        0 <= i,
        held_in(m, "inventory"@, inv),
        lines_spare(lines, "incomeAccountId"@, inv),
    ensures
        found_lines_from(m, ev, lines, i) matches Ok(n) ==> held_in(n, "inventory"@, inv) && drift_after(
            Ok(n),
            inv,
        ) == drift_after(Ok(m), inv),
    decreases lines.len() - i,
{
    lemma_roles();
    if i < lines.len() && found_lines_from(m, ev, lines, i) is Ok {
        let id = txt(ev.payload, "foundId"@);
        let date = txt(ev.payload, "date"@);
        let line = lines[i];
        let v = product(num(line, "qty"@), num(line, "unitCostMinor"@))->0;
        let lot = stocked_lot(ev, line, None);
        lemma_add_lot(m, lot);
        let k = add_lot(Ok(m), lot)->Ok_0;
        let account = named_or_role(k, line, "incomeAccountId"@, "inventory_gain"@)->Ok_0;
        assert(opt_txt(lines[i], "incomeAccountId"@) != Some(inv));
        lemma_other_role(k, "inventory"@, inv, "inventory_gain"@);
        let start: Outcome = Ok(k);
        let o = post_role(start, ev.id, id, (2 * i) as nat, "inventory"@, v, 0, date);
        lemma_post_role(start, ev.id, id, (2 * i) as nat, "inventory"@, v, 0, date, inv);
        let p = post(o, ev.id, id, (2 * i + 1) as nat, account, 0, v, date, None);
        lemma_post(o, ev.id, id, (2 * i + 1) as nat, account, 0, v, date, None, inv);
        lemma_found_lines(p->Ok_0, ev, lines, i + 1, inv);
    }
}

/// The inventory account is in a role of its own.
proof fn lemma_roles()
    ensures
        "accounts_payable"@ != "inventory"@,
        "accounts_receivable"@ != "inventory"@,
        "bank"@ != "inventory"@,
        "sales"@ != "inventory"@,
        "cogs"@ != "inventory"@,
        "shrinkage"@ != "inventory"@,
        "inventory_gain"@ != "inventory"@,
{
    reveal_strlit("accounts_payable");
    reveal_strlit("accounts_receivable");
    reveal_strlit("bank");
    reveal_strlit("sales");
    reveal_strlit("cogs");
    reveal_strlit("shrinkage");
    reveal_strlit("inventory_gain");
    reveal_strlit("inventory");
    assert("accounts_payable"@.len() != "inventory"@.len());
    assert("accounts_receivable"@.len() != "inventory"@.len());
    assert("bank"@.len() != "inventory"@.len());
    assert("sales"@.len() != "inventory"@.len());
    assert("cogs"@.len() != "inventory"@.len());
    assert("shrinkage"@[0] != "inventory"@[0]);
    assert("inventory_gain"@.len() != "inventory"@.len());
}

// ---- opening balances and reversals ----

/// Lines that are stated are booked as they are.
pub proof fn lemma_given_book(
    m: ReadModel,
    ev: EventV,
    lines: Seq<JsonV>,
    date: Text,
    memo: Text,
    i: int,
    account: Text,
)
    requires
        0 <= i,
    ensures
        given_lines_from(m, ev, lines, date, memo, i) matches Ok(n) ==> book(n.journal, account)
            == book(m.journal, account) + stated(lines, only(account), i),
    decreases lines.len() - i,
{
    if i < lines.len() {
        let to = txt(lines[i], "accountId"@);
        let debit = num(lines[i], "debitMinor"@);
        let credit = num(lines[i], "creditMinor"@);
        if let Ok(k) = post(Ok(m), ev.id, ev.id, i as nat, to, debit, credit, date, Some(memo)) {
            let line = journal_line(
                ev.id,
                ev.id,
                i as nat,
                to,
                debit,
                credit,
                date,
                Some(memo),
            );
            lemma_sum_push(m.journal, line, |l: JournalLine<Text>| entry(l, account));
            lemma_given_book(k, ev, lines, date, memo, i + 1, account);
        }
    }
}

/// Lines that are stated leave accounts in their roles.
pub proof fn lemma_given_holds(
    m: ReadModel,
    ev: EventV,
    lines: Seq<JsonV>,
    date: Text,
    memo: Text,
    i: int,
    role: Text,
    account: Text,
)
    requires
        held_in(m, role, account),
    ensures
        held_after(given_lines_from(m, ev, lines, date, memo, i), role, account),
    decreases lines.len() - i,
{
    if i < lines.len() {
        let to = txt(lines[i], "accountId"@);
        let debit = num(lines[i], "debitMinor"@);
        let credit = num(lines[i], "creditMinor"@);
        lemma_post_holds(
            m,
            ev.id,
            ev.id,
            i as nat,
            to,
            debit,
            credit,
            date,
            Some(memo),
            role,
            account,
        );
        if let Ok(k) = post(Ok(m), ev.id, ev.id, i as nat, to, debit, credit, date, Some(memo)) {
            lemma_given_holds(k, ev, lines, date, memo, i + 1, role, account);
        }
    }
}

/// Opening lots bring what they are worth.
proof fn lemma_opening_lots(m: ReadModel, ev: EventV, lots: Seq<JsonV>, i: int)
    requires
        0 <= i <= lots.len(),
    ensures
        opening_lots_from(m, ev, lots, i) matches Ok(n) ==> value(n.lots) == value(m.lots)
            + sum_over(lots, line_worth("qty"@, "unitCostMinor"@)) - sum_over(
            lots.take(i),
            line_worth("qty"@, "unitCostMinor"@),
        ),
    decreases lots.len() - i,
{
    let f = line_worth("qty"@, "unitCostMinor"@);
    if i < lots.len() {
        let lot = stocked_lot(ev, lots[i], opt_txt(lots[i], "supplierId"@));
        lemma_add_lot(m, lot);
        lemma_sum_take(lots, i, f);
        if let Ok(k) = add_lot(Ok(m), lot) {
            lemma_opening_lots(k, ev, lots, i + 1);
        }
    } else {
        assert(lots.take(i) =~= lots);
    }
}

proof fn lemma_opening(m: ReadModel, ev: EventV, inv: Text)
    requires
        held_in(m, "inventory"@, inv),
        stated(list(ev.payload, "accountBalances"@), only(inv), 0) == sum_over(
            list(ev.payload, "lots"@),
            line_worth("qty"@, "unitCostMinor"@),
        ),
    ensures
        kept_after(opening_balances(m, ev), inv),
        opening_balances(m, ev) is Ok ==> drift_after(opening_balances(m, ev), inv) == drift_after(
            Ok(m),
            inv,
        ),
{
    let lines = list(ev.payload, "accountBalances"@);
    let lots = list(ev.payload, "lots"@);
    let date = txt(ev.payload, "date"@);
    lemma_given_book(m, ev, lines, date, "opening balance"@, 0, inv);
    lemma_given_holds(m, ev, lines, date, "opening balance"@, 0, "inventory"@, inv);
    keeps_given_lines(m, ev, lines, date, "opening balance"@, 0);
    if let Ok(k) = given_lines_from(m, ev, lines, date, "opening balance"@, 0) {
        keeps_opening_lots(k, ev, lots, 0);
        lemma_opening_lots(k, ev, lots, 0);
        assert(lots.take(0) =~= Seq::empty());
    }
}

/// What moving the first `n` lots is worth, at their cost.
pub open spec fn moved_worth(lots: Seq<Lot<Text>>, f: spec_fn(Text) -> int, n: nat) -> int
    decreases n,
{
    if n == 0 {
        0
    } else {
        moved_worth(lots, f, (n - 1) as nat) + if first(lots, n - 1) {
            f(lots[n - 1].id) * lots[n - 1].unit_cost_minor
        } else {
            0
        }
    }
}

/// Lots that move change the value of the stock by what the move is worth.
pub proof fn lemma_moved_worth(
    t: Seq<Lot<Text>>,
    f: spec_fn(Text) -> int,
    after: Seq<Lot<Text>>,
    n: nat,
)
    requires
        moved_by(t, f, after),
        n <= t.len(),
    ensures
        value(after.take(n as int)) == value(t.take(n as int)) + moved_worth(t, f, n),
    decreases n,
{
    let g = |l: Lot<Text>| lot_value(l);
    if n > 0 {
        let i = n - 1;
        lemma_moved_worth(t, f, after, i as nat);
        lemma_sum_take(t, i, g);
        lemma_sum_take(after, i, g);
        let d = if first(t, i) {
            f(t[i].id)
        } else {
            0
        };
        let q = t[i].qty_remaining as int;
        let c = t[i].unit_cost_minor as int;
        assert(after[i].qty_remaining == q + d);
        assert((q + d) * c == q * c + d * c) by (nonlinear_arith);
        assert(0 * c == 0);
    } else {
        assert(after.take(0) =~= t.take(0));
    }
}

/// Moving lots back is worth the opposite of moving them.
pub proof fn lemma_worth_back(
    t: Seq<Lot<Text>>,
    f: spec_fn(Text) -> int,
    after: Seq<Lot<Text>>,
    n: nat,
)
    requires
        moved_by(t, f, after),
        n <= t.len(),
    ensures
        moved_worth(after, back(f), n) == -moved_worth(t, f, n),
    decreases n,
{
    if n > 0 {
        let i = n - 1;
        lemma_worth_back(t, f, after, i as nat);
        lemma_places(t, f, after, t[i].id);
        assert(after[i].id == t[i].id && after[i].unit_cost_minor == t[i].unit_cost_minor);
        let x = f(t[i].id);
        let c = t[i].unit_cost_minor as int;
        assert((-x) * c == -(x * c)) by (nonlinear_arith);
    }
}

/// Reversing the event empties the lots that it brought.
pub open spec fn clears_lots(ev: EventV) -> bool {
    let ty = ev.event_type;
    ty == "PurchaseRecorded"@ || ty == "InventoryFound"@ || ty == "OpeningBalancesRecorded"@
}

/// What a lot is worth, if an event brought it.
pub open spec fn brought_by(event: Text) -> spec_fn(Lot<Text>) -> int {
    |l: Lot<Text>|
        if l.source_event_id == event {
            lot_value(l)
        } else {
            0
        }
}

/// What the lots that an event brought are worth.
pub open spec fn brought(lots: Seq<Lot<Text>>, event: Text) -> int {
    sum_over(lots, brought_by(event))
}

/// What reversing an event adds to the value of the stock.
pub open spec fn restored(lots: Seq<Lot<Text>>, target: EventV) -> int {
    if clears_lots(target) {
        -brought(lots, target.id)
    } else if moves_lots(target) {
        moved_worth(lots, back(lot_moves(target)), lots.len())
    } else {
        0
    }
}

/// A reversal states on the inventory account what it gives back, and the rows of a sale
/// that it reverses still tell what the sale took.
pub open spec fn reversed_in_step(m: ReadModel, ev: EventV, target: EventV, inv: Text) -> bool {
    &&& stated(list(ev.payload, "reversalJournalLines"@), only(inv), 0) == restored(m.lots, target)
    &&& target.event_type == "SaleRecorded"@ ==> rows_tell(m, target)
}

/// Emptying the lots that an event brought takes off what they were worth.
proof fn lemma_cleared(t: Seq<Lot<Text>>, event: Text, after: Seq<Lot<Text>>)
    requires
        after.len() == t.len(),
        forall|i: int|
            0 <= i < t.len() ==> #[trigger] after[i] == (Lot {
                qty_remaining: if t[i].source_event_id == event {
                    0
                } else {
                    t[i].qty_remaining
                },
                ..t[i]
            }),
    ensures
        value(after) == value(t) - brought(t, event),
    decreases t.len(),
{
    if t.len() > 0 {
        let i = t.len() - 1;
        let tf = t.drop_last();
        let af = after.drop_last();
        assert forall|j: int| 0 <= j < tf.len() implies #[trigger] af[j] == (Lot {
            qty_remaining: if tf[j].source_event_id == event {
                0
            } else {
                tf[j].qty_remaining
            },
            ..tf[j]
        }) by {
            assert(after[j] == af[j]);
        }
        lemma_cleared(tf, event, af);
        assert(after[i] == after.last());
        assert(0 * t[i].unit_cost_minor == 0);
    }
}

proof fn lemma_reversal(m: ReadModel, log: Seq<EventV>, ev: EventV, target: EventV, inv: Text)
    requires
        held_in(m, "inventory"@, inv),
        lookup(log, txt(ev.payload, "targetEventId"@)) == Some(target),
        reversed_in_step(m, ev, target, inv),
        transaction_reversed(m, log, ev) is Ok,
    ensures
        kept_after(transaction_reversed(m, log, ev), inv),
        drift_after(transaction_reversed(m, log, ev), inv) == drift_after(Ok(m), inv),
{
    let given = list(ev.payload, "reversalJournalLines"@);
    let date = txt(target.payload, "date"@);
    lemma_given_book(m, ev, given, date, "reversal"@, 0, inv);
    lemma_given_holds(m, ev, given, date, "reversal"@, 0, "inventory"@, inv);
    keeps_given_lines(m, ev, given, date, "reversal"@, 0);
    let a = given_lines_from(m, ev, given, date, "reversal"@, 0)->Ok_0;
    keeps_revert_lots(a, target);
    let b = revert_lots(Ok(a), target)->Ok_0;
    keeps_revert_balances(b, target);
    let n = transaction_reversed(m, log, ev)->Ok_0;
    if clears_lots(target) {
        law_reversal_empties_lots(m, log, ev, target);
        lemma_cleared(m.lots, target.id, n.lots);
    } else if moves_lots(target) {
        law_reversal_moves_lots_back(m, log, ev, target);
        lemma_moved_worth(m.lots, back(lot_moves(target)), n.lots, m.lots.len());
        assert(m.lots.take(m.lots.len() as int) =~= m.lots);
        assert(n.lots.take(m.lots.len() as int) =~= n.lots);
    } else {
        assert(b.lots == a.lots);
    }
}

/// What an event needs to leave stock and books in step: units move at their lot's cost,
/// and nothing but stock is booked on the inventory account. Opening balances state on it
/// what their lots are worth, and a reversal what it gives back; no change of an account
/// puts another in the inventory account's place.
pub open spec fn in_step(m: ReadModel, log: Seq<EventV>, ev: EventV, inv: Text) -> bool {
    let ty = ev.event_type;
    let p = ev.payload;
    &&& ty == "OpeningBalancesRecorded"@ ==> stated(list(p, "accountBalances"@), only(inv), 0)
        == sum_over(list(p, "lots"@), line_worth("qty"@, "unitCostMinor"@))
    &&& ty == "TransactionReversed"@ ==> (lookup(log, txt(p, "targetEventId"@)) matches Some(t)
        ==> reversed_in_step(m, ev, t, inv))
    &&& ty == "AccountUpdated"@ ==> (account_updated(m, ev) matches Ok(n) ==> role_id(
        n,
        "inventory"@,
    ) == Ok::<Text, Fault>(inv))
    &&& ty == "SaleRecorded"@ ==> lines_at_cost(m.lots, list(p, "lines"@), "lotConsumption"@)
    &&& ty == "SaleReturnRecorded"@ ==> lines_at_cost(m.lots, list(p, "lines"@), "lotReturns"@)
    &&& ty == "PurchaseReturnRecorded"@ ==> parts_at_cost(m.lots, list(p, "lines"@))
    &&& ty == "InventoryAdjusted"@ ==> lines_spare(list(p, "lines"@), "expenseAccountId"@, inv)
    &&& ty == "InventoryFound"@ ==> lines_spare(list(p, "lines"@), "incomeAccountId"@, inv)
    &&& ty == "ExpenseRecorded"@ ==> txt(p, "accountId"@) != inv
    &&& ty == "TransferRecorded"@ ==> txt(p, "toAccountId"@) != inv && txt(p, "fromAccountId"@)
        != inv
}

proof fn lemma_purchase(m: ReadModel, ev: EventV, inv: Text)
    requires
        held_in(m, "inventory"@, inv),
    ensures
        kept_after(purchase_recorded(m, ev), inv),
        purchase_recorded(m, ev) is Ok ==> drift_after(purchase_recorded(m, ev), inv)
            == drift_after(Ok(m), inv),
{
    broadcast use {lemma_post_role, lemma_adjust_party};

    lemma_roles();
    if purchase_recorded(m, ev) is Ok {
        let p = ev.payload;
        let id = txt(p, "purchaseId"@);
        let date = txt(p, "date"@);
        let lines = list(p, "lines"@);
        let total = worth(lines, "qty"@, "unitCostMinor"@)->0;
        let o = add_purchase(Ok(m), invoice(ev, id, opt_txt(p, "supplierId"@), total));
        keeps_purchase_lines(o->Ok_0, ev, lines, 0);
        lemma_purchase_lines(o->Ok_0, ev, lines, 0);
        lemma_worth_is_exact(lines, "qty"@, "unitCostMinor"@);
        assert(lines.take(0) =~= Seq::empty());
        let q = purchase_lines(o, ev, lines);
        assert(kept_after(q, inv));
        assert(drift_after(q, inv) == drift_after(Ok(m), inv) + total);
        let r = post_role(q, ev.id, id, 0, "inventory"@, total, 0, date);
        assert(drift_after(r, inv) == drift_after(Ok(m), inv));
        let role = if on_credit(p) {
            "accounts_payable"@
        } else {
            "bank"@
        };
        let s = post_role(r, ev.id, id, 1, role, 0, total, date);
        assert(drift_after(s, inv) == drift_after(Ok(m), inv));
        assert(drift_after(purchase_recorded(m, ev), inv) == drift_after(Ok(m), inv));
    }
}

proof fn lemma_sale(m: ReadModel, ev: EventV, inv: Text)
    requires
        held_in(m, "inventory"@, inv),
        lines_at_cost(m.lots, list(ev.payload, "lines"@), "lotConsumption"@),
    ensures
        kept_after(sale_recorded(m, ev), inv),
        sale_recorded(m, ev) is Ok ==> drift_after(sale_recorded(m, ev), inv) == drift_after(
            Ok(m),
            inv,
        ),
{
    broadcast use {lemma_post_role, lemma_adjust_party};

    lemma_roles();
    if sale_recorded(m, ev) is Ok {
        let p = ev.payload;
        let id = txt(p, "saleId"@);
        let date = txt(p, "date"@);
        let lines = list(p, "lines"@);
        let revenue = worth(lines, "qty"@, "unitPriceMinor"@)->0;
        let cogs = nested_worth(lines, "lotConsumption"@, "qtyTaken"@, "unitCostMinor"@)->0;
        let o = add_sale(Ok(m), invoice(ev, id, opt_txt(p, "customerId"@), revenue));
        keeps_sale_lines(o->Ok_0, ev, lines, 0);
        lemma_sale_lines(o->Ok_0, ev, lines, 0);
        lemma_nested_worth(lines, "lotConsumption"@, "qtyTaken"@, "unitCostMinor"@);
        assert(lines.take(0) =~= Seq::empty());
        let q = sale_lines(o, ev, lines);
        assert(kept_after(q, inv));
        assert(drift_after(q, inv) == drift_after(Ok(m), inv) - cogs);
        let debtor = if on_credit(p) {
            "accounts_receivable"@
        } else {
            "bank"@
        };
        let a = post_role(q, ev.id, id, 0, debtor, revenue, 0, date);
        assert(drift_after(a, inv) == drift_after(q, inv));
        let b = post_role(a, ev.id, id, 1, "sales"@, 0, revenue, date);
        assert(drift_after(b, inv) == drift_after(q, inv));
        let c = post_role(b, ev.id, id, 2, "cogs"@, cogs, 0, date);
        assert(drift_after(c, inv) == drift_after(q, inv));
        let d = post_role(c, ev.id, id, 3, "inventory"@, 0, cogs, date);
        assert(drift_after(d, inv) == drift_after(Ok(m), inv));
        assert(drift_after(sale_recorded(m, ev), inv) == drift_after(Ok(m), inv));
    }
}

proof fn lemma_payment(m: ReadModel, ev: EventV, incoming: bool, inv: Text)
    requires
        held_in(m, "inventory"@, inv),
    ensures
        kept_after(payment(m, ev, incoming), inv),
        payment(m, ev, incoming) is Ok ==> drift_after(payment(m, ev, incoming), inv)
            == drift_after(Ok(m), inv),
{
    broadcast use {lemma_post_role, lemma_adjust_party};

    lemma_roles();
    if payment(m, ev, incoming) is Ok {
        let p = ev.payload;
        let id = txt(p, "paymentId"@);
        let amount = num(p, "amountMinor"@);
        let date = txt(p, "date"@);
        let party = txt(
            p,
            if incoming {
                "customerId"@
            } else {
                "supplierId"@
            },
        );
        let o = add_payment(
            Ok(m),
            Payment {
                id,
                event_id: ev.id,
                party_id: party,
                direction: if incoming {
                    "in"@
                } else {
                    "out"@
                },
                amount_minor: amount,
                date,
            },
        );
        let first = if incoming {
            "bank"@
        } else {
            "accounts_payable"@
        };
        let second = if incoming {
            "accounts_receivable"@
        } else {
            "bank"@
        };
        let a = post_role(o, ev.id, id, 0, first, amount, 0, date);
        assert(kept_after(o, inv));
        assert(drift_after(a, inv) == drifted(o, a, inv, 0));
        let q = post_role(a, ev.id, id, 1, second, 0, amount, date);
        assert(drift_after(q, inv) == drifted(a, q, inv, 0));
        assert(q is Ok);
        let parts = list(p, "allocations"@);
        keeps_settle(q->Ok_0, ev, incoming, party, parts, 0);
        let r = settle(q, ev, incoming, party, parts);
        assert(kept_after(r, inv));
        assert(drift_after(r, inv) == drift_after(Ok(m), inv));
        assert(drift_after(payment(m, ev, incoming), inv) == drift_after(Ok(m), inv));
    }
}

proof fn lemma_expense(m: ReadModel, ev: EventV, inv: Text)
    requires
        held_in(m, "inventory"@, inv),
        txt(ev.payload, "accountId"@) != inv,
    ensures
        kept_after(expense_recorded(m, ev), inv),
        expense_recorded(m, ev) is Ok ==> drift_after(expense_recorded(m, ev), inv) == drift_after(
            Ok(m),
            inv,
        ),
{
    broadcast use lemma_adjust_party;

    lemma_roles();
    if expense_recorded(m, ev) is Ok {
        let p = ev.payload;
        let id = txt(p, "expenseId"@);
        let account = txt(p, "accountId"@);
        let amount = num(p, "amountMinor"@);
        let date = txt(p, "date"@);
        let memo = opt_txt(p, "memo"@);
        let o = add_expense(
            Ok(m),
            Expense {
                id,
                event_id: ev.id,
                account_id: account,
                amount_minor: amount,
                date,
                memo,
                terms: txt(p, "terms"@),
            },
        );
        let q = post(o, ev.id, id, 0, account, amount, 0, date, memo);
        lemma_post(o, ev.id, id, 0, account, amount, 0, date, memo, inv);
        let role = if on_credit(p) {
            "accounts_payable"@
        } else {
            "bank"@
        };
        lemma_other_role(q->Ok_0, "inventory"@, inv, role);
        let a = role_id(q->Ok_0, role)->Ok_0;
        let k: Outcome = Ok(q->Ok_0);
        let r = post(k, ev.id, id, 1, a, 0, amount, date, memo);
        lemma_post(k, ev.id, id, 1, a, 0, amount, date, memo, inv);
        assert(drift_after(r, inv) == drift_after(Ok(m), inv));
        assert(drift_after(expense_recorded(m, ev), inv) == drift_after(Ok(m), inv));
    }
}

proof fn lemma_transfer(m: ReadModel, ev: EventV, inv: Text)
    requires
        held_in(m, "inventory"@, inv),
        txt(ev.payload, "toAccountId"@) != inv,
        txt(ev.payload, "fromAccountId"@) != inv,
    ensures
        kept_after(transfer_recorded(m, ev), inv),
        transfer_recorded(m, ev) is Ok ==> drift_after(transfer_recorded(m, ev), inv)
            == drift_after(Ok(m), inv),
{
    let p = ev.payload;
    let id = txt(p, "transferId"@);
    let amount = num(p, "amountMinor"@);
    let date = txt(p, "date"@);
    let memo = opt_txt(p, "memo"@);
    let start: Outcome = Ok(m);
    let to = txt(p, "toAccountId"@);
    let o = post(start, ev.id, id, 0, to, amount, 0, date, memo);
    lemma_post(start, ev.id, id, 0, to, amount, 0, date, memo, inv);
    lemma_post(o, ev.id, id, 1, txt(p, "fromAccountId"@), 0, amount, date, memo, inv);
}

proof fn lemma_sale_return(m: ReadModel, ev: EventV, inv: Text)
    requires
        held_in(m, "inventory"@, inv),
        lines_at_cost(m.lots, list(ev.payload, "lines"@), "lotReturns"@),
    ensures
        kept_after(sale_return(m, ev), inv),
        sale_return(m, ev) is Ok ==> drift_after(sale_return(m, ev), inv) == drift_after(
            Ok(m),
            inv,
        ),
{
    broadcast use {lemma_post_role, lemma_adjust_party, lemma_adjust_outstanding};

    lemma_roles();
    if sale_return(m, ev) is Ok {
        let p = ev.payload;
        let id = txt(p, "returnId"@);
        let original = txt(p, "originalSaleId"@);
        let date = txt(p, "date"@);
        let lines = list(p, "lines"@);
        let revenue = worth(lines, "qty"@, "unitPriceMinor"@)->0;
        let cost = nested_worth(lines, "lotReturns"@, "qtyReturned"@, "unitCostMinor"@)->0;
        let row = Return {
            id,
            event_id: ev.id,
            return_type: "sale_return"@,
            original_id: original,
            date,
            revenue_reversed_minor: revenue,
            cost_restored_minor: cost,
        };
        let o = add_return(Ok(m), row);
        keeps_sale_return_lines(o->Ok_0, ev, lines, 0, 0);
        lemma_sale_return_lines(o->Ok_0, ev, lines, 0, 0);
        lemma_nested_worth(lines, "lotReturns"@, "qtyReturned"@, "unitCostMinor"@);
        assert(lines.take(0) =~= Seq::empty());
        let q = sale_return_lines(o, ev, lines);
        assert(kept_after(q, inv));
        assert(drift_after(q, inv) == drift_after(Ok(m), inv) + cost);
        let sale = lookup(m.sales, original)->0;
        let refund = if sale.party_id is Some {
            "accounts_receivable"@
        } else {
            "bank"@
        };
        let a = post_role(q, ev.id, id, 0, "sales"@, revenue, 0, date);
        assert(drift_after(a, inv) == drift_after(q, inv));
        let b = post_role(a, ev.id, id, 1, refund, 0, revenue, date);
        assert(drift_after(b, inv) == drift_after(q, inv));
        let c = post_role(b, ev.id, id, 2, "inventory"@, cost, 0, date);
        assert(drift_after(c, inv) == drift_after(Ok(m), inv));
        let d = post_role(c, ev.id, id, 3, "cogs"@, 0, cost, date);
        assert(drift_after(d, inv) == drift_after(Ok(m), inv));
        if let Some(party) = sale.party_id {
            let reduce = reduction(revenue, sale.outstanding_minor);
            let e = adjust_outstanding(d, true, original, -reduce);
            assert(drift_after(e, inv) == drifted(d, e, inv, 0));
        }
        assert(drift_after(sale_return(m, ev), inv) == drift_after(Ok(m), inv));
    }
}

proof fn lemma_purchase_return(m: ReadModel, ev: EventV, inv: Text)
    requires
        held_in(m, "inventory"@, inv),
        parts_at_cost(m.lots, list(ev.payload, "lines"@)),
    ensures
        kept_after(purchase_return(m, ev), inv),
        purchase_return(m, ev) is Ok ==> drift_after(purchase_return(m, ev), inv) == drift_after(
            Ok(m),
            inv,
        ),
{
    broadcast use {lemma_post_role, lemma_adjust_party, lemma_adjust_outstanding};

    lemma_roles();
    if purchase_return(m, ev) is Ok {
        let p = ev.payload;
        let id = txt(p, "returnId"@);
        let original = txt(p, "originalPurchaseId"@);
        let date = txt(p, "date"@);
        let lines = list(p, "lines"@);
        let cost = worth(lines, "qty"@, "unitCostMinor"@)->0;
        let row = Return {
            id,
            event_id: ev.id,
            return_type: "purchase_return"@,
            original_id: original,
            date,
            revenue_reversed_minor: 0,
            cost_restored_minor: cost,
        };
        let o = add_return(Ok(m), row);
        keeps_purchase_return_lines(o->Ok_0, ev, lines, 0);
        lemma_purchase_return_lines(o->Ok_0, ev, lines, 0);
        lemma_worth_is_exact(lines, "qty"@, "unitCostMinor"@);
        assert(lines.take(0) =~= Seq::empty());
        let q = purchase_return_lines(o, ev, lines);
        assert(kept_after(q, inv));
        assert(drift_after(q, inv) == drift_after(Ok(m), inv) - cost);
        let purchase = lookup(m.purchases, original)->0;
        let refund = if purchase.party_id is Some {
            "accounts_payable"@
        } else {
            "bank"@
        };
        let a = post_role(q, ev.id, id, 0, refund, cost, 0, date);
        assert(drift_after(a, inv) == drift_after(q, inv));
        let b = post_role(a, ev.id, id, 1, "inventory"@, 0, cost, date);
        assert(drift_after(b, inv) == drift_after(Ok(m), inv));
        if let Some(party) = purchase.party_id {
            let reduce = reduction(cost, purchase.outstanding_minor);
            let e = adjust_outstanding(b, false, original, -reduce);
            assert(drift_after(e, inv) == drifted(b, e, inv, 0));
        }
        assert(drift_after(purchase_return(m, ev), inv) == drift_after(Ok(m), inv));
    }
}

/// Events other than reversals and opening balances keep stock and books in step.
proof fn lemma_in_step(m: ReadModel, log: Seq<EventV>, ev: EventV)
    requires
        distinct(m.accounts),
        role_id(m, "inventory"@) is Ok,
        in_step(m, log, ev, role_id(m, "inventory"@)->Ok_0),
        project(m, log, ev) is Ok,
        ev.event_type != "OpeningBalancesRecorded"@,
        ev.event_type != "TransactionReversed"@,
    ensures
        role_id(project(m, log, ev)->Ok_0, "inventory"@) == role_id(m, "inventory"@),
        drift(project(m, log, ev)->Ok_0) == drift(m),
{
    let inv = role_id(m, "inventory"@)->Ok_0;
    let n = project(m, log, ev)->Ok_0;
    let ty = ev.event_type;
    let start: Outcome = Ok(m);
    assert(drift_after(start, inv) == drift(m));
    if ty == "AccountOpened"@ {
        lemma_opening_holds(m, ev, "inventory"@, inv);
    } else if ty == "AccountUpdated"@ {
        lemma_update_holds(m, ev, "inventory"@, inv);
    } else if ty == "PurchaseRecorded"@ {
        lemma_purchase(m, ev, inv);
    } else if ty == "SaleRecorded"@ {
        lemma_sale(m, ev, inv);
    } else if ty == "PaymentReceived"@ {
        lemma_payment(m, ev, true, inv);
    } else if ty == "PaymentMade"@ {
        lemma_payment(m, ev, false, inv);
    } else if ty == "PaymentAllocated"@ {
        keeps_allocate(m, ev, list(ev.payload, "allocations"@), 0);
    } else if ty == "ExpenseRecorded"@ {
        lemma_expense(m, ev, inv);
    } else if ty == "TransferRecorded"@ {
        lemma_transfer(m, ev, inv);
    } else if ty == "InventoryAdjusted"@ {
        lemma_adjust_lines(m, ev, list(ev.payload, "lines"@), 0, inv);
    } else if ty == "InventoryFound"@ {
        lemma_found_lines(m, ev, list(ev.payload, "lines"@), 0, inv);
    } else if ty == "SaleReturnRecorded"@ {
        lemma_sale_return(m, ev, inv);
    } else if ty == "PurchaseReturnRecorded"@ {
        lemma_purchase_return(m, ev, inv);
    }
    let after: Outcome = Ok(n);
    assert(kept_after(after, inv));
    assert(drift_after(after, inv) == drift_after(start, inv));
}

/// What the projections of opening balances and of a reversal are.
pub proof fn lemma_stated_projected(m: ReadModel, log: Seq<EventV>, ev: EventV)
    ensures
        ev.event_type == "OpeningBalancesRecorded"@ ==> project(m, log, ev) == opening_balances(
            m,
            ev,
        ),
        ev.event_type == "TransactionReversed"@ ==> project(m, log, ev) == transaction_reversed(
            m,
            log,
            ev,
        ),
{
    lemma_types();
}

/// What the stock is worth and what the inventory account says move in step through
/// every event that moves units at their lot's cost and books nothing else on that
/// account, reversals and opening balances among them.
pub proof fn law_stock_value_follows_the_books(m: ReadModel, log: Seq<EventV>, ev: EventV)
    requires
        distinct(m.accounts),
        role_id(m, "inventory"@) is Ok,
        in_step(m, log, ev, role_id(m, "inventory"@)->Ok_0),
        project(m, log, ev) is Ok,
    ensures
        role_id(project(m, log, ev)->Ok_0, "inventory"@) == role_id(m, "inventory"@),
        drift(project(m, log, ev)->Ok_0) == drift(m),
{
    let inv = role_id(m, "inventory"@)->Ok_0;
    let n = project(m, log, ev)->Ok_0;
    lemma_stated_projected(m, log, ev);
    if ev.event_type == "OpeningBalancesRecorded"@ {
        lemma_opening(m, ev, inv);
    } else if ev.event_type == "TransactionReversed"@ {
        lemma_reversal(m, log, ev, lookup(log, txt(ev.payload, "targetEventId"@))->0, inv);
    } else {
        lemma_in_step(m, log, ev);
    }
}

} // verus!
