//! When requests are granted, and what is then recorded.

use crate::commands::CommandError;
use crate::commands::guards::{claim, taken};
use crate::commands::movement::{
    adjust_line_json, adjust_lines_valid, adjust_request, expense_request, found_line_json,
    found_lines_valid, found_request, transfer_request, AdjustLineInput, FoundLineInput,
};
use crate::commands::purchase::{
    purchase_line_json, purchase_lines_valid, purchase_request, purchase_return_line_json,
    purchase_return_request, purchase_total, return_lines_valid, PurchaseLineInput,
    PurchaseReturnLineInput,
};
use crate::error::DbError;
use crate::genesis::{ANON_SUPPLIER_PARTY_ID, WALKIN_PARTY_ID};
use crate::json::{list, num, opt_txt, txt, JsonV};
use crate::model::Text;
use crate::rows::{holds, lookup};
use crate::sums::sum_over;
use crate::tables::ReadModel;
use crate::text::digits;
use vstd::prelude::*;

verus! {

/// The party is there, and is of a kind or of both kinds.
pub open spec fn trades_as(m: ReadModel, party: Text, kind: Text) -> bool {
    lookup(m.parties, party) matches Some(p) && (opt_txt(p.doc, "kind"@) == Some(kind) || opt_txt(
        p.doc,
        "kind"@,
    ) == Some("both"@))
}

/// Terms that a trade may have: cash, or credit with a party that is not built in.
pub open spec fn fair_terms(party: Text, terms: Text) -> bool {
    terms == "cash"@ || (terms == "credit"@ && party != WALKIN_PARTY_ID@ && party
        != ANON_SUPPLIER_PARTY_ID@)
}

proof fn lemma_terms()
    ensures
        "cash"@ != "credit"@,
{
    reveal_strlit("cash");
    reveal_strlit("credit");
    assert("cash"@.len() == 4);
    assert("credit"@.len() == 6);
}

// ---- purchases ----

/// A purchase line that may be granted.
pub open spec fn buyable(m: ReadModel, l: PurchaseLineInput<Text>) -> bool {
    l.qty > 0 && l.unit_cost_minor >= 0 && holds(m.items, l.item_id)
}

/// The record of a purchase line: item, quantity and cost as asked for, and a lot named
/// after the purchase and the line's place.
pub open spec fn bought_record(r: JsonV, id: Text, l: PurchaseLineInput<Text>, i: int) -> bool {
    &&& txt(r, "itemId"@) == l.item_id
    &&& num(r, "qty"@) == l.qty
    &&& num(r, "unitCostMinor"@) == l.unit_cost_minor
    &&& txt(r, "lotId"@) == id + "#lot"@ + digits(i as nat)
}

proof fn lemma_bought_record(id: Text, l: PurchaseLineInput<Text>, i: nat)
    ensures
        bought_record(purchase_line_json(id, l, i), id, l, i as int),
{
    reveal_strlit("itemId");
    reveal_strlit("qty");
    reveal_strlit("unitCostMinor");
    reveal_strlit("lotId");
    assert("itemId"@.len() == 6);
    assert("qty"@.len() == 3);
    assert("unitCostMinor"@.len() == 13);
    assert("lotId"@.len() == 5);
}

proof fn lemma_buyable(m: ReadModel, lines: Seq<PurchaseLineInput<Text>>, i: int)
    requires
        0 <= i,
    ensures
        purchase_lines_valid(m, lines, i) is Ok <==> forall|j: int|
            i <= j < lines.len() ==> buyable(m, #[trigger] lines[j]),
    decreases lines.len() - i,
{
    if i < lines.len() {
        lemma_buyable(m, lines, i + 1);
        if purchase_lines_valid(m, lines, i) is Ok {
            assert(buyable(m, lines[i]));
        }
    }
}

proof fn lemma_purchase_total(lines: Seq<PurchaseLineInput<Text>>)
    ensures
        purchase_total(lines) matches Some(t) ==> t == sum_over(
            lines,
            |l: PurchaseLineInput<Text>| l.qty * l.unit_cost_minor,
        ),
    decreases lines.len(),
{
    if lines.len() > 0 {
        lemma_purchase_total(lines.drop_last());
    }
}

/// A purchase may be granted: from a supplier, on fair terms, over at least one line, each
/// over some units of an item that exists, at no negative cost.
pub open spec fn may_purchase(
    m: ReadModel,
    supplier: Text,
    terms: Text,
    lines: Seq<PurchaseLineInput<Text>>,
) -> bool {
    &&& trades_as(m, supplier, "supplier"@)
    &&& fair_terms(supplier, terms)
    &&& lines.len() > 0
    &&& forall|j: int| 0 <= j < lines.len() ==> buyable(m, #[trigger] lines[j])
}

/// A purchase is granted only where it may be, and refused there only where its total
/// leaves the range of numbers; what is granted records what was asked for.
pub proof fn law_purchases_are_granted(
    m: ReadModel,
    id: Text,
    supplier: Text,
    date: Text,
    terms: Text,
    lines: Seq<PurchaseLineInput<Text>>,
)
    ensures
        match purchase_request(m, id, supplier, date, terms, lines) {
            Ok(p) => {
                let r = list(p, "lines"@);
                &&& may_purchase(m, supplier, terms, lines)
                &&& txt(p, "purchaseId"@) == id
                &&& opt_txt(p, "supplierId"@) == Some(supplier)
                &&& txt(p, "date"@) == date
                &&& txt(p, "terms"@) == terms
                &&& num(p, "totalMinor"@) == sum_over(
                    lines,
                    |l: PurchaseLineInput<Text>| l.qty * l.unit_cost_minor,
                )
                &&& r.len() == lines.len()
                &&& forall|j: int|
                    0 <= j < r.len() ==> bought_record(#[trigger] r[j], id, lines[j], j)
            },
            Err(e) => may_purchase(m, supplier, terms, lines) ==> e == CommandError::Db::<Text>(
                DbError::Overflow,
            ),
        },
{
    lemma_terms();
    lemma_buyable(m, lines, 0);
    lemma_purchase_total(lines);
    if let Ok(p) = purchase_request(m, id, supplier, date, terms, lines) {
        reveal_strlit("purchaseId");
        reveal_strlit("supplierId");
        reveal_strlit("date");
        reveal_strlit("terms");
        reveal_strlit("totalMinor");
        reveal_strlit("lines");
        assert("purchaseId"@[0] == 'p');
        assert("supplierId"@[0] == 's');
        assert("date"@[0] == 'd');
        assert("terms"@.len() == 5);
        assert("totalMinor"@[0] == 't' && "totalMinor"@.len() == 10);
        assert("lines"@[0] == 'l');
        assert("terms"@[0] == 't');
        let r = list(p, "lines"@);
        assert(r == Seq::new(lines.len(), |i: int| purchase_line_json(id, lines[i], i as nat)));
        assert forall|j: int| 0 <= j < r.len() implies bought_record(
            #[trigger] r[j],
            id,
            lines[j],
            j,
        ) by {
            lemma_bought_record(id, lines[j], j as nat);
        }
    }
}

// ---- expenses and transfers ----

/// The account is there and of the type expense.
pub open spec fn is_expense_account(m: ReadModel, account: Text) -> bool {
    lookup(m.accounts, account) matches Some(a) && opt_txt(a.doc, "type"@) == Some("expense"@)
}

/// An expense may be granted: over some amount, on an expense account; for cash with no
/// supplier, on credit with a supplier that is not built in.
pub open spec fn may_expense(
    m: ReadModel,
    account: Text,
    amount: i64,
    terms: Text,
    supplier: Option<Text>,
) -> bool {
    &&& amount > 0
    &&& is_expense_account(m, account)
    &&& (terms == "cash"@ && supplier is None) || (terms == "credit"@ && (supplier matches Some(s)
        && trades_as(m, s, "supplier"@) && s != WALKIN_PARTY_ID@ && s != ANON_SUPPLIER_PARTY_ID@))
}

/// An expense is granted exactly where it may be, and records what was asked for.
pub proof fn law_expenses_are_granted(
    m: ReadModel,
    id: Text,
    account: Text,
    amount: i64,
    date: Text,
    terms: Text,
    supplier: Option<Text>,
    memo: Option<Text>,
)
    ensures
        expense_request(m, id, account, amount, date, terms, supplier, memo) is Ok <==> may_expense(
            m,
            account,
            amount,
            terms,
            supplier,
        ),
        expense_request(m, id, account, amount, date, terms, supplier, memo) matches Ok(p) ==> {
            &&& txt(p, "expenseId"@) == id
            &&& txt(p, "accountId"@) == account
            &&& num(p, "amountMinor"@) == amount
            &&& txt(p, "date"@) == date
            &&& txt(p, "terms"@) == terms
            &&& opt_txt(p, "supplierId"@) == supplier
            &&& opt_txt(p, "memo"@) == memo
        },
{
    lemma_terms();
    reveal_strlit("expenseId");
    reveal_strlit("accountId");
    reveal_strlit("amountMinor");
    reveal_strlit("date");
    reveal_strlit("terms");
    reveal_strlit("supplierId");
    reveal_strlit("memo");
    assert("expenseId"@[0] == 'e');
    assert("accountId"@.len() == 9 && "accountId"@[0] == 'a');
    assert("amountMinor"@.len() == 11);
    assert("date"@[0] == 'd');
    assert("terms"@[0] == 't');
    assert("supplierId"@[0] == 's');
    assert("memo"@[0] == 'm');
}

/// A transfer is granted exactly where it is over some amount, between two different
/// accounts that exist; and records what was asked for.
pub proof fn law_transfers_are_granted(
    m: ReadModel,
    id: Text,
    from: Text,
    to: Text,
    amount: i64,
    date: Text,
    memo: Option<Text>,
)
    ensures
        transfer_request(m, id, from, to, amount, date, memo) is Ok <==> amount > 0 && from != to
            && holds(m.accounts, from) && holds(m.accounts, to),
        transfer_request(m, id, from, to, amount, date, memo) matches Ok(p) ==> {
            &&& txt(p, "transferId"@) == id
            &&& txt(p, "fromAccountId"@) == from
            &&& txt(p, "toAccountId"@) == to
            &&& num(p, "amountMinor"@) == amount
            &&& txt(p, "date"@) == date
            &&& opt_txt(p, "memo"@) == memo
        },
{
    reveal_strlit("transferId");
    reveal_strlit("fromAccountId");
    reveal_strlit("toAccountId");
    reveal_strlit("amountMinor");
    reveal_strlit("date");
    reveal_strlit("memo");
    assert("transferId"@.len() == 10);
    assert("fromAccountId"@.len() == 13);
    assert("toAccountId"@.len() == 11 && "toAccountId"@[0] == 't');
    assert("amountMinor"@.len() == 11 && "amountMinor"@[0] == 'a');
    assert("date"@[0] == 'd');
    assert("memo"@[0] == 'm');
}

// ---- stock found ----

/// A line of found stock that may be granted.
pub open spec fn findable(m: ReadModel, l: FoundLineInput<Text>) -> bool {
    l.qty > 0 && l.unit_cost_minor >= 0 && holds(m.accounts, l.income_account_id) && holds(
        m.items,
        l.item_id,
    )
}

proof fn lemma_findable(m: ReadModel, lines: Seq<FoundLineInput<Text>>, i: int)
    requires
        0 <= i,
    ensures
        found_lines_valid(m, lines, i) is Ok <==> forall|j: int|
            i <= j < lines.len() ==> findable(m, #[trigger] lines[j]),
    decreases lines.len() - i,
{
    if i < lines.len() {
        lemma_findable(m, lines, i + 1);
        if found_lines_valid(m, lines, i) is Ok {
            assert(findable(m, lines[i]));
        }
    }
}

/// The record of a line of found stock.
pub open spec fn found_record(r: JsonV, id: Text, l: FoundLineInput<Text>, i: int) -> bool {
    &&& txt(r, "itemId"@) == l.item_id
    &&& txt(r, "lotId"@) == id + "#lot"@ + digits(i as nat)
    &&& num(r, "qty"@) == l.qty
    &&& num(r, "unitCostMinor"@) == l.unit_cost_minor
    &&& txt(r, "acquiredAt"@) == l.acquired_at
    &&& opt_txt(r, "incomeAccountId"@) == Some(l.income_account_id)
}

proof fn lemma_found_record(id: Text, l: FoundLineInput<Text>, i: nat)
    ensures
        found_record(found_line_json(id, l, i), id, l, i as int),
{
    reveal_strlit("itemId");
    reveal_strlit("lotId");
    reveal_strlit("qty");
    reveal_strlit("unitCostMinor");
    reveal_strlit("acquiredAt");
    reveal_strlit("incomeAccountId");
    assert("itemId"@.len() == 6);
    assert("lotId"@.len() == 5);
    assert("qty"@.len() == 3);
    assert("unitCostMinor"@.len() == 13);
    assert("acquiredAt"@.len() == 10);
    assert("incomeAccountId"@.len() == 15);
}

/// Found stock is granted exactly where there is at least one line and every line is over
/// some units of an item that exists, at no negative cost, on an account that exists; and
/// it records what was asked for, in lots named after it and the line's place.
pub proof fn law_finds_are_granted(
    m: ReadModel,
    id: Text,
    date: Text,
    lines: Seq<FoundLineInput<Text>>,
)
    ensures
        found_request(m, id, date, lines) is Ok <==> lines.len() > 0 && forall|j: int|
            0 <= j < lines.len() ==> findable(m, #[trigger] lines[j]),
        found_request(m, id, date, lines) matches Ok(p) ==> {
            let r = list(p, "lines"@);
            &&& txt(p, "foundId"@) == id
            &&& txt(p, "date"@) == date
            &&& r.len() == lines.len()
            &&& forall|j: int| 0 <= j < r.len() ==> found_record(#[trigger] r[j], id, lines[j], j)
        },
{
    lemma_findable(m, lines, 0);
    if let Ok(p) = found_request(m, id, date, lines) {
        reveal_strlit("foundId");
        reveal_strlit("date");
        reveal_strlit("lines");
        assert("foundId"@.len() == 7);
        assert("date"@.len() == 4);
        assert("lines"@.len() == 5);
        let r = list(p, "lines"@);
        assert(r == Seq::new(lines.len(), |i: int| found_line_json(id, lines[i], i as nat)));
        assert forall|j: int| 0 <= j < r.len() implies found_record(
            #[trigger] r[j],
            id,
            lines[j],
            j,
        ) by {
            lemma_found_record(id, lines[j], j as nat);
        }
    }
}

// ---- stock that goes ----

/// Units that lines claim of a lot.
pub open spec fn claims_of<R>(
    lot_of: spec_fn(R) -> Text,
    qty_of: spec_fn(R) -> int,
    lot: Text,
) -> spec_fn(R) -> int {
    |l: R|
        if lot_of(l) == lot {
            qty_of(l)
        } else {
            0
        }
}

/// The lot of a line that writes stock off.
pub open spec fn off_lot() -> spec_fn(AdjustLineInput<Text>) -> Text {
    |l: AdjustLineInput<Text>| l.lot_id
}

/// The units that a line writes off.
pub open spec fn off_qty() -> spec_fn(AdjustLineInput<Text>) -> int {
    |l: AdjustLineInput<Text>| -l.qty_delta
}

/// Claims are the units of the first lines.
spec fn claims_hold<R>(
    d: Map<Text, i64>,
    lines: Seq<R>,
    i: int,
    lot_of: spec_fn(R) -> Text,
    qty_of: spec_fn(R) -> int,
) -> bool {
    forall|lot: Text| #[trigger]
        claim(d, lot) == sum_over(lines.take(i), claims_of(lot_of, qty_of, lot))
}

proof fn lemma_claims_hold<R>(
    m: ReadModel,
    d: Map<Text, i64>,
    lines: Seq<R>,
    i: int,
    lot_of: spec_fn(R) -> Text,
    qty_of: spec_fn(R) -> int,
    qty: i64,
)
    requires
        0 <= i < lines.len(),
        claims_hold(d, lines, i, lot_of, qty_of),
        qty_of(lines[i]) == qty,
        taken(m, d, lot_of(lines[i]), qty) is Ok,
    ensures
        claims_hold(taken(m, d, lot_of(lines[i]), qty)->Ok_0, lines, i + 1, lot_of, qty_of),
{
    let e = taken(m, d, lot_of(lines[i]), qty)->Ok_0;
    assert forall|lot: Text| #[trigger] claim(e, lot) == sum_over(
        lines.take(i + 1),
        claims_of(lot_of, qty_of, lot),
    ) by {
        let f = claims_of(lot_of, qty_of, lot);
        assert(lines.take(i + 1).drop_last() =~= lines.take(i));
        assert(lines.take(i + 1).last() == lines[i]);
        assert(sum_over(lines.take(i + 1), f) == sum_over(lines.take(i), f) + f(lines[i]));
        assert(claim(d, lot) == sum_over(lines.take(i), f));
    }
}

/// A sum over more rows is no less where no row counts for less than nothing.
proof fn lemma_sum_grows<R>(t: Seq<R>, f: spec_fn(R) -> int, i: int)
    requires
        0 <= i <= t.len(),
        forall|j: int| i <= j < t.len() ==> f(#[trigger] t[j]) >= 0,
    ensures
        sum_over(t.take(i), f) <= sum_over(t, f),
    decreases t.len() - i,
{
    if i < t.len() {
        assert(t.take(i + 1).drop_last() =~= t.take(i));
        assert(t.take(i + 1).last() == t[i]);
        lemma_sum_grows(t, f, i + 1);
    } else {
        assert(t.take(i) =~= t);
    }
}

/// A line that writes stock off: fewer units, at the expense of an expense account, of a
/// lot of the item.
pub open spec fn off_fits(m: ReadModel, l: AdjustLineInput<Text>) -> bool {
    &&& l.qty_delta < 0
    &&& is_expense_account(m, l.expense_account_id)
    &&& lookup(m.lots, l.lot_id) matches Some(x) && x.item_id == l.item_id
}

/// All lines together take no more of any lot than is left of it.
pub open spec fn off_within(m: ReadModel, lines: Seq<AdjustLineInput<Text>>) -> bool {
    forall|lot: Text|
        (#[trigger] lookup(m.lots, lot)) matches Some(l) ==> sum_over(
            lines,
            claims_of(off_lot(), off_qty(), lot),
        ) <= l.qty_remaining
}

proof fn lemma_off_granted(
    m: ReadModel,
    lines: Seq<AdjustLineInput<Text>>,
    d: Map<Text, i64>,
    i: int,
    j: int,
)
    requires
        0 <= i <= j < lines.len(),
        claims_hold(d, lines, i, off_lot(), off_qty()),
        adjust_lines_valid(m, lines, d, i) is Ok,
    ensures
        off_fits(m, lines[j]),
        lookup(m.lots, lines[j].lot_id) matches Some(l) && sum_over(
            lines.take(j + 1),
            claims_of(off_lot(), off_qty(), lines[j].lot_id),
        ) <= l.qty_remaining,
    decreases lines.len() - i,
{
    let l = lines[i];
    let q = (-l.qty_delta) as i64;
    let e = taken(m, d, l.lot_id, q)->Ok_0;
    lemma_claims_hold(m, d, lines, i, off_lot(), off_qty(), q);
    if j > i {
        lemma_off_granted(m, lines, e, i + 1, j);
    } else {
        assert(claim(e, l.lot_id) == sum_over(
            lines.take(i + 1),
            claims_of(off_lot(), off_qty(), l.lot_id),
        ));
    }
}

/// The record of a line that writes stock off.
pub open spec fn off_record(r: JsonV, l: AdjustLineInput<Text>) -> bool {
    &&& txt(r, "itemId"@) == l.item_id
    &&& txt(r, "lotId"@) == l.lot_id
    &&& num(r, "qtyDelta"@) == l.qty_delta
    &&& txt(r, "reasonCode"@) == l.reason_code
    &&& opt_txt(r, "expenseAccountId"@) == Some(l.expense_account_id)
}

proof fn lemma_off_record(l: AdjustLineInput<Text>)
    ensures
        off_record(adjust_line_json(l), l),
{
    reveal_strlit("itemId");
    reveal_strlit("lotId");
    reveal_strlit("qtyDelta");
    reveal_strlit("reasonCode");
    reveal_strlit("expenseAccountId");
    assert("itemId"@.len() == 6);
    assert("lotId"@.len() == 5);
    assert("qtyDelta"@.len() == 8);
    assert("reasonCode"@.len() == 10);
    assert("expenseAccountId"@.len() == 16);
}

/// A write-off that is granted has at least one line; every line takes units out of a lot
/// of its item at the expense of an expense account; the lines up to any one take no more
/// of its lot than is left of it; and it records what was asked for.
pub proof fn law_write_offs_are_granted(
    m: ReadModel,
    id: Text,
    date: Text,
    lines: Seq<AdjustLineInput<Text>>,
)
    requires
        adjust_request(m, id, date, lines) is Ok,
    ensures
        ({
            let p = adjust_request(m, id, date, lines)->Ok_0;
            let r = list(p, "lines"@);
            &&& lines.len() > 0
            &&& forall|j: int|
                0 <= j < lines.len() ==> off_fits(m, #[trigger] lines[j]) && (lookup(
                    m.lots,
                    lines[j].lot_id,
                ) matches Some(l) && sum_over(
                    lines.take(j + 1),
                    claims_of(off_lot(), off_qty(), lines[j].lot_id),
                ) <= l.qty_remaining)
            &&& txt(p, "adjustmentId"@) == id
            &&& txt(p, "date"@) == date
            &&& r.len() == lines.len()
            &&& forall|j: int| 0 <= j < r.len() ==> off_record(#[trigger] r[j], lines[j])
        }),
{
    let p = adjust_request(m, id, date, lines)->Ok_0;
    assert(claims_hold(Map::empty(), lines, 0, off_lot(), off_qty())) by {
        assert(lines.take(0) =~= Seq::empty());
    }
    assert forall|j: int| 0 <= j < lines.len() implies off_fits(m, #[trigger] lines[j]) && (lookup(
        m.lots,
        lines[j].lot_id,
    ) matches Some(l) && sum_over(
        lines.take(j + 1),
        claims_of(off_lot(), off_qty(), lines[j].lot_id),
    ) <= l.qty_remaining) by {
        lemma_off_granted(m, lines, Map::empty(), 0, j);
    }
    reveal_strlit("adjustmentId");
    reveal_strlit("date");
    reveal_strlit("lines");
    assert("adjustmentId"@.len() == 12);
    assert("date"@.len() == 4);
    assert("lines"@.len() == 5);
    let r = list(p, "lines"@);
    assert(r == Seq::new(lines.len(), |i: int| adjust_line_json(lines[i])));
    assert forall|j: int| 0 <= j < r.len() implies off_record(#[trigger] r[j], lines[j]) by {
        lemma_off_record(lines[j]);
    }
}

proof fn lemma_off_allowed(
    m: ReadModel,
    lines: Seq<AdjustLineInput<Text>>,
    d: Map<Text, i64>,
    i: int,
)
    requires
        0 <= i <= lines.len(),
        claims_hold(d, lines, i, off_lot(), off_qty()),
        forall|j: int| 0 <= j < lines.len() ==> off_fits(m, #[trigger] lines[j]),
        off_within(m, lines),
    ensures
        adjust_lines_valid(m, lines, d, i) matches Err(e) ==> e == CommandError::Db::<Text>(
            DbError::Overflow,
        ),
    decreases lines.len() - i,
{
    if i < lines.len() {
        let l = lines[i];
        assert(off_fits(m, l));
        if l.qty_delta != i64::MIN {
            let q = (-l.qty_delta) as i64;
            let f = claims_of(off_lot(), off_qty(), l.lot_id);
            let x = lookup(m.lots, l.lot_id)->0;
            assert(lookup(m.lots, l.lot_id) == Some(x));
            assert(sum_over(lines, f) <= x.qty_remaining);
            assert(lines.take(i + 1).drop_last() =~= lines.take(i));
            assert(lines.take(i + 1).last() == l);
            assert forall|j: int| i + 1 <= j < lines.len() implies f(#[trigger] lines[j]) >= 0 by {
                assert(off_fits(m, lines[j]));
            }
            lemma_sum_grows(lines, f, i + 1);
            assert(claim(d, l.lot_id) == sum_over(lines.take(i), f));
            if let Ok(e) = taken(m, d, l.lot_id, q) {
                lemma_claims_hold(m, d, lines, i, off_lot(), off_qty(), q);
                lemma_off_allowed(m, lines, e, i + 1);
            }
        }
    }
}

/// A write-off that takes units out of lots of their items, at the expense of expense
/// accounts, and no more of any lot than is left of it, is refused only where a number
/// leaves its range.
pub proof fn law_fair_write_offs_are_not_refused(
    m: ReadModel,
    id: Text,
    date: Text,
    lines: Seq<AdjustLineInput<Text>>,
)
    requires
        lines.len() > 0,
        forall|j: int| 0 <= j < lines.len() ==> off_fits(m, #[trigger] lines[j]),
        off_within(m, lines),
    ensures
        adjust_request(m, id, date, lines) matches Err(e) ==> e == CommandError::Db::<Text>(
            DbError::Overflow,
        ),
{
    assert(claims_hold(Map::empty(), lines, 0, off_lot(), off_qty())) by {
        assert(lines.take(0) =~= Seq::empty());
    }
    lemma_off_allowed(m, lines, Map::empty(), 0);
}

// ---- purchase returns ----

/// The lot of a line that gives stock back.
pub open spec fn back_lot() -> spec_fn(PurchaseReturnLineInput<Text>) -> Text {
    |l: PurchaseReturnLineInput<Text>| l.lot_id
}

/// The units that a line gives back.
pub open spec fn back_qty() -> spec_fn(PurchaseReturnLineInput<Text>) -> int {
    |l: PurchaseReturnLineInput<Text>| l.qty as int
}

/// A line that gives stock back: some units, at no negative cost, of a lot of the item.
pub open spec fn back_fits(m: ReadModel, l: PurchaseReturnLineInput<Text>) -> bool {
    &&& l.qty > 0
    &&& l.unit_cost_minor >= 0
    &&& lookup(m.lots, l.lot_id) matches Some(x) && x.item_id == l.item_id
}

/// The record of a line that gives stock back.
pub open spec fn back_record(r: JsonV, l: PurchaseReturnLineInput<Text>) -> bool {
    &&& txt(r, "itemId"@) == l.item_id
    &&& txt(r, "lotId"@) == l.lot_id
    &&& num(r, "qty"@) == l.qty
    &&& num(r, "unitCostMinor"@) == l.unit_cost_minor
}

proof fn lemma_back_record(l: PurchaseReturnLineInput<Text>)
    ensures
        back_record(purchase_return_line_json(l), l),
{
    reveal_strlit("itemId");
    reveal_strlit("lotId");
    reveal_strlit("qty");
    reveal_strlit("unitCostMinor");
    assert("itemId"@.len() == 6);
    assert("lotId"@.len() == 5);
    assert("qty"@.len() == 3);
    assert("unitCostMinor"@.len() == 13);
}

proof fn lemma_back_granted(
    m: ReadModel,
    lines: Seq<PurchaseReturnLineInput<Text>>,
    d: Map<Text, i64>,
    i: int,
    j: int,
)
    requires
        0 <= i <= j < lines.len(),
        claims_hold(d, lines, i, back_lot(), back_qty()),
        return_lines_valid(m, lines, d, i) is Ok,
    ensures
        back_fits(m, lines[j]),
        lookup(m.lots, lines[j].lot_id) matches Some(l) && sum_over(
            lines.take(j + 1),
            claims_of(back_lot(), back_qty(), lines[j].lot_id),
        ) <= l.qty_remaining,
    decreases lines.len() - i,
{
    let l = lines[i];
    let e = taken(m, d, l.lot_id, l.qty)->Ok_0;
    lemma_claims_hold(m, d, lines, i, back_lot(), back_qty(), l.qty);
    if j > i {
        lemma_back_granted(m, lines, e, i + 1, j);
    } else {
        assert(claim(e, l.lot_id) == sum_over(
            lines.take(i + 1),
            claims_of(back_lot(), back_qty(), l.lot_id),
        ));
    }
}

/// A purchase return that is granted is of a purchase that is there and not reversed, and
/// has at least one line; every line gives back units of a lot of its item; the lines up to
/// any one give back no more of its lot than is left of it; and it records what was asked
/// for.
pub proof fn law_purchase_returns_are_granted(
    m: ReadModel,
    id: Text,
    original: Text,
    date: Text,
    lines: Seq<PurchaseReturnLineInput<Text>>,
)
    requires
        purchase_return_request(m, id, original, date, lines) is Ok,
    ensures
        ({
            let p = purchase_return_request(m, id, original, date, lines)->Ok_0;
            let r = list(p, "lines"@);
            &&& lookup(m.purchases, original) matches Some(x) && !x.reversed
            &&& lines.len() > 0
            &&& forall|j: int|
                0 <= j < lines.len() ==> back_fits(m, #[trigger] lines[j]) && (lookup(
                    m.lots,
                    lines[j].lot_id,
                ) matches Some(l) && sum_over(
                    lines.take(j + 1),
                    claims_of(back_lot(), back_qty(), lines[j].lot_id),
                ) <= l.qty_remaining)
            &&& txt(p, "returnId"@) == id
            &&& txt(p, "originalPurchaseId"@) == original
            &&& txt(p, "date"@) == date
            &&& r.len() == lines.len()
            &&& forall|j: int| 0 <= j < r.len() ==> back_record(#[trigger] r[j], lines[j])
        }),
{
    let p = purchase_return_request(m, id, original, date, lines)->Ok_0;
    assert(lookup(m.purchases, original) matches Some(x) && !x.reversed) by {
        reveal_strlit("sales");
        reveal_strlit("purchases");
        assert("sales"@.len() == 5);
        assert("purchases"@.len() == 9);
    }
    assert(claims_hold(Map::empty(), lines, 0, back_lot(), back_qty())) by {
        assert(lines.take(0) =~= Seq::empty());
    }
    assert forall|j: int| 0 <= j < lines.len() implies back_fits(m, #[trigger] lines[j]) && (lookup(
        m.lots,
        lines[j].lot_id,
    ) matches Some(l) && sum_over(
        lines.take(j + 1),
        claims_of(back_lot(), back_qty(), lines[j].lot_id),
    ) <= l.qty_remaining) by {
        lemma_back_granted(m, lines, Map::empty(), 0, j);
    }
    reveal_strlit("returnId");
    reveal_strlit("originalPurchaseId");
    reveal_strlit("date");
    reveal_strlit("lines");
    assert("returnId"@.len() == 8);
    assert("originalPurchaseId"@.len() == 18);
    assert("date"@.len() == 4);
    assert("lines"@.len() == 5);
    let r = list(p, "lines"@);
    assert(r == Seq::new(lines.len(), |i: int| purchase_return_line_json(lines[i])));
    assert forall|j: int| 0 <= j < r.len() implies back_record(#[trigger] r[j], lines[j]) by {
        lemma_back_record(lines[j]);
    }
}

/// All lines together give back no more of any lot than is left of it.
pub open spec fn back_within(m: ReadModel, lines: Seq<PurchaseReturnLineInput<Text>>) -> bool {
    forall|lot: Text|
        (#[trigger] lookup(m.lots, lot)) matches Some(l) ==> sum_over(
            lines,
            claims_of(back_lot(), back_qty(), lot),
        ) <= l.qty_remaining
}

proof fn lemma_back_allowed(
    m: ReadModel,
    lines: Seq<PurchaseReturnLineInput<Text>>,
    d: Map<Text, i64>,
    i: int,
)
    requires
        0 <= i <= lines.len(),
        claims_hold(d, lines, i, back_lot(), back_qty()),
        forall|j: int| 0 <= j < lines.len() ==> back_fits(m, #[trigger] lines[j]),
        back_within(m, lines),
    ensures
        return_lines_valid(m, lines, d, i) matches Err(e) ==> e == CommandError::Db::<Text>(
            DbError::Overflow,
        ),
    decreases lines.len() - i,
{
    if i < lines.len() {
        let l = lines[i];
        assert(back_fits(m, l));
        let f = claims_of(back_lot(), back_qty(), l.lot_id);
        let x = lookup(m.lots, l.lot_id)->0;
        assert(lookup(m.lots, l.lot_id) == Some(x));
        assert(sum_over(lines, f) <= x.qty_remaining);
        assert(lines.take(i + 1).drop_last() =~= lines.take(i));
        assert(lines.take(i + 1).last() == l);
        assert forall|j: int| i + 1 <= j < lines.len() implies f(#[trigger] lines[j]) >= 0 by {
            assert(back_fits(m, lines[j]));
        }
        lemma_sum_grows(lines, f, i + 1);
        assert(claim(d, l.lot_id) == sum_over(lines.take(i), f));
        if let Ok(e) = taken(m, d, l.lot_id, l.qty) {
            lemma_claims_hold(m, d, lines, i, back_lot(), back_qty(), l.qty);
            lemma_back_allowed(m, lines, e, i + 1);
        }
    }
}

/// A return of units that are left of lots of their items, against a purchase that is not
/// reversed, is refused only where a number leaves its range.
pub proof fn law_fair_purchase_returns_are_not_refused(
    m: ReadModel,
    id: Text,
    original: Text,
    date: Text,
    lines: Seq<PurchaseReturnLineInput<Text>>,
)
    requires
        lines.len() > 0,
        lookup(m.purchases, original) matches Some(x) && !x.reversed,
        forall|j: int| 0 <= j < lines.len() ==> back_fits(m, #[trigger] lines[j]),
        back_within(m, lines),
    ensures
        purchase_return_request(m, id, original, date, lines) matches Err(e) ==> e
            == CommandError::Db::<Text>(DbError::Overflow),
{
    reveal_strlit("sales");
    reveal_strlit("purchases");
    assert("sales"@.len() == 5);
    assert("purchases"@.len() == 9);
    assert(claims_hold(Map::empty(), lines, 0, back_lot(), back_qty())) by {
        assert(lines.take(0) =~= Seq::empty());
    }
    lemma_back_allowed(m, lines, Map::empty(), 0);
}

} // verus!
