//! What each event makes of what is owed: which invoice, which payment, which party, by
//! how much.

use crate::events::EventV;
use crate::json::{list, num, opt_txt, txt, JsonV};
use crate::laws::dues::invoices;
use crate::laws::frames::{keeps_allocate, keeps_purchase_return_lines, keeps_sale_return_lines};
use crate::laws::stock::{lemma_nested_worth, lemma_worth_is_exact, line_worth, parts_worth};
use crate::laws::undo::one;
use crate::laws::unpaid::{
    figures, lemma_booked, lemma_figures, lemma_purchase_dues, lemma_sale_dues, lemma_sum_of_stated,
    moved_to, owing_moved, payer, spent_total, stated_settled, stated_spent, stated_total,
    target_key,
};
use crate::model::{
    add_allocation, add_expense, add_return, add_return_line, adjust_lot, adjust_outstanding,
    adjust_party, allocate_from, allocation, expense_recorded, line_id, nested_worth, on_credit,
    payment, payment_allocated, post, post_role, purchase_recorded, purchase_return,
    purchase_return_lines, purchase_return_lines_from, reduction, restock_from, role_id,
    sale_recorded, sale_return, sale_return_lines, sale_return_lines_from, settle_from, sum_of,
    worth, Text,
};
use crate::rows::lookup;
use crate::sums::sum_over;
use crate::tables::{Allocation, Expense, Invoice, ReadModel, Return, ReturnLine};
use crate::text::digits;
use vstd::prelude::*;

verus! {

/// A new invoice row: of the event, of a party, dated and on terms as the event says, over
/// a total; all of it is outstanding where it is on credit, none of it where it is not.
pub open spec fn billed(
    x: Invoice<Text>,
    ev: EventV,
    id: Text,
    party: Option<Text>,
    total: int,
) -> bool {
    &&& x.id == id
    &&& x.event_id == ev.id
    &&& x.party_id == party
    &&& x.date == txt(ev.payload, "date"@)
    &&& x.terms == txt(ev.payload, "terms"@)
    &&& x.total_minor == total
    &&& x.terms == "credit"@ ==> x.outstanding_minor == total
    &&& x.terms != "credit"@ ==> x.outstanding_minor == 0
    &&& !x.reversed
}

/// A table with one row more.
pub open spec fn one_more<R>(before: Seq<R>, after: Seq<R>) -> bool {
    after.len() == before.len() + 1 && after.drop_last() == before
}

/// A sale adds its row over what its lines are sold for; on credit, its customer, and
/// nobody else, owes that much more.
pub proof fn law_sales_are_owed(m: ReadModel, ev: EventV, who: Text)
    requires
        sale_recorded(m, ev) is Ok,
    ensures
        ({
            let n = sale_recorded(m, ev)->Ok_0;
            let p = ev.payload;
            let customer = opt_txt(p, "customerId"@);
            let total = sum_over(list(p, "lines"@), line_worth("qty"@, "unitPriceMinor"@));
            &&& one_more(m.sales, n.sales)
            &&& billed(n.sales.last(), ev, txt(p, "saleId"@), customer, total)
            &&& n.purchases == m.purchases
            &&& txt(p, "terms"@) == "credit"@ && customer == Some(who) ==> moved_to(
                figures(m.balances, who),
                total,
                0,
                0,
                0,
                figures(n.balances, who),
            )
            &&& txt(p, "terms"@) != "credit"@ || customer != Some(who) ==> figures(
                n.balances,
                who,
            ) == figures(m.balances, who)
        }),
{
    lemma_sale_dues(m, ev, who);
    lemma_worth_is_exact(list(ev.payload, "lines"@), "qty"@, "unitPriceMinor"@);
    let n = sale_recorded(m, ev)->Ok_0;
    assert(n.sales.drop_last() =~= m.sales);
}

/// A purchase adds its row over what its lines cost; on credit, its supplier, and nobody
/// else, is owed that much more.
pub proof fn law_purchases_are_owed(m: ReadModel, ev: EventV, who: Text)
    requires
        purchase_recorded(m, ev) is Ok,
    ensures
        ({
            let n = purchase_recorded(m, ev)->Ok_0;
            let p = ev.payload;
            let supplier = opt_txt(p, "supplierId"@);
            let total = sum_over(list(p, "lines"@), line_worth("qty"@, "unitCostMinor"@));
            &&& one_more(m.purchases, n.purchases)
            &&& billed(n.purchases.last(), ev, txt(p, "purchaseId"@), supplier, total)
            &&& n.sales == m.sales
            &&& txt(p, "terms"@) == "credit"@ && supplier == Some(who) ==> moved_to(
                figures(m.balances, who),
                0,
                total,
                0,
                0,
                figures(n.balances, who),
            )
            &&& txt(p, "terms"@) != "credit"@ || supplier != Some(who) ==> figures(
                n.balances,
                who,
            ) == figures(m.balances, who)
        }),
{
    lemma_purchase_dues(m, ev, who);
    lemma_worth_is_exact(list(ev.payload, "lines"@), "qty"@, "unitCostMinor"@);
    let n = purchase_recorded(m, ev)->Ok_0;
    assert(n.purchases.drop_last() =~= m.purchases);
}

// ---- payments ----

/// What records settle of an invoice that they name under a key.
pub open spec fn settles(key: Text, id: Text) -> spec_fn(JsonV) -> int {
    |j: JsonV|
        if txt(j, key) == id {
            num(j, "amountMinor"@) as int
        } else {
            0
        }
}

/// What records come to.
pub open spec fn amounts() -> spec_fn(JsonV) -> int {
    |j: JsonV| num(j, "amountMinor"@) as int
}

proof fn lemma_stated_sums(js: Seq<JsonV>, key: Text, id: Text, i: int)
    requires
        0 <= i <= js.len(),
    ensures
        stated_settled(js, key, id, i) == sum_over(js, settles(key, id)) - sum_over(
            js.take(i),
            settles(key, id),
        ),
        stated_total(js, i) == sum_over(js, amounts()) - sum_over(js.take(i), amounts()),
    decreases js.len() - i,
{
    if i < js.len() {
        lemma_stated_sums(js, key, id, i + 1);
        assert(js.take(i + 1).drop_last() =~= js.take(i));
        assert(js.take(i + 1).last() == js[i]);
    } else {
        assert(js.take(i) =~= js);
    }
}

/// The rows that a payment adds: one for each of its records.
pub open spec fn settlement_row(
    a: Allocation<Text>,
    ev: EventV,
    j: int,
    target: Text,
    kind: Text,
    amount: i64,
) -> bool {
    &&& a.id == ev.id + "#alloc#"@ + digits(j as nat)
    &&& a.event_id == ev.id
    &&& a.payment_id == txt(ev.payload, "paymentId"@)
    &&& a.target_id == target
    &&& a.target_type == kind
    &&& a.amount_minor == amount
}

proof fn lemma_settle_rows(
    before: Seq<Allocation<Text>>,
    m: ReadModel,
    ev: EventV,
    incoming: bool,
    party: Text,
    js: Seq<JsonV>,
    i: int,
)
    requires
        0 <= i <= js.len(),
        m.allocations.len() == before.len() + i,
        m.allocations.take(before.len() as int) == before,
        forall|j: int|
            0 <= j < i ==> settlement_row(
                #[trigger] m.allocations[before.len() + j],
                ev,
                j,
                txt(js[j], target_key(incoming)),
                if incoming {
                    "sale"@
                } else {
                    "purchase"@
                },
                num(js[j], "amountMinor"@),
            ),
        settle_from(m, ev, incoming, party, js, i) is Ok,
    ensures
        ({
            let n = settle_from(m, ev, incoming, party, js, i)->Ok_0;
            &&& n.allocations.len() == before.len() + js.len()
            &&& n.allocations.take(before.len() as int) == before
            &&& forall|j: int|
                0 <= j < js.len() ==> settlement_row(
                    #[trigger] n.allocations[before.len() + j],
                    ev,
                    j,
                    txt(js[j], target_key(incoming)),
                    if incoming {
                        "sale"@
                    } else {
                        "purchase"@
                    },
                    num(js[j], "amountMinor"@),
                )
        }),
    decreases js.len() - i,
{
    if i < js.len() {
        let target = txt(js[i], target_key(incoming));
        let amount = num(js[i], "amountMinor"@);
        let kind = if incoming {
            "sale"@
        } else {
            "purchase"@
        };
        let row = allocation(ev, i as nat, txt(ev.payload, "paymentId"@), target, kind, amount);
        let a = add_allocation(Ok(m), row)->Ok_0;
        let b = adjust_outstanding(Ok(a), incoming, target, -amount)->Ok_0;
        let c = if incoming {
            adjust_party(Ok(b), party, -amount, 0, 0, 0)
        } else {
            adjust_party(Ok(b), party, 0, -amount, 0, 0)
        }->Ok_0;
        assert(c.allocations == m.allocations.push(row));
        assert(c.allocations.take(before.len() as int) =~= before) by {
            assert forall|j: int| 0 <= j < before.len() implies c.allocations[j] == before[j] by {
                assert(m.allocations.take(before.len() as int)[j] == before[j]);
            }
        }
        assert forall|j: int| 0 <= j < i + 1 implies settlement_row(
            #[trigger] c.allocations[before.len() + j],
            ev,
            j,
            txt(js[j], target_key(incoming)),
            kind,
            num(js[j], "amountMinor"@),
        ) by {
            if j < i {
                assert(c.allocations[before.len() + j] == m.allocations[before.len() + j]);
            }
        }
        lemma_settle_rows(before, c, ev, incoming, party, js, i + 1);
    }
}

/// What a payment leaves of invoices and payments: its row; every sale, for money in, or
/// purchase, for money out, owes less by what the payment's records give to it, and the
/// others are as they were; one row for each record.
pub proof fn law_payments_settle_what_they_name(m: ReadModel, ev: EventV, incoming: bool)
    requires
        payment(m, ev, incoming) is Ok,
    ensures
        ({
            let n = payment(m, ev, incoming)->Ok_0;
            let p = ev.payload;
            let js = list(p, "allocations"@);
            let key = if incoming {
                "saleId"@
            } else {
                "purchaseId"@
            };
            let kind = if incoming {
                "sale"@
            } else {
                "purchase"@
            };
            let at = m.allocations.len();
            &&& one_more(m.payments, n.payments)
            &&& n.payments.last().id == txt(p, "paymentId"@)
            &&& n.payments.last().event_id == ev.id
            &&& incoming ==> n.payments.last().direction == "in"@ && n.payments.last().party_id
                == txt(p, "customerId"@)
            &&& !incoming ==> n.payments.last().direction == "out"@ && n.payments.last().party_id
                == txt(p, "supplierId"@)
            &&& n.payments.last().amount_minor == num(p, "amountMinor"@)
            &&& n.payments.last().date == txt(p, "date"@)
            &&& incoming ==> n.purchases == m.purchases && owing_moved(
                m.sales,
                |x: Text| -sum_over(js, settles("saleId"@, x)),
                n.sales,
            )
            &&& !incoming ==> n.sales == m.sales && owing_moved(
                m.purchases,
                |x: Text| -sum_over(js, settles("purchaseId"@, x)),
                n.purchases,
            )
            &&& n.allocations.len() == at + js.len()
            &&& n.allocations.take(at as int) == m.allocations
            &&& forall|j: int|
                0 <= j < js.len() ==> settlement_row(
                    #[trigger] n.allocations[at + j],
                    ev,
                    j,
                    txt(js[j], key),
                    kind,
                    num(js[j], "amountMinor"@),
                )
        }),
{
    let n = payment(m, ev, incoming)->Ok_0;
    let p = ev.payload;
    let js = list(p, "allocations"@);
    let party = payer(ev, incoming);
    lemma_booked(m, ev, incoming);
    let k = crate::laws::unpaid::booked(m, ev, incoming)->Ok_0;
    crate::laws::unpaid::lemma_settle(k, ev, incoming, party, js, 0, Seq::empty(), party);
    let q = settle_from(k, ev, incoming, party, js, 0)->Ok_0;
    assert(m.allocations.take(m.allocations.len() as int) =~= m.allocations);
    lemma_settle_rows(m.allocations, k, ev, incoming, party, js, 0);
    let rest = num(p, "amountMinor"@) - sum_of(js, "amountMinor"@)->0;
    lemma_figures(q, party, 0, 0, rest, 0, party);
    lemma_figures(q, party, 0, 0, 0, rest, party);
    assert(n.payments == k.payments && n.allocations == q.allocations);
    assert(n.sales == q.sales && n.purchases == q.purchases);
    let f = |x: Text| -stated_settled(js, target_key(incoming), x, 0);
    let key = target_key(incoming);
    let g = |x: Text| -sum_over(js, settles(key, x));
    assert forall|x: Text| #[trigger] f(x) == g(x) by {
        lemma_stated_sums(js, key, x, 0);
        assert(js.take(0) =~= Seq::empty());
    }
    assert(f =~= g);
    assert(owing_moved(invoices(m, incoming), g, invoices(n, incoming)));
}

/// A payment moves its party's balance and nobody else's: what its records settle is owed
/// no longer, and what is left of the amount is held as credit.
pub proof fn law_payments_move_their_party(
    m: ReadModel,
    ev: EventV,
    incoming: bool,
    who: Text,
)
    requires
        payment(m, ev, incoming) is Ok,
    ensures
        ({
            let n = payment(m, ev, incoming)->Ok_0;
            let p = ev.payload;
            let settled = sum_over(list(p, "allocations"@), amounts());
            let rest = num(p, "amountMinor"@) - settled;
            let party = if incoming {
                txt(p, "customerId"@)
            } else {
                txt(p, "supplierId"@)
            };
            &&& who != party ==> figures(n.balances, who) == figures(m.balances, who)
            &&& who == party && incoming ==> moved_to(
                figures(m.balances, who),
                -settled,
                0,
                rest,
                0,
                figures(n.balances, who),
            )
            &&& who == party && !incoming ==> moved_to(
                figures(m.balances, who),
                0,
                -settled,
                0,
                rest,
                figures(n.balances, who),
            )
        }),
{
    let p = ev.payload;
    let js = list(p, "allocations"@);
    let party = payer(ev, incoming);
    lemma_booked(m, ev, incoming);
    let k = crate::laws::unpaid::booked(m, ev, incoming)->Ok_0;
    crate::laws::unpaid::lemma_settle(k, ev, incoming, party, js, 0, Seq::empty(), who);
    lemma_stated_sums(js, Seq::empty(), Seq::empty(), 0);
    assert(js.take(0) =~= Seq::empty());
    lemma_sum_of_stated(js, 0);
    let q = settle_from(k, ev, incoming, party, js, 0)->Ok_0;
    let rest = num(p, "amountMinor"@) - sum_of(js, "amountMinor"@)->0;
    lemma_figures(q, party, 0, 0, rest, 0, who);
    lemma_figures(q, party, 0, 0, 0, rest, who);
}

// ---- held credit ----

/// What records of a kind settle of an invoice.
pub open spec fn spends(sale: bool, id: Text) -> spec_fn(JsonV) -> int {
    |j: JsonV|
        if (txt(j, "targetType"@) == "sale"@) == sale && txt(j, "targetId"@) == id {
            num(j, "amountMinor"@) as int
        } else {
            0
        }
}

/// What records of a kind come to.
pub open spec fn spends_in_all(sale: bool) -> spec_fn(JsonV) -> int {
    |j: JsonV|
        if (txt(j, "targetType"@) == "sale"@) == sale {
            num(j, "amountMinor"@) as int
        } else {
            0
        }
}

proof fn lemma_spent_sums(js: Seq<JsonV>, sale: bool, id: Text, i: int)
    requires
        0 <= i <= js.len(),
    ensures
        stated_spent(js, sale, id, i) == sum_over(js, spends(sale, id)) - sum_over(
            js.take(i),
            spends(sale, id),
        ),
        spent_total(js, sale, i) == sum_over(js, spends_in_all(sale)) - sum_over(
            js.take(i),
            spends_in_all(sale),
        ),
    decreases js.len() - i,
{
    if i < js.len() {
        lemma_spent_sums(js, sale, id, i + 1);
        assert(js.take(i + 1).drop_last() =~= js.take(i));
        assert(js.take(i + 1).last() == js[i]);
    } else {
        assert(js.take(i) =~= js);
    }
}

proof fn lemma_allocate_rows(
    before: Seq<Allocation<Text>>,
    m: ReadModel,
    ev: EventV,
    js: Seq<JsonV>,
    i: int,
)
    requires
        0 <= i <= js.len(),
        m.allocations.len() == before.len() + i,
        m.allocations.take(before.len() as int) == before,
        forall|j: int|
            0 <= j < i ==> settlement_row(
                #[trigger] m.allocations[before.len() + j],
                ev,
                j,
                txt(js[j], "targetId"@),
                txt(js[j], "targetType"@),
                num(js[j], "amountMinor"@),
            ),
        allocate_from(m, ev, js, i) is Ok,
    ensures
        ({
            let n = allocate_from(m, ev, js, i)->Ok_0;
            &&& n.allocations.len() == before.len() + js.len()
            &&& n.allocations.take(before.len() as int) == before
            &&& forall|j: int|
                0 <= j < js.len() ==> settlement_row(
                    #[trigger] n.allocations[before.len() + j],
                    ev,
                    j,
                    txt(js[j], "targetId"@),
                    txt(js[j], "targetType"@),
                    num(js[j], "amountMinor"@),
                )
        }),
    decreases js.len() - i,
{
    if i < js.len() {
        let party = txt(ev.payload, "partyId"@);
        let target = txt(js[i], "targetId"@);
        let kind = txt(js[i], "targetType"@);
        let amount = num(js[i], "amountMinor"@);
        let sale = kind == "sale"@;
        let row = allocation(ev, i as nat, txt(ev.payload, "paymentId"@), target, kind, amount);
        let a = add_allocation(Ok(m), row)->Ok_0;
        let b = adjust_outstanding(Ok(a), sale, target, -amount)->Ok_0;
        let c = if sale {
            adjust_party(Ok(b), party, -amount, 0, -amount, 0)
        } else {
            adjust_party(Ok(b), party, 0, -amount, 0, -amount)
        }->Ok_0;
        assert(c.allocations == m.allocations.push(row));
        assert(c.allocations.take(before.len() as int) =~= before) by {
            assert forall|j: int| 0 <= j < before.len() implies c.allocations[j] == before[j] by {
                assert(m.allocations.take(before.len() as int)[j] == before[j]);
            }
        }
        assert forall|j: int| 0 <= j < i + 1 implies settlement_row(
            #[trigger] c.allocations[before.len() + j],
            ev,
            j,
            txt(js[j], "targetId"@),
            txt(js[j], "targetType"@),
            num(js[j], "amountMinor"@),
        ) by {
            if j < i {
                assert(c.allocations[before.len() + j] == m.allocations[before.len() + j]);
            }
        }
        lemma_allocate_rows(before, c, ev, js, i + 1);
    }
}

/// Held credit that is allocated settles just the invoices that the records name, moves no
/// journal line and no payment, adds one row for each record, and takes from its party,
/// and from nobody else, as much of the credit as of what was owed, on either side.
pub proof fn law_credit_settles_what_it_names(m: ReadModel, ev: EventV, who: Text)
    requires
        payment_allocated(m, ev) is Ok,
    ensures
        ({
            let n = payment_allocated(m, ev)->Ok_0;
            let p = ev.payload;
            let js = list(p, "allocations"@);
            let at = m.allocations.len();
            let s = sum_over(js, spends_in_all(true));
            let q = sum_over(js, spends_in_all(false));
            &&& owing_moved(m.sales, |x: Text| -sum_over(js, spends(true, x)), n.sales)
            &&& owing_moved(m.purchases, |x: Text| -sum_over(js, spends(false, x)), n.purchases)
            &&& n.journal == m.journal
            &&& n.accounts == m.accounts
            &&& n.payments == m.payments
            &&& n.allocations.len() == at + js.len()
            &&& n.allocations.take(at as int) == m.allocations
            &&& forall|j: int|
                0 <= j < js.len() ==> settlement_row(
                    #[trigger] n.allocations[at + j],
                    ev,
                    j,
                    txt(js[j], "targetId"@),
                    txt(js[j], "targetType"@),
                    num(js[j], "amountMinor"@),
                )
            &&& who == txt(p, "partyId"@) ==> moved_to(
                figures(m.balances, who),
                -s,
                -q,
                -s,
                -q,
                figures(n.balances, who),
            )
            &&& who != txt(p, "partyId"@) ==> figures(n.balances, who) == figures(m.balances, who)
        }),
{
    let n = payment_allocated(m, ev)->Ok_0;
    let js = list(ev.payload, "allocations"@);
    crate::laws::unpaid::lemma_allocate(m, ev, js, 0, true, Seq::empty(), who);
    crate::laws::unpaid::lemma_allocate(m, ev, js, 0, false, Seq::empty(), who);
    keeps_allocate(m, ev, js, 0);
    assert(m.allocations.take(m.allocations.len() as int) =~= m.allocations);
    lemma_allocate_rows(m.allocations, m, ev, js, 0);
    assert(js.take(0) =~= Seq::empty());
    lemma_spent_sums(js, true, Seq::empty(), 0);
    lemma_spent_sums(js, false, Seq::empty(), 0);
    lemma_spent_moves(m, n, js, true);
    lemma_spent_moves(m, n, js, false);
}

proof fn lemma_spent_moves(m: ReadModel, n: ReadModel, js: Seq<JsonV>, sale: bool)
    requires
        owing_moved(
            invoices(m, sale),
            |x: Text| -stated_spent(js, sale, x, 0),
            invoices(n, sale),
        ),
    ensures
        owing_moved(
            invoices(m, sale),
            |x: Text| -sum_over(js, spends(sale, x)),
            invoices(n, sale),
        ),
{
    let f = |x: Text| -stated_spent(js, sale, x, 0);
    let g = |x: Text| -sum_over(js, spends(sale, x));
    assert forall|x: Text| #[trigger] f(x) == g(x) by {
        lemma_spent_sums(js, sale, x, 0);
        assert(js.take(0) =~= Seq::empty());
    }
    assert(f =~= g);
}

// ---- expenses ----

/// An expense adds its row; on credit, the supplier it names, and nobody else, is owed
/// that much more.
pub proof fn law_expenses_are_owed(m: ReadModel, ev: EventV, who: Text)
    requires
        expense_recorded(m, ev) is Ok,
    ensures
        ({
            let n = expense_recorded(m, ev)->Ok_0;
            let p = ev.payload;
            let x = n.expenses.last();
            let supplier = opt_txt(p, "supplierId"@);
            &&& one_more(m.expenses, n.expenses)
            &&& x.id == txt(p, "expenseId"@)
            &&& x.event_id == ev.id
            &&& x.account_id == txt(p, "accountId"@)
            &&& x.amount_minor == num(p, "amountMinor"@)
            &&& x.date == txt(p, "date"@)
            &&& x.memo == opt_txt(p, "memo"@)
            &&& x.terms == txt(p, "terms"@)
            &&& n.sales == m.sales && n.purchases == m.purchases
            &&& txt(p, "terms"@) == "credit"@ && supplier == Some(who) ==> moved_to(
                figures(m.balances, who),
                0,
                num(p, "amountMinor"@) as int,
                0,
                0,
                figures(n.balances, who),
            )
            &&& txt(p, "terms"@) != "credit"@ || supplier != Some(who) ==> figures(
                n.balances,
                who,
            ) == figures(m.balances, who)
        }),
{
    let n = expense_recorded(m, ev)->Ok_0;
    let p = ev.payload;
    let id = txt(p, "expenseId"@);
    let account = txt(p, "accountId"@);
    let amount = num(p, "amountMinor"@);
    let date = txt(p, "date"@);
    let memo = opt_txt(p, "memo"@);
    let row = Expense {
        id,
        event_id: ev.id,
        account_id: account,
        amount_minor: amount,
        date,
        memo,
        terms: txt(p, "terms"@),
    };
    let o = add_expense(Ok(m), row);
    let o = post(o, ev.id, id, 0, account, amount, 0, date, memo);
    let role = if on_credit(p) {
        "accounts_payable"@
    } else {
        "bank"@
    };
    let k1 = o->Ok_0;
    let a = role_id(k1, role)->Ok_0;
    let k = post(Ok(k1), ev.id, id, 1, a, 0, amount, date, memo)->Ok_0;
    assert(k.balances == m.balances && k.expenses == m.expenses.push(row));
    assert(k.expenses.drop_last() =~= m.expenses);
    if let Some(s) = opt_txt(p, "supplierId"@) {
        lemma_figures(k, s, 0, amount as int, 0, 0, who);
    }
}

// ---- returns ----

/// What a return takes off an invoice is the refund or, where less is outstanding, what
/// is, and nothing where nothing is.
pub open spec fn refunded(reduce: int, refund: int, outstanding: i64) -> bool {
    let open = if outstanding > 0 {
        outstanding as int
    } else {
        0
    };
    reduce <= refund && reduce <= open && (reduce == refund || reduce == open)
}

/// A sale return adds its row. Where the sale names a customer, it takes the price of what
/// came back off the sale as far as that is outstanding; the customer, and nobody else,
/// owes that much less, and the rest is held as their credit.
pub proof fn law_sale_returns_are_refunded(m: ReadModel, ev: EventV, who: Text)
    requires
        sale_return(m, ev) is Ok,
    ensures
        ({
            let n = sale_return(m, ev)->Ok_0;
            let p = ev.payload;
            let x = n.returns.last();
            let lines = list(p, "lines"@);
            let original = txt(p, "originalSaleId"@);
            let refund = sum_over(lines, line_worth("qty"@, "unitPriceMinor"@));
            let cost = sum_over(
                lines,
                parts_worth("lotReturns"@, "qtyReturned"@, "unitCostMinor"@),
            );
            &&& one_more(m.returns, n.returns)
            &&& x.id == txt(p, "returnId"@)
            &&& x.event_id == ev.id
            &&& x.return_type == "sale_return"@
            &&& x.original_id == original
            &&& x.date == txt(p, "date"@)
            &&& x.revenue_reversed_minor == refund
            &&& x.cost_restored_minor == cost
            &&& n.purchases == m.purchases
            &&& lookup(m.sales, original) matches Some(s) && match s.party_id {
                None => n.sales == m.sales && figures(n.balances, who) == figures(m.balances, who),
                Some(c) => exists|reduce: int|
                    refunded(reduce, refund, s.outstanding_minor) && owing_moved(
                        m.sales,
                        #[trigger] one(original, -reduce),
                        n.sales,
                    ) && if who == c {
                        moved_to(
                            figures(m.balances, who),
                            -reduce,
                            0,
                            refund - reduce,
                            0,
                            figures(n.balances, who),
                        )
                    } else {
                        figures(n.balances, who) == figures(m.balances, who)
                    },
            }
        }),
{
    let n = sale_return(m, ev)->Ok_0;
    let p = ev.payload;
    let id = txt(p, "returnId"@);
    let original = txt(p, "originalSaleId"@);
    let date = txt(p, "date"@);
    let lines = list(p, "lines"@);
    let revenue = worth(lines, "qty"@, "unitPriceMinor"@)->0;
    let cost = nested_worth(lines, "lotReturns"@, "qtyReturned"@, "unitCostMinor"@)->0;
    lemma_worth_is_exact(lines, "qty"@, "unitPriceMinor"@);
    lemma_nested_worth(lines, "lotReturns"@, "qtyReturned"@, "unitCostMinor"@);
    let row = Return {
        id,
        event_id: ev.id,
        return_type: "sale_return"@,
        original_id: original,
        date,
        revenue_reversed_minor: revenue,
        cost_restored_minor: cost,
    };
    let o = add_return(Ok(m), row);
    keeps_sale_return_lines(o->Ok_0, ev, lines, 0, 0);
    lemma_returns_kept(o->Ok_0, ev, lines, 0, 0);
    let o = sale_return_lines(o, ev, lines);
    let sale = lookup(m.sales, original)->0;
    let refund = if sale.party_id is Some {
        "accounts_receivable"@
    } else {
        "bank"@
    };
    let o = post_role(o, ev.id, id, 0, "sales"@, revenue, 0, date);
    let o = post_role(o, ev.id, id, 1, refund, 0, revenue, date);
    let o = post_role(o, ev.id, id, 2, "inventory"@, cost, 0, date);
    let o = post_role(o, ev.id, id, 3, "cogs"@, 0, cost, date);
    let k = o->Ok_0;
    assert(k.sales == m.sales && k.balances == m.balances && k.purchases == m.purchases);
    assert(k.returns == m.returns.push(row));
    assert(k.returns.drop_last() =~= m.returns);
    if let Some(c) = sale.party_id {
        let reduce = reduction(revenue, sale.outstanding_minor);
        let q = adjust_outstanding(Ok(k), true, original, -reduce)->Ok_0;
        crate::laws::unpaid::lemma_one(m.sales, original, -reduce);
        lemma_figures(q, c, -reduce, 0, revenue - reduce, 0, who);
        assert(refunded(reduce, revenue as int, sale.outstanding_minor));
        assert(owing_moved(m.sales, one(original, -reduce), n.sales));
    }
}

proof fn lemma_restock_kept(m: ReadModel, ev: EventV, line: JsonV, parts: Seq<JsonV>, j: int, n: int)
    ensures
        restock_from(m, ev, line, parts, j, n) matches Ok(k) ==> k.returns == m.returns,
    decreases parts.len() - j,
{
    if j < parts.len() && n + j < u64::MAX {
        let part = parts[j];
        let o = add_return_line(
            adjust_lot(Ok(m), txt(part, "lotId"@), num(part, "qtyReturned"@) as int),
            ReturnLine {
                id: line_id(ev.id, (n + j) as nat),
                return_id: txt(ev.payload, "returnId"@),
                item_id: txt(line, "itemId"@),
                qty: num(part, "qtyReturned"@),
                unit_price_minor: num(line, "unitPriceMinor"@),
                unit_cost_minor: num(part, "unitCostMinor"@),
                lot_id: txt(part, "lotId"@),
            },
        );
        if let Ok(k) = o {
            lemma_restock_kept(k, ev, line, parts, j + 1, n);
        }
    }
}

proof fn lemma_returns_kept(m: ReadModel, ev: EventV, lines: Seq<JsonV>, i: int, n: int)
    ensures
        sale_return_lines_from(m, ev, lines, i, n) matches Ok(k) ==> k.returns == m.returns,
    decreases lines.len() - i,
{
    if i < lines.len() {
        let parts = list(lines[i], "lotReturns"@);
        lemma_restock_kept(m, ev, lines[i], parts, 0, n);
        if let Ok(k) = restock_from(m, ev, lines[i], parts, 0, n) {
            lemma_returns_kept(k, ev, lines, i + 1, n + parts.len());
        }
    }
}

proof fn lemma_given_back_kept(m: ReadModel, ev: EventV, lines: Seq<JsonV>, i: int)
    ensures
        purchase_return_lines_from(m, ev, lines, i) matches Ok(k) ==> k.returns == m.returns,
    decreases lines.len() - i,
{
    if i < lines.len() {
        let line = lines[i];
        let o = add_return_line(
            adjust_lot(Ok(m), txt(line, "lotId"@), -num(line, "qty"@)),
            ReturnLine {
                id: line_id(ev.id, i as nat),
                return_id: txt(ev.payload, "returnId"@),
                item_id: txt(line, "itemId"@),
                qty: num(line, "qty"@),
                unit_price_minor: 0,
                unit_cost_minor: num(line, "unitCostMinor"@),
                lot_id: txt(line, "lotId"@),
            },
        );
        if let Ok(k) = o {
            lemma_given_back_kept(k, ev, lines, i + 1);
        }
    }
}

/// A purchase return adds its row. Where the purchase names a supplier, it takes what was
/// given back off the purchase as far as that is outstanding; the supplier, and nobody
/// else, is owed that much less, and the rest is held as credit with them.
pub proof fn law_purchase_returns_are_refunded(m: ReadModel, ev: EventV, who: Text)
    requires
        purchase_return(m, ev) is Ok,
    ensures
        ({
            let n = purchase_return(m, ev)->Ok_0;
            let p = ev.payload;
            let x = n.returns.last();
            let original = txt(p, "originalPurchaseId"@);
            let cost = sum_over(list(p, "lines"@), line_worth("qty"@, "unitCostMinor"@));
            &&& one_more(m.returns, n.returns)
            &&& x.id == txt(p, "returnId"@)
            &&& x.event_id == ev.id
            &&& x.return_type == "purchase_return"@
            &&& x.original_id == original
            &&& x.date == txt(p, "date"@)
            &&& x.revenue_reversed_minor == 0
            &&& x.cost_restored_minor == cost
            &&& n.sales == m.sales
            &&& lookup(m.purchases, original) matches Some(s) && match s.party_id {
                None => n.purchases == m.purchases && figures(n.balances, who) == figures(
                    m.balances,
                    who,
                ),
                Some(c) => exists|reduce: int|
                    refunded(reduce, cost, s.outstanding_minor) && owing_moved(
                        m.purchases,
                        #[trigger] one(original, -reduce),
                        n.purchases,
                    ) && if who == c {
                        moved_to(
                            figures(m.balances, who),
                            0,
                            -reduce,
                            0,
                            cost - reduce,
                            figures(n.balances, who),
                        )
                    } else {
                        figures(n.balances, who) == figures(m.balances, who)
                    },
            }
        }),
{
    let n = purchase_return(m, ev)->Ok_0;
    let p = ev.payload;
    let id = txt(p, "returnId"@);
    let original = txt(p, "originalPurchaseId"@);
    let date = txt(p, "date"@);
    let lines = list(p, "lines"@);
    let cost = worth(lines, "qty"@, "unitCostMinor"@)->0;
    lemma_worth_is_exact(lines, "qty"@, "unitCostMinor"@);
    let row = Return {
        id,
        event_id: ev.id,
        return_type: "purchase_return"@,
        original_id: original,
        date,
        revenue_reversed_minor: 0,
        cost_restored_minor: cost,
    };
    let o = add_return(Ok(m), row);
    keeps_purchase_return_lines(o->Ok_0, ev, lines, 0);
    lemma_given_back_kept(o->Ok_0, ev, lines, 0);
    let o = purchase_return_lines(o, ev, lines);
    let purchase = lookup(m.purchases, original)->0;
    let refund = if purchase.party_id is Some {
        "accounts_payable"@
    } else {
        "bank"@
    };
    let o = post_role(o, ev.id, id, 0, refund, cost, 0, date);
    let o = post_role(o, ev.id, id, 1, "inventory"@, 0, cost, date);
    let k = o->Ok_0;
    assert(k.sales == m.sales && k.balances == m.balances && k.purchases == m.purchases);
    assert(k.returns == m.returns.push(row));
    assert(k.returns.drop_last() =~= m.returns);
    if let Some(c) = purchase.party_id {
        let reduce = reduction(cost, purchase.outstanding_minor);
        let q = adjust_outstanding(Ok(k), false, original, -reduce)->Ok_0;
        crate::laws::unpaid::lemma_one(m.purchases, original, -reduce);
        lemma_figures(q, c, 0, -reduce, 0, cost - reduce, who);
        assert(refunded(reduce, cost as int, purchase.outstanding_minor));
        assert(owing_moved(m.purchases, one(original, -reduce), n.purchases));
    }
}

} // verus!
