//! What a reversal undoes of what is owed: invoices that a payment or an allocation of
//! credit settled owe again, an invoice that is taken back owes nothing, and every party's
//! balance is what it was.

use crate::events::EventV;
use crate::json::{list, num, opt_txt, txt, JsonV};
use crate::laws::double_entry::lemma_types;
use crate::laws::dues::invoices;
use crate::laws::frames::{
    keeps_given_lines, keeps_purchase_lines, keeps_revert_balances, keeps_revert_lots,
    keeps_sale_lines,
};
use crate::laws::undo::{first, lemma_lookup_push, one};
use crate::model::{
    add_allocation, add_payment, add_purchase, add_sale, adjust_outstanding, adjust_party,
    allocate_from, allocated_by, allocation, allocations_but, clear_lots, given_lines_from, invoice,
    nested_worth, on_credit, owed, payment, payment_allocated, post_role, purchase_lines,
    purchase_recorded, reopen_from, revert_balances, revert_lots, sale_lines, sale_recorded,
    settle_from, sum_of, transaction_reversed, unallocate_from, voided, worth, zero_balance, Fault,
    Outcome, Text,
};
use crate::rows::{holds, lemma_has, lemma_place, lookup, place, Keyed};
use crate::tables::{Allocation, Balance, Invoice, Lot, Payment, ReadModel};
use vstd::prelude::*;

verus! {

// ---- invoices that move ----

/// The invoices, each owing more, or less.
pub open spec fn owing_moved(
    t: Seq<Invoice<Text>>,
    f: spec_fn(Text) -> int,
    after: Seq<Invoice<Text>>,
) -> bool {
    &&& after.len() == t.len()
    &&& forall|i: int|
        0 <= i < t.len() ==> (#[trigger] after[i]).outstanding_minor == t[i].outstanding_minor + (
        if first(t, i) {
            f(t[i].id)
        } else {
            0
        }) && after[i] == (Invoice { outstanding_minor: after[i].outstanding_minor, ..t[i] })
}

proof fn lemma_places(
    t: Seq<Invoice<Text>>,
    f: spec_fn(Text) -> int,
    after: Seq<Invoice<Text>>,
    key: Text,
)
    requires
        owing_moved(t, f, after),
    ensures
        place(after, key) == place(t, key),
{
    lemma_has(t, key);
    lemma_has(after, key);
    if let Some(i) = place(t, key) {
        assert(after[i].key() == t[i].key());
        assert forall|j: int| 0 <= j < i implies (#[trigger] after[j]).key() != key by {
            assert(t[j].key() != key);
        }
        lemma_place(after, key, i);
    } else if let Some(i) = place(after, key) {
        assert(t[i].key() == key);
    }
}

/// Two moves make one.
proof fn lemma_both(
    t: Seq<Invoice<Text>>,
    f: spec_fn(Text) -> int,
    a: Seq<Invoice<Text>>,
    g: spec_fn(Text) -> int,
    b: Seq<Invoice<Text>>,
    h: spec_fn(Text) -> int,
)
    requires
        owing_moved(t, f, a),
        owing_moved(a, g, b),
        forall|x: Text| #[trigger] h(x) == f(x) + g(x),
    ensures
        owing_moved(t, h, b),
{
    assert forall|i: int| 0 <= i < t.len() implies (#[trigger] b[i]).outstanding_minor
        == t[i].outstanding_minor + (if first(t, i) {
        h(t[i].id)
    } else {
        0
    }) && b[i] == (Invoice { outstanding_minor: b[i].outstanding_minor, ..t[i] }) by {
        lemma_places(t, f, a, t[i].id);
        assert(a[i].id == t[i].id);
    }
}

/// Adding to what is outstanding on an invoice moves that invoice.
pub proof fn lemma_one(t: Seq<Invoice<Text>>, id: Text, delta: int)
    ensures
        owed(t, id, delta) matches Ok(after) ==> owing_moved(t, one(id, delta), after),
{
    lemma_has(t, id);
    if let Ok(after) = owed(t, id, delta) {
        assert forall|i: int| 0 <= i < t.len() implies (#[trigger] after[i]).outstanding_minor
            == t[i].outstanding_minor + (if first(t, i) {
            one(id, delta)(t[i].id)
        } else {
            0
        }) && after[i] == (Invoice { outstanding_minor: after[i].outstanding_minor, ..t[i] }) by {
            lemma_has(t, t[i].id);
        }
    }
}

/// Invoices that move and move back are what they were.
proof fn lemma_there_and_back(
    t: Seq<Invoice<Text>>,
    f: spec_fn(Text) -> int,
    a: Seq<Invoice<Text>>,
    g: spec_fn(Text) -> int,
    b: Seq<Invoice<Text>>,
)
    requires
        owing_moved(t, f, a),
        owing_moved(a, g, b),
        forall|x: Text| #[trigger] g(x) == -f(x),
    ensures
        b == t,
{
    let none = |x: Text| 0int;
    lemma_both(t, f, a, g, b, none);
    assert forall|i: int| 0 <= i < t.len() implies #[trigger] b[i] == t[i] by {}
    assert(b =~= t);
}

// ---- balances ----

/// A party's balance: nothing, where it has none yet.
pub open spec fn figures(t: Seq<Balance<Text>>, party: Text) -> Balance<Text> {
    match lookup(t, party) {
        Some(b) => b,
        None => zero_balance(party),
    }
}

/// A balance moved to another.
pub open spec fn moved_to(
    b: Balance<Text>,
    receivable: int,
    payable: int,
    credit: int,
    debit: int,
    after: Balance<Text>,
) -> bool {
    &&& after.party_id == b.party_id
    &&& after.receivable_minor == b.receivable_minor + receivable
    &&& after.payable_minor == b.payable_minor + payable
    &&& after.unallocated_cr_minor == b.unallocated_cr_minor + credit
    &&& after.unallocated_dr_minor == b.unallocated_dr_minor + debit
}

/// Moving a party's balance moves that of no other.
pub proof fn lemma_figures(
    m: ReadModel,
    party: Text,
    receivable: int,
    payable: int,
    credit: int,
    debit: int,
    who: Text,
)
    ensures
        adjust_party(Ok(m), party, receivable, payable, credit, debit) matches Ok(n) ==> n == (
        ReadModel { balances: n.balances, ..m }) && (if who == party {
            moved_to(
                figures(m.balances, who),
                receivable,
                payable,
                credit,
                debit,
                figures(n.balances, who),
            )
        } else {
            figures(n.balances, who) == figures(m.balances, who)
        }),
{
    if let Ok(n) = adjust_party(Ok(m), party, receivable, payable, credit, debit) {
        lemma_has(m.balances, party);
        lemma_has(m.balances, who);
        lemma_has(n.balances, who);
        if let Some(at) = place(m.balances, party) {
            if let Some(i) = place(m.balances, who) {
                assert forall|j: int| 0 <= j < i implies (#[trigger] n.balances[j]).key()
                    != who by {
                    assert(m.balances[j].key() != who);
                }
                assert(n.balances[i].key() == who);
                lemma_place(n.balances, who, i);
            } else if let Some(i) = place(n.balances, who) {
                assert(m.balances[i].key() == who);
            }
        } else {
            lemma_lookup_push(m.balances, n.balances.last(), who);
            assert(n.balances == m.balances.push(n.balances.last()));
            if who != party && !holds(m.balances, who) {
                if let Some(i) = place(n.balances, who) {
                    if i < m.balances.len() {
                        assert(m.balances[i].key() == who);
                    }
                }
            }
        }
    }
}

// ---- what the allocation rows of an event tell ----

/// The row is the event's and of a kind.
pub open spec fn of_event(a: Allocation<Text>, event: Text, sale: bool) -> bool {
    a.event_id == event && (a.target_type == "sale"@) == sale
}

/// What the rows of an event from row `i` on settled of an invoice.
pub open spec fn rows_settled(
    rows: Seq<Allocation<Text>>,
    event: Text,
    sale: bool,
    id: Text,
    i: int,
) -> int
    decreases rows.len() - i,
{
    if i >= rows.len() {
        0
    } else {
        (if of_event(rows[i], event, sale) {
            one(rows[i].target_id, rows[i].amount_minor as int)(id)
        } else {
            0
        }) + rows_settled(rows, event, sale, id, i + 1)
    }
}

/// What the rows of an event from row `i` on come to.
pub open spec fn rows_total(
    rows: Seq<Allocation<Text>>,
    event: Text,
    sale: bool,
    i: int,
) -> int
    decreases rows.len() - i,
{
    if i >= rows.len() {
        0
    } else {
        (if of_event(rows[i], event, sale) {
            rows[i].amount_minor as int
        } else {
            0
        }) + rows_total(rows, event, sale, i + 1)
    }
}

/// One more row settles what it says.
proof fn lemma_row_push(
    rows: Seq<Allocation<Text>>,
    a: Allocation<Text>,
    event: Text,
    sale: bool,
    id: Text,
    i: int,
)
    requires
        0 <= i <= rows.len(),
    ensures
        rows_settled(rows.push(a), event, sale, id, i) == rows_settled(rows, event, sale, id, i) + (
        if of_event(a, event, sale) {
            one(a.target_id, a.amount_minor as int)(id)
        } else {
            0
        }),
        rows_total(rows.push(a), event, sale, i) == rows_total(rows, event, sale, i) + (
        if of_event(a, event, sale) {
            a.amount_minor as int
        } else {
            0
        }),
    decreases rows.len() - i,
{
    if i < rows.len() {
        lemma_row_push(rows, a, event, sale, id, i + 1);
        assert(rows.push(a)[i] == rows[i]);
    } else {
        assert(rows.push(a)[i] == a);
        assert(rows_settled(rows.push(a), event, sale, id, i + 1) == 0);
        assert(rows_total(rows.push(a), event, sale, i + 1) == 0);
    }
}

/// No row is the event's.
pub open spec fn none_of(rows: Seq<Allocation<Text>>, event: Text) -> bool {
    forall|i: int| 0 <= i < rows.len() ==> (#[trigger] rows[i]).event_id != event
}

/// An event without rows settled nothing.
proof fn lemma_none_of(rows: Seq<Allocation<Text>>, event: Text, sale: bool, id: Text, i: int)
    requires
        0 <= i,
        none_of(rows, event),
    ensures
        rows_settled(rows, event, sale, id, i) == 0,
        rows_total(rows, event, sale, i) == 0,
    decreases rows.len() - i,
{
    if i < rows.len() {
        lemma_none_of(rows, event, sale, id, i + 1);
    }
}

/// Taking an event's rows out of rows of which none is the event's takes out none.
proof fn lemma_but_none(rows: Seq<Allocation<Text>>, event: Text)
    requires
        none_of(rows, event),
    ensures
        allocations_but(rows, event) == rows,
    decreases rows.len(),
{
    reveal(Seq::filter);
    if rows.len() > 0 {
        let front = rows.drop_last();
        assert forall|i: int| 0 <= i < front.len() implies (#[trigger] front[i]).event_id
            != event by {
            assert(front[i] == rows[i]);
        }
        lemma_but_none(front, event);
        assert(rows.last() == rows[rows.len() - 1]);
        assert(front.push(rows.last()) =~= rows);
    } else {
        assert(allocations_but(rows, event) =~= rows);
    }
}

/// A row of the event is taken out again.
proof fn lemma_but_push(rows: Seq<Allocation<Text>>, a: Allocation<Text>)
    ensures
        allocations_but(rows.push(a), a.event_id) == allocations_but(rows, a.event_id),
{
    reveal(Seq::filter);
    assert(rows.push(a).drop_last() =~= rows);
}

/// The sum of an event's allocations is what its rows come to.
proof fn lemma_allocated_by(rows: Seq<Allocation<Text>>, event: Text)
    ensures
        allocated_by(rows, event) matches Some(x) ==> x == rows_total(rows, event, true, 0)
            + rows_total(rows, event, false, 0),
    decreases rows.len(),
{
    if rows.len() > 0 {
        let front = rows.drop_last();
        let a = rows.last();
        lemma_allocated_by(front, event);
        lemma_row_push(front, a, event, true, a.target_id, 0);
        lemma_row_push(front, a, event, false, a.target_id, 0);
        assert(front.push(a) =~= rows);
    }
}

/// Reopening moves the invoices by what the rows settled.
pub proof fn lemma_reopen(m: ReadModel, event: Text, i: int)
    requires
        0 <= i,
    ensures
        reopen_from(m, event, i) matches Ok(n) ==> owing_moved(
            m.sales,
            |id: Text| rows_settled(m.allocations, event, true, id, i),
            n.sales,
        ) && owing_moved(
            m.purchases,
            |id: Text| rows_settled(m.allocations, event, false, id, i),
            n.purchases,
        ) && n == (ReadModel { sales: n.sales, purchases: n.purchases, ..m }),
    decreases m.allocations.len() - i,
{
    let sales = |id: Text| rows_settled(m.allocations, event, true, id, i);
    let purchases = |id: Text| rows_settled(m.allocations, event, false, id, i);
    let none = |id: Text| 0int;
    if i < m.allocations.len() {
        let a = m.allocations[i];
        let sale = a.target_type == "sale"@;
        let amount = a.amount_minor as int;
        let step = if a.event_id == event {
            adjust_outstanding(Ok(m), sale, a.target_id, amount)
        } else {
            Ok(m)
        };
        if let Ok(k) = step {
            lemma_reopen(k, event, i + 1);
            if let Ok(n) = reopen_from(m, event, i) {
                assert(reopen_from(k, event, i + 1) == Ok::<ReadModel, Fault>(n));
                let rest = |id: Text| rows_settled(m.allocations, event, true, id, i + 1);
                let others = |id: Text| rows_settled(m.allocations, event, false, id, i + 1);
                lemma_one(m.sales, a.target_id, amount);
                lemma_one(m.purchases, a.target_id, amount);
                let (f, g) = if a.event_id != event {
                    (none, none)
                } else if sale {
                    (one(a.target_id, amount), none)
                } else {
                    (none, one(a.target_id, amount))
                };
                assert(owing_moved(m.sales, f, k.sales));
                assert(owing_moved(m.purchases, g, k.purchases));
                lemma_both(m.sales, f, k.sales, rest, n.sales, sales);
                lemma_both(m.purchases, g, k.purchases, others, n.purchases, purchases);
            }
        }
    }
}

/// Giving credit back moves the party's balance by what the rows come to.
proof fn lemma_unallocate(m: ReadModel, event: Text, party: Text, i: int, who: Text)
    requires
        0 <= i,
    ensures
        unallocate_from(m, event, party, i) matches Ok(n) ==> n == (ReadModel {
            balances: n.balances,
            ..m
        }) && (if who == party {
            moved_to(
                figures(m.balances, who),
                rows_total(m.allocations, event, true, i),
                rows_total(m.allocations, event, false, i),
                rows_total(m.allocations, event, true, i),
                rows_total(m.allocations, event, false, i),
                figures(n.balances, who),
            )
        } else {
            figures(n.balances, who) == figures(m.balances, who)
        }),
    decreases m.allocations.len() - i,
{
    if i < m.allocations.len() {
        let a = m.allocations[i];
        let amount = a.amount_minor as int;
        if a.event_id != event {
            lemma_unallocate(m, event, party, i + 1, who);
        } else {
            let o = if a.target_type == "sale"@ {
                adjust_party(Ok(m), party, amount, 0, amount, 0)
            } else {
                adjust_party(Ok(m), party, 0, amount, 0, amount)
            };
            lemma_figures(m, party, amount, 0, amount, 0, who);
            lemma_figures(m, party, 0, amount, 0, amount, who);
            if let Ok(k) = o {
                lemma_unallocate(k, event, party, i + 1, who);
            }
        }
    }
}

// ---- payments ----

/// What a payment's records from record `i` on settle of an invoice.
pub open spec fn stated_settled(js: Seq<JsonV>, key: Text, id: Text, i: int) -> int
    decreases js.len() - i,
{
    if i >= js.len() {
        0
    } else {
        one(txt(js[i], key), num(js[i], "amountMinor"@) as int)(id) + stated_settled(
            js,
            key,
            id,
            i + 1,
        )
    }
}

/// What a payment's records from record `i` on come to.
pub open spec fn stated_total(js: Seq<JsonV>, i: int) -> int
    decreases js.len() - i,
{
    if i >= js.len() {
        0
    } else {
        num(js[i], "amountMinor"@) + stated_total(js, i + 1)
    }
}

/// The sum of records is their sum from the first on.
pub proof fn lemma_sum_of_stated(js: Seq<JsonV>, n: int)
    requires
        0 <= n <= js.len(),
        sum_of(js, "amountMinor"@) is Some,
    ensures
        sum_of(js.take(n), "amountMinor"@) is Some,
        sum_of(js.take(n), "amountMinor"@)->0 + stated_total(js, n) == sum_of(
            js,
            "amountMinor"@,
        )->0,
    decreases js.len() - n,
{
    if n < js.len() {
        lemma_sum_of_stated(js, n + 1);
        assert(js.take(n + 1).drop_last() =~= js.take(n));
        assert(js.take(n + 1).last() == js[n]);
    } else {
        assert(js.take(n) =~= js);
    }
}

/// The name under which a payment's records name their invoices.
pub open spec fn target_key(incoming: bool) -> Text {
    if incoming {
        "saleId"@
    } else {
        "purchaseId"@
    }
}

/// What settling does, and what its rows then tell.
pub proof fn lemma_settle(
    m: ReadModel,
    ev: EventV,
    incoming: bool,
    party: Text,
    js: Seq<JsonV>,
    i: int,
    id: Text,
    who: Text,
)
    requires
        0 <= i,
        settle_from(m, ev, incoming, party, js, i) is Ok,
    ensures
        ({
            let n = settle_from(m, ev, incoming, party, js, i)->Ok_0;
            let total = stated_total(js, i);
            &&& owing_moved(
                invoices(m, incoming),
                |x: Text| -stated_settled(js, target_key(incoming), x, i),
                invoices(n, incoming),
            )
            &&& invoices(n, !incoming) == invoices(m, !incoming)
            &&& n.payments == m.payments && n.lots == m.lots
            &&& allocations_but(n.allocations, ev.id) == allocations_but(m.allocations, ev.id)
            &&& rows_settled(n.allocations, ev.id, incoming, id, 0) == rows_settled(
                m.allocations,
                ev.id,
                incoming,
                id,
                0,
            ) + stated_settled(js, target_key(incoming), id, i)
            &&& rows_settled(n.allocations, ev.id, !incoming, id, 0) == rows_settled(
                m.allocations,
                ev.id,
                !incoming,
                id,
                0,
            )
            &&& rows_total(n.allocations, ev.id, incoming, 0) == rows_total(
                m.allocations,
                ev.id,
                incoming,
                0,
            ) + total
            &&& rows_total(n.allocations, ev.id, !incoming, 0) == rows_total(
                m.allocations,
                ev.id,
                !incoming,
                0,
            )
            &&& if who == party {
                moved_to(
                    figures(m.balances, who),
                    if incoming {
                        -total
                    } else {
                        0
                    },
                    if incoming {
                        0
                    } else {
                        -total
                    },
                    0,
                    0,
                    figures(n.balances, who),
                )
            } else {
                figures(n.balances, who) == figures(m.balances, who)
            }
        }),
    decreases js.len() - i,
{
    let all = |x: Text| -stated_settled(js, target_key(incoming), x, i);
    if i < js.len() {
        reveal_strlit("sale");
        reveal_strlit("purchase");
        assert("sale"@.len() == 4);
        assert("purchase"@.len() == 8);
        let target = txt(js[i], target_key(incoming));
        let amount = num(js[i], "amountMinor"@);
        let kind = if incoming {
            "sale"@
        } else {
            "purchase"@
        };
        let row = allocation(ev, i as nat, txt(ev.payload, "paymentId"@), target, kind, amount);
        let a = add_allocation(Ok(m), row)->Ok_0;
        let b = adjust_outstanding(Ok(a), incoming, target, -amount)->Ok_0;
        let c = if incoming {
            adjust_party(Ok(b), party, -amount, 0, 0, 0)
        } else {
            adjust_party(Ok(b), party, 0, -amount, 0, 0)
        }->Ok_0;
        lemma_row_push(m.allocations, row, ev.id, incoming, id, 0);
        lemma_row_push(m.allocations, row, ev.id, !incoming, id, 0);
        lemma_but_push(m.allocations, row);
        lemma_one(invoices(m, incoming), target, -amount);
        lemma_figures(b, party, -amount, 0, 0, 0, who);
        lemma_figures(b, party, 0, -amount, 0, 0, who);
        lemma_settle(c, ev, incoming, party, js, i + 1, id, who);
        let n = settle_from(c, ev, incoming, party, js, i + 1)->Ok_0;
        let rest = |x: Text| -stated_settled(js, target_key(incoming), x, i + 1);
        lemma_both(
            invoices(m, incoming),
            one(target, -amount),
            invoices(c, incoming),
            rest,
            invoices(n, incoming),
            all,
        );
    }
}

/// What a payment does before it settles anything.
pub proof fn lemma_booked(m: ReadModel, ev: EventV, incoming: bool)
    requires
        payment(m, ev, incoming) is Ok,
    ensures
        ({
            let p = ev.payload;
            let party = payer(ev, incoming);
            let js = list(p, "allocations"@);
            let k = booked(m, ev, incoming)->Ok_0;
            let rest = num(p, "amountMinor"@) - sum_of(js, "amountMinor"@)->0;
            &&& booked(m, ev, incoming) is Ok
            &&& sum_of(js, "amountMinor"@) is Some
            &&& k == (ReadModel {
                journal: k.journal,
                accounts: k.accounts,
                payments: k.payments,
                ..m
            })
            &&& !holds(m.payments, txt(p, "paymentId"@))
            &&& k.payments.len() == m.payments.len() + 1
            &&& k.payments.last().id == txt(p, "paymentId"@)
            &&& k.payments.last().amount_minor == num(p, "amountMinor"@)
            &&& k.payments.drop_last() == m.payments
            &&& settle_from(k, ev, incoming, party, js, 0) is Ok
            &&& payment(m, ev, incoming) == if rest == 0 {
                settle_from(k, ev, incoming, party, js, 0)
            } else if incoming {
                adjust_party(settle_from(k, ev, incoming, party, js, 0), party, 0, 0, rest, 0)
            } else {
                adjust_party(settle_from(k, ev, incoming, party, js, 0), party, 0, 0, 0, rest)
            }
        }),
{
    let k = booked(m, ev, incoming)->Ok_0;
    assert(k.payments.drop_last() =~= m.payments);
}

/// The party of a payment.
pub open spec fn payer(ev: EventV, incoming: bool) -> Text {
    txt(
        ev.payload,
        if incoming {
            "customerId"@
        } else {
            "supplierId"@
        },
    )
}

/// A payment with its row and its journal lines, before it settles anything.
pub open spec fn booked(m: ReadModel, ev: EventV, incoming: bool) -> Outcome {
    let p = ev.payload;
    let id = txt(p, "paymentId"@);
    let amount = num(p, "amountMinor"@);
    let date = txt(p, "date"@);
    let o = add_payment(
        Ok(m),
        Payment {
            id,
            event_id: ev.id,
            party_id: payer(ev, incoming),
            direction: if incoming {
                "in"@
            } else {
                "out"@
            },
            amount_minor: amount,
            date,
        },
    );
    if incoming {
        post_role(
            post_role(o, ev.id, id, 0, "bank"@, amount, 0, date),
            ev.id,
            id,
            1,
            "accounts_receivable"@,
            0,
            amount,
            date,
        )
    } else {
        post_role(
            post_role(o, ev.id, id, 0, "accounts_payable"@, amount, 0, date),
            ev.id,
            id,
            1,
            "bank"@,
            0,
            amount,
            date,
        )
    }
}

/// What is left of a model apart from its journal, which a reversal adds to.
pub open spec fn same_dues(m: ReadModel, n: ReadModel) -> bool {
    &&& n.sales == m.sales
    &&& n.purchases == m.purchases
    &&& n.payments == m.payments
    &&& n.allocations == m.allocations
    &&& n.lots == m.lots
    &&& forall|party: Text| #[trigger] figures(n.balances, party) == figures(m.balances, party)
}

/// What the reversal of a payment or an allocation does apart from its journal lines.
proof fn lemma_reverted(m: ReadModel, log: Seq<EventV>, ev: EventV, target: EventV)
    requires
        target.event_type == "PaymentReceived"@ || target.event_type == "PaymentMade"@
            || target.event_type == "PaymentAllocated"@,
        lookup(log, txt(ev.payload, "targetEventId"@)) == Some(target),
        transaction_reversed(m, log, ev) is Ok,
    ensures
        ({
            let n = transaction_reversed(m, log, ev)->Ok_0;
            let k = given_lines_from(
                m,
                ev,
                list(ev.payload, "reversalJournalLines"@),
                txt(target.payload, "date"@),
                "reversal"@,
                0,
            )->Ok_0;
            &&& k == (ReadModel { journal: k.journal, accounts: k.accounts, ..m })
            &&& revert_balances(Ok(k), target) == Ok::<ReadModel, Fault>(n)
        }),
{
    lemma_types();
    keeps_given_lines(
        m,
        ev,
        list(ev.payload, "reversalJournalLines"@),
        txt(target.payload, "date"@),
        "reversal"@,
        0,
    );
}

/// Taking a payment back.
proof fn lemma_unpaid(
    m: ReadModel,
    target: EventV,
    incoming: bool,
    k: ReadModel,
    n: ReadModel,
    who: Text,
)
    requires
        none_of(m.allocations, target.id),
        target.event_type == if incoming {
            "PaymentReceived"@
        } else {
            "PaymentMade"@
        },
        payment(m, target, incoming) is Ok,
        ({
            let after = payment(m, target, incoming)->Ok_0;
            k == (ReadModel { journal: k.journal, accounts: k.accounts, ..after })
        }),
        revert_balances(Ok(k), target) == Ok::<ReadModel, Fault>(n),
    ensures
        n.sales == m.sales,
        n.purchases == m.purchases,
        n.payments == m.payments,
        n.allocations == m.allocations,
        n.lots == m.lots,
        figures(n.balances, who) == figures(m.balances, who),
{
    lemma_types();
    lemma_booked(m, target, incoming);
    let p = target.payload;
    let party = payer(target, incoming);
    let js = list(p, "allocations"@);
    let key = target_key(incoming);
    let a = booked(m, target, incoming)->Ok_0;
    let b = settle_from(a, target, incoming, party, js, 0)->Ok_0;
    let rest = num(p, "amountMinor"@) - sum_of(js, "amountMinor"@)->0;
    let id = txt(p, "paymentId"@);
    lemma_settle(a, target, incoming, party, js, 0, id, who);
    lemma_sum_of_stated(js, 0);
    assert(sum_of(js.take(0), "amountMinor"@) == Some(0i64)) by {
        assert(js.take(0).len() == 0);
    }
    lemma_figures(b, party, 0, 0, rest, 0, who);
    lemma_figures(b, party, 0, 0, 0, rest, who);
    assert(k.allocations == b.allocations && k.sales == b.sales && k.purchases == b.purchases);
    lemma_none_of(m.allocations, target.id, true, id, 0);
    lemma_none_of(m.allocations, target.id, false, id, 0);
    lemma_but_none(m.allocations, target.id);
    lemma_reopen(k, target.id, 0);
    let c = reopen_from(k, target.id, 0)->Ok_0;
    let f = |x: Text| -stated_settled(js, key, x, 0);
    let g = |x: Text| rows_settled(k.allocations, target.id, incoming, x, 0);
    let h = |x: Text| rows_settled(k.allocations, target.id, !incoming, x, 0);
    let none = |x: Text| 0int;
    assert forall|x: Text| #[trigger] g(x) == -f(x) by {
        lemma_settle(a, target, incoming, party, js, 0, x, who);
        lemma_none_of(m.allocations, target.id, incoming, x, 0);
    }
    assert forall|x: Text| #[trigger] h(x) == -none(x) by {
        lemma_settle(a, target, incoming, party, js, 0, x, who);
        lemma_none_of(m.allocations, target.id, !incoming, x, 0);
    }
    assert(owing_moved(invoices(m, !incoming), none, invoices(k, !incoming)));
    lemma_there_and_back(
        invoices(m, incoming),
        f,
        invoices(k, incoming),
        g,
        invoices(c, incoming),
    );
    lemma_there_and_back(
        invoices(m, !incoming),
        none,
        invoices(k, !incoming),
        h,
        invoices(c, !incoming),
    );
    lemma_allocated_by(k.allocations, target.id);
    let allocated = allocated_by(k.allocations, target.id)->0;
    lemma_figures(c, party, allocated as int, 0, -rest, 0, who);
    lemma_figures(c, party, 0, allocated as int, 0, -rest, who);
    lemma_lookup_push(m.payments, k.payments.last(), id);
    assert(k.payments == m.payments.push(k.payments.last()));
    let at = m.payments.len() as int;
    assert forall|j: int| 0 <= j < at implies (#[trigger] k.payments[j]).key() != id by {
        assert(k.payments[j] == m.payments[j]);
    }
    lemma_place(k.payments, id, at);
    assert(k.payments.remove(at) =~= m.payments);
}

/// A payment that is reversed right away leaves what is owed, what is held for whom, the
/// payments and their allocations as they were.
pub proof fn law_reversal_undoes_a_payment(
    m: ReadModel,
    target: EventV,
    incoming: bool,
    log: Seq<EventV>,
    ev: EventV,
)
    requires
        none_of(m.allocations, target.id),
        target.event_type == if incoming {
            "PaymentReceived"@
        } else {
            "PaymentMade"@
        },
        payment(m, target, incoming) is Ok,
        lookup(log, txt(ev.payload, "targetEventId"@)) == Some(target),
        transaction_reversed(payment(m, target, incoming)->Ok_0, log, ev) is Ok,
    ensures
        same_dues(m, transaction_reversed(payment(m, target, incoming)->Ok_0, log, ev)->Ok_0),
{
    let after = payment(m, target, incoming)->Ok_0;
    let n = transaction_reversed(after, log, ev)->Ok_0;
    lemma_reverted(after, log, ev, target);
    let k = given_lines_from(
        after,
        ev,
        list(ev.payload, "reversalJournalLines"@),
        txt(target.payload, "date"@),
        "reversal"@,
        0,
    )->Ok_0;
    lemma_unpaid(m, target, incoming, k, n, Seq::empty());
    assert forall|party: Text| #[trigger] figures(n.balances, party) == figures(
        m.balances,
        party,
    ) by {
        lemma_unpaid(m, target, incoming, k, n, party);
    }
}

// ---- allocations of held credit ----

/// The record is of a kind.
pub open spec fn for_sale(j: JsonV) -> bool {
    txt(j, "targetType"@) == "sale"@
}

/// What an allocation's records from record `i` on settle of an invoice of a kind.
pub open spec fn stated_spent(js: Seq<JsonV>, sale: bool, id: Text, i: int) -> int
    decreases js.len() - i,
{
    if i >= js.len() {
        0
    } else {
        (if for_sale(js[i]) == sale {
            one(txt(js[i], "targetId"@), num(js[i], "amountMinor"@) as int)(id)
        } else {
            0
        }) + stated_spent(js, sale, id, i + 1)
    }
}

/// What an allocation's records of a kind from record `i` on come to.
pub open spec fn spent_total(js: Seq<JsonV>, sale: bool, i: int) -> int
    decreases js.len() - i,
{
    if i >= js.len() {
        0
    } else {
        (if for_sale(js[i]) == sale {
            num(js[i], "amountMinor"@) as int
        } else {
            0
        }) + spent_total(js, sale, i + 1)
    }
}

/// What allocating held credit does, and what its rows then tell.
pub proof fn lemma_allocate(
    m: ReadModel,
    ev: EventV,
    js: Seq<JsonV>,
    i: int,
    sale: bool,
    id: Text,
    who: Text,
)
    requires
        0 <= i,
        allocate_from(m, ev, js, i) is Ok,
    ensures
        ({
            let n = allocate_from(m, ev, js, i)->Ok_0;
            let s = spent_total(js, true, i);
            let p = spent_total(js, false, i);
            &&& owing_moved(
                invoices(m, sale),
                |x: Text| -stated_spent(js, sale, x, i),
                invoices(n, sale),
            )
            &&& n.payments == m.payments && n.lots == m.lots
            &&& allocations_but(n.allocations, ev.id) == allocations_but(m.allocations, ev.id)
            &&& rows_settled(n.allocations, ev.id, sale, id, 0) == rows_settled(
                m.allocations,
                ev.id,
                sale,
                id,
                0,
            ) + stated_spent(js, sale, id, i)
            &&& rows_total(n.allocations, ev.id, sale, 0) == rows_total(
                m.allocations,
                ev.id,
                sale,
                0,
            ) + spent_total(js, sale, i)
            &&& if who == txt(ev.payload, "partyId"@) {
                moved_to(figures(m.balances, who), -s, -p, -s, -p, figures(n.balances, who))
            } else {
                figures(n.balances, who) == figures(m.balances, who)
            }
        }),
    decreases js.len() - i,
{
    let all = |x: Text| -stated_spent(js, sale, x, i);
    if i < js.len() {
        let party = txt(ev.payload, "partyId"@);
        let target = txt(js[i], "targetId"@);
        let kind = txt(js[i], "targetType"@);
        let amount = num(js[i], "amountMinor"@);
        let own = for_sale(js[i]);
        let row = allocation(ev, i as nat, txt(ev.payload, "paymentId"@), target, kind, amount);
        let a = add_allocation(Ok(m), row)->Ok_0;
        let b = adjust_outstanding(Ok(a), own, target, -amount)->Ok_0;
        let c = if own {
            adjust_party(Ok(b), party, -amount, 0, -amount, 0)
        } else {
            adjust_party(Ok(b), party, 0, -amount, 0, -amount)
        }->Ok_0;
        lemma_row_push(m.allocations, row, ev.id, sale, id, 0);
        lemma_but_push(m.allocations, row);
        lemma_one(invoices(m, sale), target, -amount);
        lemma_figures(b, party, -amount, 0, -amount, 0, who);
        lemma_figures(b, party, 0, -amount, 0, -amount, who);
        lemma_allocate(c, ev, js, i + 1, sale, id, who);
        let n = allocate_from(c, ev, js, i + 1)->Ok_0;
        let rest = |x: Text| -stated_spent(js, sale, x, i + 1);
        let f = if own == sale {
            one(target, -amount)
        } else {
            |x: Text| 0int
        };
        assert(owing_moved(invoices(m, sale), f, invoices(c, sale)));
        lemma_both(
            invoices(m, sale),
            f,
            invoices(c, sale),
            rest,
            invoices(n, sale),
            all,
        );
    }
}

/// Taking an allocation of held credit back.
proof fn lemma_unspent(m: ReadModel, target: EventV, k: ReadModel, n: ReadModel, who: Text)
    requires
        none_of(m.allocations, target.id),
        target.event_type == "PaymentAllocated"@,
        payment_allocated(m, target) is Ok,
        ({
            let after = payment_allocated(m, target)->Ok_0;
            k == (ReadModel { journal: k.journal, accounts: k.accounts, ..after })
        }),
        revert_balances(Ok(k), target) == Ok::<ReadModel, Fault>(n),
    ensures
        n.sales == m.sales,
        n.purchases == m.purchases,
        n.payments == m.payments,
        n.allocations == m.allocations,
        n.lots == m.lots,
        figures(n.balances, who) == figures(m.balances, who),
{
    lemma_types();
    let party = txt(target.payload, "partyId"@);
    let js = list(target.payload, "allocations"@);
    lemma_allocate(m, target, js, 0, true, party, who);
    lemma_allocate(m, target, js, 0, false, party, who);
    lemma_none_of(m.allocations, target.id, true, party, 0);
    lemma_none_of(m.allocations, target.id, false, party, 0);
    lemma_but_none(m.allocations, target.id);
    lemma_reopen(k, target.id, 0);
    let c = reopen_from(k, target.id, 0)->Ok_0;
    lemma_unallocate(c, target.id, party, 0, who);
    let f = |x: Text| -stated_spent(js, true, x, 0);
    let g = |x: Text| rows_settled(k.allocations, target.id, true, x, 0);
    assert forall|x: Text| #[trigger] g(x) == -f(x) by {
        lemma_allocate(m, target, js, 0, true, x, who);
        lemma_none_of(m.allocations, target.id, true, x, 0);
    }
    lemma_there_and_back(m.sales, f, k.sales, g, c.sales);
    let f = |x: Text| -stated_spent(js, false, x, 0);
    let g = |x: Text| rows_settled(k.allocations, target.id, false, x, 0);
    assert forall|x: Text| #[trigger] g(x) == -f(x) by {
        lemma_allocate(m, target, js, 0, false, x, who);
        lemma_none_of(m.allocations, target.id, false, x, 0);
    }
    lemma_there_and_back(m.purchases, f, k.purchases, g, c.purchases);
}

/// An allocation of held credit that is reversed right away leaves what is owed, what is
/// held for whom, the payments and their allocations as they were.
pub proof fn law_reversal_undoes_an_allocation(
    m: ReadModel,
    target: EventV,
    log: Seq<EventV>,
    ev: EventV,
)
    requires
        none_of(m.allocations, target.id),
        target.event_type == "PaymentAllocated"@,
        payment_allocated(m, target) is Ok,
        lookup(log, txt(ev.payload, "targetEventId"@)) == Some(target),
        transaction_reversed(payment_allocated(m, target)->Ok_0, log, ev) is Ok,
    ensures
        same_dues(m, transaction_reversed(payment_allocated(m, target)->Ok_0, log, ev)->Ok_0),
{
    let after = payment_allocated(m, target)->Ok_0;
    let n = transaction_reversed(after, log, ev)->Ok_0;
    lemma_reverted(after, log, ev, target);
    let k = given_lines_from(
        after,
        ev,
        list(ev.payload, "reversalJournalLines"@),
        txt(target.payload, "date"@),
        "reversal"@,
        0,
    )->Ok_0;
    lemma_unspent(m, target, k, n, Seq::empty());
    assert forall|party: Text| #[trigger] figures(n.balances, party) == figures(
        m.balances,
        party,
    ) by {
        lemma_unspent(m, target, k, n, party);
    }
}

// ---- invoices that are taken back ----

/// The invoices with one more, which is reversed and owes nothing.
pub open spec fn with_voided(t: Seq<Invoice<Text>>, id: Text, after: Seq<Invoice<Text>>) -> bool {
    &&& after.len() == t.len() + 1
    &&& after.drop_last() == t
    &&& after.last().id == id
    &&& after.last().reversed
    &&& after.last().outstanding_minor == 0
}

/// An invoice that was just added is the one that is voided.
pub proof fn lemma_voided(t: Seq<Invoice<Text>>, r: Invoice<Text>)
    requires
        !holds(t, r.id),
    ensures
        place(t.push(r), r.id) == Some(t.len() as int),
        with_voided(t, r.id, voided(t.push(r), t.len() as int)),
{
    let n = t.push(r);
    let at = t.len() as int;
    assert forall|j: int| 0 <= j < at implies (#[trigger] n[j]).key() != r.id by {
        assert(n[j] == t[j]);
    }
    assert(n[at].key() == r.id);
    lemma_place(n, r.id, at);
    assert(voided(n, at).drop_last() =~= t);
}

/// What a sale leaves of balances and sales.
pub proof fn lemma_sale_dues(m: ReadModel, ev: EventV, who: Text)
    requires
        sale_recorded(m, ev) is Ok,
    ensures
        ({
            let p = ev.payload;
            let n = sale_recorded(m, ev)->Ok_0;
            let party = opt_txt(p, "customerId"@);
            let revenue = worth(list(p, "lines"@), "qty"@, "unitPriceMinor"@)->0;
            let inv = invoice(ev, txt(p, "saleId"@), party, revenue);
            &&& !holds(m.sales, inv.id)
            &&& n.sales == m.sales.push(inv)
            &&& n.purchases == m.purchases
            &&& if on_credit(p) && party == Some(who) {
                moved_to(
                    figures(m.balances, who),
                    revenue as int,
                    0,
                    0,
                    0,
                    figures(n.balances, who),
                )
            } else {
                figures(n.balances, who) == figures(m.balances, who)
            }
        }),
{
    let p = ev.payload;
    let lines = list(p, "lines"@);
    let id = txt(p, "saleId"@);
    let date = txt(p, "date"@);
    let party = opt_txt(p, "customerId"@);
    let revenue = worth(lines, "qty"@, "unitPriceMinor"@)->0;
    let cogs = nested_worth(lines, "lotConsumption"@, "qtyTaken"@, "unitCostMinor"@)->0;
    let a = add_sale(Ok(m), invoice(ev, id, party, revenue));
    keeps_sale_lines(a->Ok_0, ev, lines, 0);
    let debtor = if on_credit(p) {
        "accounts_receivable"@
    } else {
        "bank"@
    };
    let o = sale_lines(a, ev, lines);
    let o = post_role(o, ev.id, id, 0, debtor, revenue, 0, date);
    let o = post_role(o, ev.id, id, 1, "sales"@, 0, revenue, date);
    let o = post_role(o, ev.id, id, 2, "cogs"@, cogs, 0, date);
    let o = post_role(o, ev.id, id, 3, "inventory"@, 0, cogs, date);
    let k = o->Ok_0;
    assert(k.sales == m.sales.push(invoice(ev, id, party, revenue)));
    assert(k.balances == m.balances && k.purchases == m.purchases);
    if let Some(c) = party {
        lemma_figures(k, c, revenue as int, 0, 0, 0, who);
    }
}

/// What a purchase leaves of balances and purchases.
pub proof fn lemma_purchase_dues(m: ReadModel, ev: EventV, who: Text)
    requires
        purchase_recorded(m, ev) is Ok,
    ensures
        ({
            let p = ev.payload;
            let n = purchase_recorded(m, ev)->Ok_0;
            let party = opt_txt(p, "supplierId"@);
            let total = worth(list(p, "lines"@), "qty"@, "unitCostMinor"@)->0;
            let inv = invoice(ev, txt(p, "purchaseId"@), party, total);
            &&& !holds(m.purchases, inv.id)
            &&& n.purchases == m.purchases.push(inv)
            &&& n.sales == m.sales
            &&& if on_credit(p) && party == Some(who) {
                moved_to(
                    figures(m.balances, who),
                    0,
                    total as int,
                    0,
                    0,
                    figures(n.balances, who),
                )
            } else {
                figures(n.balances, who) == figures(m.balances, who)
            }
        }),
{
    let p = ev.payload;
    let lines = list(p, "lines"@);
    let id = txt(p, "purchaseId"@);
    let date = txt(p, "date"@);
    let party = opt_txt(p, "supplierId"@);
    let total = worth(lines, "qty"@, "unitCostMinor"@)->0;
    let a = add_purchase(Ok(m), invoice(ev, id, party, total));
    keeps_purchase_lines(a->Ok_0, ev, lines, 0);
    let o = purchase_lines(a, ev, lines);
    let o = post_role(o, ev.id, id, 0, "inventory"@, total, 0, date);
    let creditor = if on_credit(p) {
        "accounts_payable"@
    } else {
        "bank"@
    };
    let k = post_role(o, ev.id, id, 1, creditor, 0, total, date)->Ok_0;
    assert(k.purchases == m.purchases.push(invoice(ev, id, party, total)));
    assert(k.balances == m.balances && k.sales == m.sales);
    if let Some(c) = party {
        lemma_figures(k, c, 0, total as int, 0, 0, who);
    }
}

/// What the reversal of a sale or a purchase does to invoices and balances.
proof fn lemma_taken_back(m: ReadModel, log: Seq<EventV>, ev: EventV, target: EventV)
    requires
        lookup(log, txt(ev.payload, "targetEventId"@)) == Some(target),
        transaction_reversed(m, log, ev) is Ok,
    ensures
        ({
            let n = transaction_reversed(m, log, ev)->Ok_0;
            let k = revert_lots(
                given_lines_from(
                    m,
                    ev,
                    list(ev.payload, "reversalJournalLines"@),
                    txt(target.payload, "date"@),
                    "reversal"@,
                    0,
                ),
                target,
            )->Ok_0;
            &&& k == (ReadModel {
                journal: k.journal,
                accounts: k.accounts,
                lots: k.lots,
                ..m
            })
            &&& revert_balances(Ok(k), target) == Ok::<ReadModel, Fault>(n)
        }),
{
    let given = list(ev.payload, "reversalJournalLines"@);
    let date = txt(target.payload, "date"@);
    keeps_given_lines(m, ev, given, date, "reversal"@, 0);
    keeps_revert_lots(given_lines_from(m, ev, given, date, "reversal"@, 0)->Ok_0, target);
}

/// A sale that is reversed right away stays as a reversed sale that is owed nothing, and
/// leaves every party's balance as it was.
pub proof fn law_reversal_undoes_a_sale(
    m: ReadModel,
    target: EventV,
    log: Seq<EventV>,
    ev: EventV,
)
    requires
        target.event_type == "SaleRecorded"@,
        sale_recorded(m, target) is Ok,
        lookup(log, txt(ev.payload, "targetEventId"@)) == Some(target),
        transaction_reversed(sale_recorded(m, target)->Ok_0, log, ev) is Ok,
    ensures
        ({
            let n = transaction_reversed(sale_recorded(m, target)->Ok_0, log, ev)->Ok_0;
            &&& with_voided(m.sales, txt(target.payload, "saleId"@), n.sales)
            &&& n.purchases == m.purchases
            &&& forall|party: Text| #[trigger]
                figures(n.balances, party) == figures(m.balances, party)
        }),
{
    lemma_types();
    let p = target.payload;
    let after = sale_recorded(m, target)->Ok_0;
    let n = transaction_reversed(after, log, ev)->Ok_0;
    let revenue = worth(list(p, "lines"@), "qty"@, "unitPriceMinor"@)->0;
    let party = opt_txt(p, "customerId"@);
    let inv = invoice(target, txt(p, "saleId"@), party, revenue);
    lemma_sale_dues(m, target, Seq::empty());
    lemma_taken_back(after, log, ev, target);
    lemma_voided(m.sales, inv);
    let k = revert_lots(
        given_lines_from(
            after,
            ev,
            list(ev.payload, "reversalJournalLines"@),
            txt(p, "date"@),
            "reversal"@,
            0,
        ),
        target,
    )->Ok_0;
    let v = ReadModel { sales: voided(k.sales, m.sales.len() as int), ..k };
    assert(k.sales[m.sales.len() as int] == inv);
    assert forall|who: Text| #[trigger] figures(n.balances, who) == figures(m.balances, who) by {
        lemma_sale_dues(m, target, who);
        if let Some(c) = party {
            lemma_figures(v, c, -revenue, 0, 0, 0, who);
        }
    }
}

/// A purchase that is reversed right away stays as a reversed purchase that is owed
/// nothing, and leaves every party's balance as it was.
pub proof fn law_reversal_undoes_a_purchase(
    m: ReadModel,
    target: EventV,
    log: Seq<EventV>,
    ev: EventV,
)
    requires
        target.event_type == "PurchaseRecorded"@,
        purchase_recorded(m, target) is Ok,
        lookup(log, txt(ev.payload, "targetEventId"@)) == Some(target),
        transaction_reversed(purchase_recorded(m, target)->Ok_0, log, ev) is Ok,
    ensures
        ({
            let n = transaction_reversed(purchase_recorded(m, target)->Ok_0, log, ev)->Ok_0;
            &&& with_voided(m.purchases, txt(target.payload, "purchaseId"@), n.purchases)
            &&& n.sales == m.sales
            &&& forall|party: Text| #[trigger]
                figures(n.balances, party) == figures(m.balances, party)
        }),
{
    lemma_types();
    let p = target.payload;
    let after = purchase_recorded(m, target)->Ok_0;
    let n = transaction_reversed(after, log, ev)->Ok_0;
    let total = worth(list(p, "lines"@), "qty"@, "unitCostMinor"@)->0;
    let party = opt_txt(p, "supplierId"@);
    let inv = invoice(target, txt(p, "purchaseId"@), party, total);
    lemma_purchase_dues(m, target, Seq::empty());
    lemma_taken_back(after, log, ev, target);
    lemma_voided(m.purchases, inv);
    let k = revert_lots(
        given_lines_from(
            after,
            ev,
            list(ev.payload, "reversalJournalLines"@),
            txt(p, "date"@),
            "reversal"@,
            0,
        ),
        target,
    )->Ok_0;
    let v = ReadModel { purchases: voided(k.purchases, m.purchases.len() as int), ..k };
    assert(k.purchases[m.purchases.len() as int] == inv);
    assert forall|who: Text| #[trigger] figures(n.balances, who) == figures(m.balances, who) by {
        lemma_purchase_dues(m, target, who);
        if let Some(c) = party {
            lemma_figures(v, c, 0, -total, 0, 0, who);
        }
    }
}

/// Reversing a purchase, a find or opening balances empties the lots that these brought,
/// and leaves every other lot alone.
pub proof fn law_reversal_empties_lots(
    m: ReadModel,
    log: Seq<EventV>,
    ev: EventV,
    target: EventV,
)
    requires
        target.event_type == "PurchaseRecorded"@ || target.event_type == "InventoryFound"@
            || target.event_type == "OpeningBalancesRecorded"@,
        lookup(log, txt(ev.payload, "targetEventId"@)) == Some(target),
        transaction_reversed(m, log, ev) is Ok,
    ensures
        ({
            let n = transaction_reversed(m, log, ev)->Ok_0;
            &&& n.lots.len() == m.lots.len()
            &&& forall|i: int|
                0 <= i < m.lots.len() ==> #[trigger] n.lots[i] == (Lot {
                    qty_remaining: if m.lots[i].source_event_id == target.id {
                        0
                    } else {
                        m.lots[i].qty_remaining
                    },
                    ..m.lots[i]
                })
        }),
{
    let given = list(ev.payload, "reversalJournalLines"@);
    let date = txt(target.payload, "date"@);
    keeps_given_lines(m, ev, given, date, "reversal"@, 0);
    let o = given_lines_from(m, ev, given, date, "reversal"@, 0);
    let k = revert_lots(o, target)->Ok_0;
    keeps_revert_balances(k, target);
    assert(k == clear_lots(o, target.id)->Ok_0);
}

} // verus!
