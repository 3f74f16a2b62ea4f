//! Granted requests leave nothing overpaid: no invoice owes less than nothing, and no
//! credit that is held is overdrawn.

use crate::commands::Refusal;
use crate::commands::guards::{
    amounts_total, invoice_over_allocation, over_allocation_from, target_total, targeted_before,
};
use crate::commands::payment::{
    alloc_amounts, alloc_targets, allocation_payload, allocation_request, allocations_valid,
    invoices_allow, payment_payload, payment_request, AllocV,
};
use crate::commands::purchase::{
    purchase_line_json, purchase_request, purchase_total, PurchaseLineInput,
};
use crate::commands::sale::{
    line_picks, picks_cost, sale_line_request, sale_lines_request, sale_request, SaleLineV,
};
use crate::events::EventV;
use crate::json::{list, num, opt_txt, txt, JsonV};
use crate::laws::bounds::{lemma_bought_lines, lemma_purchase_payload};
use crate::laws::frames::{
    keeps_purchase_lines, keeps_purchase_return_lines, keeps_sale_lines, keeps_sale_return_lines,
};
use crate::laws::sales::{lemma_line_json, lemma_sale_payload};
use crate::model::{
    add_allocation, add_payment, add_purchase, add_return, add_sale, added, adjust_outstanding,
    adjust_party, allocate_from, allocation, invoice, nested_worth, on_credit, owed, payment,
    payment_allocated, plus, post_role, purchase_lines, purchase_recorded, purchase_return,
    purchase_return_lines, reduction, sale_lines, sale_recorded, sale_return, sale_return_lines,
    settle, settle_from, sum_of, worth, Text,
};
use crate::rows::{distinct, hit, lemma_has, lemma_place, lookup, place, Keyed};
use crate::sums::sum_over;
use crate::tables::{Balance, Invoice, Payment, ReadModel, Return};
use vstd::prelude::*;

verus! {

/// No invoice owes less than nothing.
pub open spec fn none_overpaid(t: Seq<Invoice<Text>>) -> bool {
    forall|i: int| 0 <= i < t.len() ==> (#[trigger] t[i]).outstanding_minor >= 0
}

/// No sale and no purchase owes less than nothing.
pub open spec fn dues_hold(m: ReadModel) -> bool {
    none_overpaid(m.sales) && none_overpaid(m.purchases)
}

/// No held credit is overdrawn.
pub open spec fn credits_hold(m: ReadModel) -> bool {
    forall|i: int|
        0 <= i < m.balances.len() ==> (#[trigger] m.balances[i]).unallocated_cr_minor >= 0
            && m.balances[i].unallocated_dr_minor >= 0
}

// ---- what allocations come to ----

/// What an allocation settles of an invoice.
pub open spec fn settled_by(a: AllocV, id: Text) -> int {
    if a.target_id == id {
        a.amount_minor as int
    } else {
        0
    }
}

/// What allocations settle of an invoice.
pub open spec fn settled(allocs: Seq<AllocV>, id: Text) -> int {
    sum_over(allocs, |a: AllocV| settled_by(a, id))
}

/// What allocations settle in all.
pub open spec fn settled_in_all(allocs: Seq<AllocV>) -> int {
    sum_over(allocs, |a: AllocV| a.amount_minor as int)
}

/// Every allocation is positive and to an invoice of one kind.
pub open spec fn of_kind(allocs: Seq<AllocV>, kind: Text) -> bool {
    forall|i: int|
        0 <= i < allocs.len() ==> (#[trigger] allocs[i]).target_type == kind
            && allocs[i].amount_minor > 0
}

proof fn lemma_of_kind(m: ReadModel, party: Text, incoming: bool, allocs: Seq<AllocV>, i: int)
    requires
        0 <= i,
        allocations_valid(
            m,
            party,
            if incoming {
                "in"@
            } else {
                "out"@
            },
            allocs,
            i,
        ) is Ok,
    ensures
        forall|k: int|
            i <= k < allocs.len() ==> (#[trigger] allocs[k]).target_type == (if incoming {
                "sale"@
            } else {
                "purchase"@
            }) && allocs[k].amount_minor > 0,
    decreases allocs.len() - i,
{
    reveal_strlit("in");
    reveal_strlit("out");
    assert("in"@.len() == 2);
    assert("out"@.len() == 3);
    if i < allocs.len() {
        lemma_of_kind(m, party, incoming, allocs, i + 1);
    }
}

/// The sum of the allocations to one target is what they settle of it.
proof fn lemma_target_total(allocs: Seq<AllocV>, id: Text, kind: Text)
    requires
        of_kind(allocs, kind),
    ensures
        target_total(alloc_targets(allocs), id, kind) matches Some(x) ==> x == settled(allocs, id),
    decreases allocs.len(),
{
    if allocs.len() > 0 {
        let front = allocs.drop_last();
        assert forall|k: int| 0 <= k < front.len() implies (#[trigger] front[k]).target_type == kind
            && front[k].amount_minor > 0 by {
            assert(front[k] == allocs[k]);
        }
        lemma_target_total(front, id, kind);
        assert(alloc_targets(allocs).drop_last() =~= alloc_targets(front));
        assert(allocs.last() == allocs[allocs.len() - 1]);
    }
}

/// Where the allocations to an invoice begin, they were held against what it owes.
proof fn lemma_held_against(m: ReadModel, s: Seq<(Text, Text, i64)>, i: int, j: int)
    requires
        0 <= i <= j < s.len(),
        over_allocation_from(m, s, i) is Ok,
        !targeted_before(s, s[j].0, s[j].1, j),
    ensures
        target_total(s, s[j].0, s[j].1) matches Some(x) && invoice_over_allocation(
            m,
            s[j].0,
            s[j].1,
            x,
        ) is Ok,
    decreases j - i,
{
    if i < j {
        lemma_held_against(m, s, i + 1, j);
    }
}

/// An invoice that is allocated to has a first allocation.
proof fn lemma_first_allocation(s: Seq<(Text, Text, i64)>, id: Text, kind: Text, n: int) -> (j: int)
    requires
        0 <= n <= s.len(),
        targeted_before(s, id, kind, n),
    ensures
        0 <= j < n,
        s[j].0 == id && s[j].1 == kind,
        !targeted_before(s, id, kind, j),
    decreases n,
{
    if targeted_before(s, id, kind, n - 1) {
        lemma_first_allocation(s, id, kind, n - 1)
    } else {
        n - 1
    }
}

/// Allocations that are granted settle no more of an invoice than it owes.
proof fn lemma_settled(
    m: ReadModel,
    party: Text,
    incoming: bool,
    allocs: Seq<AllocV>,
    inv: Invoice<Text>,
)
    requires
        invoices_allow(
            m,
            party,
            if incoming {
                "in"@
            } else {
                "out"@
            },
            allocs,
        ) is Ok,
        lookup(
            if incoming {
                m.sales
            } else {
                m.purchases
            },
            inv.id,
        ) == Some(inv),
        inv.outstanding_minor >= 0,
    ensures
        settled(allocs, inv.id) <= inv.outstanding_minor,
{
    let kind = if incoming {
        "sale"@
    } else {
        "purchase"@
    };
    reveal_strlit("sale");
    reveal_strlit("purchase");
    assert("sale"@.len() == 4);
    assert("purchase"@.len() == 8);
    let s = alloc_targets(allocs);
    lemma_of_kind(m, party, incoming, allocs, 0);
    if targeted_before(s, inv.id, kind, s.len() as int) {
        let j = lemma_first_allocation(s, inv.id, kind, s.len() as int);
        lemma_held_against(m, s, 0, j);
        lemma_target_total(allocs, inv.id, kind);
    } else {
        lemma_untouched(allocs, inv.id, kind, allocs.len() as int);
        assert(allocs.take(allocs.len() as int) =~= allocs);
    }
}

/// An invoice that is not allocated to is not settled.
proof fn lemma_untouched(allocs: Seq<AllocV>, id: Text, kind: Text, n: int)
    requires
        0 <= n <= allocs.len(),
        of_kind(allocs, kind),
        !targeted_before(alloc_targets(allocs), id, kind, allocs.len() as int),
    ensures
        settled(allocs.take(n), id) == 0,
    decreases n,
{
    if n > 0 {
        lemma_untouched(allocs, id, kind, n - 1);
        assert(allocs.take(n).drop_last() =~= allocs.take(n - 1));
        assert(allocs.take(n).last() == allocs[n - 1]);
        assert(alloc_targets(allocs)[n - 1] == (
            allocs[n - 1].target_id,
            allocs[n - 1].target_type,
            allocs[n - 1].amount_minor,
        ));
    }
}

// ---- what the projection makes of it ----

/// The sales, or the purchases.
pub open spec fn invoices(m: ReadModel, sale: bool) -> Seq<Invoice<Text>> {
    if sale {
        m.sales
    } else {
        m.purchases
    }
}

/// The invoices, each owing less.
pub open spec fn eased(
    t: Seq<Invoice<Text>>,
    less: spec_fn(Text) -> int,
    after: Seq<Invoice<Text>>,
) -> bool {
    &&& after.len() == t.len()
    &&& forall|i: int|
        0 <= i < t.len() ==> (#[trigger] after[i]).outstanding_minor == t[i].outstanding_minor
            - less(t[i].id) && after[i] == (Invoice {
            outstanding_minor: after[i].outstanding_minor,
            ..t[i]
        })
}

/// What allocations settle, by invoice.
pub open spec fn settling(allocs: Seq<AllocV>) -> spec_fn(Text) -> int {
    |id: Text| settled(allocs, id)
}

/// Settling more of an invoice eases it on.
proof fn lemma_ease(
    t: Seq<Invoice<Text>>,
    allocs: Seq<AllocV>,
    i: int,
    k: ReadModel,
    sale: bool,
)
    requires
        distinct(t),
        0 <= i < allocs.len(),
        eased(t, settling(allocs.take(i)), invoices(k, sale)),
    ensures
        adjust_outstanding(
            Ok(k),
            sale,
            allocs[i].target_id,
            -allocs[i].amount_minor,
        ) matches Ok(n) ==> eased(t, settling(allocs.take(i + 1)), invoices(n, sale)) && invoices(
            n,
            !sale,
        ) == invoices(k, !sale) && n.balances == k.balances,
{
    let id = allocs[i].target_id;
    let was = invoices(k, sale);
    if let Ok(n) = adjust_outstanding(Ok(k), sale, id, -allocs[i].amount_minor) {
        let now = invoices(n, sale);
        lemma_has(was, id);
        assert forall|x: int| 0 <= x < t.len() implies (#[trigger] now[x]).outstanding_minor
            == t[x].outstanding_minor - settled(allocs.take(i + 1), t[x].id) && now[x] == (Invoice {
            outstanding_minor: now[x].outstanding_minor,
            ..t[x]
        }) by {
            assert(was[x].id == t[x].id);
            assert(allocs.take(i + 1).drop_last() =~= allocs.take(i));
            assert(allocs.take(i + 1).last() == allocs[i]);
            assert(settled(allocs.take(i + 1), t[x].id) == settled(allocs.take(i), t[x].id)
                + settled_by(allocs[i], t[x].id));
            if t[x].id == id {
                assert forall|y: int| 0 <= y < x implies (#[trigger] was[y]).key() != id by {
                    assert(t[y].key() != t[x].key());
                    assert(was[y].id == t[y].id);
                }
                lemma_place(was, id, x);
            }
        }
    }
}

/// Giving a party more credit overdraws none.
proof fn lemma_credit_grows(
    m: ReadModel,
    party: Text,
    receivable: int,
    payable: int,
    credit: int,
    debit: int,
)
    requires
        credits_hold(m),
        credit >= 0,
        debit >= 0,
    ensures
        adjust_party(Ok(m), party, receivable, payable, credit, debit) matches Ok(n)
            ==> credits_hold(n) && n.sales == m.sales && n.purchases == m.purchases,
{
    if let Ok(n) = adjust_party(Ok(m), party, receivable, payable, credit, debit) {
        lemma_has(m.balances, party);
        assert forall|i: int| 0 <= i < n.balances.len() implies (
        #[trigger] n.balances[i]).unallocated_cr_minor >= 0 && n.balances[i].unallocated_dr_minor
            >= 0 by {
            if i < m.balances.len() {
                assert(m.balances[i].unallocated_cr_minor >= 0);
            }
        }
    }
}

/// The records are those of the allocations, each naming its invoice under a key.
pub open spec fn recorded(js: Seq<JsonV>, allocs: Seq<AllocV>, key: Text) -> bool {
    &&& js.len() == allocs.len()
    &&& forall|i: int|
        0 <= i < js.len() ==> txt(#[trigger] js[i], key) == allocs[i].target_id && num(
            js[i],
            "amountMinor"@,
        ) == allocs[i].amount_minor
}

proof fn lemma_settle_dues(
    m: ReadModel,
    incoming: bool,
    party: Text,
    allocs: Seq<AllocV>,
    ev: EventV,
    js: Seq<JsonV>,
    i: int,
    k: ReadModel,
)
    requires
        0 <= i <= allocs.len(),
        distinct(invoices(m, incoming)),
        recorded(
            js,
            allocs,
            if incoming {
                "saleId"@
            } else {
                "purchaseId"@
            },
        ),
        eased(invoices(m, incoming), settling(allocs.take(i)), invoices(k, incoming)),
        invoices(k, !incoming) == invoices(m, !incoming),
        credits_hold(k),
    ensures
        settle_from(k, ev, incoming, party, js, i) matches Ok(n) ==> eased(
            invoices(m, incoming),
            settling(allocs),
            invoices(n, incoming),
        ) && invoices(n, !incoming) == invoices(m, !incoming) && credits_hold(n),
    decreases allocs.len() - i,
{
    if i < allocs.len() {
        let key = if incoming {
            "saleId"@
        } else {
            "purchaseId"@
        };
        let kind = if incoming {
            "sale"@
        } else {
            "purchase"@
        };
        let target = txt(js[i], key);
        let amount = num(js[i], "amountMinor"@);
        assert(target == allocs[i].target_id && amount == allocs[i].amount_minor);
        let a = add_allocation(
            Ok(k),
            allocation(ev, i as nat, txt(ev.payload, "paymentId"@), target, kind, amount),
        );
        if let Ok(a) = a {
            lemma_ease(invoices(m, incoming), allocs, i, a, incoming);
            if let Ok(b) = adjust_outstanding(Ok(a), incoming, target, -amount) {
                lemma_credit_grows(b, party, -amount, 0, 0, 0);
                lemma_credit_grows(b, party, 0, -amount, 0, 0);
                let c = if incoming {
                    adjust_party(Ok(b), party, -amount, 0, 0, 0)
                } else {
                    adjust_party(Ok(b), party, 0, -amount, 0, 0)
                };
                if let Ok(n) = c {
                    lemma_settle_dues(m, incoming, party, allocs, ev, js, i + 1, n);
                }
            }
        }
    } else {
        assert(allocs.take(i) =~= allocs);
    }
}

/// Invoices that are settled by granted allocations owe at least nothing.
proof fn lemma_none_overpaid(
    m: ReadModel,
    party: Text,
    incoming: bool,
    allocs: Seq<AllocV>,
    after: Seq<Invoice<Text>>,
)
    requires
        invoices_allow(
            m,
            party,
            if incoming {
                "in"@
            } else {
                "out"@
            },
            allocs,
        ) is Ok,
        distinct(invoices(m, incoming)),
        none_overpaid(invoices(m, incoming)),
        eased(invoices(m, incoming), settling(allocs), after),
    ensures
        none_overpaid(after),
{
    let t = invoices(m, incoming);
    assert forall|i: int| 0 <= i < after.len() implies (#[trigger] after[i]).outstanding_minor
        >= 0 by {
        assert(t[i].outstanding_minor >= 0);
        assert forall|y: int| 0 <= y < i implies (#[trigger] t[y]).key() != t[i].id by {
            assert(t[y].key() != t[i].key());
        }
        lemma_place(t, t[i].id, i);
        lemma_settled(m, party, incoming, allocs, t[i]);
    }
}

/// What the records of allocations come to is what the allocations come to.
proof fn lemma_recorded_total(js: Seq<JsonV>, allocs: Seq<AllocV>, key: Text)
    requires
        recorded(js, allocs, key),
    ensures
        sum_of(js, "amountMinor"@) == amounts_total(alloc_amounts(allocs)),
    decreases js.len(),
{
    if js.len() > 0 {
        let jf = js.drop_last();
        let af = allocs.drop_last();
        assert forall|i: int| 0 <= i < jf.len() implies txt(#[trigger] jf[i], key)
            == af[i].target_id && num(jf[i], "amountMinor"@) == af[i].amount_minor by {
            assert(jf[i] == js[i] && af[i] == allocs[i]);
        }
        lemma_recorded_total(jf, af, key);
        assert(alloc_amounts(allocs).drop_last() =~= alloc_amounts(af));
        assert(js.last() == js[js.len() - 1]);
    }
}

/// What the payload of a payment says.
proof fn lemma_payment_payload(
    incoming: bool,
    id: Text,
    party: Text,
    amount: i64,
    date: Text,
    allocs: Seq<AllocV>,
)
    ensures
        ({
            let p = if incoming {
                payment_payload(id, "customerId"@, party, amount, date, "saleId"@, allocs)
            } else {
                payment_payload(id, "supplierId"@, party, amount, date, "purchaseId"@, allocs)
            };
            &&& num(p, "amountMinor"@) == amount
            &&& recorded(
                list(p, "allocations"@),
                allocs,
                if incoming {
                    "saleId"@
                } else {
                    "purchaseId"@
                },
            )
        }),
{
    reveal_strlit("paymentId");
    reveal_strlit("customerId");
    reveal_strlit("supplierId");
    reveal_strlit("amountMinor");
    reveal_strlit("date");
    reveal_strlit("allocations");
    reveal_strlit("saleId");
    reveal_strlit("purchaseId");
    assert("paymentId"@.len() == 9);
    assert("customerId"@.len() == 10);
    assert("supplierId"@.len() == 10);
    assert("amountMinor"@[1] == 'm');
    assert("allocations"@[1] == 'l');
    assert("amountMinor"@.len() == 11);
    assert("allocations"@.len() == 11);
    assert("date"@.len() == 4);
    assert("saleId"@.len() == 6);
    assert("purchaseId"@.len() == 10);
}

/// A granted payment settles no invoice beyond what it owes, and overdraws no credit.
pub proof fn law_granted_payments_overpay_nothing(
    m: ReadModel,
    incoming: bool,
    id: Text,
    party: Text,
    amount: i64,
    date: Text,
    allocs: Seq<AllocV>,
    ev: EventV,
)
    requires
        distinct(m.sales),
        distinct(m.purchases),
        dues_hold(m),
        credits_hold(m),
        payment_request(m, incoming, id, party, amount, date, allocs) == Ok::<JsonV, Refusal>(
            ev.payload,
        ),
        payment(m, ev, incoming) is Ok,
    ensures
        dues_hold(payment(m, ev, incoming)->Ok_0),
        credits_hold(payment(m, ev, incoming)->Ok_0),
{
    let p = ev.payload;
    let js = list(p, "allocations"@);
    let key = if incoming {
        "saleId"@
    } else {
        "purchaseId"@
    };
    lemma_payment_payload(incoming, id, party, amount, date, allocs);
    lemma_recorded_total(js, allocs, key);
    let pid = txt(p, "paymentId"@);
    let on = txt(p, "date"@);
    let who = txt(
        p,
        if incoming {
            "customerId"@
        } else {
            "supplierId"@
        },
    );
    let a = add_payment(
        Ok(m),
        Payment {
            id: pid,
            event_id: ev.id,
            party_id: who,
            direction: if incoming {
                "in"@
            } else {
                "out"@
            },
            amount_minor: amount,
            date: on,
        },
    );
    let b = if incoming {
        post_role(
            post_role(a, ev.id, pid, 0, "bank"@, amount, 0, on),
            ev.id,
            pid,
            1,
            "accounts_receivable"@,
            0,
            amount,
            on,
        )
    } else {
        post_role(
            post_role(a, ev.id, pid, 0, "accounts_payable"@, amount, 0, on),
            ev.id,
            pid,
            1,
            "bank"@,
            0,
            amount,
            on,
        )
    };
    let k = b->Ok_0;
    assert(k.sales == m.sales && k.purchases == m.purchases && k.balances == m.balances);
    assert(eased(invoices(m, incoming), settling(allocs.take(0)), invoices(k, incoming)));
    lemma_settle_dues(m, incoming, who, allocs, ev, js, 0, k);
    let c = settle(b, ev, incoming, who, js);
    let n = c->Ok_0;
    lemma_none_overpaid(m, party, incoming, allocs, invoices(n, incoming));
    let rest = amount - sum_of(js, "amountMinor"@)->0;
    assert(rest >= 0);
    lemma_credit_grows(n, who, 0, 0, rest, 0);
    lemma_credit_grows(n, who, 0, 0, 0, rest);
}

// ---- held credit ----

/// What allocations settle in all is their total.
proof fn lemma_settled_in_all(allocs: Seq<AllocV>)
    ensures
        amounts_total(alloc_amounts(allocs)) matches Some(x) ==> x == settled_in_all(allocs),
    decreases allocs.len(),
{
    if allocs.len() > 0 {
        lemma_settled_in_all(allocs.drop_last());
        assert(alloc_amounts(allocs).drop_last() =~= alloc_amounts(allocs.drop_last()));
    }
}

/// Positive allocations settle something.
proof fn lemma_settle_something(allocs: Seq<AllocV>, kind: Text)
    requires
        of_kind(allocs, kind),
    ensures
        settled_in_all(allocs) >= 0,
        allocs.len() > 0 ==> settled_in_all(allocs) > 0,
    decreases allocs.len(),
{
    if allocs.len() > 0 {
        let front = allocs.drop_last();
        assert forall|k: int| 0 <= k < front.len() implies (#[trigger] front[k]).target_type == kind
            && front[k].amount_minor > 0 by {
            assert(front[k] == allocs[k]);
        }
        lemma_settle_something(front, kind);
        assert(allocs.last() == allocs[allocs.len() - 1]);
    }
}

/// The balances, with credit of the party at one place spent.
pub open spec fn spent(
    t: Seq<Balance<Text>>,
    at: int,
    sale: bool,
    amount: int,
    after: Seq<Balance<Text>>,
) -> bool {
    &&& after.len() == t.len()
    &&& forall|i: int|
        0 <= i < t.len() ==> (#[trigger] after[i]).party_id == t[i].party_id
            && after[i].unallocated_cr_minor == t[i].unallocated_cr_minor - (if i == at && sale {
            amount
        } else {
            0
        }) && after[i].unallocated_dr_minor == t[i].unallocated_dr_minor - (if i == at && !sale {
            amount
        } else {
            0
        })
}

proof fn lemma_allocate_dues(
    m: ReadModel,
    sale: bool,
    at: int,
    allocs: Seq<AllocV>,
    ev: EventV,
    js: Seq<JsonV>,
    i: int,
    k: ReadModel,
)
    requires
        0 <= i <= allocs.len(),
        distinct(invoices(m, sale)),
        recorded(js, allocs, "targetId"@),
        forall|x: int|
            0 <= x < js.len() ==> (txt(#[trigger] js[x], "targetType"@) == "sale"@) == sale,
        hit(m.balances, txt(ev.payload, "partyId"@), at),
        eased(invoices(m, sale), settling(allocs.take(i)), invoices(k, sale)),
        invoices(k, !sale) == invoices(m, !sale),
        spent(m.balances, at, sale, settled_in_all(allocs.take(i)), k.balances),
    ensures
        allocate_from(k, ev, js, i) matches Ok(n) ==> eased(
            invoices(m, sale),
            settling(allocs),
            invoices(n, sale),
        ) && invoices(n, !sale) == invoices(m, !sale) && spent(
            m.balances,
            at,
            sale,
            settled_in_all(allocs),
            n.balances,
        ),
    decreases allocs.len() - i,
{
    if i < allocs.len() {
        let party = txt(ev.payload, "partyId"@);
        let target = txt(js[i], "targetId"@);
        let kind = txt(js[i], "targetType"@);
        let amount = num(js[i], "amountMinor"@);
        assert(target == allocs[i].target_id && amount == allocs[i].amount_minor);
        assert((kind == "sale"@) == sale);
        let a = add_allocation(
            Ok(k),
            allocation(ev, i as nat, txt(ev.payload, "paymentId"@), target, kind, amount),
        );
        if let Ok(a) = a {
            lemma_ease(invoices(m, sale), allocs, i, a, sale);
            if let Ok(b) = adjust_outstanding(Ok(a), sale, target, -amount) {
                assert(b.balances == k.balances);
                assert(hit(b.balances, party, at)) by {
                    assert(b.balances[at].party_id == m.balances[at].party_id);
                    assert forall|y: int| 0 <= y < at implies (#[trigger] b.balances[y]).key()
                        != party by {
                        assert(m.balances[y].key() != party);
                    }
                }
                lemma_place(b.balances, party, at);
                let c = if sale {
                    adjust_party(Ok(b), party, -amount, 0, -amount, 0)
                } else {
                    adjust_party(Ok(b), party, 0, -amount, 0, -amount)
                };
                if let Ok(n) = c {
                    assert(allocs.take(i + 1).drop_last() =~= allocs.take(i));
                    assert(allocs.take(i + 1).last() == allocs[i]);
                    assert(settled_in_all(allocs.take(i + 1)) == settled_in_all(allocs.take(i))
                        + amount);
                    lemma_allocate_dues(m, sale, at, allocs, ev, js, i + 1, n);
                }
            }
        }
    } else {
        assert(allocs.take(i) =~= allocs);
    }
}

/// What the payload of an allocation of held credit says.
proof fn lemma_allocation_payload(payment: Text, party: Text, date: Text, allocs: Seq<AllocV>)
    ensures
        ({
            let p = allocation_payload(payment, party, date, allocs);
            let js = list(p, "allocations"@);
            &&& txt(p, "partyId"@) == party
            &&& recorded(js, allocs, "targetId"@)
            &&& forall|i: int|
                0 <= i < js.len() ==> txt(#[trigger] js[i], "targetType"@) == allocs[i].target_type
        }),
{
    reveal_strlit("paymentId");
    reveal_strlit("partyId");
    reveal_strlit("date");
    reveal_strlit("allocations");
    reveal_strlit("targetId");
    reveal_strlit("targetType");
    reveal_strlit("amountMinor");
    assert("paymentId"@.len() == 9);
    assert("partyId"@.len() == 7);
    assert("date"@.len() == 4);
    assert("allocations"@.len() == 11);
    assert("targetId"@.len() == 8);
    assert("targetType"@.len() == 10);
    assert("amountMinor"@.len() == 11);
}

/// A granted allocation of held credit settles no invoice beyond what it owes, and
/// spends no more credit than is held.
pub proof fn law_granted_allocations_overpay_nothing(
    m: ReadModel,
    payment: Text,
    party: Text,
    date: Text,
    allocs: Seq<AllocV>,
    ev: EventV,
)
    requires
        distinct(m.sales),
        distinct(m.purchases),
        dues_hold(m),
        credits_hold(m),
        allocation_request(m, payment, party, date, allocs) == Ok::<JsonV, Refusal>(ev.payload),
        payment_allocated(m, ev) is Ok,
    ensures
        dues_hold(payment_allocated(m, ev)->Ok_0),
        credits_hold(payment_allocated(m, ev)->Ok_0),
{
    let js = list(ev.payload, "allocations"@);
    let n = payment_allocated(m, ev)->Ok_0;
    let direction = lookup(m.payments, payment)->0.direction;
    let sale = direction == "in"@;
    let kind = if sale {
        "sale"@
    } else {
        "purchase"@
    };
    reveal_strlit("sale");
    reveal_strlit("purchase");
    assert("sale"@.len() == 4);
    assert("purchase"@.len() == 8);
    lemma_allocation_payload(payment, party, date, allocs);
    lemma_of_kind(m, party, sale, allocs, 0);
    lemma_settled_in_all(allocs);
    lemma_settle_something(allocs, kind);
    lemma_has(m.balances, party);
    let at = place(m.balances, party)->0;
    assert forall|x: int| 0 <= x < js.len() implies (txt(#[trigger] js[x], "targetType"@)
        == "sale"@) == sale by {
        assert(allocs[x].target_type == kind);
    }
    assert(eased(invoices(m, sale), settling(allocs.take(0)), invoices(m, sale)));
    lemma_allocate_dues(m, sale, at, allocs, ev, js, 0, m);
    lemma_none_overpaid(m, party, sale, allocs, invoices(n, sale));
    assert forall|i: int| 0 <= i < n.balances.len() implies (
    #[trigger] n.balances[i]).unallocated_cr_minor >= 0 && n.balances[i].unallocated_dr_minor
        >= 0 by {
        assert(m.balances[i].unallocated_cr_minor >= 0);
    }
}

// ---- returns ----

/// Taking off an invoice no more than it owes leaves nothing overpaid.
proof fn lemma_reduced(t: Seq<Invoice<Text>>, id: Text, refund: i64)
    requires
        none_overpaid(t),
        lookup(t, id) is Some,
    ensures
        owed(t, id, -reduction(refund, lookup(t, id)->0.outstanding_minor)) matches Ok(after)
            ==> none_overpaid(after),
{
    lemma_has(t, id);
    let reduce = reduction(refund, lookup(t, id)->0.outstanding_minor);
    if let Ok(after) = owed(t, id, -reduce) {
        assert forall|i: int| 0 <= i < after.len() implies (#[trigger] after[i]).outstanding_minor
            >= 0 by {
            assert(t[i].outstanding_minor >= 0);
        }
    }
}

/// A sale return leaves nothing overpaid: what it takes back beyond what the sale owes
/// becomes credit.
pub proof fn law_sale_returns_overpay_nothing(m: ReadModel, ev: EventV)
    requires
        dues_hold(m),
        credits_hold(m),
        sale_return(m, ev) is Ok,
    ensures
        dues_hold(sale_return(m, ev)->Ok_0),
        credits_hold(sale_return(m, ev)->Ok_0),
{
    let p = ev.payload;
    let id = txt(p, "returnId"@);
    let original = txt(p, "originalSaleId"@);
    let date = txt(p, "date"@);
    let lines = list(p, "lines"@);
    let revenue = worth(lines, "qty"@, "unitPriceMinor"@)->0;
    let cost = nested_worth(lines, "lotReturns"@, "qtyReturned"@, "unitCostMinor"@)->0;
    let a = add_return(
        Ok(m),
        Return {
            id,
            event_id: ev.id,
            return_type: "sale_return"@,
            original_id: original,
            date,
            revenue_reversed_minor: revenue,
            cost_restored_minor: cost,
        },
    );
    keeps_sale_return_lines(a->Ok_0, ev, lines, 0, 0);
    let sale = lookup(m.sales, original)->0;
    let refund = if sale.party_id is Some {
        "accounts_receivable"@
    } else {
        "bank"@
    };
    let o = sale_return_lines(a, ev, lines);
    let o = post_role(o, ev.id, id, 0, "sales"@, revenue, 0, date);
    let o = post_role(o, ev.id, id, 1, refund, 0, revenue, date);
    let o = post_role(o, ev.id, id, 2, "inventory"@, cost, 0, date);
    let o = post_role(o, ev.id, id, 3, "cogs"@, 0, cost, date);
    let b = o->Ok_0;
    assert(b.sales == m.sales && b.purchases == m.purchases && b.balances == m.balances);
    if let Some(c) = sale.party_id {
        let reduce = reduction(revenue, sale.outstanding_minor);
        lemma_reduced(m.sales, original, revenue);
        let k = adjust_outstanding(o, true, original, -reduce)->Ok_0;
        lemma_credit_grows(k, c, -reduce, 0, revenue - reduce, 0);
    }
}

/// A purchase return leaves nothing overpaid: what it takes back beyond what the
/// purchase owes becomes credit.
pub proof fn law_purchase_returns_overpay_nothing(m: ReadModel, ev: EventV)
    requires
        dues_hold(m),
        credits_hold(m),
        purchase_return(m, ev) is Ok,
    ensures
        dues_hold(purchase_return(m, ev)->Ok_0),
        credits_hold(purchase_return(m, ev)->Ok_0),
{
    let p = ev.payload;
    let id = txt(p, "returnId"@);
    let original = txt(p, "originalPurchaseId"@);
    let date = txt(p, "date"@);
    let lines = list(p, "lines"@);
    let cost = worth(lines, "qty"@, "unitCostMinor"@)->0;
    let a = add_return(
        Ok(m),
        Return {
            id,
            event_id: ev.id,
            return_type: "purchase_return"@,
            original_id: original,
            date,
            revenue_reversed_minor: 0,
            cost_restored_minor: cost,
        },
    );
    keeps_purchase_return_lines(a->Ok_0, ev, lines, 0);
    let purchase = lookup(m.purchases, original)->0;
    let refund = if purchase.party_id is Some {
        "accounts_payable"@
    } else {
        "bank"@
    };
    let o = purchase_return_lines(a, ev, lines);
    let o = post_role(o, ev.id, id, 0, refund, cost, 0, date);
    let o = post_role(o, ev.id, id, 1, "inventory"@, 0, cost, date);
    let b = o->Ok_0;
    assert(b.sales == m.sales && b.purchases == m.purchases && b.balances == m.balances);
    if let Some(c) = purchase.party_id {
        let reduce = reduction(cost, purchase.outstanding_minor);
        lemma_reduced(m.purchases, original, cost);
        let k = adjust_outstanding(o, false, original, -reduce)->Ok_0;
        lemma_credit_grows(k, c, 0, -reduce, 0, cost - reduce);
    }
}

// ---- new invoices ----

/// No line is for less than nothing.
pub open spec fn lines_priced(lines: Seq<JsonV>, unit: Text) -> bool {
    forall|i: int|
        0 <= i < lines.len() ==> num(#[trigger] lines[i], "qty"@) >= 0 && num(lines[i], unit) >= 0
}

/// Lines that are for no less than nothing come to no less than nothing.
proof fn lemma_worth(lines: Seq<JsonV>, unit: Text)
    requires
        lines_priced(lines, unit),
    ensures
        worth(lines, "qty"@, unit) matches Some(x) ==> x >= 0,
    decreases lines.len(),
{
    if lines.len() > 0 {
        let front = lines.drop_last();
        assert forall|i: int| 0 <= i < front.len() implies num(#[trigger] front[i], "qty"@) >= 0
            && num(front[i], unit) >= 0 by {
            assert(front[i] == lines[i]);
        }
        lemma_worth(front, unit);
        assert(lines.last() == lines[lines.len() - 1]);
        let q = num(lines.last(), "qty"@);
        let u = num(lines.last(), unit);
        assert(q * u >= 0) by (nonlinear_arith)
            requires
                q >= 0,
                u >= 0,
        ;
    }
}

/// A new invoice over no less than nothing leaves nothing overpaid.
proof fn lemma_invoice(t: Seq<Invoice<Text>>, r: Invoice<Text>, column: Text)
    requires
        none_overpaid(t),
        r.outstanding_minor >= 0,
    ensures
        added(t, r, column) matches Ok(after) ==> none_overpaid(after),
{
    if let Ok(after) = added(t, r, column) {
        assert forall|i: int| 0 <= i < after.len() implies (#[trigger] after[i]).outstanding_minor
            >= 0 by {
            if i < t.len() {
                assert(t[i].outstanding_minor >= 0);
            }
        }
    }
}

/// A granted purchase owes no less than nothing.
pub proof fn law_granted_purchases_overpay_nothing(
    m: ReadModel,
    id: Text,
    supplier: Text,
    date: Text,
    terms: Text,
    lines: Seq<PurchaseLineInput<Text>>,
    ev: EventV,
)
    requires
        dues_hold(m),
        credits_hold(m),
        purchase_request(m, id, supplier, date, terms, lines) == Ok::<JsonV, Refusal>(ev.payload),
        purchase_recorded(m, ev) is Ok,
    ensures
        dues_hold(purchase_recorded(m, ev)->Ok_0),
        credits_hold(purchase_recorded(m, ev)->Ok_0),
{
    let p = ev.payload;
    let js = list(p, "lines"@);
    let pid = txt(p, "purchaseId"@);
    let on = txt(p, "date"@);
    let party = opt_txt(p, "supplierId"@);
    lemma_purchase_payload(id, supplier, date, terms, purchase_total(lines)->0, lines);
    lemma_bought_lines(m, id, lines, 0);
    assert forall|k: int| 0 <= k < js.len() implies num(#[trigger] js[k], "qty"@) >= 0 && num(
        js[k],
        "unitCostMinor"@,
    ) >= 0 by {
        assert(js[k] == purchase_line_json(id, lines[k], k as nat));
    }
    lemma_worth(js, "unitCostMinor"@);
    let total = worth(js, "qty"@, "unitCostMinor"@)->0;
    let a = add_purchase(Ok(m), invoice(ev, pid, party, total));
    lemma_invoice(m.purchases, invoice(ev, pid, party, total), "purchases.id"@);
    keeps_purchase_lines(a->Ok_0, ev, js, 0);
    let o = purchase_lines(a, ev, js);
    let o = post_role(o, ev.id, pid, 0, "inventory"@, total, 0, on);
    if on_credit(p) {
        let k = post_role(o, ev.id, pid, 1, "accounts_payable"@, 0, total, on)->Ok_0;
        assert(k.sales == m.sales && k.balances == m.balances);
        if let Some(s) = party {
            lemma_credit_grows(k, s, 0, total as int, 0, 0);
        }
    } else {
        let k = post_role(o, ev.id, pid, 1, "bank"@, 0, total, on)->Ok_0;
        assert(k.sales == m.sales && k.balances == m.balances);
    }
}

/// The records of the lines of a granted sale are for no less than nothing.
proof fn lemma_sold_lines(
    m: ReadModel,
    lines: Seq<SaleLineV>,
    i: int,
    d: Map<Text, i64>,
    done: Seq<JsonV>,
    total: i64,
)
    requires
        0 <= i,
        lines_priced(done, "unitPriceMinor"@),
        sale_lines_request(m, lines, i, d, done, total) is Ok,
    ensures
        lines_priced(
            sale_lines_request(m, lines, i, d, done, total)->Ok_0.0,
            "unitPriceMinor"@,
        ),
    decreases lines.len() - i,
{
    if i < lines.len() {
        let l = lines[i];
        let g = sale_line_request(m, d, l)->Ok_0;
        let sum = plus(Some(total), Some(g.revenue))->0;
        let picks = line_picks(m, d, l)->Ok_0;
        lemma_line_json(l, g.revenue, picks_cost(picks)->0, picks);
        let next = done.push(g.json);
        assert forall|k: int| 0 <= k < next.len() implies num(#[trigger] next[k], "qty"@) >= 0
            && num(next[k], "unitPriceMinor"@) >= 0 by {
            if k < done.len() {
                assert(next[k] == done[k]);
            }
        }
        lemma_sold_lines(m, lines, i + 1, g.demand, next, sum);
    }
}

/// A granted sale is owed no less than nothing.
pub proof fn law_granted_sales_overpay_nothing(
    m: ReadModel,
    id: Text,
    customer: Text,
    date: Text,
    terms: Text,
    lines: Seq<SaleLineV>,
    ev: EventV,
)
    requires
        dues_hold(m),
        credits_hold(m),
        sale_request(m, id, customer, date, terms, lines) == Ok::<JsonV, Refusal>(ev.payload),
        sale_recorded(m, ev) is Ok,
    ensures
        dues_hold(sale_recorded(m, ev)->Ok_0),
        credits_hold(sale_recorded(m, ev)->Ok_0),
{
    let p = ev.payload;
    let js = list(p, "lines"@);
    let sid = txt(p, "saleId"@);
    let on = txt(p, "date"@);
    let party = opt_txt(p, "customerId"@);
    let (done, total) = sale_lines_request(m, lines, 0, Map::empty(), Seq::empty(), 0)->Ok_0;
    lemma_sale_payload(id, customer, date, terms, total, done);
    lemma_sold_lines(m, lines, 0, Map::empty(), Seq::empty(), 0);
    lemma_worth(js, "unitPriceMinor"@);
    let revenue = worth(js, "qty"@, "unitPriceMinor"@)->0;
    let cogs = nested_worth(js, "lotConsumption"@, "qtyTaken"@, "unitCostMinor"@)->0;
    let a = add_sale(Ok(m), invoice(ev, sid, party, revenue));
    lemma_invoice(m.sales, invoice(ev, sid, party, revenue), "sales.id"@);
    keeps_sale_lines(a->Ok_0, ev, js, 0);
    let debtor = if on_credit(p) {
        "accounts_receivable"@
    } else {
        "bank"@
    };
    let o = sale_lines(a, ev, js);
    let o = post_role(o, ev.id, sid, 0, debtor, revenue, 0, on);
    let o = post_role(o, ev.id, sid, 1, "sales"@, 0, revenue, on);
    let o = post_role(o, ev.id, sid, 2, "cogs"@, cogs, 0, on);
    let o = post_role(o, ev.id, sid, 3, "inventory"@, 0, cogs, on);
    let k = o->Ok_0;
    assert(k.purchases == m.purchases && k.balances == m.balances);
    if let Some(c) = party {
        if on_credit(p) {
            lemma_credit_grows(k, c, revenue as int, 0, 0, 0);
        }
    }
}

} // verus!
