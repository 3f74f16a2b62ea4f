//! When payments, allocations, sales, sale returns and reversals are granted.

use crate::commands::CommandError;
use crate::commands::categories::{categories, EventCategory};
use crate::commands::guards::{
    amounts_total, consumed, has_allocation, has_return, invoice_over_allocation,
    over_allocation_from, reversal_downstream, target_total, targeted_before,
};
use crate::commands::payment::{
    alloc_amounts, alloc_by_key, alloc_targeted, alloc_targets, allocation_payload,
    allocation_request, allocations_valid, payment_payload, payment_request, AllocV,
};
use crate::commands::reversal::{reversal_payload, reversal_request};
use crate::commands::sale::{
    lot_return_request, lot_returns_request, return_line_json, return_line_request,
    return_lines_request, sale_request, sale_return_request, ReturnState, SaleLineV, SaleReturnV,
};
use crate::db::Store;
use crate::error::DbError;
use crate::events::{mentioned, EventV};
use crate::genesis::{ANON_SUPPLIER_PARTY_ID, WALKIN_PARTY_ID};
use crate::json::{list, num, opt_txt, txt, JsonV};
use crate::laws::double_entry::lemma_types;
use crate::laws::granted::{fair_terms, trades_as};
use crate::model::Text;
use crate::rows::lookup;
use crate::sums::sum_over;
use crate::tables::{Invoice, LotConsumption, ReadModel};
use vstd::prelude::*;

verus! {

// ---- payments and held credit ----

/// The party's invoice of a kind: a sale, or a purchase.
pub open spec fn invoice_of(m: ReadModel, id: Text, kind: Text) -> Option<Invoice<Text>> {
    if kind == "sale"@ {
        lookup(m.sales, id)
    } else {
        lookup(m.purchases, id)
    }
}

/// An allocation that may be granted to a party, of money in or of money out: over some
/// amount, to a sale of theirs or to a purchase from them.
pub open spec fn may_settle(m: ReadModel, party: Text, incoming: bool, a: AllocV) -> bool {
    &&& a.amount_minor > 0
    &&& a.target_type == if incoming {
        "sale"@
    } else {
        "purchase"@
    }
    &&& invoice_of(m, a.target_id, a.target_type) matches Some(x) && x.party_id == Some(party)
}

/// What allocations give to an invoice of a kind.
pub open spec fn given_to(id: Text, kind: Text) -> spec_fn(AllocV) -> int {
    |a: AllocV|
        if a.target_id == id && a.target_type == kind {
            a.amount_minor as int
        } else {
            0
        }
}

/// What allocations give in all.
pub open spec fn given_in_all() -> spec_fn(AllocV) -> int {
    |a: AllocV| a.amount_minor as int
}

proof fn lemma_kinds()
    ensures
        "sale"@ != "purchase"@,
        "in"@ != "out"@,
{
    reveal_strlit("sale");
    reveal_strlit("purchase");
    reveal_strlit("in");
    reveal_strlit("out");
    assert("sale"@.len() == 4);
    assert("purchase"@.len() == 8);
    assert("in"@.len() == 2);
    assert("out"@.len() == 3);
}

proof fn lemma_may_settle(m: ReadModel, party: Text, direction: Text, allocs: Seq<AllocV>, i: int)
    requires
        0 <= i,
        direction == "in"@ || direction == "out"@,
    ensures
        allocations_valid(m, party, direction, allocs, i) is Ok <==> forall|j: int|
            i <= j < allocs.len() ==> may_settle(
                m,
                party,
                direction == "in"@,
                #[trigger] allocs[j],
            ),
    decreases allocs.len() - i,
{
    lemma_kinds();
    if i < allocs.len() {
        lemma_may_settle(m, party, direction, allocs, i + 1);
        if allocations_valid(m, party, direction, allocs, i) is Ok {
            assert(may_settle(m, party, direction == "in"@, allocs[i]));
        }
    }
}

proof fn lemma_given_to(allocs: Seq<AllocV>, id: Text, kind: Text)
    ensures
        target_total(alloc_targets(allocs), id, kind) matches Some(v) ==> v == sum_over(
            allocs,
            given_to(id, kind),
        ),
    decreases allocs.len(),
{
    if allocs.len() > 0 {
        lemma_given_to(allocs.drop_last(), id, kind);
        assert(alloc_targets(allocs).drop_last() =~= alloc_targets(allocs.drop_last()));
        assert(alloc_targets(allocs).last() == (
            allocs.last().target_id,
            allocs.last().target_type,
            allocs.last().amount_minor,
        ));
    }
}

proof fn lemma_given_in_all(allocs: Seq<AllocV>)
    ensures
        amounts_total(alloc_amounts(allocs)) matches Some(v) ==> v == sum_over(
            allocs,
            given_in_all(),
        ),
    decreases allocs.len(),
{
    if allocs.len() > 0 {
        lemma_given_in_all(allocs.drop_last());
        assert(alloc_amounts(allocs).drop_last() =~= alloc_amounts(allocs.drop_last()));
        assert(alloc_amounts(allocs).last() == allocs.last().amount_minor);
    }
}

/// No invoice is given more than is outstanding on it.
pub open spec fn given_within(m: ReadModel, allocs: Seq<AllocV>) -> bool {
    forall|j: int|
        0 <= j < allocs.len() ==> (invoice_of(
            m,
            (#[trigger] allocs[j]).target_id,
            allocs[j].target_type,
        ) matches Some(x) && sum_over(
            allocs,
            given_to(allocs[j].target_id, allocs[j].target_type),
        ) <= x.outstanding_minor)
}

/// Looking at every target once looks at all of them.
proof fn lemma_checked(m: ReadModel, allocs: Seq<AllocV>, i: int, j: int)
    requires
        0 <= i,
        0 <= j < allocs.len(),
        over_allocation_from(m, alloc_targets(allocs), i) is Ok,
        i <= j,
        !targeted_before(
            alloc_targets(allocs),
            allocs[j].target_id,
            allocs[j].target_type,
            j,
        ),
    ensures
        target_total(alloc_targets(allocs), allocs[j].target_id, allocs[j].target_type) matches Some(
            t,
        ) && invoice_over_allocation(m, allocs[j].target_id, allocs[j].target_type, t) is Ok,
    decreases allocs.len() - i,
{
    let s = alloc_targets(allocs);
    if i < j {
        lemma_checked(m, allocs, i + 1, j);
    }
}

/// The first allocation to a target.
proof fn lemma_first_of(allocs: Seq<AllocV>, j: int) -> (k: int)
    requires
        0 <= j < allocs.len(),
    ensures
        0 <= k <= j,
        allocs[k].target_id == allocs[j].target_id,
        allocs[k].target_type == allocs[j].target_type,
        !targeted_before(
            alloc_targets(allocs),
            allocs[k].target_id,
            allocs[k].target_type,
            k,
        ),
    decreases j,
{
    let s = alloc_targets(allocs);
    if targeted_before(s, allocs[j].target_id, allocs[j].target_type, j) {
        let i = choose|i: int|
            0 <= i < j && (#[trigger] s[i]).0 == allocs[j].target_id && s[i].1
                == allocs[j].target_type;
        assert(s[i] == (allocs[i].target_id, allocs[i].target_type, allocs[i].amount_minor));
        lemma_first_of(allocs, i)
    } else {
        j
    }
}

proof fn lemma_within(m: ReadModel, party: Text, incoming: bool, allocs: Seq<AllocV>)
    requires
        forall|j: int|
            0 <= j < allocs.len() ==> may_settle(m, party, incoming, #[trigger] allocs[j]),
        over_allocation_from(m, alloc_targets(allocs), 0) is Ok,
    ensures
        given_within(m, allocs),
{
    lemma_kinds();
    assert forall|j: int| 0 <= j < allocs.len() implies (invoice_of(
        m,
        (#[trigger] allocs[j]).target_id,
        allocs[j].target_type,
    ) matches Some(x) && sum_over(
        allocs,
        given_to(allocs[j].target_id, allocs[j].target_type),
    ) <= x.outstanding_minor) by {
        assert(may_settle(m, party, incoming, allocs[j]));
        let k = lemma_first_of(allocs, j);
        lemma_checked(m, allocs, 0, k);
        lemma_given_to(allocs, allocs[k].target_id, allocs[k].target_type);
    }
}

proof fn lemma_within_back(m: ReadModel, party: Text, incoming: bool, allocs: Seq<AllocV>, i: int)
    requires
        0 <= i,
        forall|j: int|
            0 <= j < allocs.len() ==> may_settle(m, party, incoming, #[trigger] allocs[j]),
        given_within(m, allocs),
    ensures
        over_allocation_from(m, alloc_targets(allocs), i) matches Err(e) ==> e
            == CommandError::Db::<Text>(DbError::Overflow),
    decreases allocs.len() - i,
{
    lemma_kinds();
    if i < allocs.len() {
        let s = alloc_targets(allocs);
        assert(s[i] == (allocs[i].target_id, allocs[i].target_type, allocs[i].amount_minor));
        assert(may_settle(m, party, incoming, allocs[i]));
        lemma_given_to(allocs, allocs[i].target_id, allocs[i].target_type);
        lemma_within_back(m, party, incoming, allocs, i + 1);
    }
}

/// A payment may be granted: over some amount, with a party that is not built in and is a
/// customer, for money in, or a supplier, for money out; it settles only invoices of that
/// party and that side, none by more than is outstanding on it, and all together by no more
/// than the amount.
pub open spec fn may_pay(
    m: ReadModel,
    incoming: bool,
    party: Text,
    amount: i64,
    allocs: Seq<AllocV>,
) -> bool {
    &&& amount > 0
    &&& party != WALKIN_PARTY_ID@ && party != ANON_SUPPLIER_PARTY_ID@
    &&& trades_as(
        m,
        party,
        if incoming {
            "customer"@
        } else {
            "supplier"@
        },
    )
    &&& forall|j: int| 0 <= j < allocs.len() ==> may_settle(m, party, incoming, #[trigger] allocs[j])
    &&& given_within(m, allocs)
    &&& sum_over(allocs, given_in_all()) <= amount
}

/// The record of what a payment gives to an invoice.
pub open spec fn pays(r: JsonV, key: Text, a: AllocV) -> bool {
    txt(r, key) == a.target_id && num(r, "amountMinor"@) == a.amount_minor
}

proof fn lemma_pays(a: AllocV, incoming: bool)
    ensures
        pays(
            alloc_by_key(
                a,
                if incoming {
                    "saleId"@
                } else {
                    "purchaseId"@
                },
            ),
            if incoming {
                "saleId"@
            } else {
                "purchaseId"@
            },
            a,
        ),
{
    reveal_strlit("saleId");
    reveal_strlit("purchaseId");
    reveal_strlit("amountMinor");
    assert("saleId"@.len() == 6);
    assert("purchaseId"@.len() == 10);
    assert("amountMinor"@.len() == 11);
}

/// A payment is granted only where it may be, and refused there only where a number leaves
/// its range; what is granted records what was asked for.
pub proof fn law_payments_are_granted(
    m: ReadModel,
    incoming: bool,
    id: Text,
    party: Text,
    amount: i64,
    date: Text,
    allocs: Seq<AllocV>,
)
    ensures
        match payment_request(m, incoming, id, party, amount, date, allocs) {
            Ok(p) => {
                let r = list(p, "allocations"@);
                let key = if incoming {
                    "saleId"@
                } else {
                    "purchaseId"@
                };
                &&& may_pay(m, incoming, party, amount, allocs)
                &&& txt(p, "paymentId"@) == id
                &&& txt(
                    p,
                    if incoming {
                        "customerId"@
                    } else {
                        "supplierId"@
                    },
                ) == party
                &&& num(p, "amountMinor"@) == amount
                &&& txt(p, "date"@) == date
                &&& r.len() == allocs.len()
                &&& forall|j: int|
                    0 <= j < r.len() ==> pays(#[trigger] r[j], key, allocs[j])
            },
            Err(e) => may_pay(m, incoming, party, amount, allocs) ==> e == CommandError::Db::<Text>(
                DbError::Overflow,
            ),
        },
{
    lemma_kinds();
    let direction = if incoming {
        "in"@
    } else {
        "out"@
    };
    lemma_may_settle(m, party, direction, allocs, 0);
    lemma_given_in_all(allocs);
    assert((direction == "in"@) == incoming);
    if let Ok(p) = payment_request(m, incoming, id, party, amount, date, allocs) {
        assert forall|j: int| 0 <= j < allocs.len() implies may_settle(
            m,
            party,
            incoming,
            #[trigger] allocs[j],
        ) by {
            assert(may_settle(m, party, direction == "in"@, allocs[j]));
        }
        lemma_within(m, party, incoming, allocs);
        if incoming {
            lemma_payment_record(
                true,
                "customerId"@,
                "saleId"@,
                id,
                party,
                amount,
                date,
                allocs,
            );
        } else {
            lemma_payment_record(
                false,
                "supplierId"@,
                "purchaseId"@,
                id,
                party,
                amount,
                date,
                allocs,
            );
        }
    } else if may_pay(m, incoming, party, amount, allocs) {
        lemma_within_back(m, party, incoming, allocs, 0);
    }
}

proof fn lemma_payment_record(
    incoming: bool,
    who: Text,
    key: Text,
    id: Text,
    party: Text,
    amount: i64,
    date: Text,
    allocs: Seq<AllocV>,
)
    requires
        incoming ==> who == "customerId"@ && key == "saleId"@,
        !incoming ==> who == "supplierId"@ && key == "purchaseId"@,
    ensures
        ({
            let p = payment_payload(id, who, party, amount, date, key, allocs);
            let r = list(p, "allocations"@);
            &&& txt(p, "paymentId"@) == id
            &&& txt(p, who) == party
            &&& num(p, "amountMinor"@) == amount
            &&& txt(p, "date"@) == date
            &&& r.len() == allocs.len()
            &&& forall|j: int| 0 <= j < r.len() ==> pays(#[trigger] r[j], key, allocs[j])
        }),
{
    reveal_strlit("paymentId");
    reveal_strlit("customerId");
    reveal_strlit("supplierId");
    reveal_strlit("amountMinor");
    reveal_strlit("date");
    reveal_strlit("allocations");
    assert("paymentId"@.len() == 9);
    assert("customerId"@.len() == 10);
    assert("supplierId"@.len() == 10);
    assert("amountMinor"@.len() == 11 && "amountMinor"@[1] == 'm');
    assert("date"@.len() == 4);
    assert("allocations"@.len() == 11 && "allocations"@[1] == 'l');
    let p = payment_payload(id, who, party, amount, date, key, allocs);
    let r = list(p, "allocations"@);
    assert(r == Seq::new(allocs.len(), |i: int| alloc_by_key(allocs[i], key)));
    assert forall|j: int| 0 <= j < r.len() implies pays(#[trigger] r[j], key, allocs[j]) by {
        lemma_pays(allocs[j], incoming);
    }
}

/// Credit that a party holds on a side.
pub open spec fn credit_held(m: ReadModel, party: Text, incoming: bool) -> int {
    match lookup(m.balances, party) {
        None => 0,
        Some(b) => if incoming {
            b.unallocated_cr_minor as int
        } else {
            b.unallocated_dr_minor as int
        },
    }
}

/// Held credit may be allocated: at least one allocation, out of a payment of the party;
/// only to invoices of that party and of the side of that payment, none by more than is
/// outstanding on it, and all together by no more than the party holds on that side.
pub open spec fn may_allocate(
    m: ReadModel,
    payment: Text,
    party: Text,
    allocs: Seq<AllocV>,
) -> bool {
    &&& allocs.len() > 0
    &&& lookup(m.payments, payment) matches Some(p) && {
        &&& p.party_id == party
        &&& p.direction == "in"@ || p.direction == "out"@
        &&& forall|j: int|
            0 <= j < allocs.len() ==> may_settle(
                m,
                party,
                p.direction == "in"@,
                #[trigger] allocs[j],
            )
        &&& sum_over(allocs, given_in_all()) <= credit_held(m, party, p.direction == "in"@)
    }
    &&& given_within(m, allocs)
}

/// The record of what held credit gives to an invoice.
pub open spec fn gives(r: JsonV, a: AllocV) -> bool {
    &&& txt(r, "targetId"@) == a.target_id
    &&& txt(r, "targetType"@) == a.target_type
    &&& num(r, "amountMinor"@) == a.amount_minor
}

proof fn lemma_gives(a: AllocV)
    ensures
        gives(alloc_targeted(a), a),
{
    reveal_strlit("targetId");
    reveal_strlit("targetType");
    reveal_strlit("amountMinor");
    assert("targetId"@.len() == 8);
    assert("targetType"@.len() == 10);
    assert("amountMinor"@.len() == 11);
}

proof fn lemma_allocation_record(payment: Text, party: Text, date: Text, allocs: Seq<AllocV>)
    ensures
        ({
            let p = allocation_payload(payment, party, date, allocs);
            let r = list(p, "allocations"@);
            &&& txt(p, "paymentId"@) == payment
            &&& txt(p, "partyId"@) == party
            &&& txt(p, "date"@) == date
            &&& r.len() == allocs.len()
            &&& forall|j: int| 0 <= j < r.len() ==> gives(#[trigger] r[j], allocs[j])
        }),
{
    reveal_strlit("paymentId");
    reveal_strlit("partyId");
    reveal_strlit("date");
    reveal_strlit("allocations");
    assert("paymentId"@.len() == 9);
    assert("partyId"@.len() == 7);
    assert("date"@.len() == 4);
    assert("allocations"@.len() == 11);
    let p = allocation_payload(payment, party, date, allocs);
    let r = list(p, "allocations"@);
    assert(r == Seq::new(allocs.len(), |i: int| alloc_targeted(allocs[i])));
    assert forall|j: int| 0 <= j < r.len() implies gives(#[trigger] r[j], allocs[j]) by {
        lemma_gives(allocs[j]);
    }
}

/// An invoice of a direction that is none has none to give to.
proof fn lemma_no_direction(m: ReadModel, party: Text, direction: Text, allocs: Seq<AllocV>)
    requires
        allocs.len() > 0,
        direction != "in"@,
        direction != "out"@,
    ensures
        allocations_valid(m, party, direction, allocs, 0) is Err,
{
}

/// Held credit is allocated only where it may be, and refused there only where a number
/// leaves its range; what is granted records what was asked for.
pub proof fn law_allocations_are_granted(
    m: ReadModel,
    payment: Text,
    party: Text,
    date: Text,
    allocs: Seq<AllocV>,
)
    ensures
        match allocation_request(m, payment, party, date, allocs) {
            Ok(p) => {
                let r = list(p, "allocations"@);
                &&& may_allocate(m, payment, party, allocs)
                &&& txt(p, "paymentId"@) == payment
                &&& txt(p, "partyId"@) == party
                &&& txt(p, "date"@) == date
                &&& r.len() == allocs.len()
                &&& forall|j: int| 0 <= j < r.len() ==> gives(#[trigger] r[j], allocs[j])
            },
            Err(e) => may_allocate(m, payment, party, allocs) ==> e == CommandError::Db::<Text>(
                DbError::Overflow,
            ),
        },
{
    lemma_kinds();
    lemma_given_in_all(allocs);
    lemma_allocation_record(payment, party, date, allocs);
    if let Some(x) = lookup(m.payments, payment) {
        if x.direction == "in"@ || x.direction == "out"@ {
            lemma_may_settle(m, party, x.direction, allocs, 0);
        } else if allocs.len() > 0 {
            lemma_no_direction(m, party, x.direction, allocs);
        }
        if allocation_request(m, payment, party, date, allocs) is Ok {
            lemma_within(m, party, x.direction == "in"@, allocs);
        } else if may_allocate(m, payment, party, allocs) {
            lemma_within_back(m, party, x.direction == "in"@, allocs, 0);
        }
    }
}

// ---- sales and sale returns ----

/// A sale that is granted is to a customer, on fair terms.
pub proof fn law_sales_are_granted_to_customers(
    m: ReadModel,
    id: Text,
    customer: Text,
    date: Text,
    terms: Text,
    lines: Seq<SaleLineV>,
)
    requires
        sale_request(m, id, customer, date, terms, lines) is Ok,
    ensures
        trades_as(m, customer, "customer"@),
        fair_terms(customer, terms),
{
}

/// Units that a sale took out of a lot.
pub open spec fn units_sold(m: ReadModel, sale: Text, lot: Text) -> spec_fn(
    LotConsumption<Text>,
) -> int {
    |c: LotConsumption<Text>|
        if c.lot_id == lot && (lookup(m.sale_lines, c.sale_line_id) matches Some(l) && l.sale_id
            == sale) {
            c.qty_taken as int
        } else {
            0
        }
}

pub proof fn lemma_units_sold(m: ReadModel, sale: Text, lot: Text, n: int)
    requires
        0 <= n <= m.consumptions.len(),
    ensures
        consumed(m, sale, lot, n) matches Some(v) ==> v == sum_over(
            m.consumptions.take(n),
            units_sold(m, sale, lot),
        ),
    decreases n,
{
    if n > 0 {
        lemma_units_sold(m, sale, lot, n - 1);
        assert(m.consumptions.take(n).drop_last() =~= m.consumptions.take(n - 1));
        assert(m.consumptions.take(n).last() == m.consumptions[n - 1]);
    }
}

/// A part of a sale return: some units, no more than the sale took out of the lot, and no
/// more than the lot has room for.
pub open spec fn part_returnable(m: ReadModel, sale: Text, part: (Text, i64)) -> bool {
    &&& 0 < part.1 <= sum_over(m.consumptions, units_sold(m, sale, part.0))
    &&& lookup(m.lots, part.0) matches Some(l) && l.qty_remaining + part.1 <= l.qty_received
}

proof fn lemma_parts_returnable(
    m: ReadModel,
    sale: Text,
    item: Text,
    parts: Seq<(Text, i64)>,
    j: int,
    s: ReturnState,
)
    requires
        0 <= j,
        lot_returns_request(m, sale, item, parts, j, s) is Ok,
    ensures
        forall|k: int| j <= k < parts.len() ==> part_returnable(m, sale, #[trigger] parts[k]),
    decreases parts.len() - j,
{
    if j < parts.len() {
        let n = m.consumptions.len() as int;
        lemma_units_sold(m, sale, parts[j].0, n);
        assert(m.consumptions.take(n) =~= m.consumptions);
        assert(part_returnable(m, sale, parts[j]));
        let t = lot_return_request(m, sale, item, parts[j], s)->Ok_0;
        lemma_parts_returnable(m, sale, item, parts, j + 1, t);
    }
}

proof fn lemma_lines_returnable(
    m: ReadModel,
    sale: Text,
    lines: Seq<SaleReturnV>,
    i: int,
    d: Map<Text, i64>,
    done: Seq<JsonV>,
)
    requires
        0 <= i,
        return_lines_request(m, sale, lines, i, d, done) is Ok,
    ensures
        forall|x: int, k: int|
            i <= x < lines.len() && 0 <= k < (#[trigger] lines[x]).lot_returns.len()
                ==> part_returnable(m, sale, #[trigger] lines[x].lot_returns[k]),
    decreases lines.len() - i,
{
    if i < lines.len() {
        let s = return_line_request(m, sale, lines[i], d)->Ok_0;
        lemma_parts_returnable(
            m,
            sale,
            lines[i].item_id,
            lines[i].lot_returns,
            0,
            ReturnState { demand: d, qty: 0, price: None, done: Seq::empty() },
        );
        lemma_lines_returnable(
            m,
            sale,
            lines,
            i + 1,
            s.demand,
            done.push(return_line_json(lines[i].item_id, s)),
        );
    }
}

/// A sale return that is granted is of a sale that is there and not reversed; every part
/// brings back units, no more than that sale took out of the lot, and no more than the lot
/// has room for.
pub proof fn law_sale_returns_are_granted(
    m: ReadModel,
    id: Text,
    original: Text,
    date: Text,
    lines: Seq<SaleReturnV>,
)
    requires
        sale_return_request(m, id, original, date, lines) is Ok,
    ensures
        lookup(m.sales, original) matches Some(s) && !s.reversed,
        forall|x: int, k: int|
            0 <= x < lines.len() && 0 <= k < (#[trigger] lines[x]).lot_returns.len()
                ==> part_returnable(m, original, #[trigger] lines[x].lot_returns[k]),
{
    lemma_lines_returnable(m, original, lines, 0, Map::empty(), Seq::empty());
}

// ---- reversals ----

/// An event of a type that can be reversed.
pub open spec fn reversible(ty: Text) -> bool {
    ty == "PurchaseRecorded"@ || ty == "InventoryFound"@ || ty == "SaleRecorded"@ || ty
        == "PurchaseReturnRecorded"@ || ty == "InventoryAdjusted"@ || ty == "SaleReturnRecorded"@
        || ty == "PaymentMade"@ || ty == "PaymentReceived"@ || ty == "PaymentAllocated"@ || ty
        == "ExpenseRecorded"@ || ty == "TransferRecorded"@
}

pub proof fn lemma_reversible(ty: Text)
    ensures
        categories(ty).contains(EventCategory::Transactional) <==> reversible(ty),
        reversible(ty) ==> (categories(ty).contains(EventCategory::LotCreating) <==> ty
            == "PurchaseRecorded"@ || ty == "InventoryFound"@),
{
    lemma_types();
    let c = categories(ty);
    if reversible(ty) {
        if ty == "ExpenseRecorded"@ || ty == "TransferRecorded"@ {
            assert(c[0] == EventCategory::Transactional);
        } else {
            assert(c[1] == EventCategory::Transactional);
        }
        if ty == "PurchaseRecorded"@ || ty == "InventoryFound"@ {
            assert(c[0] == EventCategory::LotCreating);
        }
    }
    if c.contains(EventCategory::Transactional) {
        let i = choose|i: int| 0 <= i < c.len() && c[i] == EventCategory::Transactional;
        assert(c.len() > 0);
    }
    if c.contains(EventCategory::LotCreating) {
        let i = choose|i: int| 0 <= i < c.len() && c[i] == EventCategory::LotCreating;
        assert(c[i] == EventCategory::LotCreating);
    }
}

/// The event is mentioned in the log by an event of a type, under a name.
pub open spec fn named_in(log: Seq<EventV>, ty: Text, key: Text, id: Text) -> bool {
    exists|i: int|
        0 <= i < log.len() && (#[trigger] log[i]).event_type == ty && opt_txt(log[i].payload, key)
            == Some(id)
}

/// Nothing came of an invoice yet: no allocation to it, no return against it.
pub open spec fn untouched_invoice(m: ReadModel, id: Text, kind: Text) -> bool {
    &&& forall|i: int|
        0 <= i < m.allocations.len() ==> !((#[trigger] m.allocations[i]).target_id == id
            && m.allocations[i].target_type == kind)
    &&& forall|i: int| 0 <= i < m.returns.len() ==> (#[trigger] m.returns[i]).original_id != id
}

/// A reversal that is granted is of an event that is in the log, of a type that can be
/// reversed and not reversed yet. What a purchase or a find brought is all still there; a
/// sale and a purchase have neither allocations nor returns; no held credit of a payment
/// was allocated. The reversal names its target, its type and the reason.
pub proof fn law_reversals_are_granted(s: Store, target: Text, reason: Text)
    requires
        reversal_request(s, target, reason) is Ok,
    ensures
        ({
            let p = reversal_request(s, target, reason)->Ok_0;
            let m = s.model;
            &&& lookup(s.events, target) matches Some(ev) && {
                let ty = ev.event_type;
                let q = ev.payload;
                &&& reversible(ty)
                &&& txt(p, "targetType"@) == ty
                &&& ty == "PurchaseRecorded"@ || ty == "InventoryFound"@ ==> forall|i: int|
                    0 <= i < m.lots.len() && (#[trigger] m.lots[i]).source_event_id == target
                        ==> m.lots[i].qty_remaining >= m.lots[i].qty_received
                &&& ty == "SaleRecorded"@ ==> untouched_invoice(m, txt(q, "saleId"@), "sale"@)
                &&& ty == "PurchaseRecorded"@ ==> untouched_invoice(
                    m,
                    txt(q, "purchaseId"@),
                    "purchase"@,
                )
                &&& ty == "PaymentMade"@ || ty == "PaymentReceived"@ ==> !named_in(
                    s.events,
                    "PaymentAllocated"@,
                    "paymentId"@,
                    txt(q, "paymentId"@),
                )
            }
            &&& !named_in(s.events, "TransactionReversed"@, "targetEventId"@, target)
            &&& txt(p, "targetEventId"@) == target
            &&& txt(p, "reason"@) == reason
        }),
{
    let p = reversal_request(s, target, reason)->Ok_0;
    let ev = lookup(s.events, target)->0;
    let ty = ev.event_type;
    let q = ev.payload;
    lemma_types();
    lemma_reversible(ty);
    lemma_reversal_heads(s.model, target, ty, reason);
    lemma_named_in(s.events, "TransactionReversed"@, "targetEventId"@, target);
    lemma_named_in(s.events, "PaymentAllocated"@, "paymentId"@, txt(q, "paymentId"@));
    if ty == "SaleRecorded"@ {
        lemma_untouched_invoice(s.model, s.events, "sale"@, txt(q, "saleId"@));
    }
    if ty == "PurchaseRecorded"@ {
        lemma_untouched_invoice(s.model, s.events, "purchase"@, txt(q, "purchaseId"@));
    }
}

proof fn lemma_untouched_invoice(m: ReadModel, log: Seq<EventV>, kind: Text, id: Text)
    requires
        reversal_downstream(m, log, kind, id, None) is Ok,
    ensures
        untouched_invoice(m, id, kind),
{
    assert(!has_allocation(m.allocations, kind, id));
    assert(!has_return(m.returns, id));
}

pub proof fn lemma_named_in(log: Seq<EventV>, ty: Text, key: Text, id: Text)
    ensures
        mentioned(log, ty, key, id) <==> named_in(log, ty, key, id),
{
    if mentioned(log, ty, key, id) {
        assert(named_in(log, ty, key, id));
    }
    if named_in(log, ty, key, id) {
        assert(mentioned(log, ty, key, id));
    }
}

proof fn lemma_reversal_heads(m: ReadModel, target: Text, ty: Text, reason: Text)
    ensures
        txt(reversal_payload(m, target, ty, reason), "targetEventId"@) == target,
        txt(reversal_payload(m, target, ty, reason), "targetType"@) == ty,
        txt(reversal_payload(m, target, ty, reason), "reason"@) == reason,
{
    reveal_strlit("targetEventId");
    reveal_strlit("targetType");
    reveal_strlit("reason");
    reveal_strlit("reversalJournalLines");
    assert("targetEventId"@.len() == 13);
    assert("targetType"@.len() == 10);
    assert("reason"@.len() == 6);
    assert("reversalJournalLines"@.len() == 20);
}

} // verus!
