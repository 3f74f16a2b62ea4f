//! Who may be paid, and what the reconciliation checks find.

use crate::json::{member, opt_txt, txt, JsonV};
use crate::laws::periods::{lemma_sum_minus, lemma_sum_same};
use crate::laws::totals::unreversed;
use crate::model::{Fault, Text};
use crate::queries::parties::{
    activity, ahead, has_balance, offered, offers_from, owes_invoice, payable_outcome, put_offer,
    unsettled, Offer, PayableParty,
};
use crate::reconciliation::{
    engine_profit, gross_profit_finding, in_bounds, invoice_fault, invoice_outstanding_finding,
    journal_profit, line_profit, negative_credit_from, negative_lot_from, outstanding_fault,
    return_profit, returned_total, role_credit, role_debit, settled_total, unbound_lot_from,
    CheckOutcome,
};
use crate::rows::lookup;
use crate::sums::{lemma_total_is_exact, sum_over};
use crate::tables::{
    Allocation, Balance, Invoice, JournalLine, Lot, Party, ReadModel, Return, SaleLine,
};
use vstd::prelude::*;

verus! {

// ---- parties that may be paid ----

/// The document says that the party is active, or does not say: nothing, null, true or one.
pub open spec fn says_active(doc: JsonV) -> bool {
    match member(doc, "active"@) {
        None => true,
        Some(JsonV::Null) => true,
        Some(JsonV::Bool(b)) => b,
        Some(JsonV::Int(i)) => i == 1,
        _ => false,
    }
}

/// The document says that the party is archived: false or zero.
pub open spec fn says_archived(doc: JsonV) -> bool {
    match member(doc, "active"@) {
        Some(JsonV::Bool(b)) => !b,
        Some(JsonV::Int(i)) => i == 0,
        _ => false,
    }
}

/// Something is open with the party: an invoice that is not reversed and not settled, or a
/// balance or credit that is not zero; of sales for money in, of purchases for money out.
pub open spec fn something_open(m: ReadModel, id: Text, money_in: bool) -> bool {
    ||| money_in && exists|i: int|
        0 <= i < m.sales.len() && (#[trigger] m.sales[i]).party_id == Some(id)
            && !m.sales[i].reversed && m.sales[i].outstanding_minor > 0
    ||| !money_in && exists|i: int|
        0 <= i < m.purchases.len() && (#[trigger] m.purchases[i]).party_id == Some(id)
            && !m.purchases[i].reversed && m.purchases[i].outstanding_minor > 0
    ||| lookup(m.balances, id) matches Some(b) && money_in && (b.receivable_minor != 0
        || b.unallocated_cr_minor != 0)
    ||| lookup(m.balances, id) matches Some(b) && !money_in && (b.payable_minor != 0
        || b.unallocated_dr_minor != 0)
}

/// The party may be paid, or pay: it is of the kind that the direction asks for or of both,
/// and it is active or something is open with it.
pub open spec fn may_be_offered(m: ReadModel, p: Party<Text, JsonV>, money_in: bool) -> bool {
    let kind = opt_txt(p.doc, "kind"@);
    &&& kind == Some("both"@) || (money_in && kind == Some("customer"@)) || (!money_in && kind
        == Some("supplier"@))
    &&& says_active(p.doc) || something_open(m, p.id, money_in)
}

/// The row tells of the party: its id, its name, its kind, and whether it is archived.
pub open spec fn offer_of(o: PayableParty<Text>, p: Party<Text, JsonV>) -> bool {
    &&& o.id == p.id
    &&& opt_txt(p.doc, "name"@) == Some(o.name)
    &&& opt_txt(p.doc, "kind"@) == Some(o.kind)
    &&& o.archived == says_archived(p.doc)
}

proof fn lemma_offered(m: ReadModel, p: Party<Text, JsonV>, money_in: bool)
    ensures
        offered(m, p, money_in) <==> may_be_offered(m, p, money_in),
{
    let t = if money_in {
        m.sales
    } else {
        m.purchases
    };
    if owes_invoice(t, p.id) {
        let i = choose|i: int| 0 <= i < t.len() && unsettled(#[trigger] t[i], p.id);
        assert(t[i].party_id == Some(p.id));
        if money_in {
            assert(m.sales[i].party_id == Some(p.id));
        } else {
            assert(m.purchases[i].party_id == Some(p.id));
        }
    }
    if something_open(m, p.id, money_in) && !has_balance(m, p.id, money_in) {
        let i = choose|i: int|
            0 <= i < t.len() && (#[trigger] t[i]).party_id == Some(p.id) && !t[i].reversed
                && t[i].outstanding_minor > 0;
        assert(unsettled(t[i], p.id));
    }
    assert(activity(p.doc) == Some(1i64) <==> says_active(p.doc));
}

proof fn lemma_put_offer(s: Seq<Offer<Text>>, e: Offer<Text>)
    ensures
        put_offer(s, e).len() == s.len() + 1,
        forall|x: Offer<Text>| #[trigger]
            put_offer(s, e).contains(x) <==> s.contains(x) || x == e,
    decreases s.len(),
{
    let r = put_offer(s, e);
    if s.len() == 0 || !ahead(e, s.last()) {
        assert forall|x: Offer<Text>| #[trigger] r.contains(x) <==> s.contains(x) || x == e by {
            if s.contains(x) {
                let i = choose|i: int| 0 <= i < s.len() && s[i] == x;
                assert(r[i] == x);
            }
            assert(r[s.len() as int] == e);
            if r.contains(x) && x != e {
                let i = choose|i: int| 0 <= i < r.len() && r[i] == x;
                assert(s[i] == x);
            }
        }
    } else {
        let f = s.drop_last();
        lemma_put_offer(f, e);
        let q = put_offer(f, e);
        assert forall|x: Offer<Text>| #[trigger] r.contains(x) <==> s.contains(x) || x == e by {
            if s.contains(x) {
                let i = choose|i: int| 0 <= i < s.len() && s[i] == x;
                if i < f.len() {
                    assert(f[i] == x);
                    assert(f.contains(x));
                    assert(q.contains(x));
                    let j = choose|j: int| 0 <= j < q.len() && q[j] == x;
                    assert(r[j] == x);
                } else {
                    assert(r[q.len() as int] == x);
                }
            }
            if x == e {
                assert(q.contains(e));
                let j = choose|j: int| 0 <= j < q.len() && q[j] == e;
                assert(r[j] == e);
            }
            if r.contains(x) && x != e {
                let i = choose|i: int| 0 <= i < r.len() && r[i] == x;
                if i < q.len() {
                    assert(q[i] == x);
                    assert(q.contains(x));
                    assert(f.contains(x));
                    let j = choose|j: int| 0 <= j < f.len() && f[j] == x;
                    assert(s[j] == x);
                } else {
                    assert(s[s.len() - 1] == x);
                }
            }
        }
    }
}

/// Every row is of some party before party `i` that may be offered, and every such party
/// has a row.
spec fn told(m: ReadModel, money_in: bool, i: int, s: Seq<Offer<Text>>) -> bool {
    &&& forall|x: Offer<Text>| #[trigger]
        s.contains(x) ==> exists|k: int|
            0 <= k < i && may_be_offered(m, #[trigger] m.parties[k], money_in) && offer_of(
                x.party,
                m.parties[k],
            )
    &&& forall|k: int|
        0 <= k < i && may_be_offered(m, #[trigger] m.parties[k], money_in) ==> exists|x: Offer<
            Text,
        >| #[trigger]
            s.contains(x) && offer_of(x.party, m.parties[k])
}

proof fn lemma_told(m: ReadModel, money_in: bool, i: int, done: Seq<Offer<Text>>)
    requires
        0 <= i <= m.parties.len(),
        told(m, money_in, i, done),
    ensures
        offers_from(m, money_in, i, done) matches Ok(r) ==> told(
            m,
            money_in,
            m.parties.len() as int,
            r,
        ),
    decreases m.parties.len() - i,
{
    if i < m.parties.len() {
        let p = m.parties[i];
        lemma_offered(m, p, money_in);
        if !offered(m, p, money_in) {
            assert(told(m, money_in, i + 1, done)) by {
                assert forall|x: Offer<Text>| #[trigger] done.contains(x) implies exists|k: int|
                    0 <= k < i + 1 && may_be_offered(m, #[trigger] m.parties[k], money_in)
                        && offer_of(x.party, m.parties[k]) by {
                    let k = choose|k: int|
                        0 <= k < i && may_be_offered(m, #[trigger] m.parties[k], money_in)
                            && offer_of(x.party, m.parties[k]);
                    assert(may_be_offered(m, m.parties[k], money_in));
                }
            }
            lemma_told(m, money_in, i + 1, done);
        } else if offers_from(m, money_in, i, done) is Ok {
            let a = activity(p.doc)->0;
            let e = Offer {
                act: a,
                party: PayableParty {
                    id: p.id,
                    name: opt_txt(p.doc, "name"@)->0,
                    kind: txt(p.doc, "kind"@),
                    archived: a == 0,
                },
            };
            assert(offer_of(e.party, p));
            let next = put_offer(done, e);
            lemma_put_offer(done, e);
            assert(told(m, money_in, i + 1, next)) by {
                assert forall|x: Offer<Text>| #[trigger] next.contains(x) implies exists|k: int|
                    0 <= k < i + 1 && may_be_offered(m, #[trigger] m.parties[k], money_in)
                        && offer_of(x.party, m.parties[k]) by {
                    if done.contains(x) {
                        let k = choose|k: int|
                            0 <= k < i && may_be_offered(m, #[trigger] m.parties[k], money_in)
                                && offer_of(x.party, m.parties[k]);
                        assert(may_be_offered(m, m.parties[k], money_in));
                    } else {
                        assert(may_be_offered(m, m.parties[i], money_in));
                    }
                }
                assert forall|k: int|
                    0 <= k < i + 1 && may_be_offered(m, #[trigger] m.parties[k], money_in) implies exists|
                    x: Offer<Text>,
                | #[trigger]
                    next.contains(x) && offer_of(x.party, m.parties[k]) by {
                    if k < i {
                        let x = choose|x: Offer<Text>| #[trigger]
                            done.contains(x) && offer_of(x.party, m.parties[k]);
                        assert(next.contains(x));
                    } else {
                        assert(next.contains(e));
                    }
                }
            }
            lemma_told(m, money_in, i + 1, next);
        }
    }
}

/// The row is of a party that may be offered.
pub open spec fn row_told(m: ReadModel, money_in: bool, o: PayableParty<Text>) -> bool {
    exists|k: int|
        0 <= k < m.parties.len() && may_be_offered(m, #[trigger] m.parties[k], money_in)
            && offer_of(o, m.parties[k])
}

/// Some row is of the party.
pub open spec fn party_told(r: Seq<PayableParty<Text>>, p: Party<Text, JsonV>) -> bool {
    exists|i: int| 0 <= i < r.len() && offer_of(#[trigger] r[i], p)
}

/// Every row is of a party that may be offered, and every such party has a row.
pub open spec fn offers_tell(m: ReadModel, money_in: bool, r: Seq<PayableParty<Text>>) -> bool {
    &&& forall|i: int| 0 <= i < r.len() ==> row_told(m, money_in, #[trigger] r[i])
    &&& forall|k: int|
        0 <= k < m.parties.len() && may_be_offered(m, #[trigger] m.parties[k], money_in)
            ==> party_told(r, m.parties[k])
}

/// The parties that a payment may be recorded for are just those that may be offered: each
/// row tells of one, and each of them has a row. A direction that is neither in nor out has
/// none.
pub proof fn law_parties_that_may_be_paid(m: ReadModel, direction: Text)
    ensures
        direction != "in"@ && direction != "out"@ ==> payable_outcome(m, direction) is Err,
        direction == "in"@ ==> (payable_outcome(m, direction) matches Ok(r) ==> offers_tell(
            m,
            true,
            r,
        )),
        direction == "out"@ ==> (payable_outcome(m, direction) matches Ok(r) ==> offers_tell(
            m,
            false,
            r,
        )),
{
    reveal_strlit("in");
    reveal_strlit("out");
    assert("in"@.len() == 2);
    assert("out"@.len() == 3);
    let money_in = direction == "in"@;
    lemma_told(m, money_in, 0, Seq::empty());
    if let Ok(r) = payable_outcome(m, direction) {
        let s = offers_from(m, money_in, 0, Seq::empty())->Ok_0;
        assert(r.len() == s.len());
        assert forall|i: int| 0 <= i < r.len() implies row_told(m, money_in, #[trigger] r[i]) by {
            assert(r[i] == s[i].party);
            assert(s.contains(s[i]));
            let k = choose|k: int|
                0 <= k < m.parties.len() && may_be_offered(m, #[trigger] m.parties[k], money_in)
                    && offer_of(s[i].party, m.parties[k]);
            assert(may_be_offered(m, m.parties[k], money_in) && offer_of(r[i], m.parties[k]));
        }
        assert forall|k: int|
            0 <= k < m.parties.len() && may_be_offered(m, #[trigger] m.parties[k], money_in) implies party_told(
        r, m.parties[k]) by {
            let x = choose|x: Offer<Text>| #[trigger]
                s.contains(x) && offer_of(x.party, m.parties[k]);
            let i = choose|i: int| 0 <= i < s.len() && s[i] == x;
            assert(r[i] == s[i].party);
            assert(offer_of(r[i], m.parties[k]));
        }
        assert(offers_tell(m, money_in, r));
    }
}

// ---- the checks ----

/// The check of lots passes exactly where no lot has less than nothing left.
pub proof fn law_negative_lot_check_tells(t: Seq<Lot<Text>>, i: int)
    requires
        0 <= i,
    ensures
        negative_lot_from(t, i) == CheckOutcome::Pass::<Text> <==> forall|k: int|
            i <= k < t.len() ==> (#[trigger] t[k]).qty_remaining >= 0,
    decreases t.len() - i,
{
    if i < t.len() {
        law_negative_lot_check_tells(t, i + 1);
        if t[i].qty_remaining < 0 {
            assert(!(t[i].qty_remaining >= 0));
        }
    }
}

/// The check of lot bounds passes exactly where every lot has from nothing to what it
/// received left.
pub proof fn law_lot_bounds_check_tells(t: Seq<Lot<Text>>, i: int)
    requires
        0 <= i,
    ensures
        unbound_lot_from(t, i) == CheckOutcome::Pass::<Text> <==> forall|k: int|
            i <= k < t.len() ==> 0 <= (#[trigger] t[k]).qty_remaining <= t[k].qty_received,
    decreases t.len() - i,
{
    if i < t.len() {
        law_lot_bounds_check_tells(t, i + 1);
        if !in_bounds(t[i]) {
            assert(!(0 <= t[i].qty_remaining <= t[i].qty_received));
        }
    }
}

/// The check of credit passes exactly where nobody holds less than nothing, on either side.
pub proof fn law_credit_check_tells(t: Seq<Balance<Text>>, i: int)
    requires
        0 <= i,
    ensures
        negative_credit_from(t, i) == CheckOutcome::Pass::<Text> <==> forall|k: int|
            i <= k < t.len() ==> (#[trigger] t[k]).unallocated_cr_minor >= 0
                && t[k].unallocated_dr_minor >= 0,
    decreases t.len() - i,
{
    if i < t.len() {
        law_credit_check_tells(t, i + 1);
        if t[i].unallocated_cr_minor < 0 || t[i].unallocated_dr_minor < 0 {
            assert(!(t[i].unallocated_cr_minor >= 0 && t[i].unallocated_dr_minor >= 0));
        }
    }
}

/// What was allocated to an invoice of a kind.
pub open spec fn allocated_to(id: Text, kind: Text) -> spec_fn(Allocation<Text>) -> int {
    |a: Allocation<Text>|
        if a.target_id == id && a.target_type == kind {
            a.amount_minor as int
        } else {
            0
        }
}

/// What was returned against a sale: the price; against a purchase: the cost.
pub open spec fn returned_against(id: Text, sale: bool) -> spec_fn(Return<Text>) -> int {
    |r: Return<Text>|
        if r.original_id == id && sale && r.return_type == "sale_return"@ {
            r.revenue_reversed_minor as int
        } else if r.original_id == id && !sale && r.return_type == "purchase_return"@ {
            r.cost_restored_minor as int
        } else {
            0
        }
}

/// What is outstanding on an invoice is right: nothing where it is for cash; on credit,
/// what its total exceeds allocations and returns by, where it does.
pub open spec fn outstanding_right(m: ReadModel, x: Invoice<Text>, sale: bool) -> bool {
    let kind = if sale {
        "sale"@
    } else {
        "purchase"@
    };
    let open = x.total_minor - sum_over(m.allocations, allocated_to(x.id, kind)) - sum_over(
        m.returns,
        returned_against(x.id, sale),
    );
    x.outstanding_minor == if x.terms == "credit"@ && open > 0 {
        open
    } else {
        0
    }
}

proof fn lemma_settled_sums(m: ReadModel, id: Text, sale: bool)
    ensures
        ({
            let kind = if sale {
                "sale"@
            } else {
                "purchase"@
            };
            &&& settled_total(m, id, kind) matches Some(v) ==> v == sum_over(
                m.allocations,
                allocated_to(id, kind),
            )
            &&& returned_total(m, id, sale) matches Some(v) ==> v == sum_over(
                m.returns,
                returned_against(id, sale),
            )
        }),
{
    let kind = if sale {
        "sale"@
    } else {
        "purchase"@
    };
    let f = |a: Allocation<Text>| crate::reconciliation::settled(a, id, kind);
    let g = |r: Return<Text>| crate::reconciliation::returned(r, id, sale);
    lemma_total_is_exact(m.allocations, f);
    lemma_total_is_exact(m.returns, g);
    lemma_sum_same(m.allocations, f, allocated_to(id, kind));
    lemma_sum_same(m.returns, g, returned_against(id, sale));
}

proof fn lemma_outstanding_right(m: ReadModel, t: Seq<Invoice<Text>>, sale: bool, i: int)
    requires
        0 <= i,
    ensures
        outstanding_fault(m, t, sale, i) matches Ok(None) ==> forall|k: int|
            i <= k < t.len() ==> outstanding_right(m, #[trigger] t[k], sale),
        outstanding_fault(m, t, sale, i) matches Ok(Some(_)) ==> exists|k: int|
            i <= k < t.len() && !outstanding_right(m, #[trigger] t[k], sale),
    decreases t.len() - i,
{
    if i < t.len() {
        lemma_outstanding_right(m, t, sale, i + 1);
        lemma_settled_sums(m, t[i].id, sale);
        let kind = if sale {
            "sale"@
        } else {
            "purchase"@
        };
        if let Some(a) = settled_total(m, t[i].id, kind) {
            if let Some(b) = returned_total(m, t[i].id, sale) {
                if invoice_fault(t[i], kind, a, b) is Some {
                    assert(!outstanding_right(m, t[i], sale));
                } else {
                    assert(outstanding_right(m, t[i], sale));
                }
            }
        }
    }
}

/// The check of invoices passes only where what is outstanding is right on every sale and
/// on every purchase, and fails only where on some it is not.
pub proof fn law_invoice_check_tells(m: ReadModel)
    ensures
        invoice_outstanding_finding(m) == Ok::<CheckOutcome<Text>, Fault>(CheckOutcome::Pass) ==> (
        forall|k: int|
            0 <= k < m.sales.len() ==> outstanding_right(m, #[trigger] m.sales[k], true)) && (
        forall|k: int|
            0 <= k < m.purchases.len() ==> outstanding_right(m, #[trigger] m.purchases[k], false)),
        invoice_outstanding_finding(m) matches Ok(CheckOutcome::Fail(_)) ==> (exists|k: int|
            0 <= k < m.sales.len() && !outstanding_right(m, #[trigger] m.sales[k], true)) || (
        exists|k: int|
            0 <= k < m.purchases.len() && !outstanding_right(
                m,
                #[trigger] m.purchases[k],
                false,
            )),
{
    lemma_outstanding_right(m, m.sales, true, 0);
    lemma_outstanding_right(m, m.purchases, false, 0);
}

/// What was booked on accounts in a role: debits less credits.
pub open spec fn booked_on_role(m: ReadModel, role: Text) -> spec_fn(JournalLine<Text>) -> int {
    |l: JournalLine<Text>|
        if lookup(m.accounts, l.account_id) matches Some(a) && opt_txt(a.doc, "system_role"@)
            == Some(role) {
            l.debit_minor - l.credit_minor
        } else {
            0
        }
}

/// What a line of a sale that is not reversed earned.
pub open spec fn earned(m: ReadModel) -> spec_fn(SaleLine<Text>) -> int {
    |l: SaleLine<Text>|
        if unreversed(m, l) {
            l.revenue_minor - l.cogs_minor
        } else {
            0
        }
}

/// What a sale return took back of what was earned.
pub open spec fn unearned() -> spec_fn(Return<Text>) -> int {
    |r: Return<Text>|
        if r.return_type == "sale_return"@ {
            r.revenue_reversed_minor - r.cost_restored_minor
        } else {
            0
        }
}

/// Where its sums stay within their range, the check of gross profit passes exactly where
/// what the lines of sales earned, less what sale returns took back, is what the books
/// have: credits less debits on sales, less debits less credits on cost of goods.
pub proof fn law_gross_profit_check_tells(m: ReadModel)
    requires
        engine_profit(m) is Some,
        journal_profit(m) is Some,
    ensures
        gross_profit_finding(m) == Ok::<CheckOutcome<Text>, Fault>(CheckOutcome::Pass) <==> sum_over(
            m.sale_lines,
            earned(m),
        ) - sum_over(m.returns, unearned()) == -sum_over(m.journal, booked_on_role(m, "sales"@))
            - sum_over(m.journal, booked_on_role(m, "cogs"@)),
{
    let f1 = |l: SaleLine<Text>| line_profit(m, l);
    let f2 = |r: Return<Text>| return_profit(r);
    let f3 = |l: JournalLine<Text>| role_credit(m, l, "sales"@);
    let f4 = |l: JournalLine<Text>| role_debit(m, l, "cogs"@);
    lemma_total_is_exact(m.sale_lines, f1);
    lemma_total_is_exact(m.returns, f2);
    lemma_total_is_exact(m.journal, f3);
    lemma_total_is_exact(m.journal, f4);
    lemma_sum_same(m.sale_lines, f1, earned(m));
    lemma_sum_same(m.returns, f2, unearned());
    lemma_sum_minus(m.journal, f3, booked_on_role(m, "sales"@));
    lemma_sum_same(m.journal, f4, booked_on_role(m, "cogs"@));
}

} // verus!
