//! Which rows of the read model point at master data.

use crate::error::DbError;
use crate::rows::rows;
use crate::tables::{
    Balance, Invoice, Lot, Payment, PurchaseLine, ReadModel, ReturnLine, SaleLine, Tables,
};
use crate::text::same;
use vstd::prelude::*;
use vstd::string::*;

verus! {

/// A column of the read model that points at an item or a party.
#[derive(Debug, Clone, Copy, PartialEq, Eq, Structural)]
pub enum Reference {
    /// `inventory_lots.item_id`
    LotItem,
    /// `sale_lines.item_id`
    SaleLineItem,
    /// `purchase_lines.item_id`
    PurchaseLineItem,
    /// `return_lines.item_id`
    ReturnLineItem,
    /// `inventory_lots.supplier_id`
    LotSupplier,
    /// `sales.customer_id`
    SaleCustomer,
    /// `purchases.supplier_id`
    PurchaseSupplier,
    /// `payments.party_id`
    PaymentParty,
    /// `party_balances.party_id`
    BalanceParty,
}

/// Every column in the read model that points at `items.id`.
pub const ITEM_REFS: [Reference; 4] = [
    Reference::LotItem,
    Reference::SaleLineItem,
    Reference::PurchaseLineItem,
    Reference::ReturnLineItem,
];

/// Every column in the read model that points at `parties.id`.
pub const PARTY_REFS: [Reference; 5] = [
    Reference::LotSupplier,
    Reference::SaleCustomer,
    Reference::PurchaseSupplier,
    Reference::PaymentParty,
    Reference::BalanceParty,
];

/// How many rows satisfy a condition.
pub open spec fn tally<R>(t: Seq<R>, f: spec_fn(R) -> bool) -> nat
    decreases t.len(),
{
    if t.len() == 0 {
        0
    } else {
        tally(t.drop_last(), f) + if f(t.last()) {
            1nat
        } else {
            0nat
        }
    }
}

/// How many rows point at `id` through one column.
pub open spec fn pointing(m: ReadModel, r: Reference, id: Seq<char>) -> nat {
    match r {
        Reference::LotItem => tally(m.lots, |r: Lot<Seq<char>>| r.item_id == id),
        Reference::SaleLineItem => tally(m.sale_lines, |r: SaleLine<Seq<char>>| r.item_id == id),
        Reference::PurchaseLineItem => tally(m.purchase_lines, |r: PurchaseLine<Seq<char>>| r.item_id == id),
        Reference::ReturnLineItem => tally(m.return_lines, |r: ReturnLine<Seq<char>>| r.item_id == id),
        Reference::LotSupplier => tally(m.lots, |r: Lot<Seq<char>>| r.supplier_id == Some(id)),
        Reference::SaleCustomer => tally(m.sales, |r: Invoice<Seq<char>>| r.party_id == Some(id)),
        Reference::PurchaseSupplier => tally(m.purchases, |r: Invoice<Seq<char>>| r.party_id == Some(id)),
        Reference::PaymentParty => tally(m.payments, |r: Payment<Seq<char>>| r.party_id == id),
        Reference::BalanceParty => tally(m.balances, |r: Balance<Seq<char>>| r.party_id == id),
    }
}

/// How many rows point at `id` through any of some columns.
pub open spec fn referring(m: ReadModel, refs: Seq<Reference>, id: Seq<char>) -> nat
    decreases refs.len(),
{
    if refs.len() == 0 {
        0
    } else {
        referring(m, refs.drop_last(), id) + pointing(m, refs.last(), id)
    }
}

fn points_at(o: &Option<String>, id: &str) -> (r: bool)
    ensures
        r == (crate::rows::opt_view(*o) == Some(id@)),
{
    match o {
        Some(s) => same(s.as_str(), id),
        None => false,
    }
}

fn count_pointing(t: &Tables, r: Reference, id: &str) -> (n: usize)
    ensures
        n == pointing(t@, r, id@),
{
    match r {
        Reference::LotItem => count_lotitem(&t.lots, id),
        Reference::SaleLineItem => count_salelineitem(&t.sale_lines, id),
        Reference::PurchaseLineItem => count_purchaselineitem(&t.purchase_lines, id),
        Reference::ReturnLineItem => count_returnlineitem(&t.return_lines, id),
        Reference::LotSupplier => count_lotsupplier(&t.lots, id),
        Reference::SaleCustomer => count_salecustomer(&t.sales, id),
        Reference::PurchaseSupplier => count_purchasesupplier(&t.purchases, id),
        Reference::PaymentParty => count_paymentparty(&t.payments, id),
        Reference::BalanceParty => count_balanceparty(&t.balances, id),
    }
}

fn count_lotitem(t: &Vec<Lot>, id: &str) -> (n: usize)
    ensures
        n == tally(rows(t@), |r: Lot<Seq<char>>| r.item_id == id@),
{
    let ghost f = |r: Lot<Seq<char>>| r.item_id == id@;
    let ghost s = rows(t@);
    let mut n: usize = 0;
    let mut i: usize = 0;
    while i < t.len()
        invariant
            n <= i <= t@.len(),
            s == rows(t@),
            f == (|r: Lot<Seq<char>>| r.item_id == id@),
            n == tally(s.take(i as int), f),
        decreases t@.len() - i,
    {
        assert(s.take(i + 1).drop_last() =~= s.take(i as int));
        assert(s.take(i + 1).last() == t@[i as int]@);
        if same(t[i].item_id.as_str(), id) {
            n += 1;
        }
        i += 1;
    }
    assert(s.take(s.len() as int) =~= s);
    n
}

fn count_salelineitem(t: &Vec<SaleLine>, id: &str) -> (n: usize)
    ensures
        n == tally(rows(t@), |r: SaleLine<Seq<char>>| r.item_id == id@),
{
    let ghost f = |r: SaleLine<Seq<char>>| r.item_id == id@;
    let ghost s = rows(t@);
    let mut n: usize = 0;
    let mut i: usize = 0;
    while i < t.len()
        invariant
            n <= i <= t@.len(),
            s == rows(t@),
            f == (|r: SaleLine<Seq<char>>| r.item_id == id@),
            n == tally(s.take(i as int), f),
        decreases t@.len() - i,
    {
        assert(s.take(i + 1).drop_last() =~= s.take(i as int));
        assert(s.take(i + 1).last() == t@[i as int]@);
        if same(t[i].item_id.as_str(), id) {
            n += 1;
        }
        i += 1;
    }
    assert(s.take(s.len() as int) =~= s);
    n
}

fn count_purchaselineitem(t: &Vec<PurchaseLine>, id: &str) -> (n: usize)
    ensures
        n == tally(rows(t@), |r: PurchaseLine<Seq<char>>| r.item_id == id@),
{
    let ghost f = |r: PurchaseLine<Seq<char>>| r.item_id == id@;
    let ghost s = rows(t@);
    let mut n: usize = 0;
    let mut i: usize = 0;
    while i < t.len()
        invariant
            n <= i <= t@.len(),
            s == rows(t@),
            f == (|r: PurchaseLine<Seq<char>>| r.item_id == id@),
            n == tally(s.take(i as int), f),
        decreases t@.len() - i,
    {
        assert(s.take(i + 1).drop_last() =~= s.take(i as int));
        assert(s.take(i + 1).last() == t@[i as int]@);
        if same(t[i].item_id.as_str(), id) {
            n += 1;
        }
        i += 1;
    }
    assert(s.take(s.len() as int) =~= s);
    n
}

fn count_returnlineitem(t: &Vec<ReturnLine>, id: &str) -> (n: usize)
    ensures
        n == tally(rows(t@), |r: ReturnLine<Seq<char>>| r.item_id == id@),
{
    let ghost f = |r: ReturnLine<Seq<char>>| r.item_id == id@;
    let ghost s = rows(t@);
    let mut n: usize = 0;
    let mut i: usize = 0;
    while i < t.len()
        invariant
            n <= i <= t@.len(),
            s == rows(t@),
            f == (|r: ReturnLine<Seq<char>>| r.item_id == id@),
            n == tally(s.take(i as int), f),
        decreases t@.len() - i,
    {
        assert(s.take(i + 1).drop_last() =~= s.take(i as int));
        assert(s.take(i + 1).last() == t@[i as int]@);
        if same(t[i].item_id.as_str(), id) {
            n += 1;
        }
        i += 1;
    }
    assert(s.take(s.len() as int) =~= s);
    n
}

fn count_lotsupplier(t: &Vec<Lot>, id: &str) -> (n: usize)
    ensures
        n == tally(rows(t@), |r: Lot<Seq<char>>| r.supplier_id == Some(id@)),
{
    let ghost f = |r: Lot<Seq<char>>| r.supplier_id == Some(id@);
    let ghost s = rows(t@);
    let mut n: usize = 0;
    let mut i: usize = 0;
    while i < t.len()
        invariant
            n <= i <= t@.len(),
            s == rows(t@),
            f == (|r: Lot<Seq<char>>| r.supplier_id == Some(id@)),
            n == tally(s.take(i as int), f),
        decreases t@.len() - i,
    {
        assert(s.take(i + 1).drop_last() =~= s.take(i as int));
        assert(s.take(i + 1).last() == t@[i as int]@);
        if points_at(&t[i].supplier_id, id) {
            n += 1;
        }
        i += 1;
    }
    assert(s.take(s.len() as int) =~= s);
    n
}

fn count_salecustomer(t: &Vec<Invoice>, id: &str) -> (n: usize)
    ensures
        n == tally(rows(t@), |r: Invoice<Seq<char>>| r.party_id == Some(id@)),
{
    let ghost f = |r: Invoice<Seq<char>>| r.party_id == Some(id@);
    let ghost s = rows(t@);
    let mut n: usize = 0;
    let mut i: usize = 0;
    while i < t.len()
        invariant
            n <= i <= t@.len(),
            s == rows(t@),
            f == (|r: Invoice<Seq<char>>| r.party_id == Some(id@)),
            n == tally(s.take(i as int), f),
        decreases t@.len() - i,
    {
        assert(s.take(i + 1).drop_last() =~= s.take(i as int));
        assert(s.take(i + 1).last() == t@[i as int]@);
        if points_at(&t[i].party_id, id) {
            n += 1;
        }
        i += 1;
    }
    assert(s.take(s.len() as int) =~= s);
    n
}

fn count_purchasesupplier(t: &Vec<Invoice>, id: &str) -> (n: usize)
    ensures
        n == tally(rows(t@), |r: Invoice<Seq<char>>| r.party_id == Some(id@)),
{
    let ghost f = |r: Invoice<Seq<char>>| r.party_id == Some(id@);
    let ghost s = rows(t@);
    let mut n: usize = 0;
    let mut i: usize = 0;
    while i < t.len()
        invariant
            n <= i <= t@.len(),
            s == rows(t@),
            f == (|r: Invoice<Seq<char>>| r.party_id == Some(id@)),
            n == tally(s.take(i as int), f),
        decreases t@.len() - i,
    {
        assert(s.take(i + 1).drop_last() =~= s.take(i as int));
        assert(s.take(i + 1).last() == t@[i as int]@);
        if points_at(&t[i].party_id, id) {
            n += 1;
        }
        i += 1;
    }
    assert(s.take(s.len() as int) =~= s);
    n
}

fn count_paymentparty(t: &Vec<Payment>, id: &str) -> (n: usize)
    ensures
        n == tally(rows(t@), |r: Payment<Seq<char>>| r.party_id == id@),
{
    let ghost f = |r: Payment<Seq<char>>| r.party_id == id@;
    let ghost s = rows(t@);
    let mut n: usize = 0;
    let mut i: usize = 0;
    while i < t.len()
        invariant
            n <= i <= t@.len(),
            s == rows(t@),
            f == (|r: Payment<Seq<char>>| r.party_id == id@),
            n == tally(s.take(i as int), f),
        decreases t@.len() - i,
    {
        assert(s.take(i + 1).drop_last() =~= s.take(i as int));
        assert(s.take(i + 1).last() == t@[i as int]@);
        if same(t[i].party_id.as_str(), id) {
            n += 1;
        }
        i += 1;
    }
    assert(s.take(s.len() as int) =~= s);
    n
}

fn count_balanceparty(t: &Vec<Balance>, id: &str) -> (n: usize)
    ensures
        n == tally(rows(t@), |r: Balance<Seq<char>>| r.party_id == id@),
{
    let ghost f = |r: Balance<Seq<char>>| r.party_id == id@;
    let ghost s = rows(t@);
    let mut n: usize = 0;
    let mut i: usize = 0;
    while i < t.len()
        invariant
            n <= i <= t@.len(),
            s == rows(t@),
            f == (|r: Balance<Seq<char>>| r.party_id == id@),
            n == tally(s.take(i as int), f),
        decreases t@.len() - i,
    {
        assert(s.take(i + 1).drop_last() =~= s.take(i as int));
        assert(s.take(i + 1).last() == t@[i as int]@);
        if same(t[i].party_id.as_str(), id) {
            n += 1;
        }
        i += 1;
    }
    assert(s.take(s.len() as int) =~= s);
    n
}

/// How many read-model rows point at `id`.
///
/// Shared by the delete guard and the delete projector on purpose: the guard
/// refuses a delete that would orphan a row, and the projector re-checks the
/// same condition at replay time.
pub fn count_references(t: &Tables, refs: &[Reference], id: &str) -> (r: Result<i64, DbError>)
    ensures
        match r {
            Ok(n) => n == referring(t@, refs@, id@),
            Err(e) => e@ == DbError::<Seq<char>>::Overflow && referring(t@, refs@, id@)
                > i64::MAX,
        },
{
    let mut total: i64 = 0;
    let mut i: usize = 0;
    while i < refs.len()
        invariant
            i <= refs@.len(),
            0 <= total,
            total == referring(t@, refs@.take(i as int), id@),
        decreases refs@.len() - i,
    {
        assert(refs@.take(i + 1).drop_last() =~= refs@.take(i as int));
        let n: usize = count_pointing(t, refs[i], id);
        if n as u128 + total as u128 > i64::MAX as u128 {
            proof {
                lemma_referring_grows(t@, refs@, id@, i + 1);
            }
            return Err(DbError::Overflow);
        }
        total = total + n as i64;
        i += 1;
    }
    assert(refs@.take(refs@.len() as int) =~= refs@);
    Ok(total)
}

/// Counting through more columns counts no fewer rows.
proof fn lemma_referring_grows(m: ReadModel, refs: Seq<Reference>, id: Seq<char>, i: int)
    requires
        0 <= i <= refs.len(),
    ensures
        referring(m, refs.take(i), id) <= referring(m, refs, id),
    decreases refs.len() - i,
{
    if i < refs.len() {
        lemma_referring_grows(m, refs, id, i + 1);
        assert(refs.take(i + 1).drop_last() =~= refs.take(i));
    } else {
        assert(refs.take(i) =~= refs);
    }
}

/// Whether any row points at `id`.
pub fn is_referenced(t: &Tables, refs: &[Reference], id: &str) -> (r: bool)
    ensures
        r == (referring(t@, refs@, id@) > 0),
{
    match count_references(t, refs, id) {
        Ok(n) => n > 0,
        Err(_) => true,
    }
}

} // verus!
