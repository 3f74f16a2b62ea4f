//! Guards: the rules that a command has to meet.

use crate::assoc::{fetch, pairs, put, record_of};
use crate::commands::{judged, overflow, refusal, reject, CommandError, Refusal};
use crate::commands::categories::{categories, is_transactional, EventCategory};
use crate::error::DbError;
use crate::events::{is_mentioned, mentioned, EventV, LedgerEvent};
use crate::genesis::{ANON_SUPPLIER_PARTY_ID, WALKIN_PARTY_ID};
use crate::json::{opt_txt, pos};
use crate::model::{consumed_by, fits, plus, Text};
use crate::rows::{find, lend, lookup, opt_str, rows};
use crate::tables::{Allocation, Invoice, ReadModel, Return, ReturnLine, Tables};
use crate::text::{dec, decimal, decimal_wide, same};
use vstd::prelude::*;
use vstd::string::*;

verus! {

/// Whether a rule is met, or the refusal.
pub type Verdict = Result<(), CommandError<Seq<char>>>;

pub open spec fn qty_positive(qty: i64) -> Verdict {
    if qty > 0 {
        Ok(())
    } else {
        Err(refusal("qty must be > 0, got "@ + dec(qty as int)))
    }
}

/// A quantity has to be positive.
pub fn check_qty_positive(qty: i64) -> (r: Result<(), CommandError>)
    ensures
        judged(r) == qty_positive(qty),
{
    if qty > 0 {
        Ok(())
    } else {
        Err(reject("qty must be > 0, got ".to_owned().concat(decimal(qty).as_str())))
    }
}

pub open spec fn amount_non_negative(amount: i64) -> Verdict {
    if amount >= 0 {
        Ok(())
    } else {
        Err(refusal("amount must be >= 0, got "@ + dec(amount as int)))
    }
}

/// A price or cost must not be negative.
pub fn check_amount_non_negative(amount: i64) -> (r: Result<(), CommandError>)
    ensures
        judged(r) == amount_non_negative(amount),
{
    if amount >= 0 {
        Ok(())
    } else {
        Err(reject("amount must be >= 0, got ".to_owned().concat(decimal(amount).as_str())))
    }
}

pub open spec fn amount_positive(amount: i64) -> Verdict {
    if amount > 0 {
        Ok(())
    } else {
        Err(refusal("amount must be > 0, got "@ + dec(amount as int)))
    }
}

/// An amount of money that moves has to be positive.
pub fn check_amount_positive(amount: i64) -> (r: Result<(), CommandError>)
    ensures
        judged(r) == amount_positive(amount),
{
    if amount > 0 {
        Ok(())
    } else {
        Err(reject("amount must be > 0, got ".to_owned().concat(decimal(amount).as_str())))
    }
}

pub open spec fn at_least_one(n: nat) -> Verdict {
    if n > 0 {
        Ok(())
    } else {
        Err(refusal("event must have >= 1 line"@))
    }
}

/// A command with lines has to have one.
pub fn check_at_least_one_line<T>(lines: &[T]) -> (r: Result<(), CommandError>)
    ensures
        judged(r) == at_least_one(lines@.len()),
{
    if lines.len() == 0 {
        Err(reject("event must have >= 1 line".to_owned()))
    } else {
        Ok(())
    }
}

pub open spec fn terms_valid(terms: Text) -> Verdict {
    if terms == "cash"@ || terms == "credit"@ {
        Ok(())
    } else {
        Err(refusal("invalid terms: "@ + terms))
    }
}

/// Trade is for cash or on credit.
pub fn check_terms(terms: &str) -> (r: Result<(), CommandError>)
    ensures
        judged(r) == terms_valid(terms@),
{
    if same(terms, "cash") || same(terms, "credit") {
        Ok(())
    } else {
        Err(reject("invalid terms: ".to_owned().concat(terms)))
    }
}

// ---- lots ----

/// What one command claims of each lot, so that its lines are judged together.
#[derive(Debug)]
pub struct LotDemand {
    pub claimed: Vec<(String, i64)>,
}

impl View for LotDemand {
    type V = Map<Seq<char>, i64>;

    open spec fn view(&self) -> Map<Seq<char>, i64> {
        record_of(pairs(self.claimed@))
    }
}

pub open spec fn unknown_lot(lot: Text) -> Refusal {
    refusal("unknown lot: "@ + lot)
}

/// What the command claimed of a lot so far.
pub open spec fn claim(d: Map<Text, i64>, lot: Text) -> i64 {
    if d.contains_key(lot) {
        d[lot]
    } else {
        0
    }
}

/// What is left of a lot beyond the command's claims.
pub open spec fn available(m: ReadModel, d: Map<Text, i64>, lot: Text) -> Result<i64, Refusal> {
    match lookup(m.lots, lot) {
        None => Err(unknown_lot(lot)),
        Some(l) => if fits(l.qty_remaining - claim(d, lot)) {
            Ok((l.qty_remaining - claim(d, lot)) as i64)
        } else {
            Err(overflow())
        },
    }
}

/// The claims with `qty` more of a lot, refused where that is more than is left.
pub open spec fn taken(m: ReadModel, d: Map<Text, i64>, lot: Text, qty: i64) -> Result<
    Map<Text, i64>,
    Refusal,
> {
    match lookup(m.lots, lot) {
        None => Err(unknown_lot(lot)),
        Some(l) => {
            let prior = claim(d, lot);
            if prior + qty > l.qty_remaining {
                Err(
                    refusal(
                        "oversell: lot "@ + lot + " has "@ + dec(l.qty_remaining as int)
                            + " remaining, command already claims "@ + dec(prior as int)
                            + ", cannot take "@ + dec(qty as int) + " more"@,
                    ),
                )
            } else if !fits(prior + qty) {
                Err(overflow())
            } else {
                Ok(d.insert(lot, (prior + qty) as i64))
            }
        },
    }
}

/// The restorations with `qty` more to a lot, refused where the lot would hold more
/// than it received.
pub open spec fn restored(m: ReadModel, d: Map<Text, i64>, lot: Text, qty: i64) -> Result<
    Map<Text, i64>,
    Refusal,
> {
    match lookup(m.lots, lot) {
        None => Err(unknown_lot(lot)),
        Some(l) => {
            let headroom = l.qty_received - l.qty_remaining;
            let prior = claim(d, lot);
            if prior + qty > headroom {
                Err(
                    refusal(
                        "over-restore: lot "@ + lot + " headroom "@ + dec(headroom)
                            + ", command already restores "@ + dec(prior as int)
                            + ", cannot restore "@ + dec(qty as int) + " more"@,
                    ),
                )
            } else if !fits(prior + qty) {
                Err(overflow())
            } else {
                Ok(d.insert(lot, (prior + qty) as i64))
            }
        },
    }
}

impl LotDemand {
    /// No claims.
    pub fn new() -> (r: LotDemand)
        ensures
            r@ == Map::<Seq<char>, i64>::empty(),
    {
        LotDemand { claimed: Vec::new() }
    }

    fn claim(&self, lot_id: &str) -> (r: i64)
        ensures
            r == claim(self@, lot_id@),
    {
        match fetch(&self.claimed, lot_id) {
            Some(q) => *q,
            None => 0,
        }
    }

    /// What is left of a lot beyond the command's claims.
    pub fn available(&self, t: &Tables, lot_id: &str) -> (r: Result<i64, CommandError>)
        ensures
            match r {
                Ok(n) => available(t@, self@, lot_id@) == Ok::<i64, Refusal>(n),
                Err(e) => available(t@, self@, lot_id@) == Err::<i64, Refusal>(e@),
            },
    {
        let i: usize = find_lot(t, lot_id)?;
        match t.lots[i].qty_remaining.checked_sub(self.claim(lot_id)) {
            Some(n) => Ok(n),
            None => Err(CommandError::Db(DbError::Overflow)),
        }
    }

    /// Claims `qty` more of a lot.
    pub fn take(&mut self, t: &Tables, lot_id: &str, qty: i64) -> (r: Result<(), CommandError>)
        ensures
            match r {
                Ok(_) => taken(t@, old(self)@, lot_id@, qty) == Ok::<Map<Text, i64>, Refusal>(
                    final(self)@,
                ),
                Err(e) => taken(t@, old(self)@, lot_id@, qty) == Err::<Map<Text, i64>, Refusal>(
                    e@,
                ) && *final(self) == *old(self),
            },
    {
        let i: usize = find_lot(t, lot_id)?;
        let rem: i64 = t.lots[i].qty_remaining;
        let prior: i64 = self.claim(lot_id);
        let cumulative: i128 = prior as i128 + qty as i128;
        if cumulative > rem as i128 {
            return Err(
                reject(
                    "oversell: lot ".to_owned().concat(lot_id).concat(" has ").concat(
                        decimal(rem).as_str(),
                    ).concat(" remaining, command already claims ").concat(
                        decimal(prior).as_str(),
                    ).concat(", cannot take ").concat(decimal(qty).as_str()).concat(" more"),
                ),
            );
        }
        if cumulative < i64::MIN as i128 {
            return Err(CommandError::Db(DbError::Overflow));
        }
        put(&mut self.claimed, lot_id, cumulative as i64);
        Ok(())
    }

    /// Restores `qty` more to a lot.
    pub fn restore(&mut self, t: &Tables, lot_id: &str, qty: i64) -> (r: Result<(), CommandError>)
        ensures
            match r {
                Ok(_) => restored(t@, old(self)@, lot_id@, qty) == Ok::<Map<Text, i64>, Refusal>(
                    final(self)@,
                ),
                Err(e) => restored(t@, old(self)@, lot_id@, qty) == Err::<
                    Map<Text, i64>,
                    Refusal,
                >(e@) && *final(self) == *old(self),
            },
    {
        let i: usize = find_lot(t, lot_id)?;
        let headroom: i128 = t.lots[i].qty_received as i128 - t.lots[i].qty_remaining as i128;
        let prior: i64 = self.claim(lot_id);
        let cumulative: i128 = prior as i128 + qty as i128;
        if cumulative > headroom {
            return Err(
                reject(
                    "over-restore: lot ".to_owned().concat(lot_id).concat(" headroom ").concat(
                        decimal_wide(headroom).as_str(),
                    ).concat(", command already restores ").concat(
                        decimal(prior).as_str(),
                    ).concat(", cannot restore ").concat(decimal(qty).as_str()).concat(" more"),
                ),
            );
        }
        if cumulative < i64::MIN as i128 || cumulative > i64::MAX as i128 {
            return Err(CommandError::Db(DbError::Overflow));
        }
        put(&mut self.claimed, lot_id, cumulative as i64);
        Ok(())
    }
}

/// Finds a lot that has to exist.
pub fn find_lot(t: &Tables, lot_id: &str) -> (r: Result<usize, CommandError>)
    ensures
        match r {
            Ok(i) => i < t.lots@.len() && lookup(t@.lots, lot_id@) == Some(t.lots@[i as int]@),
            Err(e) => lookup(t@.lots, lot_id@) is None && e@ == unknown_lot(lot_id@),
        },
{
    match find(&t.lots, lot_id) {
        Some(i) => Ok(i),
        None => Err(reject("unknown lot: ".to_owned().concat(lot_id))),
    }
}

pub open spec fn lot_item_match(m: ReadModel, lot: Text, item: Text) -> Verdict {
    match lookup(m.lots, lot) {
        None => Err(unknown_lot(lot)),
        Some(l) => if l.item_id != item {
            Err(
                refusal(
                    "lot "@ + lot + " belongs to item "@ + l.item_id + ", not "@ + item,
                ),
            )
        } else {
            Ok(())
        },
    }
}

/// A lot has to hold the item that a line names.
pub fn check_lot_item_match(t: &Tables, lot_id: &str, expected_item_id: &str) -> (r: Result<
    (),
    CommandError,
>)
    ensures
        judged(r) == lot_item_match(t@, lot_id@, expected_item_id@),
{
    let i: usize = find_lot(t, lot_id)?;
    let item = t.lots[i].item_id.as_str();
    if !same(item, expected_item_id) {
        return Err(
            reject(
                "lot ".to_owned().concat(lot_id).concat(" belongs to item ").concat(item).concat(
                    ", not ",
                ).concat(expected_item_id),
            ),
        );
    }
    Ok(())
}

// ---- invoices ----

/// The rows of a named invoice table.
pub open spec fn invoices(m: ReadModel, table: Text) -> Option<Seq<Invoice<Text>>> {
    if table == "sales"@ {
        Some(m.sales)
    } else if table == "purchases"@ {
        Some(m.purchases)
    } else {
        None
    }
}

fn invoice_table<'a>(t: &'a Tables, table: &str) -> (r: Option<&'a Vec<Invoice>>)
    ensures
        match r {
            Some(v) => invoices(t@, table@) == Some(rows(v@)),
            None => invoices(t@, table@) is None,
        },
{
    if same(table, "sales") {
        Some(&t.sales)
    } else if same(table, "purchases") {
        Some(&t.purchases)
    } else {
        None
    }
}

pub open spec fn no_such_table(table: Text) -> Refusal {
    CommandError::Db(DbError::Refused("no such table: "@ + table))
}

pub open spec fn invoice_not_reversed(m: ReadModel, table: Text, id: Text) -> Verdict {
    match invoices(m, table) {
        None => Err(no_such_table(table)),
        Some(t) => match lookup(t, id) {
            None => Err(refusal("unknown "@ + table + " invoice: "@ + id)),
            Some(i) => if i.reversed {
                Err(
                    refusal(
                        "cannot return against reversed (voided) "@ + table + " invoice "@ + id,
                    ),
                )
            } else {
                Ok(())
            },
        },
    }
}

/// A return needs an invoice that exists and was not reversed.
pub fn check_invoice_not_reversed(t: &Tables, table: &str, invoice_id: &str) -> (r: Result<
    (),
    CommandError,
>)
    ensures
        judged(r) == invoice_not_reversed(t@, table@, invoice_id@),
{
    match invoice_table(t, table) {
        None => Err(
            CommandError::Db(DbError::Refused("no such table: ".to_owned().concat(table))),
        ),
        Some(v) => match find(v, invoice_id) {
            None => Err(
                reject(
                    "unknown ".to_owned().concat(table).concat(" invoice: ").concat(invoice_id),
                ),
            ),
            Some(i) => if v[i].reversed {
                Err(
                    reject(
                        "cannot return against reversed (voided) ".to_owned().concat(
                            table,
                        ).concat(" invoice ").concat(invoice_id),
                    ),
                )
            } else {
                Ok(())
            },
        },
    }
}

/// How many units of a lot a sale consumed, counted over the first `n` consumption
/// rows.
pub open spec fn consumed(m: ReadModel, sale: Text, lot: Text, n: int) -> Option<i64>
    decreases n,
{
    if n <= 0 {
        Some(0)
    } else {
        let c = m.consumptions[n - 1];
        if c.lot_id == lot && consumed_by(m, c, sale) {
            plus(consumed(m, sale, lot, n - 1), Some(c.qty_taken))
        } else {
            consumed(m, sale, lot, n - 1)
        }
    }
}

/// Whether a consumption row belongs to a sale.
pub fn is_consumed_by(t: &Tables, i: usize, sale: &str) -> (r: bool)
    requires
        i < t.consumptions@.len(),
    ensures
        r == consumed_by(t@, t@.consumptions[i as int], sale@),
{
    match find(&t.sale_lines, t.consumptions[i].sale_line_id.as_str()) {
        Some(k) => same(t.sale_lines[k].sale_id.as_str(), sale),
        None => false,
    }
}

fn count_consumed(t: &Tables, sale: &str, lot: &str) -> (r: Option<i64>)
    ensures
        r == consumed(t@, sale@, lot@, t@.consumptions.len() as int),
{
    let mut sum: Option<i64> = Some(0);
    let mut i: usize = 0;
    while i < t.consumptions.len()
        invariant
            i <= t.consumptions@.len(),
            sum == consumed(t@, sale@, lot@, i as int),
        decreases t.consumptions@.len() - i,
    {
        assert(t@.consumptions[i as int] == t.consumptions@[i as int]@);
        if same(t.consumptions[i].lot_id.as_str(), lot) && is_consumed_by(t, i, sale) {
            sum = match sum {
                Some(s) => s.checked_add(t.consumptions[i].qty_taken),
                None => None,
            };
        }
        i += 1;
    }
    sum
}

pub open spec fn sale_return_over_restore(
    m: ReadModel,
    sale: Text,
    lot: Text,
    qty: i64,
) -> Verdict {
    match consumed(m, sale, lot, m.consumptions.len() as int) {
        None => Err(overflow()),
        Some(c) => if c == 0 {
            Err(refusal("sale "@ + sale + " did not consume lot "@ + lot))
        } else if qty > c {
            Err(
                refusal(
                    "over-restore: sale consumed "@ + dec(c as int) + " from lot "@ + lot
                        + ", cannot return "@ + dec(qty as int),
                ),
            )
        } else {
            match lookup(m.lots, lot) {
                None => Err(unknown_lot(lot)),
                Some(l) => if l.qty_remaining + qty > l.qty_received {
                    Err(
                        refusal(
                            "over-restore: lot "@ + lot + " has "@ + dec(l.qty_remaining as int)
                                + "/"@ + dec(l.qty_received as int) + ", returning "@ + dec(
                                qty as int,
                            ) + " would exceed qty_received"@,
                        ),
                    )
                } else {
                    Ok(())
                },
            }
        },
    }
}

/// A sale return restores no more than the sale took and the lot once received.
pub fn check_sale_return_over_restore(
    t: &Tables,
    original_sale_id: &str,
    lot_id: &str,
    return_qty: i64,
) -> (r: Result<(), CommandError>)
    ensures
        judged(r) == sale_return_over_restore(t@, original_sale_id@, lot_id@, return_qty),
{
    let c: i64 = match count_consumed(t, original_sale_id, lot_id) {
        Some(c) => c,
        None => {
            return Err(CommandError::Db(DbError::Overflow));
        },
    };
    if c == 0 {
        return Err(
            reject(
                "sale ".to_owned().concat(original_sale_id).concat(" did not consume lot ").concat(
                    lot_id,
                ),
            ),
        );
    }
    if return_qty > c {
        return Err(
            reject(
                "over-restore: sale consumed ".to_owned().concat(decimal(c).as_str()).concat(
                    " from lot ",
                ).concat(lot_id).concat(", cannot return ").concat(decimal(return_qty).as_str()),
            ),
        );
    }
    let i: usize = find_lot(t, lot_id)?;
    let remaining: i64 = t.lots[i].qty_remaining;
    let received: i64 = t.lots[i].qty_received;
    if remaining as i128 + return_qty as i128 > received as i128 {
        return Err(
            reject(
                "over-restore: lot ".to_owned().concat(lot_id).concat(" has ").concat(
                    decimal(remaining).as_str(),
                ).concat("/").concat(decimal(received).as_str()).concat(", returning ").concat(
                    decimal(return_qty).as_str(),
                ).concat(" would exceed qty_received"),
            ),
        );
    }
    Ok(())
}

/// The outstanding amount and the party of an invoice that a payment may target.
pub open spec fn invoice_row(m: ReadModel, id: Text, target_type: Text) -> Result<
    Option<(i64, Text)>,
    Refusal,
> {
    if target_type == "sale"@ || target_type == "purchase"@ {
        let row = if target_type == "sale"@ {
            lookup(m.sales, id)
        } else {
            lookup(m.purchases, id)
        };
        match row {
            None => Ok(None),
            Some(i) => match i.party_id {
                Some(p) => Ok(Some((i.outstanding_minor, p))),
                None => Err(
                    CommandError::Db(
                        DbError::Null(
                            1,
                            if target_type == "sale"@ {
                                "customer_id"@
                            } else {
                                "supplier_id"@
                            },
                        ),
                    ),
                ),
            },
        }
    } else {
        Err(refusal("invalid target_type: "@ + target_type))
    }
}

fn find_invoice<'a>(t: &'a Tables, target_id: &str, target_type: &str) -> (r: Result<
    Option<(i64, &'a str)>,
    CommandError,
>)
    ensures
        match r {
            Ok(Some(x)) => invoice_row(t@, target_id@, target_type@) == Ok::<
                Option<(i64, Text)>,
                Refusal,
            >(Some((x.0, x.1@))),
            Ok(None) => invoice_row(t@, target_id@, target_type@) == Ok::<
                Option<(i64, Text)>,
                Refusal,
            >(None),
            Err(e) => invoice_row(t@, target_id@, target_type@) == Err::<
                Option<(i64, Text)>,
                Refusal,
            >(e@),
        },
{
    let sale = same(target_type, "sale");
    if !sale && !same(target_type, "purchase") {
        return Err(reject("invalid target_type: ".to_owned().concat(target_type)));
    }
    let v = if sale {
        &t.sales
    } else {
        &t.purchases
    };
    match find(v, target_id) {
        None => Ok(None),
        Some(i) => match lend(&v[i].party_id) {
            Some(p) => Ok(Some((v[i].outstanding_minor, p))),
            None => Err(
                CommandError::Db(
                    DbError::Null(
                        1,
                        if sale {
                            "customer_id".to_owned()
                        } else {
                            "supplier_id".to_owned()
                        },
                    ),
                ),
            ),
        },
    }
}

pub open spec fn invoice_over_allocation(
    m: ReadModel,
    id: Text,
    target_type: Text,
    amount: i64,
) -> Verdict {
    match invoice_row(m, id, target_type) {
        Err(e) => Err(e),
        Ok(None) => Err(refusal("unknown "@ + target_type + ": "@ + id)),
        Ok(Some((outstanding, _))) => if amount > outstanding {
            Err(
                refusal(
                    "over-allocation: "@ + target_type + " "@ + id + " outstanding "@ + dec(
                        outstanding as int,
                    ) + ", cannot allocate "@ + dec(amount as int),
                ),
            )
        } else {
            Ok(())
        },
    }
}

/// An allocation takes no more than is outstanding.
pub fn check_invoice_over_allocation(
    t: &Tables,
    target_id: &str,
    target_type: &str,
    amount: i64,
) -> (r: Result<(), CommandError>)
    ensures
        judged(r) == invoice_over_allocation(t@, target_id@, target_type@, amount),
{
    match find_invoice(t, target_id, target_type)? {
        None => Err(
            reject("unknown ".to_owned().concat(target_type).concat(": ").concat(target_id)),
        ),
        Some((outstanding, _owner)) => if amount > outstanding {
            Err(
                reject(
                    "over-allocation: ".to_owned().concat(target_type).concat(" ").concat(
                        target_id,
                    ).concat(" outstanding ").concat(decimal(outstanding).as_str()).concat(
                        ", cannot allocate ",
                    ).concat(decimal(amount).as_str()),
                ),
            )
        } else {
            Ok(())
        },
    }
}

/// Allocations by value: target, kind of target, amount.
pub open spec fn targets(v: Seq<(String, String, i64)>) -> Seq<(Text, Text, i64)> {
    Seq::new(v.len(), |i: int| (v[i].0@, v[i].1@, v[i].2))
}

/// The sum of the allocations to one target.
pub open spec fn target_total(s: Seq<(Text, Text, i64)>, id: Text, target_type: Text) -> Option<i64>
    decreases s.len(),
{
    if s.len() == 0 {
        Some(0)
    } else if s.last().0 == id && s.last().1 == target_type {
        plus(target_total(s.drop_last(), id, target_type), Some(s.last().2))
    } else {
        target_total(s.drop_last(), id, target_type)
    }
}

/// A target occurs among the first `n` allocations.
pub open spec fn targeted_before(s: Seq<(Text, Text, i64)>, id: Text, ty: Text, n: int) -> bool {
    exists|j: int| 0 <= j < n && (#[trigger] s[j]).0 == id && s[j].1 == ty
}

/// From allocation `i` on, every target whose first allocation this is takes no more
/// in all than is outstanding on it.
pub open spec fn over_allocation_from(m: ReadModel, s: Seq<(Text, Text, i64)>, i: int) -> Verdict
    decreases s.len() - i,
{
    if i >= s.len() {
        Ok(())
    } else if targeted_before(s, s[i].0, s[i].1, i) {
        over_allocation_from(m, s, i + 1)
    } else {
        match target_total(s, s[i].0, s[i].1) {
            None => Err(overflow()),
            Some(total) => match invoice_over_allocation(m, s[i].0, s[i].1, total) {
                Err(e) => Err(e),
                Ok(_) => over_allocation_from(m, s, i + 1),
            },
        }
    }
}

/// The allocations to one invoice together take no more than is outstanding on it.
pub fn check_invoice_over_allocation_aggregated(
    t: &Tables,
    allocs: &Vec<(String, String, i64)>,
) -> (r: Result<(), CommandError>)
    ensures
        judged(r) == over_allocation_from(t@, targets(allocs@), 0),
{
    let ghost s = targets(allocs@);
    let mut i: usize = 0;
    while i < allocs.len()
        invariant
            i <= allocs@.len(),
            s == targets(allocs@),
            over_allocation_from(t@, s, i as int) == over_allocation_from(t@, s, 0),
        decreases allocs@.len() - i,
    {
        let id = allocs[i].0.as_str();
        let ty = allocs[i].1.as_str();
        assert(s[i as int] == (id@, ty@, allocs@[i as int].2));
        let mut seen = false;
        let mut j: usize = 0;
        while j < i
            invariant
                j <= i < allocs@.len(),
                s == targets(allocs@),
                seen == targeted_before(s, id@, ty@, j as int),
            decreases i - j,
        {
            assert(s[j as int] == (allocs@[j as int].0@, allocs@[j as int].1@, allocs@[j as int].2));
            if same(allocs[j].0.as_str(), id) && same(allocs[j].1.as_str(), ty) {
                seen = true;
            }
            j += 1;
        }
        if !seen {
            let mut total: Option<i64> = Some(0);
            let mut k: usize = 0;
            while k < allocs.len()
                invariant
                    k <= allocs@.len(),
                    s == targets(allocs@),
                    total == target_total(s.take(k as int), id@, ty@),
                decreases allocs@.len() - k,
            {
                assert(s.take(k + 1).drop_last() =~= s.take(k as int));
                assert(s.take(k + 1).last() == s[k as int]);
                if same(allocs[k].0.as_str(), id) && same(allocs[k].1.as_str(), ty) {
                    total = match total {
                        Some(v) => v.checked_add(allocs[k].2),
                        None => None,
                    };
                }
                k += 1;
            }
            assert(s.take(s.len() as int) =~= s);
            match total {
                None => {
                    return Err(CommandError::Db(DbError::Overflow));
                },
                Some(v) => {
                    check_invoice_over_allocation(t, id, ty, v)?;
                },
            }
        }
        i += 1;
    }
    Ok(())
}

/// The sum of amounts.
pub open spec fn amounts_total(s: Seq<i64>) -> Option<i64>
    decreases s.len(),
{
    if s.len() == 0 {
        Some(0)
    } else {
        plus(amounts_total(s.drop_last()), Some(s.last()))
    }
}

/// Adds up amounts.
pub fn total_of(amounts: &[i64]) -> (r: Option<i64>)
    ensures
        r == amounts_total(amounts@),
{
    let mut total: Option<i64> = Some(0);
    let mut i: usize = 0;
    while i < amounts.len()
        invariant
            i <= amounts@.len(),
            total == amounts_total(amounts@.take(i as int)),
        decreases amounts@.len() - i,
    {
        assert(amounts@.take(i + 1).drop_last() =~= amounts@.take(i as int));
        total = match total {
            Some(v) => v.checked_add(amounts[i]),
            None => None,
        };
        i += 1;
    }
    assert(amounts@.take(amounts@.len() as int) =~= amounts@);
    total
}

pub open spec fn payment_over_allocation(payment: i64, amounts: Seq<i64>) -> Verdict {
    match amounts_total(amounts) {
        None => Err(overflow()),
        Some(sum) => if sum > payment {
            Err(
                refusal(
                    "payment over-allocation: allocations sum "@ + dec(sum as int)
                        + " exceed payment "@ + dec(payment as int),
                ),
            )
        } else {
            Ok(())
        },
    }
}

/// The allocations of a payment are no more than the payment.
pub fn check_payment_over_allocation(payment_amount: i64, alloc_amounts: &[i64]) -> (r: Result<
    (),
    CommandError,
>)
    ensures
        judged(r) == payment_over_allocation(payment_amount, alloc_amounts@),
{
    match total_of(alloc_amounts) {
        None => Err(CommandError::Db(DbError::Overflow)),
        Some(sum) => if sum > payment_amount {
            Err(
                reject(
                    "payment over-allocation: allocations sum ".to_owned().concat(
                        decimal(sum).as_str(),
                    ).concat(" exceed payment ").concat(decimal(payment_amount).as_str()),
                ),
            )
        } else {
            Ok(())
        },
    }
}

pub open spec fn party_ownership(
    m: ReadModel,
    party: Text,
    direction: Text,
    id: Text,
    target_type: Text,
) -> Verdict {
    if direction != "in"@ && direction != "out"@ {
        Err(refusal("invalid direction: "@ + direction))
    } else if target_type != (if direction == "in"@ {
        "sale"@
    } else {
        "purchase"@
    }) {
        Err(refusal("direction '"@ + direction + "' cannot target a "@ + target_type))
    } else {
        match invoice_row(m, id, target_type) {
            Err(e) => Err(e),
            Ok(None) => Err(refusal("unknown "@ + target_type + ": "@ + id)),
            Ok(Some((_, owner))) => if owner != party {
                Err(
                    refusal(
                        target_type + " "@ + id + " belongs to "@ + owner
                            + ", not paying party "@ + party,
                    ),
                )
            } else {
                Ok(())
            },
        }
    }
}

/// A payment settles invoices of the paying party only, and of its direction.
pub fn check_allocation_party_ownership(
    t: &Tables,
    party_id: &str,
    direction: &str,
    target_id: &str,
    target_type: &str,
) -> (r: Result<(), CommandError>)
    ensures
        judged(r) == party_ownership(t@, party_id@, direction@, target_id@, target_type@),
{
    let incoming = same(direction, "in");
    if !incoming && !same(direction, "out") {
        return Err(reject("invalid direction: ".to_owned().concat(direction)));
    }
    let expected = if incoming {
        "sale"
    } else {
        "purchase"
    };
    if !same(target_type, expected) {
        return Err(
            reject(
                "direction '".to_owned().concat(direction).concat("' cannot target a ").concat(
                    target_type,
                ),
            ),
        );
    }
    match find_invoice(t, target_id, target_type)? {
        None => Err(
            reject("unknown ".to_owned().concat(target_type).concat(": ").concat(target_id)),
        ),
        Some((_outstanding, owner)) => if !same(owner, party_id) {
            Err(
                reject(
                    target_type.to_owned().concat(" ").concat(target_id).concat(
                        " belongs to ",
                    ).concat(owner).concat(", not paying party ").concat(party_id),
                ),
            )
        } else {
            Ok(())
        },
    }
}

/// The credit that is held for a party in a direction.
pub open spec fn held_credit(m: ReadModel, party: Text, direction: Text) -> i64 {
    match lookup(m.balances, party) {
        None => 0,
        Some(b) => if direction == "in"@ {
            b.unallocated_cr_minor
        } else {
            b.unallocated_dr_minor
        },
    }
}

pub open spec fn credit_overdraw(
    m: ReadModel,
    party: Text,
    direction: Text,
    total: i64,
) -> Verdict {
    if direction != "in"@ && direction != "out"@ {
        Err(refusal("invalid direction: "@ + direction))
    } else if total > held_credit(m, party, direction) {
        Err(
            refusal(
                "credit overdraw: party "@ + party + " holds "@ + dec(
                    held_credit(m, party, direction) as int,
                ) + ", cannot allocate "@ + dec(total as int),
            ),
        )
    } else {
        Ok(())
    }
}

/// Allocating held credit uses no more than is held.
pub fn check_credit_overdraw(t: &Tables, party_id: &str, direction: &str, total_alloc: i64) -> (r:
    Result<(), CommandError>)
    ensures
        judged(r) == credit_overdraw(t@, party_id@, direction@, total_alloc),
{
    let incoming = same(direction, "in");
    if !incoming && !same(direction, "out") {
        return Err(reject("invalid direction: ".to_owned().concat(direction)));
    }
    let held: i64 = match find(&t.balances, party_id) {
        None => 0,
        Some(i) => if incoming {
            t.balances[i].unallocated_cr_minor
        } else {
            t.balances[i].unallocated_dr_minor
        },
    };
    if total_alloc > held {
        return Err(
            reject(
                "credit overdraw: party ".to_owned().concat(party_id).concat(" holds ").concat(
                    decimal(held).as_str(),
                ).concat(", cannot allocate ").concat(decimal(total_alloc).as_str()),
            ),
        );
    }
    Ok(())
}

// ---- parties and accounts ----

/// The party is one of the two that are seeded for cash trade.
pub open spec fn is_seeded(party: Text) -> bool {
    party == WALKIN_PARTY_ID@ || party == ANON_SUPPLIER_PARTY_ID@
}

/// Whether the party is seeded for cash trade.
pub fn is_seeded_party(party_id: &str) -> (r: bool)
    ensures
        r == is_seeded(party_id@),
{
    same(party_id, WALKIN_PARTY_ID) || same(party_id, ANON_SUPPLIER_PARTY_ID)
}

pub open spec fn seeded_party_cash_only(party: Text, terms: Text) -> Verdict {
    if terms == "credit"@ && is_seeded(party) {
        Err(
            refusal(
                party
                    + " is a built-in party for cash trade and cannot be used on credit; record the counterparty first"@,
            ),
        )
    } else {
        Ok(())
    }
}

/// The seeded walk-in customer and anonymous supplier stand in for counterparties
/// the business never recorded, so they cannot carry a balance: a receivable
/// against "Walk-in Customer" names nobody to collect from. Cash trade with them
/// is the whole point; credit trade is always a mistake.
pub fn check_seeded_party_cash_only(party_id: &str, terms: &str) -> (r: Result<(), CommandError>)
    ensures
        judged(r) == seeded_party_cash_only(party_id@, terms@),
{
    if same(terms, "credit") && is_seeded_party(party_id) {
        return Err(
            reject(
                party_id.to_owned().concat(
                    " is a built-in party for cash trade and cannot be used on credit; record the counterparty first",
                ),
            ),
        );
    }
    Ok(())
}

pub open spec fn seeded_party_takes_no_payment(party: Text) -> Verdict {
    if is_seeded(party) {
        Err(
            refusal(
                party
                    + " is a built-in party for cash trade and has no balance to settle; record the counterparty first"@,
            ),
        )
    } else {
        Ok(())
    }
}

/// A seeded party carries no balance, so no payment can settle one.
pub fn check_seeded_party_takes_no_payment(party_id: &str) -> (r: Result<(), CommandError>)
    ensures
        judged(r) == seeded_party_takes_no_payment(party_id@),
{
    if is_seeded_party(party_id) {
        return Err(
            reject(
                party_id.to_owned().concat(
                    " is a built-in party for cash trade and has no balance to settle; record the counterparty first",
                ),
            ),
        );
    }
    Ok(())
}

/// The kind of a party, where it exists.
pub open spec fn party_kind(m: ReadModel, party: Text) -> Result<Option<Text>, Refusal> {
    match lookup(m.parties, party) {
        None => Ok(None),
        Some(p) => match opt_txt(p.doc, "kind"@) {
            Some(k) => Ok(Some(k)),
            None => Err(CommandError::Db(DbError::Null(0, "kind"@))),
        },
    }
}

/// Looks up the kind of a party.
pub fn find_party_kind<'a>(t: &'a Tables, party_id: &str) -> (r: Result<
    Option<&'a str>,
    CommandError,
>)
    ensures
        match r {
            Ok(k) => party_kind(t@, party_id@) == Ok::<Option<Text>, Refusal>(opt_str(k)),
            Err(e) => party_kind(t@, party_id@) == Err::<Option<Text>, Refusal>(e@),
        },
{
    match find(&t.parties, party_id) {
        None => Ok(None),
        Some(i) => match pos(&t.parties[i].doc, "kind") {
            Some(k) => Ok(Some(k)),
            None => Err(CommandError::Db(DbError::Null(0, "kind".to_owned()))),
        },
    }
}

pub open spec fn self_transfer(from: Text, to: Text) -> Verdict {
    if from == to {
        Err(refusal("self-transfer: from == to ("@ + from + ")"@))
    } else {
        Ok(())
    }
}

/// A transfer goes to another account.
pub fn check_self_transfer(from: &str, to: &str) -> (r: Result<(), CommandError>)
    ensures
        judged(r) == self_transfer(from@, to@),
{
    if same(from, to) {
        Err(reject("self-transfer: from == to (".to_owned().concat(from).concat(")")))
    } else {
        Ok(())
    }
}

pub open spec fn expense_account_type(m: ReadModel, account: Text) -> Verdict {
    match lookup(m.accounts, account) {
        None => Err(refusal("unknown account: "@ + account)),
        Some(a) => match opt_txt(a.doc, "type"@) {
            None => Err(CommandError::Db(DbError::Null(0, "type"@))),
            Some(ty) => if ty == "expense"@ {
                Ok(())
            } else {
                Err(
                    refusal(
                        "account "@ + account + " is type '"@ + ty + "', expected 'expense'"@,
                    ),
                )
            },
        },
    }
}

/// An expense is booked to an expense account.
pub fn check_expense_account_type(t: &Tables, account_id: &str) -> (r: Result<(), CommandError>)
    ensures
        judged(r) == expense_account_type(t@, account_id@),
{
    match find(&t.accounts, account_id) {
        None => Err(reject("unknown account: ".to_owned().concat(account_id))),
        Some(i) => match pos(&t.accounts[i].doc, "type") {
            None => Err(CommandError::Db(DbError::Null(0, "type".to_owned()))),
            Some(ty) => if same(ty, "expense") {
                Ok(())
            } else {
                Err(
                    reject(
                        "account ".to_owned().concat(account_id).concat(" is type '").concat(
                            ty,
                        ).concat("', expected 'expense'"),
                    ),
                )
            },
        },
    }
}

// ---- reversals ----

pub open spec fn reversal_legal_target(log: Seq<EventV>, id: Text) -> Verdict {
    match lookup(log, id) {
        None => Err(refusal("unknown target event: "@ + id)),
        Some(ev) => if categories(ev.event_type).contains(EventCategory::Transactional) {
            Ok(())
        } else {
            Err(
                refusal("event type '"@ + ev.event_type + "' is not a legal reversal target"@),
            )
        },
    }
}

/// Only a business transaction can be reversed.
pub fn check_reversal_legal_target(log: &Vec<LedgerEvent>, target_event_id: &str) -> (r: Result<
    (),
    CommandError,
>)
    ensures
        judged(r) == reversal_legal_target(rows(log@), target_event_id@),
{
    match find(log, target_event_id) {
        None => Err(reject("unknown target event: ".to_owned().concat(target_event_id))),
        Some(i) => {
            let ty = log[i].event_type.as_str();
            if is_transactional(ty) {
                Ok(())
            } else {
                Err(
                    reject(
                        "event type '".to_owned().concat(ty).concat(
                            "' is not a legal reversal target",
                        ),
                    ),
                )
            }
        },
    }
}

pub open spec fn not_already_reversed(log: Seq<EventV>, id: Text) -> Verdict {
    if mentioned(log, "TransactionReversed"@, "targetEventId"@, id) {
        Err(refusal("event "@ + id + " already reversed"@))
    } else {
        Ok(())
    }
}

/// A transaction is reversed once.
pub fn check_not_already_reversed(log: &Vec<LedgerEvent>, target_event_id: &str) -> (r: Result<
    (),
    CommandError,
>)
    ensures
        judged(r) == not_already_reversed(rows(log@), target_event_id@),
{
    if is_mentioned(log, "TransactionReversed", "targetEventId", target_event_id) {
        return Err(
            reject("event ".to_owned().concat(target_event_id).concat(" already reversed")),
        );
    }
    Ok(())
}

pub open spec fn lot_source_void(m: ReadModel, event: Text) -> Verdict {
    if exists|i: int|
        0 <= i < m.lots.len() && (#[trigger] m.lots[i]).source_event_id == event
            && m.lots[i].qty_remaining < m.lots[i].qty_received {
        Err(refusal("cannot void event "@ + event + ": lots already consumed"@))
    } else {
        Ok(())
    }
}

/// What created lots can be reversed only while they are whole.
pub fn check_lot_source_void(t: &Tables, source_event_id: &str) -> (r: Result<(), CommandError>)
    ensures
        judged(r) == lot_source_void(t@, source_event_id@),
{
    let mut i: usize = 0;
    while i < t.lots.len()
        invariant
            i <= t.lots@.len(),
            forall|j: int|
                0 <= j < i ==> !((#[trigger] t@.lots[j]).source_event_id == source_event_id@
                    && t@.lots[j].qty_remaining < t@.lots[j].qty_received),
        decreases t.lots@.len() - i,
    {
        assert(t@.lots[i as int] == t.lots@[i as int]@);
        if t.lots[i].qty_remaining < t.lots[i].qty_received && same(
            t.lots[i].source_event_id.as_str(),
            source_event_id,
        ) {
            return Err(
                reject(
                    "cannot void event ".to_owned().concat(source_event_id).concat(
                        ": lots already consumed",
                    ),
                ),
            );
        }
        i += 1;
    }
    Ok(())
}

/// Some allocation settles the invoice.
pub open spec fn has_allocation(t: Seq<Allocation<Text>>, invoice_type: Text, id: Text) -> bool {
    exists|i: int|
        0 <= i < t.len() && (#[trigger] t[i]).target_id == id && t[i].target_type == invoice_type
}

/// Some return is against the invoice.
pub open spec fn has_return(t: Seq<Return<Text>>, id: Text) -> bool {
    exists|i: int| 0 <= i < t.len() && (#[trigger] t[i]).original_id == id
}

fn is_allocated(t: &Vec<Allocation>, invoice_type: &str, id: &str) -> (r: bool)
    ensures
        r == has_allocation(rows(t@), invoice_type@, id@),
{
    let ghost s = rows(t@);
    let mut i: usize = 0;
    while i < t.len()
        invariant
            i <= t@.len(),
            s == rows(t@),
            forall|j: int|
                0 <= j < i ==> !((#[trigger] s[j]).target_id == id@ && s[j].target_type
                    == invoice_type@),
        decreases t@.len() - i,
    {
        assert(s[i as int] == t@[i as int]@);
        if same(t[i].target_id.as_str(), id) && same(t[i].target_type.as_str(), invoice_type) {
            return true;
        }
        i += 1;
    }
    false
}

fn is_returned(t: &Vec<Return>, id: &str) -> (r: bool)
    ensures
        r == has_return(rows(t@), id@),
{
    let ghost s = rows(t@);
    let mut i: usize = 0;
    while i < t.len()
        invariant
            i <= t@.len(),
            s == rows(t@),
            forall|j: int| 0 <= j < i ==> (#[trigger] s[j]).original_id != id@,
        decreases t@.len() - i,
    {
        assert(s[i as int] == t@[i as int]@);
        if same(t[i].original_id.as_str(), id) {
            return true;
        }
        i += 1;
    }
    false
}

pub open spec fn reversal_downstream(
    m: ReadModel,
    log: Seq<EventV>,
    invoice_type: Text,
    id: Text,
    payment: Option<Text>,
) -> Verdict {
    if has_allocation(m.allocations, invoice_type, id) {
        Err(refusal("cannot reverse: "@ + invoice_type + " "@ + id + " has allocations"@))
    } else if has_return(m.returns, id) {
        Err(refusal("cannot reverse: "@ + id + " has returns against it"@))
    } else {
        match payment {
            Some(p) => if mentioned(log, "PaymentAllocated"@, "paymentId"@, p) {
                Err(
                    refusal(
                        "cannot reverse payment "@ + p
                            + ": credit was drawn by a later PaymentAllocated"@,
                    ),
                )
            } else {
                Ok(())
            },
            None => Ok(()),
        }
    }
}

/// What later events build on cannot be reversed.
pub fn check_reversal_downstream(
    t: &Tables,
    log: &Vec<LedgerEvent>,
    invoice_type: &str,
    invoice_id: &str,
    payment_id: Option<&str>,
) -> (r: Result<(), CommandError>)
    ensures
        judged(r) == reversal_downstream(
            t@,
            rows(log@),
            invoice_type@,
            invoice_id@,
            opt_str(payment_id),
        ),
{
    if is_allocated(&t.allocations, invoice_type, invoice_id) {
        return Err(
            reject(
                "cannot reverse: ".to_owned().concat(invoice_type).concat(" ").concat(
                    invoice_id,
                ).concat(" has allocations"),
            ),
        );
    }
    if is_returned(&t.returns, invoice_id) {
        return Err(
            reject(
                "cannot reverse: ".to_owned().concat(invoice_id).concat(
                    " has returns against it",
                ),
            ),
        );
    }
    if let Some(p) = payment_id {
        if is_mentioned(log, "PaymentAllocated", "paymentId", p) {
            return Err(
                reject(
                    "cannot reverse payment ".to_owned().concat(p).concat(
                        ": credit was drawn by a later PaymentAllocated",
                    ),
                ),
            );
        }
    }
    Ok(())
}

/// How much a return restored to a lot, counted over some return lines.
pub open spec fn restored_to(s: Seq<ReturnLine<Text>>, return_id: Text, lot: Text) -> Option<i64>
    decreases s.len(),
{
    if s.len() == 0 {
        Some(0)
    } else if s.last().return_id == return_id && s.last().lot_id == lot {
        plus(restored_to(s.drop_last(), return_id, lot), Some(s.last().qty))
    } else {
        restored_to(s.drop_last(), return_id, lot)
    }
}

/// A return line among the first `n` is for the same lot of the return.
pub open spec fn lot_seen(s: Seq<ReturnLine<Text>>, return_id: Text, lot: Text, n: int) -> bool {
    exists|j: int| 0 <= j < n && (#[trigger] s[j]).return_id == return_id && s[j].lot_id == lot
}

/// From return line `i` on, every lot of the return still holds what was restored.
pub open spec fn reconsumed_from(m: ReadModel, return_id: Text, i: int) -> Verdict
    decreases m.return_lines.len() - i,
{
    let s = m.return_lines;
    if i >= s.len() {
        Ok(())
    } else if s[i].return_id != return_id || lot_seen(s, return_id, s[i].lot_id, i) {
        reconsumed_from(m, return_id, i + 1)
    } else {
        match lookup(m.lots, s[i].lot_id) {
            None => reconsumed_from(m, return_id, i + 1),
            Some(l) => match restored_to(s, return_id, s[i].lot_id) {
                None => Err(overflow()),
                Some(q) => if l.qty_remaining < q {
                    Err(
                        refusal(
                            "cannot reverse return "@ + return_id + ": lot "@ + s[i].lot_id
                                + " has "@ + dec(l.qty_remaining as int)
                                + " remaining but restored "@ + dec(q as int),
                        ),
                    )
                } else {
                    reconsumed_from(m, return_id, i + 1)
                },
            },
        }
    }
}

fn count_restored(t: &Vec<ReturnLine>, return_id: &str, lot: &str) -> (r: Option<i64>)
    ensures
        r == restored_to(rows(t@), return_id@, lot@),
{
    let ghost s = rows(t@);
    let mut total: Option<i64> = Some(0);
    let mut k: usize = 0;
    while k < t.len()
        invariant
            k <= t@.len(),
            s == rows(t@),
            total == restored_to(s.take(k as int), return_id@, lot@),
        decreases t@.len() - k,
    {
        assert(s.take(k + 1).drop_last() =~= s.take(k as int));
        assert(s.take(k + 1).last() == t@[k as int]@);
        if same(t[k].return_id.as_str(), return_id) && same(t[k].lot_id.as_str(), lot) {
            total = match total {
                Some(v) => v.checked_add(t[k].qty),
                None => None,
            };
        }
        k += 1;
    }
    assert(s.take(s.len() as int) =~= s);
    total
}

fn is_lot_seen(t: &Vec<ReturnLine>, return_id: &str, lot: &str, n: usize) -> (r: bool)
    requires
        n <= t@.len(),
    ensures
        r == lot_seen(rows(t@), return_id@, lot@, n as int),
{
    let ghost s = rows(t@);
    let mut j: usize = 0;
    while j < n
        invariant
            j <= n <= t@.len(),
            s == rows(t@),
            forall|k: int|
                0 <= k < j ==> !((#[trigger] s[k]).return_id == return_id@ && s[k].lot_id == lot@),
        decreases n - j,
    {
        assert(s[j as int] == t@[j as int]@);
        if same(t[j].return_id.as_str(), return_id) && same(t[j].lot_id.as_str(), lot) {
            return true;
        }
        j += 1;
    }
    false
}

/// A return can be reversed only while the lots still hold what it restored.
pub fn check_reversal_lot_restore_reconsumed(t: &Tables, return_id: &str) -> (r: Result<
    (),
    CommandError,
>)
    ensures
        judged(r) == reconsumed_from(t@, return_id@, 0),
{
    let mut i: usize = 0;
    while i < t.return_lines.len()
        invariant
            i <= t.return_lines@.len(),
            reconsumed_from(t@, return_id@, i as int) == reconsumed_from(t@, return_id@, 0),
        decreases t.return_lines@.len() - i,
    {
        assert(t@.return_lines[i as int] == t.return_lines@[i as int]@);
        let lot_id = t.return_lines[i].lot_id.as_str();
        if same(t.return_lines[i].return_id.as_str(), return_id) && !is_lot_seen(
            &t.return_lines,
            return_id,
            lot_id,
            i,
        ) {
            if let Some(k) = find(&t.lots, lot_id) {
                let remaining: i64 = t.lots[k].qty_remaining;
                match count_restored(&t.return_lines, return_id, lot_id) {
                    None => {
                        return Err(CommandError::Db(DbError::Overflow));
                    },
                    Some(q) => {
                        if remaining < q {
                            return Err(
                                reject(
                                    "cannot reverse return ".to_owned().concat(return_id).concat(
                                        ": lot ",
                                    ).concat(lot_id).concat(" has ").concat(
                                        decimal(remaining).as_str(),
                                    ).concat(" remaining but restored ").concat(
                                        decimal(q).as_str(),
                                    ),
                                ),
                            );
                        }
                    },
                }
            }
        }
        i += 1;
    }
    Ok(())
}

} // verus!
