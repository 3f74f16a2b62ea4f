//! Commands on payments.

use crate::commands::{
    carried_out, commit_event, judged, overflow, payload_of, refusal, reject, scene, CommandContext,
    CommandError, Refusal,
};
use crate::commands::guards::{
    amount_positive, amounts_total, check_allocation_party_ownership, check_amount_positive,
    check_credit_overdraw, check_invoice_over_allocation_aggregated, check_payment_over_allocation,
    check_seeded_party_takes_no_payment, credit_overdraw, find_party_kind, over_allocation_from,
    party_kind, party_ownership, payment_over_allocation, seeded_party_takes_no_payment, targets,
    total_of, Verdict,
};
use crate::error::DbError;
use crate::events::LedgerEvent;
use crate::json::{elements_of, Fields, Json, JsonV};
use crate::model::Text;
use crate::rows::{find, lookup, rows};
use crate::tables::{ReadModel, Tables};
use crate::text::same;
use vstd::prelude::*;
use vstd::string::*;

verus! {

/// The part of a payment that settles one invoice.
#[derive(Debug)]
#[verifier::ext_equal]
pub struct AllocInput<S = String> {
    pub target_id: S,
    pub target_type: S,
    pub amount_minor: i64,
}

impl View for AllocInput {
    type V = AllocInput<Seq<char>>;

    open spec fn view(&self) -> AllocInput<Seq<char>> {
        AllocInput {
            target_id: self.target_id@,
            target_type: self.target_type@,
            amount_minor: self.amount_minor,
        }
    }
}

/// The mathematical value of an allocation.
pub type AllocV = AllocInput<Seq<char>>;

/// A party that deals in one direction, or in both.
pub open spec fn kind_allowed(m: ReadModel, party: Text, kind: Text) -> Verdict {
    match party_kind(m, party) {
        Err(e) => Err(e),
        Ok(None) => Err(refusal("unknown party: "@ + party)),
        Ok(Some(k)) => if k == "both"@ || k == kind {
            Ok(())
        } else {
            Err(refusal("party "@ + party + " kind '"@ + k + "' not allowed here"@))
        },
    }
}

fn ensure_party_kind(t: &Tables, party_id: &str, kind: &str) -> (r: Result<(), CommandError>)
    ensures
        judged(r) == kind_allowed(t@, party_id@, kind@),
{
    match find_party_kind(t, party_id)? {
        None => Err(reject("unknown party: ".to_owned().concat(party_id))),
        Some(k) => if same(k, "both") || same(k, kind) {
            Ok(())
        } else {
            Err(
                reject(
                    "party ".to_owned().concat(party_id).concat(" kind '").concat(k).concat(
                        "' not allowed here",
                    ),
                ),
            )
        },
    }
}

/// Every allocation from allocation `i` on is positive and to an invoice of the party.
pub open spec fn allocations_valid(
    m: ReadModel,
    party: Text,
    direction: Text,
    allocs: Seq<AllocV>,
    i: int,
) -> Verdict
    decreases allocs.len() - i,
{
    if i >= allocs.len() {
        Ok(())
    } else {
        let a = allocs[i];
        match amount_positive(a.amount_minor) {
            Err(e) => Err(e),
            Ok(_) => match party_ownership(m, party, direction, a.target_id, a.target_type) {
                Err(e) => Err(e),
                Ok(_) => allocations_valid(m, party, direction, allocs, i + 1),
            },
        }
    }
}

/// The amounts of allocations.
pub open spec fn alloc_amounts(allocs: Seq<AllocV>) -> Seq<i64> {
    Seq::new(allocs.len(), |i: int| allocs[i].amount_minor)
}

/// The targets of allocations, with their amounts.
pub open spec fn alloc_targets(allocs: Seq<AllocV>) -> Seq<(Text, Text, i64)> {
    Seq::new(
        allocs.len(),
        |i: int| (allocs[i].target_id, allocs[i].target_type, allocs[i].amount_minor),
    )
}

/// The allocations are each valid, and together take no more of an invoice than is
/// outstanding on it.
pub open spec fn invoices_allow(
    m: ReadModel,
    party: Text,
    direction: Text,
    allocs: Seq<AllocV>,
) -> Verdict {
    match allocations_valid(m, party, direction, allocs, 0) {
        Err(e) => Err(e),
        Ok(_) => over_allocation_from(m, alloc_targets(allocs), 0),
    }
}

fn check_invoices_allow(
    t: &Tables,
    party_id: &str,
    direction: &str,
    allocs: &Vec<AllocInput>,
) -> (r: Result<Vec<i64>, CommandError>)
    ensures
        match r {
            Ok(v) => invoices_allow(t@, party_id@, direction@, rows(allocs@)) is Ok && v@
                == alloc_amounts(rows(allocs@)),
            Err(e) => invoices_allow(t@, party_id@, direction@, rows(allocs@)) == Err::<
                (),
                Refusal,
            >(e@),
        },
{
    let ghost s = rows(allocs@);
    let mut amounts: Vec<i64> = Vec::new();
    let mut agg: Vec<(String, String, i64)> = Vec::new();
    let mut i: usize = 0;
    while i < allocs.len()
        invariant
            i <= allocs@.len(),
            s == rows(allocs@),
            amounts@.len() == i,
            agg@.len() == i,
            forall|k: int| 0 <= k < i ==> #[trigger] amounts@[k] == s[k].amount_minor,
            forall|k: int|
                0 <= k < i ==> (#[trigger] agg@[k]).0@ == s[k].target_id && agg@[k].1@
                    == s[k].target_type && agg@[k].2 == s[k].amount_minor,
            allocations_valid(t@, party_id@, direction@, s, i as int) == allocations_valid(
                t@,
                party_id@,
                direction@,
                s,
                0,
            ),
        decreases allocs@.len() - i,
    {
        let a = &allocs[i];
        assert(s[i as int] == a@);
        check_amount_positive(a.amount_minor)?;
        check_allocation_party_ownership(
            t,
            party_id,
            direction,
            a.target_id.as_str(),
            a.target_type.as_str(),
        )?;
        amounts.push(a.amount_minor);
        agg.push((a.target_id.clone(), a.target_type.clone(), a.amount_minor));
        i += 1;
    }
    assert(amounts@ =~= alloc_amounts(s));
    assert(targets(agg@) =~= alloc_targets(s));
    check_invoice_over_allocation_aggregated(t, &agg)?;
    Ok(amounts)
}

/// The allocations of a payment are valid and no more than the payment.
pub open spec fn payment_allocations(
    m: ReadModel,
    party: Text,
    direction: Text,
    amount: i64,
    allocs: Seq<AllocV>,
) -> Verdict {
    match invoices_allow(m, party, direction, allocs) {
        Err(e) => Err(e),
        Ok(_) => payment_over_allocation(amount, alloc_amounts(allocs)),
    }
}

fn validate_payment_allocations(
    t: &Tables,
    party_id: &str,
    direction: &str,
    payment_amount: i64,
    allocs: &Vec<AllocInput>,
) -> (r: Result<(), CommandError>)
    ensures
        judged(r) == payment_allocations(
            t@,
            party_id@,
            direction@,
            payment_amount,
            rows(allocs@),
        ),
{
    let amounts = check_invoices_allow(t, party_id, direction, allocs)?;
    check_payment_over_allocation(payment_amount, amounts.as_slice())
}

pub open spec fn alloc_by_key(a: AllocV, key: Text) -> JsonV {
    JsonV::Object(
        Map::empty().insert(key, JsonV::Str(a.target_id)).insert(
            "amountMinor"@,
            JsonV::Int(a.amount_minor as int),
        ),
    )
}

fn alloc_json_by_key(allocs: &Vec<AllocInput>, key: &str) -> (r: Vec<Json>)
    ensures
        elements_of(r@) == Seq::new(
            rows(allocs@).len(),
            |i: int| alloc_by_key(rows(allocs@)[i], key@),
        ),
{
    let ghost s = rows(allocs@);
    let mut out: Vec<Json> = Vec::new();
    let mut i: usize = 0;
    while i < allocs.len()
        invariant
            i <= allocs@.len(),
            s == rows(allocs@),
            out@.len() == i,
            forall|k: int| 0 <= k < i ==> (#[trigger] out@[k])@ == alloc_by_key(s[k], key@),
        decreases allocs@.len() - i,
    {
        let a = &allocs[i];
        assert(s[i as int] == a@);
        let j = Fields::new().text(key, a.target_id.as_str()).number(
            "amountMinor",
            a.amount_minor,
        ).done();
        out.push(j);
        i += 1;
    }
    assert(elements_of(out@) =~= Seq::new(s.len(), |k: int| alloc_by_key(s[k], key@)));
    out
}

pub open spec fn alloc_targeted(a: AllocV) -> JsonV {
    JsonV::Object(
        Map::empty().insert("targetId"@, JsonV::Str(a.target_id)).insert(
            "targetType"@,
            JsonV::Str(a.target_type),
        ).insert("amountMinor"@, JsonV::Int(a.amount_minor as int)),
    )
}

fn alloc_json_targeted(allocs: &Vec<AllocInput>) -> (r: Vec<Json>)
    ensures
        elements_of(r@) == Seq::new(
            rows(allocs@).len(),
            |i: int| alloc_targeted(rows(allocs@)[i]),
        ),
{
    let ghost s = rows(allocs@);
    let mut out: Vec<Json> = Vec::new();
    let mut i: usize = 0;
    while i < allocs.len()
        invariant
            i <= allocs@.len(),
            s == rows(allocs@),
            out@.len() == i,
            forall|k: int| 0 <= k < i ==> (#[trigger] out@[k])@ == alloc_targeted(s[k]),
        decreases allocs@.len() - i,
    {
        let a = &allocs[i];
        assert(s[i as int] == a@);
        let j = Fields::new().text("targetId", a.target_id.as_str()).text(
            "targetType",
            a.target_type.as_str(),
        ).number("amountMinor", a.amount_minor).done();
        out.push(j);
        i += 1;
    }
    assert(elements_of(out@) =~= Seq::new(s.len(), |k: int| alloc_targeted(s[k])));
    out
}

/// The payload of a payment.
pub open spec fn payment_payload(
    id: Text,
    party_key: Text,
    party: Text,
    amount: i64,
    date: Text,
    target_key: Text,
    allocs: Seq<AllocV>,
) -> JsonV {
    JsonV::Object(
        Map::empty().insert("paymentId"@, JsonV::Str(id)).insert(
            party_key,
            JsonV::Str(party),
        ).insert("amountMinor"@, JsonV::Int(amount as int)).insert(
            "date"@,
            JsonV::Str(date),
        ).insert(
            "allocations"@,
            JsonV::Array(Seq::new(allocs.len(), |i: int| alloc_by_key(allocs[i], target_key))),
        ),
    )
}

/// The payload of a payment to or from a party, or why it is refused.
pub open spec fn payment_request(
    m: ReadModel,
    incoming: bool,
    id: Text,
    party: Text,
    amount: i64,
    date: Text,
    allocs: Seq<AllocV>,
) -> Result<JsonV, Refusal> {
    match amount_positive(amount) {
        Err(e) => Err(e),
        Ok(_) => match seeded_party_takes_no_payment(party) {
            Err(e) => Err(e),
            Ok(_) => match kind_allowed(
                m,
                party,
                if incoming {
                    "customer"@
                } else {
                    "supplier"@
                },
            ) {
                Err(e) => Err(e),
                Ok(_) => match payment_allocations(
                    m,
                    party,
                    if incoming {
                        "in"@
                    } else {
                        "out"@
                    },
                    amount,
                    allocs,
                ) {
                    Err(e) => Err(e),
                    Ok(_) => if incoming {
                        Ok(
                            payment_payload(
                                id,
                                "customerId"@,
                                party,
                                amount,
                                date,
                                "saleId"@,
                                allocs,
                            ),
                        )
                    } else {
                        Ok(
                            payment_payload(
                                id,
                                "supplierId"@,
                                party,
                                amount,
                                date,
                                "purchaseId"@,
                                allocs,
                            ),
                        )
                    },
                },
            },
        },
    }
}

fn validate_payment(
    t: &Tables,
    incoming: bool,
    payment_id: &str,
    party_id: &str,
    amount_minor: i64,
    date: &str,
    allocs: &Vec<AllocInput>,
) -> (r: Result<Json, CommandError>)
    ensures
        payload_of(r) == payment_request(
            t@,
            incoming,
            payment_id@,
            party_id@,
            amount_minor,
            date@,
            rows(allocs@),
        ),
{
    check_amount_positive(amount_minor)?;
    check_seeded_party_takes_no_payment(party_id)?;
    let kind = if incoming {
        "customer"
    } else {
        "supplier"
    };
    let direction = if incoming {
        "in"
    } else {
        "out"
    };
    ensure_party_kind(t, party_id, kind)?;
    validate_payment_allocations(t, party_id, direction, amount_minor, allocs)?;
    let party_key = if incoming {
        "customerId"
    } else {
        "supplierId"
    };
    let target_key = if incoming {
        "saleId"
    } else {
        "purchaseId"
    };
    Ok(
        Fields::new().text("paymentId", payment_id).text(party_key, party_id).number(
            "amountMinor",
            amount_minor,
        ).text("date", date).array("allocations", alloc_json_by_key(allocs, target_key)).done(),
    )
}

/// Records a payment to a supplier.
pub fn handle_payment_made(
    ctx: &mut CommandContext,
    payment_id: &str,
    supplier_id: &str,
    amount_minor: i64,
    date: &str,
    allocations: Vec<AllocInput>,
) -> (r: Result<LedgerEvent, CommandError>)
    ensures
        carried_out(
            scene(old(ctx)),
            scene(final(ctx)),
            r,
            "PaymentMade"@,
            payment_request(
                old(ctx).conn@.model,
                false,
                payment_id@,
                supplier_id@,
                amount_minor,
                date@,
                rows(allocations@),
            ),
        ),
        *final(final(ctx).conn) == *final(old(ctx).conn),
        *final(final(ctx).hlc) == *final(old(ctx).hlc),
{
    let payload = validate_payment(
        &ctx.conn.tables,
        false,
        payment_id,
        supplier_id,
        amount_minor,
        date,
        &allocations,
    )?;
    commit_event(ctx, "PaymentMade", payload)
}

/// Records a payment from a customer.
pub fn handle_payment_received(
    ctx: &mut CommandContext,
    payment_id: &str,
    customer_id: &str,
    amount_minor: i64,
    date: &str,
    allocations: Vec<AllocInput>,
) -> (r: Result<LedgerEvent, CommandError>)
    ensures
        carried_out(
            scene(old(ctx)),
            scene(final(ctx)),
            r,
            "PaymentReceived"@,
            payment_request(
                old(ctx).conn@.model,
                true,
                payment_id@,
                customer_id@,
                amount_minor,
                date@,
                rows(allocations@),
            ),
        ),
        *final(final(ctx).conn) == *final(old(ctx).conn),
        *final(final(ctx).hlc) == *final(old(ctx).hlc),
{
    let payload = validate_payment(
        &ctx.conn.tables,
        true,
        payment_id,
        customer_id,
        amount_minor,
        date,
        &allocations,
    )?;
    commit_event(ctx, "PaymentReceived", payload)
}

pub open spec fn allocation_payload(
    payment: Text,
    party: Text,
    date: Text,
    allocs: Seq<AllocV>,
) -> JsonV {
    JsonV::Object(
        Map::empty().insert("paymentId"@, JsonV::Str(payment)).insert(
            "partyId"@,
            JsonV::Str(party),
        ).insert("date"@, JsonV::Str(date)).insert(
            "allocations"@,
            JsonV::Array(Seq::new(allocs.len(), |i: int| alloc_targeted(allocs[i]))),
        ),
    )
}

/// The payload of an allocation of held credit, or why it is refused.
pub open spec fn allocation_request(
    m: ReadModel,
    payment: Text,
    party: Text,
    date: Text,
    allocs: Seq<AllocV>,
) -> Result<JsonV, Refusal> {
    if allocs.len() == 0 {
        Err(refusal("PaymentAllocated must have >= 1 allocation"@))
    } else {
        match lookup(m.payments, payment) {
            None => Err(refusal("unknown source payment: "@ + payment)),
            Some(p) => if p.party_id != party {
                Err(
                    refusal("payment "@ + payment + " does not belong to party "@ + party),
                )
            } else {
                match invoices_allow(m, party, p.direction, allocs) {
                    Err(e) => Err(e),
                    Ok(_) => match amounts_total(alloc_amounts(allocs)) {
                        None => Err(overflow()),
                        Some(total) => match credit_overdraw(m, party, p.direction, total) {
                            Err(e) => Err(e),
                            Ok(_) => Ok(allocation_payload(payment, party, date, allocs)),
                        },
                    },
                }
            },
        }
    }
}

fn validate_allocation(
    t: &Tables,
    source_payment_id: &str,
    party_id: &str,
    date: &str,
    allocs: &Vec<AllocInput>,
) -> (r: Result<Json, CommandError>)
    ensures
        payload_of(r) == allocation_request(
            t@,
            source_payment_id@,
            party_id@,
            date@,
            rows(allocs@),
        ),
{
    if allocs.len() == 0 {
        return Err(reject("PaymentAllocated must have >= 1 allocation".to_owned()));
    }
    let i: usize = match find(&t.payments, source_payment_id) {
        Some(i) => i,
        None => {
            return Err(
                reject("unknown source payment: ".to_owned().concat(source_payment_id)),
            );
        },
    };
    if !same(t.payments[i].party_id.as_str(), party_id) {
        return Err(
            reject(
                "payment ".to_owned().concat(source_payment_id).concat(
                    " does not belong to party ",
                ).concat(party_id),
            ),
        );
    }
    let direction = t.payments[i].direction.as_str();
    let amounts = check_invoices_allow(t, party_id, direction, allocs)?;
    let total: i64 = match total_of(amounts.as_slice()) {
        Some(v) => v,
        None => {
            return Err(CommandError::Db(DbError::Overflow));
        },
    };
    check_credit_overdraw(t, party_id, direction, total)?;
    Ok(
        Fields::new().text("paymentId", source_payment_id).text("partyId", party_id).text(
            "date",
            date,
        ).array("allocations", alloc_json_targeted(allocs)).done(),
    )
}

/// Settles invoices out of the credit that a payment left with the party. The log
/// names the event itself, so the id given for it is not used.
pub fn handle_payment_allocated(
    ctx: &mut CommandContext,
    _alloc_event_id: &str,
    source_payment_id: &str,
    party_id: &str,
    date: &str,
    allocations: Vec<AllocInput>,
) -> (r: Result<LedgerEvent, CommandError>)
    ensures
        carried_out(
            scene(old(ctx)),
            scene(final(ctx)),
            r,
            "PaymentAllocated"@,
            allocation_request(
                old(ctx).conn@.model,
                source_payment_id@,
                party_id@,
                date@,
                rows(allocations@),
            ),
        ),
        *final(final(ctx).conn) == *final(old(ctx).conn),
        *final(final(ctx).hlc) == *final(old(ctx).hlc),
{
    let payload = validate_allocation(
        &ctx.conn.tables,
        source_payment_id,
        party_id,
        date,
        &allocations,
    )?;
    commit_event(ctx, "PaymentAllocated", payload)
}

} // verus!
