//! What kinds of effects an event type has.

use crate::text::same;
use vstd::prelude::*;

verus! {

/// A kind of effect.
#[derive(Debug, Clone, Copy, PartialEq, Eq, Structural)]
pub enum EventCategory {
    LotCreating,
    LotConsuming,
    LotRestoring,
    AllocationBearing,
    Transactional,
}

/// The kinds of effects that an event type has.
pub open spec fn categories(ty: Seq<char>) -> Seq<EventCategory> {
    if ty == "PurchaseRecorded"@ || ty == "InventoryFound"@ {
        seq![EventCategory::LotCreating, EventCategory::Transactional]
    } else if ty == "OpeningBalancesRecorded"@ {
        seq![EventCategory::LotCreating]
    } else if ty == "SaleRecorded"@ || ty == "PurchaseReturnRecorded"@ || ty
        == "InventoryAdjusted"@ {
        seq![EventCategory::LotConsuming, EventCategory::Transactional]
    } else if ty == "SaleReturnRecorded"@ {
        seq![EventCategory::LotRestoring, EventCategory::Transactional]
    } else if ty == "PaymentMade"@ || ty == "PaymentReceived"@ || ty == "PaymentAllocated"@ {
        seq![EventCategory::AllocationBearing, EventCategory::Transactional]
    } else if ty == "ExpenseRecorded"@ || ty == "TransferRecorded"@ {
        seq![EventCategory::Transactional]
    } else {
        Seq::empty()
    }
}

/// The kinds of effects that an event type has; master data and reversals have none.
pub fn categories_of(event_type: &str) -> (r: Vec<EventCategory>)
    ensures
        r@ == categories(event_type@),
{
    let mut out: Vec<EventCategory> = Vec::new();
    if same(event_type, "PurchaseRecorded") || same(event_type, "InventoryFound") {
        out.push(EventCategory::LotCreating);
        out.push(EventCategory::Transactional);
    } else if same(event_type, "OpeningBalancesRecorded") {
        out.push(EventCategory::LotCreating);
    } else if same(event_type, "SaleRecorded") || same(event_type, "PurchaseReturnRecorded")
        || same(event_type, "InventoryAdjusted") {
        out.push(EventCategory::LotConsuming);
        out.push(EventCategory::Transactional);
    } else if same(event_type, "SaleReturnRecorded") {
        out.push(EventCategory::LotRestoring);
        out.push(EventCategory::Transactional);
    } else if same(event_type, "PaymentMade") || same(event_type, "PaymentReceived") || same(
        event_type,
        "PaymentAllocated",
    ) {
        out.push(EventCategory::AllocationBearing);
        out.push(EventCategory::Transactional);
    } else if same(event_type, "ExpenseRecorded") || same(event_type, "TransferRecorded") {
        out.push(EventCategory::Transactional);
    }
    assert(out@ =~= categories(event_type@));
    out
}

/// Whether the event type has a kind of effect.
pub fn has_category(event_type: &str, c: EventCategory) -> (r: bool)
    ensures
        r == categories(event_type@).contains(c),
{
    let cs = categories_of(event_type);
    let mut i: usize = 0;
    while i < cs.len()
        invariant
            i <= cs@.len(),
            cs@ == categories(event_type@),
            forall|j: int| 0 <= j < i ==> #[trigger] cs@[j] != c,
        decreases cs@.len() - i,
    {
        if cs[i] == c {
            assert(categories(event_type@)[i as int] == c);
            return true;
        }
        i += 1;
    }
    false
}

/// Whether an event of this type is a business transaction, which can be reversed.
pub fn is_transactional(event_type: &str) -> (r: bool)
    ensures
        r == categories(event_type@).contains(EventCategory::Transactional),
{
    has_category(event_type, EventCategory::Transactional)
}

} // verus!
