use accounting_core::commands::categories::{categories_of, is_transactional, EventCategory};

#[test]
fn lot_creating_membership_matches_spec() {
    for t in ["PurchaseRecorded", "OpeningBalancesRecorded", "InventoryFound"] {
        assert!(categories_of(t).contains(&EventCategory::LotCreating), "{t}");
    }
    assert!(!categories_of("SaleRecorded").contains(&EventCategory::LotCreating));
}

#[test]
fn lot_consuming_and_restoring_membership() {
    for t in ["SaleRecorded", "PurchaseReturnRecorded", "InventoryAdjusted"] {
        assert!(categories_of(t).contains(&EventCategory::LotConsuming), "{t}");
    }
    assert!(categories_of("SaleReturnRecorded").contains(&EventCategory::LotRestoring));
}

#[test]
fn allocation_bearing_and_transactional_membership() {
    for t in ["PaymentMade", "PaymentReceived", "PaymentAllocated"] {
        assert!(categories_of(t).contains(&EventCategory::AllocationBearing), "{t}");
    }
    assert!(categories_of("SaleRecorded").contains(&EventCategory::Transactional));
    assert!(!categories_of("ItemDefined").contains(&EventCategory::Transactional));
    assert!(!categories_of("OpeningBalancesRecorded").contains(&EventCategory::Transactional));
    assert!(categories_of("PaymentAllocated").contains(&EventCategory::Transactional));
}

#[test]
fn transactions_are_told_from_master_data() {
    assert!(is_transactional("SaleRecorded"));
    assert!(is_transactional("PaymentAllocated"));
    assert!(!is_transactional("ItemDefined"));
    assert!(!is_transactional("TransactionReversed"));
    assert!(!is_transactional("NoSuchEvent"));
    assert!(categories_of("NoSuchEvent").is_empty());
}
