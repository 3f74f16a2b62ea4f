use accounting_core::commands::guards::{
    check_allocation_party_ownership, check_amount_non_negative, check_amount_positive,
    check_at_least_one_line, check_credit_overdraw, check_expense_account_type,
    check_invoice_not_reversed, check_invoice_over_allocation,
    check_invoice_over_allocation_aggregated, check_lot_item_match, check_lot_source_void,
    check_not_already_reversed, check_payment_over_allocation, check_qty_positive,
    check_reversal_downstream, check_reversal_legal_target, check_reversal_lot_restore_reconsumed,
    check_sale_return_over_restore, check_seeded_party_cash_only,
    check_seeded_party_takes_no_payment, check_self_transfer, check_terms, LotDemand,
};
use accounting_core::tables::{
    Account, Allocation, Balance, Invoice, Item, Lot, LotConsumption, Party, Return, ReturnLine,
    SaleLine, Tables,
};
use accounting_core::wire::parse;
use accounting_core::{
    CommandError, Json, LedgerEvent, ANON_SUPPLIER_PARTY_ID, WALKIN_PARTY_ID,
};

fn json(text: &str) -> Json {
    parse(text).unwrap()
}

fn text(e: Result<(), CommandError>) -> String {
    e.unwrap_err().message()
}

#[test]
fn rejects_zero_and_negative_quantities() {
    assert!(check_qty_positive(0).is_err());
    assert!(check_qty_positive(-3).is_err());
    assert!(check_qty_positive(1).is_ok());
}

#[test]
fn rejects_negative_amounts_and_optionally_zero() {
    assert!(check_amount_non_negative(-1).is_err());
    assert!(check_amount_non_negative(0).is_ok());
    assert!(check_amount_positive(0).is_err());
    assert!(check_amount_positive(50).is_ok());
}

#[test]
fn rejects_empty_line_set() {
    let empty: Vec<Json> = vec![];
    assert!(check_at_least_one_line(&empty).is_err());
    assert!(check_at_least_one_line(&[json(r#"{"x":1}"#)]).is_ok());
}

fn seed_item(t: &mut Tables, item_id: &str) {
    if t.items.iter().all(|i| i.id != item_id) {
        let doc = json(&format!(
            r#"{{"sku":"{item_id}","name":"{item_id}","unit":"ea","active":1}}"#
        ));
        t.items.push(Item { id: item_id.to_string(), doc });
    }
}

fn lot(id: &str, source: &str, cost: i64, received: i64, remaining: i64) -> Lot {
    Lot {
        id: id.to_string(),
        item_id: "itemA".to_string(),
        source_event_id: source.to_string(),
        purchase_id: None,
        unit_cost_minor: cost,
        qty_received: received,
        qty_remaining: remaining,
        acquired_at: "2026-01-01".to_string(),
        supplier_id: None,
    }
}

fn seed_lot(t: &mut Tables, lot_id: &str, qty_remaining: i64) {
    seed_item(t, "itemA");
    t.lots.push(lot(lot_id, "evt", 100, qty_remaining, qty_remaining));
}

#[test]
fn oversell_guard_rejects_taking_more_than_remaining() {
    let mut t = Tables::new();
    seed_lot(&mut t, "lot1", 10);
    assert!(LotDemand::new().take(&t, "lot1", 15).is_err(), "15 > 10 must reject");
    assert!(LotDemand::new().take(&t, "lot1", 10).is_ok());
    assert!(LotDemand::new().take(&t, "lot1", 6).is_ok());
}

#[test]
fn oversell_guard_rejects_unknown_lot() {
    let t = Tables::new();
    assert!(LotDemand::new().take(&t, "ghost", 1).is_err(), "unknown lot must reject");
}

#[test]
fn lot_demand_rejects_cumulative_overdraw_within_one_command() {
    let mut t = Tables::new();
    seed_lot(&mut t, "lot1", 10);
    let mut demand = LotDemand::new();
    assert!(demand.take(&t, "lot1", 6).is_ok());
    assert!(demand.take(&t, "lot1", 6).is_err(), "cumulative 12 > 10 must reject");
    assert_eq!(demand.available(&t, "lot1").unwrap(), 4, "10 - 6 already claimed");
}

#[test]
fn lot_demand_allows_cumulative_within_stock() {
    let mut t = Tables::new();
    seed_lot(&mut t, "lot1", 10);
    let mut demand = LotDemand::new();
    assert!(demand.take(&t, "lot1", 6).is_ok());
    assert!(demand.take(&t, "lot1", 4).is_ok(), "6 + 4 == 10 exactly");
    assert!(demand.take(&t, "lot1", 1).is_err(), "one more overdraws");
}

#[test]
fn lot_item_match_guard_rejects_wrong_item() {
    let mut t = Tables::new();
    seed_lot(&mut t, "lot1", 10);
    assert!(check_lot_item_match(&t, "lot1", "itemB").is_err());
    assert!(check_lot_item_match(&t, "lot1", "itemA").is_ok());
}

fn sale(id: &str, customer: &str, terms: &str, outstanding: i64, reversed: bool) -> Invoice {
    Invoice {
        id: id.to_string(),
        event_id: "e".to_string(),
        party_id: Some(customer.to_string()),
        date: "2026-02-01".to_string(),
        terms: terms.to_string(),
        total_minor: outstanding,
        outstanding_minor: outstanding,
        reversed,
    }
}

#[test]
fn return_against_reversed_invoice_rejected() {
    let mut t = Tables::new();
    t.sales.push(sale("s1", "c", "cash", 0, true));
    t.sales.push(sale("s2", "c", "cash", 0, false));
    assert!(check_invoice_not_reversed(&t, "sales", "s1").is_err());
    assert!(check_invoice_not_reversed(&t, "sales", "s2").is_ok());
    assert!(check_invoice_not_reversed(&t, "sales", "ghost").is_err());
}

fn seed_consumed_sale(t: &mut Tables) {
    t.sales.push(sale("s1", "c", "cash", 0, false));
    t.sale_lines.push(SaleLine {
        id: "sl1".to_string(),
        sale_id: "s1".to_string(),
        item_id: "itemA".to_string(),
        qty: 6,
        unit_price_minor: 1000,
        revenue_minor: 6000,
        cogs_minor: 3000,
        date: "2026-02-01".to_string(),
    });
    t.consumptions.push(LotConsumption {
        id: "lc1".to_string(),
        sale_line_id: "sl1".to_string(),
        lot_id: "lot1".to_string(),
        qty_taken: 6,
        unit_cost_minor: 500,
    });
}

#[test]
fn sale_return_over_restore_rejects_more_than_consumed() {
    let mut t = Tables::new();
    seed_lot(&mut t, "lot1", 4);
    t.lots[0].qty_received = 10;
    t.lots[0].unit_cost_minor = 500;
    seed_consumed_sale(&mut t);
    assert!(check_sale_return_over_restore(&t, "s1", "lot1", 7).is_err());
    assert!(check_sale_return_over_restore(&t, "s1", "lot1", 6).is_ok());
}

#[test]
fn sale_return_rejects_lot_original_sale_never_consumed() {
    let mut t = Tables::new();
    t.sales.push(sale("s1", "c", "cash", 0, false));
    assert!(check_sale_return_over_restore(&t, "s1", "lotX", 1).is_err());
}

#[test]
fn sale_return_second_return_bounded_by_qty_received() {
    let mut t = Tables::new();
    seed_lot(&mut t, "lot1", 10);
    t.lots[0].qty_received = 10;
    t.lots[0].unit_cost_minor = 500;
    seed_consumed_sale(&mut t);
    assert!(
        check_sale_return_over_restore(&t, "s1", "lot1", 6).is_err(),
        "lot already at qty_received; further return must be rejected"
    );
}

fn seed_credit_sale(t: &mut Tables, sale_id: &str, cust: &str, outstanding: i64) {
    t.sales.push(sale(sale_id, cust, "credit", outstanding, false));
}

#[test]
fn invoice_over_allocation_rejected() {
    let mut t = Tables::new();
    seed_credit_sale(&mut t, "s1", "cust1", 5000);
    assert!(check_invoice_over_allocation(&t, "s1", "sale", 6000).is_err());
    assert!(check_invoice_over_allocation(&t, "s1", "sale", 5000).is_ok());
    assert!(check_invoice_over_allocation(&t, "s1", "sale", 4000).is_ok());
}

#[test]
fn invoice_over_allocation_aggregates_per_target() {
    let mut t = Tables::new();
    seed_credit_sale(&mut t, "s1", "cust1", 5000);
    let allocs = vec![
        ("s1".to_string(), "sale".to_string(), 5000i64),
        ("s1".to_string(), "sale".to_string(), 3000i64),
    ];
    assert!(check_invoice_over_allocation_aggregated(&t, &allocs).is_err());
    let ok = vec![
        ("s1".to_string(), "sale".to_string(), 2000i64),
        ("s1".to_string(), "sale".to_string(), 3000i64),
    ];
    assert!(check_invoice_over_allocation_aggregated(&t, &ok).is_ok());
}

#[test]
fn payment_over_allocation_rejects_sum_exceeding_payment() {
    assert!(check_payment_over_allocation(8000, &[3000, 6000]).is_err());
    assert!(check_payment_over_allocation(8000, &[3000, 5000]).is_ok());
    assert!(check_payment_over_allocation(8000, &[3000]).is_ok());
}

#[test]
fn party_ownership_rejects_other_party_and_wrong_direction() {
    let mut t = Tables::new();
    seed_credit_sale(&mut t, "s1", "cust1", 5000);
    assert!(check_allocation_party_ownership(&t, "cust1", "in", "s1", "sale").is_ok());
    assert!(check_allocation_party_ownership(&t, "cust2", "in", "s1", "sale").is_err());
    assert!(check_allocation_party_ownership(&t, "cust1", "out", "s1", "sale").is_err());
}

fn seed_party(t: &mut Tables, party_id: &str, kind: &str, cr: i64, dr: i64) {
    let doc = json(&format!(r#"{{"name":"{party_id}","kind":"{kind}"}}"#));
    t.parties.push(Party { id: party_id.to_string(), doc });
    t.balances.push(Balance {
        party_id: party_id.to_string(),
        receivable_minor: 0,
        payable_minor: 0,
        unallocated_cr_minor: cr,
        unallocated_dr_minor: dr,
    });
}

#[test]
fn credit_overdraw_rejects_more_than_held() {
    let mut t = Tables::new();
    seed_party(&mut t, "cust1", "customer", 3000, 0);
    assert!(check_credit_overdraw(&t, "cust1", "in", 4000).is_err());
    assert!(check_credit_overdraw(&t, "cust1", "in", 3000).is_ok());
    assert!(check_credit_overdraw(&t, "cust1", "in", 2000).is_ok());
}

#[test]
fn self_transfer_rejected() {
    assert!(check_self_transfer("a1", "a1").is_err());
    assert!(check_self_transfer("a1", "a2").is_ok());
}

#[test]
fn seeded_parties_may_trade_for_cash_but_not_on_credit() {
    for id in [WALKIN_PARTY_ID, ANON_SUPPLIER_PARTY_ID] {
        assert!(check_seeded_party_cash_only(id, "cash").is_ok(), "{id} cash must be allowed");
        assert!(
            check_seeded_party_cash_only(id, "credit").is_err(),
            "{id} on credit would book a balance against nobody"
        );
    }
    // An ordinary party is unaffected on either terms.
    assert!(check_seeded_party_cash_only("party_7", "credit").is_ok());
    assert!(check_seeded_party_cash_only("party_7", "cash").is_ok());
}

#[test]
fn expense_account_type_guard() {
    let mut t = Tables::new();
    t.accounts.push(Account {
        id: "rent".to_string(),
        doc: json(r#"{"name":"Rent","type":"expense","normal":"debit"}"#),
        balance_minor: 0,
    });
    t.accounts.push(Account {
        id: "bank".to_string(),
        doc: json(r#"{"name":"Bank","type":"asset","normal":"debit"}"#),
        balance_minor: 0,
    });
    assert!(check_expense_account_type(&t, "rent").is_ok());
    assert!(check_expense_account_type(&t, "bank").is_err());
    assert!(check_expense_account_type(&t, "ghost").is_err());
}

#[test]
fn credit_overdraw_supplier_uses_dr_column() {
    let mut t = Tables::new();
    seed_party(&mut t, "sup1", "supplier", 0, 1500);
    assert!(check_credit_overdraw(&t, "sup1", "out", 2000).is_err());
    assert!(check_credit_overdraw(&t, "sup1", "out", 1500).is_ok());
}

fn event(id: &str, hlc: &str, event_type: &str, payload: &str) -> LedgerEvent {
    LedgerEvent {
        id: id.to_string(),
        hlc: hlc.to_string(),
        device_id: id.to_string(),
        user_id: "u".to_string(),
        seq: 1,
        event_type: event_type.to_string(),
        payload: json(payload),
        created_at: 0,
    }
}

#[test]
fn legal_target_and_double_void() {
    let mut log = vec![
        event("e_item", "h1", "ItemDefined", r#"{"itemId":"i1"}"#),
        event("e_sale", "h2", "SaleRecorded", r#"{"saleId":"s1"}"#),
    ];
    assert!(check_reversal_legal_target(&log, "e_item").is_err());
    assert!(check_reversal_legal_target(&log, "e_sale").is_ok());
    log.push(event("e_rev", "h3", "TransactionReversed", r#"{"targetEventId":"e_sale"}"#));
    assert!(check_not_already_reversed(&log, "e_sale").is_err());
    assert!(check_not_already_reversed(&log, "e_item").is_ok());
    assert!(check_reversal_legal_target(&log, "ghost").is_err());
    assert!(check_reversal_legal_target(&log, "e_rev").is_err());
}

#[test]
fn lot_source_void_rejects_consumed_lot() {
    let mut t = Tables::new();
    seed_item(&mut t, "itemA");
    t.lots.push(lot("lot1", "e_pur", 100, 10, 6));
    assert!(check_lot_source_void(&t, "e_pur").is_err());
    t.lots.push(lot("lot2", "e_pur2", 100, 10, 10));
    assert!(check_lot_source_void(&t, "e_pur2").is_ok());
}

#[test]
fn downstream_guard_blocks_allocation_return_and_credit_draw() {
    let mut t = Tables::new();
    let mut log: Vec<LedgerEvent> = vec![];
    assert!(check_reversal_downstream(&t, &log, "sale", "s1", None).is_ok());
    t.allocations.push(Allocation {
        id: "pa1".to_string(),
        event_id: "ep".to_string(),
        payment_id: "pay1".to_string(),
        target_id: "s1".to_string(),
        target_type: "sale".to_string(),
        amount_minor: 100,
    });
    assert!(check_reversal_downstream(&t, &log, "sale", "s1", None).is_err());
    t.returns.push(Return {
        id: "r1".to_string(),
        event_id: "er".to_string(),
        return_type: "sale_return".to_string(),
        original_id: "s2".to_string(),
        date: "2026-02-01".to_string(),
        revenue_reversed_minor: 100,
        cost_restored_minor: 50,
    });
    assert!(check_reversal_downstream(&t, &log, "sale", "s2", None).is_err());
    log.push(event("e_alloc", "h9", "PaymentAllocated", r#"{"paymentId":"pay1"}"#));
    assert!(check_reversal_downstream(&t, &log, "payment", "invoiceX", Some("pay1")).is_err());
    assert!(check_reversal_downstream(&t, &log, "payment", "invoiceY", Some("payNONE")).is_ok());
}

#[test]
fn downstream_edge5_blocks_reversing_return_whose_units_were_reconsumed() {
    let mut t = Tables::new();
    seed_item(&mut t, "itemA");
    t.lots.push(lot("lot1", "e_pur", 500, 10, 10));
    t.returns.push(Return {
        id: "ret1".to_string(),
        event_id: "e_ret".to_string(),
        return_type: "sale_return".to_string(),
        original_id: "sOrig".to_string(),
        date: "2026-03-01".to_string(),
        revenue_reversed_minor: 6000,
        cost_restored_minor: 3000,
    });
    t.return_lines.push(ReturnLine {
        id: "rl1".to_string(),
        return_id: "ret1".to_string(),
        item_id: "itemA".to_string(),
        qty: 6,
        unit_price_minor: 1000,
        unit_cost_minor: 500,
        lot_id: "lot1".to_string(),
    });
    assert!(check_reversal_lot_restore_reconsumed(&t, "ret1").is_ok());
    t.lots[0].qty_remaining = 4;
    assert!(check_reversal_lot_restore_reconsumed(&t, "ret1").is_err());
}

#[test]
fn refusals_say_why() {
    assert_eq!(text(check_qty_positive(0)), "validation error: qty must be > 0, got 0");
    assert_eq!(text(check_terms("barter")), "validation error: invalid terms: barter");
    assert!(check_terms("cash").is_ok() && check_terms("credit").is_ok());
    assert_eq!(
        text(check_self_transfer("a1", "a1")),
        "validation error: self-transfer: from == to (a1)"
    );
    let mut t = Tables::new();
    seed_lot(&mut t, "lot1", 10);
    let mut demand = LotDemand::new();
    demand.take(&t, "lot1", 6).unwrap();
    assert_eq!(
        text(demand.take(&t, "lot1", 5)),
        "validation error: oversell: lot lot1 has 10 remaining, command already claims 6, \
         cannot take 5 more"
    );
    assert!(check_seeded_party_takes_no_payment(WALKIN_PARTY_ID).is_err());
    assert!(check_seeded_party_takes_no_payment("party_7").is_ok());
}
