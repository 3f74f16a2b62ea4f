use accounting_core::events::insert_raw_event;
use accounting_core::tables::{Balance, Invoice};
use accounting_core::wire::parse;
use accounting_core::{
    ensure_anon_supplier, ensure_walkin_party, handle_item_defined, handle_party_created,
    handle_payment_allocated, handle_payment_made, handle_payment_received,
    handle_purchase_recorded, handle_sale_recorded, open_in_memory_with_schema, rebuild,
    run_genesis, AllocInput, CommandContext, CommandError, Database, Hlc, Json, LedgerEvent,
    PurchaseLineInput, SaleLineInput, ANON_SUPPLIER_PARTY_ID, WALKIN_PARTY_ID,
};

fn json(text: &str) -> Json {
    parse(text).unwrap()
}

fn fixture() -> (Database, Hlc) {
    (open_in_memory_with_schema().unwrap(), Hlc::new("deviceA"))
}

fn ctx<'a>(conn: &'a mut Database, hlc: &'a mut Hlc) -> CommandContext<'a> {
    CommandContext {
        conn,
        hlc,
        physical_now: 1000,
        device_id: "deviceA".into(),
        user_id: "owner-1".into(),
    }
}

fn events_of(db: &Database, event_type: &str) -> usize {
    db.events.iter().filter(|e| e.event_type == event_type).count()
}

fn sale_row<'a>(db: &'a Database, id: &str) -> &'a Invoice {
    db.tables.sales.iter().find(|s| s.id == id).unwrap()
}

fn balance_row<'a>(db: &'a Database, party: &str) -> &'a Balance {
    db.tables.balances.iter().find(|b| b.party_id == party).unwrap()
}

fn seed_credit_sale(conn: &mut Database, hlc: &mut Hlc) {
    run_genesis(conn, hlc, 1000, "deviceA", "owner-1", "Owner").unwrap();
    rebuild(conn).unwrap();
    let mut c = ctx(conn, hlc);
    handle_party_created(&mut c, "cust1", "Cust", "customer").unwrap();
    handle_party_created(&mut c, "cust2", "Cust2", "customer").unwrap();
    handle_party_created(&mut c, "sup1", "Sup", "supplier").unwrap();
    handle_item_defined(&mut c, "itemA", "A", "A", "ea").unwrap();
    handle_purchase_recorded(&mut c, "pur1", "sup1", "2026-01-01", "cash",
        vec![PurchaseLineInput{ item_id:"itemA".into(), qty:10, unit_cost_minor:100 }]).unwrap();
    handle_sale_recorded(&mut c, "sale1", "cust1", "2026-02-01", "credit",
        vec![SaleLineInput{ item_id:"itemA".into(), qty:5, unit_price_minor:1000, lot_picks: None }]).unwrap();
}

#[test]
fn payment_received_partial_allocation_leaves_credit() {
    let (mut conn, mut hlc) = fixture();
    seed_credit_sale(&mut conn, &mut hlc);
    {
        let mut c = ctx(&mut conn, &mut hlc);
        handle_payment_received(&mut c, "pay1", "cust1", 6000, "2026-03-01",
            vec![AllocInput{ target_id:"sale1".into(), target_type:"sale".into(), amount_minor:5000 }]).expect("ok");
    }
    let out: i64 = sale_row(&conn, "sale1").outstanding_minor;
    assert_eq!(out, 0);
    let cr: i64 = balance_row(&conn, "cust1").unallocated_cr_minor;
    assert_eq!(cr, 1000);
}

#[test]
fn payment_received_over_invoice_rejected_and_writes_nothing() {
    let (mut conn, mut hlc) = fixture();
    seed_credit_sale(&mut conn, &mut hlc);
    let err = {
        let mut c = ctx(&mut conn, &mut hlc);
        handle_payment_received(&mut c, "pay1", "cust1", 9000, "2026-03-01",
            vec![AllocInput{ target_id:"sale1".into(), target_type:"sale".into(), amount_minor:6000 }]).unwrap_err()
    };
    assert!(matches!(err, CommandError::Validation(_)));
    let n = events_of(&conn, "PaymentReceived");
    assert_eq!(n, 0);
}

#[test]
fn payment_over_allocation_sum_rejected() {
    let (mut conn, mut hlc) = fixture();
    seed_credit_sale(&mut conn, &mut hlc);
    let mut c = ctx(&mut conn, &mut hlc);
    let err = handle_payment_received(&mut c, "pay1", "cust1", 4000, "2026-03-01",
        vec![AllocInput{ target_id:"sale1".into(), target_type:"sale".into(), amount_minor:5000 }]).unwrap_err();
    assert!(matches!(err, CommandError::Validation(_)));
}

#[test]
fn payment_received_wrong_party_invoice_rejected() {
    let (mut conn, mut hlc) = fixture();
    seed_credit_sale(&mut conn, &mut hlc);
    let mut c = ctx(&mut conn, &mut hlc);
    let err = handle_payment_received(&mut c, "pay1", "cust2", 5000, "2026-03-01",
        vec![AllocInput{ target_id:"sale1".into(), target_type:"sale".into(), amount_minor:5000 }]).unwrap_err();
    assert!(matches!(err, CommandError::Validation(_)));
}

#[test]
fn payment_two_lines_same_invoice_exceeding_outstanding_rejected() {
    let (mut conn, mut hlc) = fixture();
    seed_credit_sale(&mut conn, &mut hlc);
    let err = {
        let mut c = ctx(&mut conn, &mut hlc);
        handle_payment_received(&mut c, "pay1", "cust1", 8000, "2026-03-01", vec![
            AllocInput{ target_id:"sale1".into(), target_type:"sale".into(), amount_minor:5000 },
            AllocInput{ target_id:"sale1".into(), target_type:"sale".into(), amount_minor:3000 },
        ]).unwrap_err()
    };
    assert!(matches!(err, CommandError::Validation(_)));
    let n = events_of(&conn, "PaymentReceived");
    assert_eq!(n, 0);
    let out: i64 = sale_row(&conn, "sale1").outstanding_minor;
    assert_eq!(out, 5000);
}

#[test]
fn payment_allocated_credit_overdraw_rejected() {
    let (mut conn, mut hlc) = fixture();
    seed_credit_sale(&mut conn, &mut hlc);
    {
        let mut c = ctx(&mut conn, &mut hlc);
        handle_payment_received(&mut c, "prepay", "cust1", 1000, "2026-02-15", vec![]).expect("prepay ok");
    }
    let err = {
        let mut c = ctx(&mut conn, &mut hlc);
        handle_payment_allocated(&mut c, "alloc1", "prepay", "cust1", "2026-03-01",
            vec![AllocInput{ target_id:"sale1".into(), target_type:"sale".into(), amount_minor:2000 }]).unwrap_err()
    };
    assert!(matches!(err, CommandError::Validation(_)));
    {
        let mut c = ctx(&mut conn, &mut hlc);
        handle_payment_allocated(&mut c, "alloc1", "prepay", "cust1", "2026-03-01",
            vec![AllocInput{ target_id:"sale1".into(), target_type:"sale".into(), amount_minor:1000 }]).expect("ok");
    }
    let cr: i64 = balance_row(&conn, "cust1").unallocated_cr_minor;
    assert_eq!(cr, 0);
}

/// The seeded parties can never hold an invoice, so a payment to or from them
/// could only ever be an unallocated prepayment against nobody. The payments
/// form offers them in its dropdown, so the guard has to be here.
#[test]
fn the_seeded_parties_can_neither_send_nor_receive_a_payment() {
    let (mut conn, mut hlc) = fixture();
    seed_credit_sale(&mut conn, &mut hlc);
    ensure_walkin_party(&mut conn, &mut hlc, 1000, "deviceA").unwrap();
    ensure_anon_supplier(&mut conn, &mut hlc, 1000, "deviceA").unwrap();
    rebuild(&mut conn).unwrap();

    let recv_err = {
        let mut c = ctx(&mut conn, &mut hlc);
        handle_payment_received(&mut c, "pay_walkin", WALKIN_PARTY_ID,
            5000, "2026-03-01", vec![]).unwrap_err()
    };
    assert!(matches!(recv_err, CommandError::Validation(_)));
    let made_err = {
        let mut c = ctx(&mut conn, &mut hlc);
        handle_payment_made(&mut c, "pay_anon", ANON_SUPPLIER_PARTY_ID,
            5000, "2026-03-01", vec![]).unwrap_err()
    };
    assert!(matches!(made_err, CommandError::Validation(_)));

    let n = conn.events.iter().filter(|e| e.event_type.starts_with("Payment")).count();
    assert_eq!(n, 0, "neither rejected payment may reach the log");
    let held: i64 = conn
        .tables
        .balances
        .iter()
        .filter(|b| b.party_id == WALKIN_PARTY_ID || b.party_id == ANON_SUPPLIER_PARTY_ID)
        .map(|b| b.unallocated_cr_minor + b.unallocated_dr_minor)
        .sum();
    assert_eq!(held, 0, "a seeded party must never hold an undrawable credit");

    // An ordinary party still takes an unallocated prepayment.
    {
        let mut c = ctx(&mut conn, &mut hlc);
        handle_payment_received(&mut c, "pay_ok", "cust2", 5000, "2026-03-01", vec![])
            .expect("ordinary parties are unaffected");
    }
}

/// The guard above is a command guard, so a log taken over from another device may carry
/// a credit sale to a seeded party and a prepayment from it. Such a log must still
/// replay, and the stray balance must remain clearable: allocating the prepayment against
/// the invoice is the remedy, which is why an allocation is not refused.
#[test]
fn an_imported_legacy_seeded_party_balance_replays_and_stays_clearable() {
    let (mut conn, mut hlc) = fixture();
    seed_credit_sale(&mut conn, &mut hlc);
    ensure_walkin_party(&mut conn, &mut hlc, 1000, "deviceA").unwrap();
    rebuild(&mut conn).unwrap();
    let walkin = WALKIN_PARTY_ID;

    // Appended the way an import does it: no guard in the path.
    append_raw(&mut conn, &mut hlc, "SaleRecorded", json(&format!(r#"{{
        "saleId": "legacy_sale", "customerId": "{walkin}", "date": "2026-02-01",
        "terms": "credit", "totalMinor": 3000,
        "lines": [{{"itemId": "itemA", "qty": 3, "unitPriceMinor": 1000,
                   "revenueMinor": 3000, "cogsMinor": 300,
                   "lotConsumption": [{{"lotId": "pur1#lot0", "qtyTaken": 3,
                                       "unitCostMinor": 100}}]}}]
    }}"#)));
    append_raw(&mut conn, &mut hlc, "PaymentReceived", json(&format!(r#"{{
        "paymentId": "legacy_prepay", "customerId": "{walkin}",
        "amountMinor": 3000, "date": "2026-02-02", "allocations": []
    }}"#)));

    // Must replay rather than panic, and the legacy balance must survive intact.
    rebuild(&mut conn).expect("an imported legacy log must still replay");
    let (recv, cr) = (
        balance_row(&conn, walkin).receivable_minor,
        balance_row(&conn, walkin).unallocated_cr_minor,
    );
    assert_eq!((recv, cr), (3000, 3000));

    // The remedy must remain available.
    {
        let mut c = ctx(&mut conn, &mut hlc);
        handle_payment_allocated(&mut c, "alloc1", "legacy_prepay", walkin, "2026-03-01",
            vec![AllocInput{ target_id:"legacy_sale".into(), target_type:"sale".into(),
                             amount_minor:3000 }])
            .expect("clearing an imported phantom balance must stay possible");
    }
    let (recv2, cr2) = (
        balance_row(&conn, walkin).receivable_minor,
        balance_row(&conn, walkin).unallocated_cr_minor,
    );
    let out: i64 = sale_row(&conn, "legacy_sale").outstanding_minor;
    assert_eq!((recv2, cr2, out), (0, 0, 0), "the phantom balance must clear completely");
}

/// Adds an event straight to the log, with no command guard in the path.
fn append_raw(
    conn: &mut Database, hlc: &mut Hlc,
    etype: &str, payload: Json,
) {
    let stamp = hlc.tick(3000);
    let seq = conn.events.iter().filter(|e| e.device_id == "deviceB").count() as i64 + 1;
    let ev = LedgerEvent {
        id: format!("legacy-{etype}-{seq}"),
        hlc: stamp,
        device_id: "deviceB".into(),
        user_id: "owner-1".into(),
        seq,
        event_type: etype.to_string(),
        payload,
        created_at: 3000,
    };
    insert_raw_event(conn, &ev).unwrap();
}
