use accounting_core::reconciliation::{
    check_double_entry, check_gross_profit, check_inventory_valuation, check_invoice_outstanding,
    check_lot_bounds, check_non_negative_credits, check_non_negative_inventory,
    check_party_balances,
};
use accounting_core::tables::{Balance, Invoice, Lot};
use accounting_core::{
    age_at_sale, aging_buckets, all_passed, balance_sheet, gross_margin_per_item, gross_profit,
    handle_expense_recorded, handle_item_defined, handle_party_created, handle_payment_received,
    handle_purchase_recorded, handle_sale_recorded, handle_sale_return_recorded,
    handle_transaction_reversed, inventory_valuation, lot_ages, net_profit,
    open_in_memory_with_schema, party_balances, payable_aging, profit_and_loss, rebuild,
    receivable_aging, return_rate_per_item, run_all_checks, run_genesis, sellers_by_units,
    stock_on_hand, units_sold_by_month, AllocInput, CheckOutcome, CommandContext, Database, DbError,
    Hlc, PurchaseLineInput, SaleLineInput, SaleReturnItemInput, Tables,
};

fn ctx<'a>(conn: &'a mut Database, hlc: &'a mut Hlc) -> CommandContext<'a> {
    CommandContext {
        conn,
        hlc,
        physical_now: 1000,
        device_id: "deviceA".into(),
        user_id: "owner-1".into(),
    }
}

const ANCHOR: &str = "2026-07-06";
const WIDGET: &str = "item_widget";
const GADGET: &str = "item_gadget";
const CUST: &str = "cust_acme";
const SUPP: &str = "supp_globex";

/// A small business: three purchases on credit, a credit and a cash sale, an expense, a
/// payment and a return.
fn open_seeded() -> (Database, Hlc) {
    let mut conn = open_in_memory_with_schema().unwrap();
    let mut hlc = Hlc::new("deviceA");
    run_genesis(&mut conn, &mut hlc, 1000, "deviceA", "owner-1", "Jane Owner").unwrap();
    rebuild(&mut conn).unwrap();
    let mut c = ctx(&mut conn, &mut hlc);
    handle_item_defined(&mut c, WIDGET, "W-1", "Widget", "ea").unwrap();
    handle_item_defined(&mut c, GADGET, "G-1", "Gadget", "ea").unwrap();
    handle_party_created(&mut c, CUST, "Acme Co", "customer").unwrap();
    handle_party_created(&mut c, SUPP, "Globex", "supplier").unwrap();
    for (id, date, item, qty, cost) in [
        ("pur_1", "2026-06-01", WIDGET, 100, 500),
        ("pur_2", "2026-06-15", WIDGET, 50, 600),
        ("pur_3", "2026-06-20", GADGET, 20, 1000),
    ] {
        let line = PurchaseLineInput { item_id: item.into(), qty, unit_cost_minor: cost };
        handle_purchase_recorded(&mut c, id, SUPP, date, "credit", vec![line]).unwrap();
    }
    for (id, date, terms, item, qty, price) in [
        ("sale_1", "2026-07-02", "credit", WIDGET, 60, 900),
        ("sale_2", "2026-07-03", "cash", GADGET, 5, 1500),
    ] {
        let line =
            SaleLineInput { item_id: item.into(), qty, unit_price_minor: price, lot_picks: None };
        handle_sale_recorded(&mut c, id, CUST, date, terms, vec![line]).unwrap();
    }
    handle_expense_recorded(
        &mut c, "exp_1", "acct_rent", 3000, "2026-07-04", "cash", None, Some("July rent"),
    )
    .unwrap();
    let paid = AllocInput {
        target_id: "sale_1".into(),
        target_type: "sale".into(),
        amount_minor: 40000,
    };
    handle_payment_received(&mut c, "pay_1", CUST, 40000, "2026-07-05", vec![paid]).unwrap();
    let back = SaleReturnItemInput {
        item_id: WIDGET.into(),
        lot_returns: vec![("pur_1#lot0".into(), 10)],
    };
    handle_sale_return_recorded(&mut c, "ret_1", "sale_1", "2026-07-06", vec![back]).unwrap();
    (conn, hlc)
}

const CUST_BETA: &str = "cust_beta";

/// A business with a cash purchase, a prepayment, a second customer and a reversed sale.
fn open_seeded_extended() -> (Database, Hlc) {
    let mut conn = open_in_memory_with_schema().unwrap();
    let mut hlc = Hlc::new("deviceA");
    run_genesis(&mut conn, &mut hlc, 1000, "deviceA", "owner-1", "Jane Owner").unwrap();
    rebuild(&mut conn).unwrap();
    let mut c = ctx(&mut conn, &mut hlc);
    handle_item_defined(&mut c, WIDGET, "W-1", "Widget", "ea").unwrap();
    handle_item_defined(&mut c, GADGET, "G-1", "Gadget", "ea").unwrap();
    handle_party_created(&mut c, CUST, "Acme Co", "customer").unwrap();
    handle_party_created(&mut c, CUST_BETA, "Beta LLC", "customer").unwrap();
    handle_party_created(&mut c, SUPP, "Globex", "supplier").unwrap();
    let widgets = PurchaseLineInput { item_id: WIDGET.into(), qty: 50, unit_cost_minor: 500 };
    handle_purchase_recorded(&mut c, "epur_1", SUPP, "2026-06-01", "credit", vec![widgets]).unwrap();
    let gadgets = PurchaseLineInput { item_id: GADGET.into(), qty: 10, unit_cost_minor: 800 };
    handle_purchase_recorded(&mut c, "epur_2", SUPP, "2026-06-05", "cash", vec![gadgets]).unwrap();
    let sold =
        SaleLineInput { item_id: WIDGET.into(), qty: 20, unit_price_minor: 900, lot_picks: None };
    handle_sale_recorded(&mut c, "esale_1", CUST, "2026-07-02", "credit", vec![sold]).unwrap();
    handle_payment_received(&mut c, "epay_1", CUST_BETA, 5000, "2026-07-04", vec![]).unwrap();
    let sold =
        SaleLineInput { item_id: GADGET.into(), qty: 5, unit_price_minor: 1500, lot_picks: None };
    let reversible =
        handle_sale_recorded(&mut c, "esale_2", CUST, "2026-07-05", "cash", vec![sold]).unwrap();
    handle_transaction_reversed(&mut c, &reversible.id, "entered in error").unwrap();
    (conn, hlc)
}

fn lot_mut<'a>(db: &'a mut Database, id: &str) -> &'a mut Lot {
    db.tables.lots.iter_mut().find(|l| l.id == id).unwrap()
}

fn sale_mut<'a>(db: &'a mut Database, id: &str) -> &'a mut Invoice {
    db.tables.sales.iter_mut().find(|s| s.id == id).unwrap()
}

fn balance_mut<'a>(db: &'a mut Database, party: &str) -> &'a mut Balance {
    db.tables.balances.iter_mut().find(|b| b.party_id == party).unwrap()
}

#[test]
fn inventory_valuation_matches_gl_on_correct_state() {
    let (conn, _hlc) = open_seeded();
    assert_eq!(check_inventory_valuation(&conn.tables).unwrap(), CheckOutcome::Pass);
}

#[test]
fn inventory_valuation_fails_when_a_lot_is_corrupted() {
    let (mut conn, _hlc) = open_seeded();
    lot_mut(&mut conn, "pur_1#lot0").qty_remaining += 1;
    match check_inventory_valuation(&conn.tables).unwrap() {
        CheckOutcome::Fail(msg) => assert!(msg.contains("lot value"), "got: {msg}"),
        CheckOutcome::Pass => panic!("check must FAIL on corrupted lot"),
    }
}

#[test]
fn gross_profit_matches_journal_on_correct_state() {
    let (conn, _) = open_seeded();
    assert_eq!(check_gross_profit(&conn.tables).unwrap(), CheckOutcome::Pass);
}

#[test]
fn gross_profit_fails_when_cogs_corrupted() {
    let (mut conn, _) = open_seeded();
    for l in conn.tables.sale_lines.iter_mut().filter(|l| l.sale_id == "sale_1") {
        l.cogs_minor -= 1000;
    }
    assert!(matches!(check_gross_profit(&conn.tables).unwrap(), CheckOutcome::Fail(_)));
}

#[test]
fn gross_profit_fails_when_return_netting_corrupted() {
    let (mut conn, _) = open_seeded();
    // The netting term drifts from the journal, which holds what the return posted.
    for r in conn.tables.returns.iter_mut().filter(|r| r.return_type == "sale_return") {
        r.revenue_reversed_minor += 500;
    }
    match check_gross_profit(&conn.tables).unwrap() {
        CheckOutcome::Fail(msg) => assert!(msg.contains("engine") || msg.contains("journal"), "got {msg}"),
        CheckOutcome::Pass => panic!("check must FAIL when return netting is corrupted"),
    }
}

#[test]
fn double_entry_balances_on_correct_state() {
    let (conn, _) = open_seeded();
    assert_eq!(check_double_entry(&conn.tables).unwrap(), CheckOutcome::Pass);
}

#[test]
fn double_entry_fails_when_unbalanced() {
    let (mut conn, _) = open_seeded();
    conn.tables.journal[0].debit_minor += 1;
    assert!(matches!(check_double_entry(&conn.tables).unwrap(), CheckOutcome::Fail(_)));
}

#[test]
fn party_balances_match_gl_on_correct_state() {
    let (conn, _) = open_seeded();
    assert_eq!(check_party_balances(&conn.tables).unwrap(), CheckOutcome::Pass);
}

#[test]
fn party_balances_fail_when_receivable_drifts() {
    let (mut conn, _) = open_seeded();
    balance_mut(&mut conn, "cust_acme").receivable_minor += 100;
    assert!(matches!(check_party_balances(&conn.tables).unwrap(), CheckOutcome::Fail(_)));
}

#[test]
fn invoice_outstanding_matches_on_correct_state() {
    let (conn, _) = open_seeded();
    assert_eq!(check_invoice_outstanding(&conn.tables).unwrap(), CheckOutcome::Pass);
}

#[test]
fn invoice_outstanding_fails_when_corrupted() {
    let (mut conn, _) = open_seeded();
    sale_mut(&mut conn, "sale_1").outstanding_minor = 12345;
    assert!(matches!(check_invoice_outstanding(&conn.tables).unwrap(), CheckOutcome::Fail(_)));
}

#[test]
fn invoice_outstanding_fails_on_nonzero_cash() {
    let (mut conn, _) = open_seeded();
    sale_mut(&mut conn, "sale_2").outstanding_minor = 100;
    assert!(matches!(check_invoice_outstanding(&conn.tables).unwrap(), CheckOutcome::Fail(_)));
}

#[test]
fn invoice_outstanding_fails_on_negative() {
    let (mut conn, _) = open_seeded();
    conn.tables.purchases.iter_mut().find(|p| p.id == "pur_1").unwrap().outstanding_minor = -1;
    assert!(matches!(check_invoice_outstanding(&conn.tables).unwrap(), CheckOutcome::Fail(_)));
}

#[test]
fn non_negative_inventory_holds_on_correct_state() {
    let (conn, _) = open_seeded();
    assert_eq!(check_non_negative_inventory(&conn.tables).unwrap(), CheckOutcome::Pass);
}

#[test]
fn non_negative_inventory_fails_on_negative_lot() {
    let (mut conn, _) = open_seeded();
    lot_mut(&mut conn, "pur_2#lot0").qty_remaining = -1;
    assert!(matches!(check_non_negative_inventory(&conn.tables).unwrap(), CheckOutcome::Fail(_)));
}

#[test]
fn lot_bounds_hold_on_correct_state() {
    let (conn, _) = open_seeded();
    assert_eq!(check_lot_bounds(&conn.tables).unwrap(), CheckOutcome::Pass);
}

#[test]
fn lot_bounds_fail_when_remaining_exceeds_received() {
    let (mut conn, _) = open_seeded();
    let l = lot_mut(&mut conn, "pur_2#lot0");
    l.qty_remaining = l.qty_received + 1;
    assert!(matches!(check_lot_bounds(&conn.tables).unwrap(), CheckOutcome::Fail(_)));
}

#[test]
fn non_negative_credits_hold_on_correct_state() {
    let (conn, _) = open_seeded();
    assert_eq!(check_non_negative_credits(&conn.tables).unwrap(), CheckOutcome::Pass);
}

#[test]
fn non_negative_credits_fail_on_negative() {
    let (mut conn, _) = open_seeded();
    balance_mut(&mut conn, "cust_acme").unallocated_cr_minor = -5;
    assert!(matches!(check_non_negative_credits(&conn.tables).unwrap(), CheckOutcome::Fail(_)));
}

#[test]
fn run_all_checks_all_pass_on_reference_business() {
    let (conn, _) = open_seeded();
    let checks = run_all_checks(&conn.tables).unwrap();
    assert_eq!(checks.len(), 8);
    for c in &checks {
        assert_eq!(c.outcome, CheckOutcome::Pass, "{} should pass: {:?}", c.name, c.outcome);
    }
    assert!(all_passed(&checks));
}

#[test]
fn extended_fixture_passes_all_checks_and_survives_rebuild() {

    let (mut conn, _hlc) = open_seeded_extended();

    let checks = run_all_checks(&conn.tables).unwrap();
    assert!(all_passed(&checks), "checks failed: {:?}",
        checks.iter().filter(|c| c.outcome != CheckOutcome::Pass).collect::<Vec<_>>());

    let before_a = (
        units_sold_by_month(&conn.tables, WIDGET, ANCHOR).unwrap(),
        gross_profit(&conn.tables, ANCHOR).unwrap(),
        net_profit(&conn.tables, ANCHOR).unwrap(),
        lot_ages(&conn.tables, GADGET, ANCHOR).unwrap(),
        aging_buckets(&conn.tables, ANCHOR).unwrap(),
        stock_on_hand(&conn.tables).unwrap(),
        inventory_valuation(&conn.tables).unwrap(),
        gross_margin_per_item(&conn.tables).unwrap(),
    );
    let before_b = (
        sellers_by_units(&conn.tables).unwrap(),
        party_balances(&conn.tables).unwrap(),
        receivable_aging(&conn.tables, ANCHOR).unwrap(),
        payable_aging(&conn.tables, ANCHOR).unwrap(),
        return_rate_per_item(&conn.tables).unwrap(),
        age_at_sale(&conn.tables).unwrap(),
        profit_and_loss(&conn.tables, "2026-01-01", "2026-12-31").unwrap(),
        balance_sheet(&conn.tables).unwrap(),
    );

    rebuild(&mut conn).unwrap();

    let after_a = (
        units_sold_by_month(&conn.tables, WIDGET, ANCHOR).unwrap(),
        gross_profit(&conn.tables, ANCHOR).unwrap(),
        net_profit(&conn.tables, ANCHOR).unwrap(),
        lot_ages(&conn.tables, GADGET, ANCHOR).unwrap(),
        aging_buckets(&conn.tables, ANCHOR).unwrap(),
        stock_on_hand(&conn.tables).unwrap(),
        inventory_valuation(&conn.tables).unwrap(),
        gross_margin_per_item(&conn.tables).unwrap(),
    );
    let after_b = (
        sellers_by_units(&conn.tables).unwrap(),
        party_balances(&conn.tables).unwrap(),
        receivable_aging(&conn.tables, ANCHOR).unwrap(),
        payable_aging(&conn.tables, ANCHOR).unwrap(),
        return_rate_per_item(&conn.tables).unwrap(),
        age_at_sale(&conn.tables).unwrap(),
        profit_and_loss(&conn.tables, "2026-01-01", "2026-12-31").unwrap(),
        balance_sheet(&conn.tables).unwrap(),
    );
    assert_eq!(before_a, after_a, "a report drifted across a rebuild");
    assert_eq!(before_b, after_b, "a report drifted across a rebuild");

    assert!(all_passed(&run_all_checks(&conn.tables).unwrap()));
}

#[test]
fn run_all_checks_flags_the_failing_one() {
    let (mut conn, _) = open_seeded();
    lot_mut(&mut conn, "pur_3#lot0").qty_remaining = -1;
    let checks = run_all_checks(&conn.tables).unwrap();
    assert!(!all_passed(&checks));
    let failed: Vec<&str> = checks.iter()
        .filter(|c| c.outcome != CheckOutcome::Pass)
        .map(|c| c.name).collect();
    assert!(failed.contains(&"non_negative_inventory"), "got {failed:?}");
}

/// Each check says what it found.
#[test]
fn findings_name_what_drifted() {
    let (mut conn, _) = open_seeded();
    lot_mut(&mut conn, "pur_1#lot0").qty_remaining += 1;
    balance_mut(&mut conn, "cust_acme").unallocated_dr_minor = -7;
    assert_eq!(
        check_inventory_valuation(&conn.tables).unwrap(),
        CheckOutcome::Fail("inventory valuation drift: lot value 70500 != Inventory GL 70000".to_string())
    );
    assert!(matches!(
        check_non_negative_credits(&conn.tables).unwrap(),
        CheckOutcome::Fail(m) if m.contains("cust_acme")
    ));
    assert!(!all_passed(&run_all_checks(&conn.tables).unwrap()));
    assert!(all_passed(&[]));
}

#[test]
fn books_without_the_role_accounts_cannot_be_checked() {
    let t = Tables::new();
    assert_eq!(check_inventory_valuation(&t), Err(DbError::NoRows));
    assert_eq!(check_double_entry(&t), Ok(CheckOutcome::Pass));
    assert!(run_all_checks(&t).is_err());
}
