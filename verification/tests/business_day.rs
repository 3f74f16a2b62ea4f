use accounting_core::tables::{Balance, Invoice, Lot};
use accounting_core::{
    handle_account_opened, handle_item_defined, handle_party_created, handle_payment_received,
    handle_purchase_recorded, handle_sale_recorded, handle_sale_return_recorded,
    handle_transaction_reversed, open_in_memory_with_schema, rebuild, AllocInput, CommandContext,
    Database, Hlc, PurchaseLineInput, SaleLineInput, SaleReturnItemInput,
};

fn ctx<'a>(conn: &'a mut Database, hlc: &'a mut Hlc) -> CommandContext<'a> {
    CommandContext {
        conn,
        hlc,
        physical_now: 1000,
        device_id: "deviceA".into(),
        user_id: "owner-1".into(),
    }
}

fn lot_row<'a>(db: &'a Database, id: &str) -> &'a Lot {
    db.tables.lots.iter().find(|l| l.id == id).unwrap()
}

fn sale_row<'a>(db: &'a Database, id: &str) -> &'a Invoice {
    db.tables.sales.iter().find(|s| s.id == id).unwrap()
}

fn purchase_row<'a>(db: &'a Database, id: &str) -> &'a Invoice {
    db.tables.purchases.iter().find(|s| s.id == id).unwrap()
}

fn balance_row<'a>(db: &'a Database, party: &str) -> &'a Balance {
    db.tables.balances.iter().find(|b| b.party_id == party).unwrap()
}

/// How many transactions debit another amount than they credit.
fn unbalanced_txns(db: &Database) -> usize {
    let lines = &db.tables.journal;
    lines
        .iter()
        .filter(|l| {
            let drift: i64 = lines
                .iter()
                .filter(|m| m.txn_id == l.txn_id)
                .map(|m| m.debit_minor - m.credit_minor)
                .sum();
            drift != 0
        })
        .count()
}

/// What the journal has booked on the account with a role.
fn booked(db: &Database, role: &str) -> i64 {
    let t = &db.tables;
    t.journal
        .iter()
        .filter(|l| {
            t.accounts.iter().any(|a| {
                a.id == l.account_id && a.doc.get("system_role").and_then(|v| v.as_str()) == Some(role)
            })
        })
        .map(|l| l.debit_minor - l.credit_minor)
        .sum()
}

#[test]
fn business_day_then_rebuild_is_identical() {
    let mut conn = open_in_memory_with_schema().unwrap();
    let mut hlc = Hlc::new("deviceA");
    {
        let mut c = ctx(&mut conn, &mut hlc);
        handle_account_opened(&mut c, "bank", "Bank", "asset", "debit", Some("bank")).unwrap();
        handle_account_opened(&mut c, "inv", "Inventory", "asset", "debit", Some("inventory")).unwrap();
        handle_account_opened(&mut c, "ar", "AR", "asset", "debit", Some("accounts_receivable")).unwrap();
        handle_account_opened(&mut c, "ap", "AP", "liability", "credit", Some("accounts_payable")).unwrap();
        handle_account_opened(&mut c, "sales_acct", "Sales", "income", "credit", Some("sales")).unwrap();
        handle_account_opened(&mut c, "cogs_acct", "COGS", "expense", "debit", Some("cogs")).unwrap();
        handle_party_created(&mut c, "sup1", "Sup", "supplier").unwrap();
        handle_party_created(&mut c, "cust1", "Cust", "customer").unwrap();
        handle_item_defined(&mut c, "itemA", "A", "A", "ea").unwrap();
        handle_purchase_recorded(&mut c, "pur1", "sup1", "2026-01-01", "credit",
            vec![PurchaseLineInput{ item_id:"itemA".into(), qty:10, unit_cost_minor:500 }]).unwrap();
        handle_sale_recorded(&mut c, "sale1", "cust1", "2026-02-01", "credit",
            vec![SaleLineInput{ item_id:"itemA".into(), qty:4, unit_price_minor:1000, lot_picks: None }]).unwrap();
        handle_payment_received(&mut c, "pay1", "cust1", 4000, "2026-03-01",
            vec![AllocInput{ target_id:"sale1".into(), target_type:"sale".into(), amount_minor:4000 }]).unwrap();
    }

    let snap = |conn: &Database| -> (i64, i64, i64, String) {
        let lot_rem = lot_row(conn, "pur1#lot0").qty_remaining;
        let cogs = conn.tables.sale_lines.iter().find(|l| l.sale_id == "sale1").unwrap().cogs_minor;
        let out = sale_row(conn, "sale1").outstanding_minor;
        let lot_id = conn.tables.consumptions[0].lot_id.clone();
        (lot_rem, cogs, out, lot_id)
    };
    let before = snap(&conn);
    assert_eq!(before, (6, 2000, 0, "pur1#lot0".to_string()));

    let unbalanced = unbalanced_txns(&conn);
    assert_eq!(unbalanced, 0, "every txn_id must have SUM(debit)=SUM(credit)");

    rebuild(&mut conn).unwrap();
    let after = snap(&conn);
    assert_eq!(before, after, "rebuild must reproduce identical projection state");
    let unbalanced_after = unbalanced_txns(&conn);
    assert_eq!(unbalanced_after, 0, "double-entry balance must survive rebuild");
}

#[test]
fn rejected_command_leaves_log_untouched() {
    let mut conn = open_in_memory_with_schema().unwrap();
    let mut hlc = Hlc::new("deviceA");
    {
        let mut c = ctx(&mut conn, &mut hlc);
        handle_account_opened(&mut c, "bank", "Bank", "asset", "debit", Some("bank")).unwrap();
        handle_account_opened(&mut c, "inv", "Inventory", "asset", "debit", Some("inventory")).unwrap();
        handle_account_opened(&mut c, "ap", "AP", "liability", "credit", Some("accounts_payable")).unwrap();
        handle_party_created(&mut c, "sup1", "Sup", "supplier").unwrap();
        handle_item_defined(&mut c, "itemA", "A", "A", "ea").unwrap();
        handle_purchase_recorded(&mut c, "pur1", "sup1", "2026-01-01", "cash",
            vec![PurchaseLineInput{ item_id:"itemA".into(), qty:10, unit_cost_minor:500 }]).unwrap();
    }
    let count_before = conn.events.len();
    {
        let mut c = ctx(&mut conn, &mut hlc);
        let bad = handle_party_created(&mut c, "sup1", "dup", "supplier");
        assert!(bad.is_err());
    }
    let count_after = conn.events.len();
    assert_eq!(count_before, count_after, "rejected command must not append");
}

#[test]
fn sale_return_roundtrip_restores_inventory_and_writes_return_lines() {
    let mut conn = open_in_memory_with_schema().unwrap();
    let mut hlc = Hlc::new("deviceA");
    {
        let mut c = ctx(&mut conn, &mut hlc);
        handle_account_opened(&mut c, "bank", "Bank", "asset", "debit", Some("bank")).unwrap();
        handle_account_opened(&mut c, "inv", "Inventory", "asset", "debit", Some("inventory")).unwrap();
        handle_account_opened(&mut c, "ar", "AR", "asset", "debit", Some("accounts_receivable")).unwrap();
        handle_account_opened(&mut c, "sales_acct", "Sales", "income", "credit", Some("sales")).unwrap();
        handle_account_opened(&mut c, "cogs_acct", "COGS", "expense", "debit", Some("cogs")).unwrap();
        handle_party_created(&mut c, "sup1", "Sup", "supplier").unwrap();
        handle_party_created(&mut c, "cust1", "Cust", "customer").unwrap();
        handle_item_defined(&mut c, "itemA", "A", "A", "ea").unwrap();
        handle_purchase_recorded(&mut c, "pur1", "sup1", "2026-01-01", "cash",
            vec![PurchaseLineInput{ item_id:"itemA".into(), qty:10, unit_cost_minor:500 }]).unwrap();
        handle_sale_recorded(&mut c, "sale1", "cust1", "2026-02-01", "cash",
            vec![SaleLineInput{ item_id:"itemA".into(), qty:6, unit_price_minor:1000, lot_picks: None }]).unwrap();
    }
    let before: i64 = lot_row(&conn, "pur1#lot0").qty_remaining;
    assert_eq!(before, 4);
    {
        let mut c = ctx(&mut conn, &mut hlc);
        handle_sale_return_recorded(&mut c, "sret1", "sale1", "2026-03-01",
            vec![SaleReturnItemInput{ item_id:"itemA".into(), lot_returns: vec![("pur1#lot0".into(), 3)] }]).unwrap();
    }
    let after: i64 = lot_row(&conn, "pur1#lot0").qty_remaining;
    assert_eq!(after, 7, "return must restore 3 units");
    let rl_count = conn.tables.return_lines.iter().filter(|l| l.return_id == "sret1").count();
    assert_eq!(rl_count, 1);
    let cost_restored = conn.tables.returns[0].cost_restored_minor;
    assert_eq!(cost_restored, 1500);
}

#[test]
fn transaction_reversed_roundtrip_flattens_the_journal() {
    let mut conn = open_in_memory_with_schema().unwrap();
    let mut hlc = Hlc::new("deviceA");
    {
        let mut c = ctx(&mut conn, &mut hlc);
        handle_account_opened(&mut c, "bank", "Bank", "asset", "debit", Some("bank")).unwrap();
        handle_account_opened(&mut c, "inv", "Inventory", "asset", "debit", Some("inventory")).unwrap();
        handle_account_opened(&mut c, "ap", "AP", "liability", "credit", Some("accounts_payable")).unwrap();
        handle_party_created(&mut c, "sup1", "Sup", "supplier").unwrap();
        handle_item_defined(&mut c, "itemA", "A", "A", "ea").unwrap();
    }
        let inv_before = booked(&conn, "inventory");
    let pur_ev = {
        let mut c = ctx(&mut conn, &mut hlc);
        handle_purchase_recorded(&mut c, "pur1", "sup1", "2026-01-01", "cash",
            vec![PurchaseLineInput{ item_id:"itemA".into(), qty:10, unit_cost_minor:500 }]).unwrap()
    };
    assert_eq!(booked(&conn, "inventory"), inv_before + 5000);
    {
        let mut c = ctx(&mut conn, &mut hlc);
        handle_transaction_reversed(&mut c, &pur_ev.id, "entered in error").unwrap();
    }
    assert_eq!(booked(&conn, "inventory"), inv_before,
        "reversal must net Inventory back");
    let reversed = purchase_row(&conn, "pur1").reversed;
    assert!(reversed, "the purchase must be marked reversed");
}

#[test]
fn payment_reversal_reopens_invoice_and_restores_party() {
    let mut conn = open_in_memory_with_schema().unwrap();
    let mut hlc = Hlc::new("deviceA");
    {
        let mut c = ctx(&mut conn, &mut hlc);
        handle_account_opened(&mut c, "bank", "Bank", "asset", "debit", Some("bank")).unwrap();
        handle_account_opened(&mut c, "inv", "Inventory", "asset", "debit", Some("inventory")).unwrap();
        handle_account_opened(&mut c, "ar", "AR", "asset", "debit", Some("accounts_receivable")).unwrap();
        handle_account_opened(&mut c, "sales_acct", "Sales", "income", "credit", Some("sales")).unwrap();
        handle_account_opened(&mut c, "cogs_acct", "COGS", "expense", "debit", Some("cogs")).unwrap();
        handle_party_created(&mut c, "sup1", "Sup", "supplier").unwrap();
        handle_party_created(&mut c, "cust1", "Cust", "customer").unwrap();
        handle_item_defined(&mut c, "itemA", "A", "A", "ea").unwrap();
        handle_purchase_recorded(&mut c, "pur1", "sup1", "2026-01-01", "cash",
            vec![PurchaseLineInput{ item_id:"itemA".into(), qty:10, unit_cost_minor:100 }]).unwrap();
        handle_sale_recorded(&mut c, "sale1", "cust1", "2026-02-01", "credit",
            vec![SaleLineInput{ item_id:"itemA".into(), qty:5, unit_price_minor:1000, lot_picks: None }]).unwrap();
    }
    // Payment settles the sale fully (5000).
    let pay_ev = {
        let mut c = ctx(&mut conn, &mut hlc);
        handle_payment_received(&mut c, "pay1", "cust1", 5000, "2026-03-01",
            vec![AllocInput{ target_id:"sale1".into(), target_type:"sale".into(), amount_minor:5000 }]).unwrap()
    };
    // Verify settled state.
    let out_before: i64 = sale_row(&conn, "sale1").outstanding_minor;
    assert_eq!(out_before, 0);
    let recv_before: i64 = balance_row(&conn, "cust1").receivable_minor;
    assert_eq!(recv_before, 0);
    // Reverse the payment.
    {
        let mut c = ctx(&mut conn, &mut hlc);
        handle_transaction_reversed(&mut c, &pay_ev.id, "payment error").unwrap();
    }
    // Invoice must re-open, party receivable must restore.
    let out_after: i64 = sale_row(&conn, "sale1").outstanding_minor;
    assert_eq!(out_after, 5000, "invoice must re-open after payment reversal");
    let recv_after: i64 = balance_row(&conn, "cust1").receivable_minor;
    assert_eq!(recv_after, 5000, "receivable must restore");
    // Payment row must be deleted.
    let pay_count = conn.tables.payments.iter().filter(|p| p.id == "pay1").count();
    assert_eq!(pay_count, 0, "the payment must be gone");
}
