use accounting_core::tables::Lot;
use accounting_core::{
    ensure_anon_supplier, handle_account_opened, handle_expense_recorded, handle_inventory_adjusted,
    handle_inventory_found, handle_item_defined, handle_party_created, handle_purchase_recorded,
    handle_transfer_recorded, open_in_memory_with_schema, rebuild, AdjustLineInput, CommandContext,
    CommandError, Database, FoundLineInput, Hlc, Json, PurchaseLineInput,
};

fn fixture() -> (Database, Hlc) {
    (open_in_memory_with_schema().unwrap(), Hlc::new("deviceA"))
}

fn ctx<'a>(conn: &'a mut Database, hlc: &'a mut Hlc) -> CommandContext<'a> {
    CommandContext {
        conn,
        hlc,
        physical_now: 1000,
        device_id: "deviceA".into(),
        user_id: "owner-1".into(),
    }
}

/// The value at a path through a document.
fn at<'a>(j: &'a Json, path: &str) -> &'a Json {
    path.split('/').fold(j, |v, k| match k.parse::<usize>() {
        Ok(i) => &v.as_array().unwrap()[i],
        Err(_) => v.get(k).unwrap(),
    })
}

fn text<'a>(j: &'a Json, path: &str) -> &'a str {
    at(j, path).as_str().unwrap()
}

fn lot_row<'a>(db: &'a Database, id: &str) -> &'a Lot {
    db.tables.lots.iter().find(|l| l.id == id).unwrap()
}

fn seed_accounts_items(conn: &mut Database, hlc: &mut Hlc) {
    let mut c = ctx(conn, hlc);
    handle_account_opened(&mut c, "bank", "Bank", "asset", "debit", Some("bank")).unwrap();
    handle_account_opened(&mut c, "rent", "Rent", "expense", "debit", Some("rent")).unwrap();
    handle_account_opened(&mut c, "shrink", "Shrinkage", "expense", "debit", Some("shrinkage")).unwrap();
    handle_account_opened(&mut c, "invgain", "Gain", "income", "credit", Some("inventory_gain")).unwrap();
    handle_account_opened(&mut c, "inv", "Inventory", "asset", "debit", Some("inventory")).unwrap();
    handle_account_opened(&mut c, "ap", "A/P", "liability", "credit", Some("accounts_payable")).unwrap();
    handle_party_created(&mut c, "sup1", "Sup", "supplier").unwrap();
    handle_item_defined(&mut c, "itemA", "A", "A", "ea").unwrap();
    handle_purchase_recorded(&mut c, "pur1", "sup1", "2026-01-01", "cash",
        vec![PurchaseLineInput{ item_id:"itemA".into(), qty:10, unit_cost_minor:100 }]).unwrap();
}

#[test]
fn expense_rejects_non_expense_account_and_zero_amount() {
    let (mut conn, mut hlc) = fixture();
    seed_accounts_items(&mut conn, &mut hlc);
    let mut c = ctx(&mut conn, &mut hlc);
    assert!(handle_expense_recorded(&mut c, "e1", "bank", 500, "2026-02-01", "cash", None, None).is_err());
    assert!(handle_expense_recorded(&mut c, "e2", "rent", 0, "2026-02-01", "cash", None, None).is_err());
    assert!(handle_expense_recorded(&mut c, "e3", "rent", 500, "2026-02-01", "cash", None, None).is_ok());
}

#[test]
fn expense_credit_requires_supplier_and_cash_forbids_one() {
    let (mut conn, mut hlc) = fixture();
    seed_accounts_items(&mut conn, &mut hlc);
    let mut c = ctx(&mut conn, &mut hlc);
    assert!(handle_expense_recorded(&mut c, "e1", "rent", 500, "2026-02-01", "credit", None, None).is_err());
    assert!(handle_expense_recorded(&mut c, "e2", "rent", 500, "2026-02-01", "credit", Some("ghost"), None).is_err());
    assert!(handle_expense_recorded(&mut c, "e3", "rent", 500, "2026-02-01", "credit", Some("sup1"), None).is_ok());
    assert!(handle_expense_recorded(&mut c, "e4", "rent", 500, "2026-02-01", "cash", Some("sup1"), None).is_err());
}

#[test]
fn no_expense_is_owed_to_a_seeded_party() {
    let (mut conn, mut hlc) = fixture();
    seed_accounts_items(&mut conn, &mut hlc);
    ensure_anon_supplier(&mut conn, &mut hlc, 1000, "deviceA").unwrap();
    rebuild(&mut conn).unwrap();
    let before = conn.tables.copy();
    let mut c = ctx(&mut conn, &mut hlc);
    let err = handle_expense_recorded(
        &mut c, "e1", "rent", 500, "2026-02-01", "credit", Some("party_anon_supplier"), None,
    )
    .unwrap_err();
    assert_eq!(
        err,
        CommandError::Validation(
            "party_anon_supplier is a built-in party for cash trade and cannot be used on credit; \
             record the counterparty first"
                .to_string()
        )
    );
    assert!(c.conn.tables == before);
    assert!(c.conn.events.iter().all(|e| e.event_type != "ExpenseRecorded"));
}

#[test]
fn transfer_rejects_self_and_zero() {
    let (mut conn, mut hlc) = fixture();
    seed_accounts_items(&mut conn, &mut hlc);
    let mut c = ctx(&mut conn, &mut hlc);
    assert!(handle_transfer_recorded(&mut c, "t1", "bank", "bank", 100, "2026-02-01", None).is_err());
    assert!(handle_transfer_recorded(&mut c, "t2", "bank", "rent", 0, "2026-02-01", None).is_err());
    assert!(handle_transfer_recorded(&mut c, "t3", "bank", "rent", 100, "2026-02-01", None).is_ok());
}

#[test]
fn inventory_adjusted_requires_negative_delta_and_bounds() {
    let (mut conn, mut hlc) = fixture();
    seed_accounts_items(&mut conn, &mut hlc);
    {
        let mut c = ctx(&mut conn, &mut hlc);
        assert!(handle_inventory_adjusted(&mut c, "adj1", "2026-02-01",
            vec![AdjustLineInput{ item_id:"itemA".into(), lot_id:"pur1#lot0".into(), qty_delta:3, reason_code:"x".into(), expense_account_id:"shrink".into() }]).is_err());
    }
    {
        let mut c = ctx(&mut conn, &mut hlc);
        assert!(handle_inventory_adjusted(&mut c, "adj2", "2026-02-01",
            vec![AdjustLineInput{ item_id:"itemA".into(), lot_id:"pur1#lot0".into(), qty_delta:-15, reason_code:"x".into(), expense_account_id:"shrink".into() }]).is_err());
    }
    {
        let mut c = ctx(&mut conn, &mut hlc);
        handle_inventory_adjusted(&mut c, "adj3", "2026-02-01",
            vec![AdjustLineInput{ item_id:"itemA".into(), lot_id:"pur1#lot0".into(), qty_delta:-4, reason_code:"damage".into(), expense_account_id:"shrink".into() }]).expect("ok");
    }
    let rem: i64 = lot_row(&conn, "pur1#lot0").qty_remaining;
    assert_eq!(rem, 6);
}

#[test]
fn inventory_found_creates_new_lot_with_frozen_id() {
    let (mut conn, mut hlc) = fixture();
    seed_accounts_items(&mut conn, &mut hlc);
    let ev = {
        let mut c = ctx(&mut conn, &mut hlc);
        handle_inventory_found(&mut c, "found1", "2026-02-01",
            vec![FoundLineInput{ item_id:"itemA".into(), qty:5, unit_cost_minor:120, acquired_at:"2026-02-01".into(), income_account_id:"invgain".into() }]).expect("ok")
    };
    assert_eq!(text(&ev.payload, "lines/0/lotId"), "found1#lot0");
    let (item, rem) = (&lot_row(&conn, "found1#lot0").item_id, lot_row(&conn, "found1#lot0").qty_remaining);
    assert_eq!(item, "itemA");
    assert_eq!(rem, 5);
}
