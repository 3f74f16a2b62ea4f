use accounting_core::{
    handle_account_opened, handle_item_defined, handle_party_created, handle_payment_received,
    handle_purchase_recorded, handle_sale_recorded, handle_sale_return_recorded,
    handle_transaction_reversed, open_in_memory_with_schema, AllocInput, CommandContext,
    CommandError, Database, Hlc, Json, PurchaseLineInput, SaleLineInput, SaleReturnItemInput,
};

fn fixture() -> (Database, Hlc) {
    (open_in_memory_with_schema().unwrap(), Hlc::new("deviceA"))
}

fn ctx<'a>(conn: &'a mut Database, hlc: &'a mut Hlc) -> CommandContext<'a> {
    CommandContext {
        conn,
        hlc,
        physical_now: 1000,
        device_id: "deviceA".into(),
        user_id: "owner-1".into(),
    }
}

/// The value at a path through a document.
fn at<'a>(j: &'a Json, path: &str) -> &'a Json {
    path.split('/').fold(j, |v, k| match k.parse::<usize>() {
        Ok(i) => &v.as_array().unwrap()[i],
        Err(_) => v.get(k).unwrap(),
    })
}

fn number(j: &Json, path: &str) -> i64 {
    at(j, path).as_i64().unwrap()
}

fn text<'a>(j: &'a Json, path: &str) -> &'a str {
    at(j, path).as_str().unwrap()
}

fn seed(conn: &mut Database, hlc: &mut Hlc) {
    let mut c = ctx(conn, hlc);
    handle_account_opened(&mut c, "bank", "Bank", "asset", "debit", Some("bank")).unwrap();
    handle_account_opened(&mut c, "inv", "Inventory", "asset", "debit", Some("inventory")).unwrap();
    handle_account_opened(&mut c, "ar", "AR", "asset", "debit", Some("accounts_receivable")).unwrap();
    handle_account_opened(&mut c, "ap", "AP", "liability", "credit", Some("accounts_payable")).unwrap();
    handle_account_opened(&mut c, "sales_acct", "Sales", "income", "credit", Some("sales")).unwrap();
    handle_account_opened(&mut c, "cogs_acct", "COGS", "expense", "debit", Some("cogs")).unwrap();
    handle_party_created(&mut c, "sup1", "Sup", "supplier").unwrap();
    handle_party_created(&mut c, "cust1", "Cust", "customer").unwrap();
    handle_item_defined(&mut c, "itemA", "A", "A", "ea").unwrap();
}

#[test]
fn reverse_rejects_master_data_target() {
    let (mut conn, mut hlc) = fixture();
    let item_ev = {
        let mut c = ctx(&mut conn, &mut hlc);
        handle_item_defined(&mut c, "itemA", "A", "A", "ea").unwrap()
    };
    let mut c = ctx(&mut conn, &mut hlc);
    let err = handle_transaction_reversed(&mut c, &item_ev.id, "oops").unwrap_err();
    assert!(matches!(err, CommandError::Validation(_)));
}

#[test]
fn reverse_freezes_negated_journal_lines() {
    let (mut conn, mut hlc) = fixture();
    seed(&mut conn, &mut hlc);
    let pur_ev = {
        let mut c = ctx(&mut conn, &mut hlc);
        handle_purchase_recorded(&mut c, "pur1", "sup1", "2026-01-01", "cash",
            vec![PurchaseLineInput{ item_id:"itemA".into(), qty:10, unit_cost_minor:100 }]).unwrap()
    };
    let rev = {
        let mut c = ctx(&mut conn, &mut hlc);
        handle_transaction_reversed(&mut c, &pur_ev.id, "entered in error").expect("ok")
    };
    let lines = at(&rev.payload, "reversalJournalLines").as_array().unwrap();
    assert!(!lines.is_empty());
    assert!(lines.iter().all(|l| matches!(l.get("accountId"), Some(Json::Str(_)))));
    assert!(lines.iter().all(|l| l.get("accountRole").is_none()));
    let inv_line = lines.iter().find(|l| text(l, "accountId") == "inv").unwrap();
    assert_eq!(number(inv_line, "creditMinor"), 1000);
    let bank_line = lines.iter().find(|l| text(l, "accountId") == "bank").unwrap();
    assert_eq!(number(bank_line, "debitMinor"), 1000);
    let dr: i64 = lines.iter().map(|l| number(l, "debitMinor")).sum();
    let cr: i64 = lines.iter().map(|l| number(l, "creditMinor")).sum();
    assert_eq!(dr, cr);
}

#[test]
fn reverse_rejects_consumed_purchase_lot() {
    let (mut conn, mut hlc) = fixture();
    seed(&mut conn, &mut hlc);
    let pur_ev = {
        let mut c = ctx(&mut conn, &mut hlc);
        handle_purchase_recorded(&mut c, "pur1", "sup1", "2026-01-01", "cash",
            vec![PurchaseLineInput{ item_id:"itemA".into(), qty:10, unit_cost_minor:100 }]).unwrap()
    };
    {
        let mut c = ctx(&mut conn, &mut hlc);
        handle_sale_recorded(&mut c, "sale1", "cust1", "2026-02-01", "cash",
            vec![SaleLineInput{ item_id:"itemA".into(), qty:3, unit_price_minor:200, lot_picks: None }]).unwrap();
    }
    let mut c = ctx(&mut conn, &mut hlc);
    let err = handle_transaction_reversed(&mut c, &pur_ev.id, "x").unwrap_err();
    assert!(matches!(err, CommandError::Validation(_)));
}

#[test]
fn reverse_rejects_double_void() {
    let (mut conn, mut hlc) = fixture();
    seed(&mut conn, &mut hlc);
    let pur_ev = {
        let mut c = ctx(&mut conn, &mut hlc);
        handle_purchase_recorded(&mut c, "pur1", "sup1", "2026-01-01", "cash",
            vec![PurchaseLineInput{ item_id:"itemA".into(), qty:10, unit_cost_minor:100 }]).unwrap()
    };
    { let mut c = ctx(&mut conn, &mut hlc);
      handle_transaction_reversed(&mut c, &pur_ev.id, "first").expect("first ok"); }
    let mut c = ctx(&mut conn, &mut hlc);
    let err = handle_transaction_reversed(&mut c, &pur_ev.id, "second").unwrap_err();
    assert!(matches!(err, CommandError::Validation(_)));
}

#[test]
fn reverse_rejects_sale_with_allocation() {
    let (mut conn, mut hlc) = fixture();
    seed(&mut conn, &mut hlc);
    {
        let mut c = ctx(&mut conn, &mut hlc);
        handle_purchase_recorded(&mut c, "pur1", "sup1", "2026-01-01", "cash",
            vec![PurchaseLineInput{ item_id:"itemA".into(), qty:10, unit_cost_minor:100 }]).unwrap();
    }
    let sale_ev = {
        let mut c = ctx(&mut conn, &mut hlc);
        handle_sale_recorded(&mut c, "sale1", "cust1", "2026-02-01", "credit",
            vec![SaleLineInput{ item_id:"itemA".into(), qty:5, unit_price_minor:1000, lot_picks: None }]).unwrap()
    };
    {
        let mut c = ctx(&mut conn, &mut hlc);
        handle_payment_received(&mut c, "pay1", "cust1", 5000, "2026-03-01",
            vec![AllocInput{ target_id:"sale1".into(), target_type:"sale".into(), amount_minor:5000 }]).unwrap();
    }
    let mut c = ctx(&mut conn, &mut hlc);
    let err = handle_transaction_reversed(&mut c, &sale_ev.id, "x").unwrap_err();
    assert!(matches!(err, CommandError::Validation(_)));
}

#[test]
fn reverse_sale_blocked_by_return() {
    let (mut conn, mut hlc) = fixture();
    seed(&mut conn, &mut hlc);
    {
        let mut c = ctx(&mut conn, &mut hlc);
        handle_purchase_recorded(&mut c, "pur1", "sup1", "2026-01-01", "cash",
            vec![PurchaseLineInput{ item_id:"itemA".into(), qty:10, unit_cost_minor:100 }]).unwrap();
    }
    let sale_ev = {
        let mut c = ctx(&mut conn, &mut hlc);
        handle_sale_recorded(&mut c, "sale1", "cust1", "2026-02-01", "credit",
            vec![SaleLineInput{ item_id:"itemA".into(), qty:5, unit_price_minor:1000, lot_picks: None }]).unwrap()
    };
    {
        let mut c = ctx(&mut conn, &mut hlc);
        handle_sale_return_recorded(&mut c, "sret1", "sale1", "2026-03-01",
            vec![SaleReturnItemInput{ item_id:"itemA".into(), lot_returns: vec![("pur1#lot0".into(), 2)] }]).unwrap();
    }
    let mut c = ctx(&mut conn, &mut hlc);
    let err = handle_transaction_reversed(&mut c, &sale_ev.id, "x").unwrap_err();
    assert!(matches!(err, CommandError::Validation(_)));
}

#[test]
fn reverse_return_blocked_when_restored_units_reconsumed() {
    let (mut conn, mut hlc) = fixture();
    seed(&mut conn, &mut hlc);
    {
        let mut c = ctx(&mut conn, &mut hlc);
        handle_purchase_recorded(&mut c, "pur1", "sup1", "2026-01-01", "cash",
            vec![PurchaseLineInput{ item_id:"itemA".into(), qty:10, unit_cost_minor:100 }]).unwrap();
        handle_sale_recorded(&mut c, "sale1", "cust1", "2026-02-01", "cash",
            vec![SaleLineInput{ item_id:"itemA".into(), qty:6, unit_price_minor:200, lot_picks: None }]).unwrap();
    }
    let ret_ev = {
        let mut c = ctx(&mut conn, &mut hlc);
        handle_sale_return_recorded(&mut c, "sret1", "sale1", "2026-03-01",
            vec![SaleReturnItemInput{ item_id:"itemA".into(), lot_returns: vec![("pur1#lot0".into(), 6)] }]).unwrap()
    };
    {
        let mut c = ctx(&mut conn, &mut hlc);
        handle_sale_recorded(&mut c, "sale2", "cust1", "2026-04-01", "cash",
            vec![SaleLineInput{ item_id:"itemA".into(), qty:8, unit_price_minor:200, lot_picks: None }]).unwrap();
    }
    let mut c = ctx(&mut conn, &mut hlc);
    let err = handle_transaction_reversed(&mut c, &ret_ev.id, "x").unwrap_err();
    assert!(matches!(err, CommandError::Validation(_)));
}
