use accounting_core::tables::Lot;
use accounting_core::{
    handle_item_defined, handle_party_created, handle_purchase_recorded, handle_sale_recorded,
    handle_sale_return_recorded, open_in_memory_with_schema, rebuild, run_genesis, CommandContext,
    CommandError, Database, Hlc, Json, PurchaseLineInput, SaleLineInput, SaleReturnItemInput,
};

fn fixture() -> (Database, Hlc) {
    (open_in_memory_with_schema().unwrap(), Hlc::new("deviceA"))
}

fn ctx<'a>(conn: &'a mut Database, hlc: &'a mut Hlc) -> CommandContext<'a> {
    CommandContext {
        conn,
        hlc,
        physical_now: 1000,
        device_id: "deviceA".into(),
        user_id: "owner-1".into(),
    }
}

/// The value at a path through a document.
fn at<'a>(j: &'a Json, path: &str) -> &'a Json {
    path.split('/').fold(j, |v, k| match k.parse::<usize>() {
        Ok(i) => &v.as_array().unwrap()[i],
        Err(_) => v.get(k).unwrap(),
    })
}

fn number(j: &Json, path: &str) -> i64 {
    at(j, path).as_i64().unwrap()
}

fn text<'a>(j: &'a Json, path: &str) -> &'a str {
    at(j, path).as_str().unwrap()
}

fn events_of(db: &Database, event_type: &str) -> usize {
    db.events.iter().filter(|e| e.event_type == event_type).count()
}

fn lot_row<'a>(db: &'a Database, id: &str) -> &'a Lot {
    db.tables.lots.iter().find(|l| l.id == id).unwrap()
}

fn seed(conn: &mut Database, hlc: &mut Hlc) {
    run_genesis(conn, hlc, 1000, "deviceA", "owner-1", "Owner").unwrap();
    rebuild(conn).unwrap();
    let mut c = ctx(conn, hlc);
    handle_party_created(&mut c, "cust1", "Cust", "customer").unwrap();
    handle_party_created(&mut c, "sup1", "Sup", "supplier").unwrap();
    handle_item_defined(&mut c, "itemA", "SKU-A", "A", "ea").unwrap();
    handle_purchase_recorded(&mut c, "purOld", "sup1", "2026-01-01", "cash",
        vec![PurchaseLineInput{ item_id: "itemA".into(), qty: 10, unit_cost_minor: 500 }]).unwrap();
    handle_purchase_recorded(&mut c, "purNew", "sup1", "2026-02-01", "cash",
        vec![PurchaseLineInput{ item_id: "itemA".into(), qty: 10, unit_cost_minor: 700 }]).unwrap();
}

#[test]
fn sale_defaults_oldest_lot_first_and_freezes_cogs() {
    let (mut conn, mut hlc) = fixture();
    seed(&mut conn, &mut hlc);
    let ev = {
        let mut c = ctx(&mut conn, &mut hlc);
        handle_sale_recorded(&mut c, "sale1", "cust1", "2026-03-01", "cash",
            vec![SaleLineInput{ item_id:"itemA".into(), qty:12, unit_price_minor:1000, lot_picks: None }]).expect("ok")
    };
    assert_eq!(number(&ev.payload, "lines/0/revenueMinor"), 12000);
    assert_eq!(number(&ev.payload, "lines/0/cogsMinor"), 6400);
    let cons = at(&ev.payload, "lines/0/lotConsumption").as_array().unwrap();
    assert_eq!(text(&cons[0], "lotId"), "purOld#lot0");
    assert_eq!(number(&cons[0], "qtyTaken"), 10);
    assert_eq!(number(&cons[0], "unitCostMinor"), 500);
    assert_eq!(text(&cons[1], "lotId"), "purNew#lot0");
    assert_eq!(number(&cons[1], "qtyTaken"), 2);
    let old_rem: i64 = lot_row(&conn, "purOld#lot0").qty_remaining;
    let new_rem: i64 = lot_row(&conn, "purNew#lot0").qty_remaining;
    assert_eq!(old_rem, 0);
    assert_eq!(new_rem, 8);
}

#[test]
fn sale_oversell_across_all_lots_rejected_and_writes_nothing() {
    let (mut conn, mut hlc) = fixture();
    seed(&mut conn, &mut hlc);
    let err = {
        let mut c = ctx(&mut conn, &mut hlc);
        handle_sale_recorded(&mut c, "sale1", "cust1", "2026-03-01", "cash",
            vec![SaleLineInput{ item_id:"itemA".into(), qty:25, unit_price_minor:1000, lot_picks: None }]).unwrap_err()
    };
    assert!(matches!(err, CommandError::Validation(_)));
    let n = events_of(&conn, "SaleRecorded");
    assert_eq!(n, 0);
    let old_rem: i64 = lot_row(&conn, "purOld#lot0").qty_remaining;
    assert_eq!(old_rem, 10);
}

#[test]
fn sale_two_same_item_lines_exceeding_one_lot_rejected() {
    let (mut conn, mut hlc) = fixture();
    run_genesis(&mut conn, &mut hlc, 1000, "deviceA", "owner-1", "Owner").unwrap();
    rebuild(&mut conn).unwrap();
    {
        let mut c = ctx(&mut conn, &mut hlc);
        handle_party_created(&mut c, "cust1", "Cust", "customer").unwrap();
        handle_party_created(&mut c, "sup1", "Sup", "supplier").unwrap();
        handle_item_defined(&mut c, "itemA", "SKU-A", "A", "ea").unwrap();
        handle_purchase_recorded(&mut c, "purOld", "sup1", "2026-01-01", "cash",
            vec![PurchaseLineInput{ item_id: "itemA".into(), qty: 10, unit_cost_minor: 500 }]).unwrap();
    }
    let err = {
        let mut c = ctx(&mut conn, &mut hlc);
        handle_sale_recorded(&mut c, "sale1", "cust1", "2026-03-01", "cash", vec![
            SaleLineInput{ item_id:"itemA".into(), qty:6, unit_price_minor:1000, lot_picks: None },
            SaleLineInput{ item_id:"itemA".into(), qty:6, unit_price_minor:1000, lot_picks: None },
        ]).unwrap_err()
    };
    assert!(matches!(err, CommandError::Validation(_)));
    let n = events_of(&conn, "SaleRecorded");
    assert_eq!(n, 0);
    let rem: i64 = lot_row(&conn, "purOld#lot0").qty_remaining;
    assert_eq!(rem, 10);
}

#[test]
fn sale_two_picks_same_lot_in_one_line_exceeding_stock_rejected() {
    let (mut conn, mut hlc) = fixture();
    seed(&mut conn, &mut hlc);
    let mut c = ctx(&mut conn, &mut hlc);
    let err = handle_sale_recorded(&mut c, "sale1", "cust1", "2026-03-01", "cash",
        vec![SaleLineInput{ item_id:"itemA".into(), qty:12, unit_price_minor:1000,
            lot_picks: Some(vec![("purOld#lot0".into(), 6), ("purOld#lot0".into(), 6)]) }]).unwrap_err();
    assert!(matches!(err, CommandError::Validation(_)));
}

#[test]
fn sale_user_override_lot_pick_honored_and_oversell_still_enforced() {
    let (mut conn, mut hlc) = fixture();
    seed(&mut conn, &mut hlc);
    let err = {
        let mut c = ctx(&mut conn, &mut hlc);
        handle_sale_recorded(&mut c, "sale1", "cust1", "2026-03-01", "cash",
            vec![SaleLineInput{ item_id:"itemA".into(), qty:12, unit_price_minor:1000,
                lot_picks: Some(vec![("purNew#lot0".into(), 12)]) }]).unwrap_err()
    };
    assert!(matches!(err, CommandError::Validation(_)));
    let ev = {
        let mut c = ctx(&mut conn, &mut hlc);
        handle_sale_recorded(&mut c, "sale1", "cust1", "2026-03-01", "cash",
            vec![SaleLineInput{ item_id:"itemA".into(), qty:5, unit_price_minor:1000,
                lot_picks: Some(vec![("purNew#lot0".into(), 5)]) }]).expect("ok")
    };
    assert_eq!(number(&ev.payload, "lines/0/cogsMinor"), 3500);
}

#[test]
fn sale_override_qty_mismatch_rejected() {
    let (mut conn, mut hlc) = fixture();
    seed(&mut conn, &mut hlc);
    let mut c = ctx(&mut conn, &mut hlc);
    let err = handle_sale_recorded(&mut c, "sale1", "cust1", "2026-03-01", "cash",
        vec![SaleLineInput{ item_id:"itemA".into(), qty:5, unit_price_minor:1000,
            lot_picks: Some(vec![("purOld#lot0".into(), 4)]) }]).unwrap_err();
    assert!(matches!(err, CommandError::Validation(_)));
}

#[test]
fn sale_return_emits_nested_lot_returns_and_restores_lot() {
    let (mut conn, mut hlc) = fixture();
    seed(&mut conn, &mut hlc);
    {
        let mut c = ctx(&mut conn, &mut hlc);
        handle_sale_recorded(&mut c, "sale1", "cust1", "2026-03-01", "credit",
            vec![SaleLineInput{ item_id:"itemA".into(), qty:10, unit_price_minor:1000, lot_picks: None }]).unwrap();
    }
    let ev = {
        let mut c = ctx(&mut conn, &mut hlc);
        handle_sale_return_recorded(&mut c, "sret1", "sale1", "2026-04-01",
            vec![SaleReturnItemInput{ item_id:"itemA".into(),
                lot_returns: vec![("purOld#lot0".into(), 3)] }]).expect("ok")
    };
    assert_eq!(text(&ev.payload, "lines/0/itemId"), "itemA");
    assert_eq!(number(&ev.payload, "lines/0/qty"), 3);
    assert_eq!(number(&ev.payload, "lines/0/unitPriceMinor"), 1000);
    let lr = at(&ev.payload, "lines/0/lotReturns").as_array().unwrap();
    assert_eq!(text(&lr[0], "lotId"), "purOld#lot0");
    assert_eq!(number(&lr[0], "qtyReturned"), 3);
    assert_eq!(number(&lr[0], "unitCostMinor"), 500);
    assert!(ev.payload.get("revenueReversedMinor").is_none());
    assert!(ev.payload.get("costRestoredMinor").is_none());
    let rem: i64 = lot_row(&conn, "purOld#lot0").qty_remaining;
    assert_eq!(rem, 3);
}

#[test]
fn sale_return_over_consumed_rejected_and_writes_nothing() {
    let (mut conn, mut hlc) = fixture();
    seed(&mut conn, &mut hlc);
    {
        let mut c = ctx(&mut conn, &mut hlc);
        handle_sale_recorded(&mut c, "sale1", "cust1", "2026-03-01", "credit",
            vec![SaleLineInput{ item_id:"itemA".into(), qty:5, unit_price_minor:1000, lot_picks: None }]).unwrap();
    }
    let err = {
        let mut c = ctx(&mut conn, &mut hlc);
        handle_sale_return_recorded(&mut c, "sret1", "sale1", "2026-04-01",
            vec![SaleReturnItemInput{ item_id:"itemA".into(),
                lot_returns: vec![("purOld#lot0".into(), 8)] }]).unwrap_err()
    };
    assert!(matches!(err, CommandError::Validation(_)));
    let n = events_of(&conn, "SaleReturnRecorded");
    assert_eq!(n, 0);
}

#[test]
fn sale_return_against_reversed_sale_rejected() {
    let (mut conn, mut hlc) = fixture();
    seed(&mut conn, &mut hlc);
    {
        let mut c = ctx(&mut conn, &mut hlc);
        handle_sale_recorded(&mut c, "sale1", "cust1", "2026-03-01", "credit",
            vec![SaleLineInput{ item_id:"itemA".into(), qty:5, unit_price_minor:1000, lot_picks: None }]).unwrap();
    }
    conn.tables.sales[0].reversed = true;
    let err = {
        let mut c = ctx(&mut conn, &mut hlc);
        handle_sale_return_recorded(&mut c, "sret1", "sale1", "2026-04-01",
            vec![SaleReturnItemInput{ item_id:"itemA".into(),
                lot_returns: vec![("purOld#lot0".into(), 2)] }]).unwrap_err()
    };
    assert!(matches!(err, CommandError::Validation(_)));
}
