use accounting_core::tables::Lot;
use accounting_core::{
    handle_item_defined, handle_party_created, handle_purchase_recorded,
    handle_purchase_return_recorded, open_in_memory_with_schema, rebuild, run_genesis,
    CommandContext, CommandError, Database, Hlc, Json, PurchaseLineInput, PurchaseReturnLineInput,
};

fn fixture() -> (Database, Hlc) {
    (open_in_memory_with_schema().unwrap(), Hlc::new("deviceA"))
}

fn ctx<'a>(conn: &'a mut Database, hlc: &'a mut Hlc) -> CommandContext<'a> {
    CommandContext {
        conn,
        hlc,
        physical_now: 1000,
        device_id: "deviceA".into(),
        user_id: "owner-1".into(),
    }
}

/// The value at a path through a document.
fn at<'a>(j: &'a Json, path: &str) -> &'a Json {
    path.split('/').fold(j, |v, k| match k.parse::<usize>() {
        Ok(i) => &v.as_array().unwrap()[i],
        Err(_) => v.get(k).unwrap(),
    })
}

fn text<'a>(j: &'a Json, path: &str) -> &'a str {
    at(j, path).as_str().unwrap()
}

fn events_of(db: &Database, event_type: &str) -> usize {
    db.events.iter().filter(|e| e.event_type == event_type).count()
}

fn lot_row<'a>(db: &'a Database, id: &str) -> &'a Lot {
    db.tables.lots.iter().find(|l| l.id == id).unwrap()
}

fn seed_master(conn: &mut Database, hlc: &mut Hlc) {
    run_genesis(conn, hlc, 1000, "deviceA", "owner-1", "Owner").unwrap();
    rebuild(conn).unwrap();
    let mut c = ctx(conn, hlc);
    handle_party_created(&mut c, "sup1", "Supplier", "supplier").unwrap();
    handle_item_defined(&mut c, "itemA", "SKU-A", "A", "ea").unwrap();
}

#[test]
fn purchase_freezes_deterministic_lot_id_and_creates_lot() {
    let (mut conn, mut hlc) = fixture();
    seed_master(&mut conn, &mut hlc);
    let lines = vec![PurchaseLineInput { item_id: "itemA".into(), qty: 10, unit_cost_minor: 500 }];
    let ev = {
        let mut c = ctx(&mut conn, &mut hlc);
        handle_purchase_recorded(&mut c, "pur1", "sup1", "2026-02-01", "credit", lines).expect("ok")
    };
    assert_eq!(text(&ev.payload, "lines/0/lotId"), "pur1#lot0");
    let (item, rem) = (&lot_row(&conn, "pur1#lot0").item_id, lot_row(&conn, "pur1#lot0").qty_remaining);
    assert_eq!(item, "itemA");
    assert_eq!(rem, 10);
}

#[test]
fn purchase_rejects_unknown_supplier_and_writes_nothing() {
    let (mut conn, mut hlc) = fixture();
    seed_master(&mut conn, &mut hlc);
    let lines = vec![PurchaseLineInput { item_id: "itemA".into(), qty: 1, unit_cost_minor: 1 }];
    let err = {
        let mut c = ctx(&mut conn, &mut hlc);
        handle_purchase_recorded(&mut c, "pur1", "ghost", "2026-02-01", "credit", lines).unwrap_err()
    };
    assert!(matches!(err, CommandError::Validation(_)));
    let n = events_of(&conn, "PurchaseRecorded");
    assert_eq!(n, 0);
}

#[test]
fn purchase_rejects_zero_qty() {
    let (mut conn, mut hlc) = fixture();
    seed_master(&mut conn, &mut hlc);
    let lines = vec![PurchaseLineInput { item_id: "itemA".into(), qty: 0, unit_cost_minor: 500 }];
    let mut c = ctx(&mut conn, &mut hlc);
    assert!(handle_purchase_recorded(&mut c, "pur1", "sup1", "2026-02-01", "credit", lines).is_err());
}

#[test]
fn purchase_return_over_lot_remaining_rejected() {
    let (mut conn, mut hlc) = fixture();
    seed_master(&mut conn, &mut hlc);
    {
        let mut c = ctx(&mut conn, &mut hlc);
        handle_purchase_recorded(&mut c, "pur1", "sup1", "2026-02-01", "credit",
            vec![PurchaseLineInput{ item_id:"itemA".into(), qty:10, unit_cost_minor:500 }]).unwrap();
    }
    let err = {
        let mut c = ctx(&mut conn, &mut hlc);
        handle_purchase_return_recorded(&mut c, "pret1", "pur1", "2026-03-01",
            vec![PurchaseReturnLineInput{ item_id:"itemA".into(), lot_id:"pur1#lot0".into(), qty:15, unit_cost_minor:500 }]).unwrap_err()
    };
    assert!(matches!(err, CommandError::Validation(_)));
    let rem: i64 = lot_row(&conn, "pur1#lot0").qty_remaining;
    assert_eq!(rem, 10);
}

#[test]
fn purchase_return_valid_draws_down_lot() {
    let (mut conn, mut hlc) = fixture();
    seed_master(&mut conn, &mut hlc);
    {
        let mut c = ctx(&mut conn, &mut hlc);
        handle_purchase_recorded(&mut c, "pur1", "sup1", "2026-02-01", "credit",
            vec![PurchaseLineInput{ item_id:"itemA".into(), qty:10, unit_cost_minor:500 }]).unwrap();
    }
    {
        let mut c = ctx(&mut conn, &mut hlc);
        handle_purchase_return_recorded(&mut c, "pret1", "pur1", "2026-03-01",
            vec![PurchaseReturnLineInput{ item_id:"itemA".into(), lot_id:"pur1#lot0".into(), qty:4, unit_cost_minor:500 }]).expect("ok");
    }
    let rem: i64 = lot_row(&conn, "pur1#lot0").qty_remaining;
    assert_eq!(rem, 6);
}

#[test]
fn purchase_return_lot_item_mismatch_rejected() {
    let (mut conn, mut hlc) = fixture();
    seed_master(&mut conn, &mut hlc);
    {
        let mut c = ctx(&mut conn, &mut hlc);
        handle_item_defined(&mut c, "itemB", "SKU-B", "B", "ea").unwrap();
        handle_purchase_recorded(&mut c, "pur1", "sup1", "2026-02-01", "credit",
            vec![PurchaseLineInput{ item_id:"itemA".into(), qty:10, unit_cost_minor:500 }]).unwrap();
    }
    let mut c = ctx(&mut conn, &mut hlc);
    let err = handle_purchase_return_recorded(&mut c, "pret1", "pur1", "2026-03-01",
        vec![PurchaseReturnLineInput{ item_id:"itemB".into(), lot_id:"pur1#lot0".into(), qty:1, unit_cost_minor:500 }]).unwrap_err();
    assert!(matches!(err, CommandError::Validation(_)));
}
