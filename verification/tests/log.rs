use accounting_core::events::insert_raw_event;
use accounting_core::refs::{count_references, is_referenced, ITEM_REFS, PARTY_REFS};
use accounting_core::tables::{
    Balance, Invoice, Item, Lot, Payment, PurchaseLine, ReturnLine, SaleLine, Tables,
};
use accounting_core::wire::{parse, print};
use accounting_core::{
    append_event, missing_seqs, open_in_memory_with_schema, read_events, DbError, Hlc, Json,
    LedgerEvent,
};

fn json(text: &str) -> Json {
    parse(text).unwrap()
}

fn raw(id: &str, hlc: &str, device: &str, seq: i64, event_type: &str) -> LedgerEvent {
    LedgerEvent {
        id: id.to_string(),
        hlc: hlc.to_string(),
        device_id: device.to_string(),
        user_id: "u".to_string(),
        seq,
        event_type: event_type.to_string(),
        payload: json("{}"),
        created_at: 0,
    }
}

#[test]
fn append_assigns_incrementing_seq_per_device() {
    let mut db = open_in_memory_with_schema().unwrap();
    let mut hlc = Hlc::new("deviceA");

    let e1 = append_event(&mut db, &mut hlc, 1000, "deviceA", "userX",
        "ItemDefined", &json(r#"{"itemId": "i1"}"#)).unwrap();
    let e2 = append_event(&mut db, &mut hlc, 1000, "deviceA", "userX",
        "ItemDefined", &json(r#"{"itemId": "i2"}"#)).unwrap();

    assert_eq!(e1.seq, 1);
    assert_eq!(e2.seq, 2);
    assert_ne!(e1.id, e2.id);
    assert_eq!(e1.id, e1.hlc);
    assert!(e1.id.ends_with(":deviceA"));
}

#[test]
fn payload_round_trips_as_json() {
    let mut db = open_in_memory_with_schema().unwrap();
    let mut hlc = Hlc::new("deviceA");
    append_event(&mut db, &mut hlc, 1000, "deviceA", "userX",
        "ItemDefined", &json(r#"{"itemId": "i1", "sku": "SKU-1"}"#)).unwrap();

    assert_eq!(db.events[0].payload.get("sku").and_then(|v| v.as_str()), Some("SKU-1"));
}

#[test]
fn read_events_returns_hlc_order() {
    let mut db = open_in_memory_with_schema().unwrap();
    let mut hlc = Hlc::new("deviceA");
    append_event(&mut db, &mut hlc, 1000, "deviceA", "u", "A", &json("{}")).unwrap();
    append_event(&mut db, &mut hlc, 1000, "deviceA", "u", "B", &json("{}")).unwrap();
    append_event(&mut db, &mut hlc, 2000, "deviceA", "u", "C", &json("{}")).unwrap();

    let events = read_events(&db).unwrap();
    let types: Vec<&str> = events.iter().map(|e| e.event_type.as_str()).collect();
    assert_eq!(types, vec!["A", "B", "C"], "must be in HLC order");
}

#[test]
fn missing_seq_reports_gap() {
    let mut db = open_in_memory_with_schema().unwrap();
    for (id, seq, t) in [("h1-deviceA", 1, "A"), ("h3-deviceA", 3, "C")] {
        insert_raw_event(&mut db, &raw(id, id, "deviceA", seq, t)).unwrap();
    }
    let gaps = missing_seqs(&db, "deviceA").unwrap();
    assert_eq!(gaps, vec![2], "seq 2 should be reported missing");
}

#[test]
fn no_gap_is_reported_for_an_unknown_device() {
    let mut db = open_in_memory_with_schema().unwrap();
    insert_raw_event(&mut db, &raw("e1", "h1", "deviceA", 4, "A")).unwrap();
    assert_eq!(missing_seqs(&db, "deviceA").unwrap(), vec![1, 2, 3]);
    assert!(missing_seqs(&db, "deviceB").unwrap().is_empty());
}

#[test]
fn events_that_arrive_late_are_read_in_their_place() {
    let mut db = open_in_memory_with_schema().unwrap();
    insert_raw_event(&mut db, &raw("e2", "h2", "deviceA", 1, "Second")).unwrap();
    insert_raw_event(&mut db, &raw("e1", "h1", "deviceB", 1, "First")).unwrap();
    insert_raw_event(&mut db, &raw("e0", "h2", "deviceB", 2, "Between")).unwrap();
    let events = read_events(&db).unwrap();
    let types: Vec<&str> = events.iter().map(|e| e.event_type.as_str()).collect();
    assert_eq!(types, vec!["First", "Between", "Second"]);
}

#[test]
fn an_event_is_stored_once() {
    let mut db = open_in_memory_with_schema().unwrap();
    insert_raw_event(&mut db, &raw("e1", "h1", "deviceA", 1, "A")).unwrap();
    assert_eq!(
        insert_raw_event(&mut db, &raw("e1", "h2", "deviceB", 2, "A")),
        Err(DbError::Unique("events.id".to_string()))
    );
    assert_eq!(
        insert_raw_event(&mut db, &raw("e2", "h2", "deviceA", 1, "A")),
        Err(DbError::Unique("events.device_id, events.seq".to_string()))
    );
    assert_eq!(db.events.len(), 1);
}

fn widget() -> Item {
    Item {
        id: "i1".to_string(),
        doc: json(r#"{"sku":"S1","name":"W","unit":"ea","active":true}"#),
    }
}

fn invoice(id: &str, party: Option<&str>) -> Invoice {
    Invoice {
        id: id.to_string(),
        event_id: "e1".to_string(),
        party_id: party.map(|p| p.to_string()),
        date: "2026-01-01".to_string(),
        terms: "cash".to_string(),
        total_minor: 100,
        outstanding_minor: 0,
        reversed: false,
    }
}

fn sale_line(item: &str) -> SaleLine {
    SaleLine {
        id: "sl1".to_string(),
        sale_id: "s1".to_string(),
        item_id: item.to_string(),
        qty: 1,
        unit_price_minor: 100,
        revenue_minor: 100,
        cogs_minor: 50,
        date: "2026-01-01".to_string(),
    }
}

fn lot(item: &str, supplier: Option<&str>) -> Lot {
    Lot {
        id: "l1".to_string(),
        item_id: item.to_string(),
        source_event_id: "e1".to_string(),
        purchase_id: None,
        unit_cost_minor: 50,
        qty_received: 1,
        qty_remaining: 1,
        acquired_at: "2026-01-01".to_string(),
        supplier_id: supplier.map(|s| s.to_string()),
    }
}

#[test]
fn an_unreferenced_item_counts_zero_and_a_sold_one_does_not() {
    let mut t = Tables::new();
    t.items.push(widget());
    assert_eq!(count_references(&t, &ITEM_REFS, "i1").unwrap(), 0);

    t.sales.push(invoice("s1", None));
    t.sale_lines.push(sale_line("i1"));
    assert_eq!(count_references(&t, &ITEM_REFS, "i1").unwrap(), 1);
    assert!(is_referenced(&t, &ITEM_REFS, "i1"));
    assert!(!is_referenced(&t, &ITEM_REFS, "i2"));
}

/// One row in every column that points at master data: each must be counted, and by the
/// list it belongs to.
#[test]
fn every_referencing_column_is_listed() {
    let mut t = Tables::new();
    t.lots.push(lot("x", Some("y")));
    t.sale_lines.push(sale_line("x"));
    t.purchase_lines.push(PurchaseLine {
        id: "pl1".to_string(),
        purchase_id: "p1".to_string(),
        item_id: "x".to_string(),
        qty: 1,
        unit_cost_minor: 50,
        lot_id: "l1".to_string(),
    });
    t.return_lines.push(ReturnLine {
        id: "rl1".to_string(),
        return_id: "r1".to_string(),
        item_id: "x".to_string(),
        qty: 1,
        unit_price_minor: 100,
        unit_cost_minor: 50,
        lot_id: "l1".to_string(),
    });
    assert_eq!(count_references(&t, &ITEM_REFS, "x").unwrap(), 4);
    assert_eq!(ITEM_REFS.len(), 4);

    t.sales.push(invoice("s1", Some("y")));
    t.purchases.push(invoice("p1", Some("y")));
    t.payments.push(Payment {
        id: "pay1".to_string(),
        event_id: "e1".to_string(),
        direction: "in".to_string(),
        party_id: "y".to_string(),
        amount_minor: 100,
        date: "2026-01-01".to_string(),
    });
    t.balances.push(Balance {
        party_id: "y".to_string(),
        receivable_minor: 0,
        payable_minor: 0,
        unallocated_cr_minor: 0,
        unallocated_dr_minor: 0,
    });
    assert_eq!(count_references(&t, &PARTY_REFS, "y").unwrap(), 5);
    assert_eq!(PARTY_REFS.len(), 5);
    assert_eq!(count_references(&t, &PARTY_REFS, "x").unwrap(), 0);
    assert_eq!(count_references(&t, &ITEM_REFS, "y").unwrap(), 0);
}

#[test]
fn json_reads_and_prints() {
    assert_eq!(
        print(&json(r#"{ "b": [1, -2, 18446744073709551615], "a": "x\ny", "c": null }"#)),
        r#"{"a":"x\ny","b":[1,-2,18446744073709551615],"c":null}"#
    );
    assert_eq!(json("7"), Json::Int(7));
    assert_eq!(json("9223372036854775808"), Json::Uint(9223372036854775808));
    assert_eq!(json("true"), Json::Bool(true));
    assert_eq!(print(&json("1.50")), "1.5");
    assert!(matches!(json("1.5"), Json::Float(_)));
    assert_eq!(json("1.5").as_i64(), None);
    assert_eq!(
        parse("{").unwrap_err(),
        "EOF while parsing an object at line 1 column 1"
    );
}

#[test]
fn a_repeated_member_counts_once_the_later_one() {
    assert_eq!(json(r#"{"a":1,"a":2}"#).get("a"), Some(&Json::Int(2)));
    assert_eq!(print(&json(r#"{"a":1,"a":2}"#)), r#"{"a":2}"#);
}
