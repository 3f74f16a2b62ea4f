use accounting_core::dataset::{is_shaped, load, replay};
use accounting_core::wire::parse;
use accounting_core::{
    all_passed, open_in_memory_with_schema, rebuild, run_all_checks, run_genesis, CommandContext,
    CommandError, Database, Hlc, Json,
};

fn json(text: &str) -> Json {
    parse(text).unwrap()
}

fn started() -> (Database, Hlc) {
    let mut db = open_in_memory_with_schema().unwrap();
    let mut hlc = Hlc::new("deviceA");
    run_genesis(&mut db, &mut hlc, 1000, "deviceA", "owner-1", "Owner").unwrap();
    rebuild(&mut db).unwrap();
    (db, hlc)
}

fn ctx<'a>(conn: &'a mut Database, hlc: &'a mut Hlc) -> CommandContext<'a> {
    CommandContext {
        conn,
        hlc,
        physical_now: 1000,
        device_id: "deviceA".into(),
        user_id: "owner-1".into(),
    }
}

const OPENING: [(&str, &str); 4] = [
    ("item_defined", r#"{"item_id":"i1","sku":"S1","name":"Widget","unit":"ea"}"#),
    ("party_created", r#"{"party_id":"sup","name":"Sup","kind":"supplier"}"#),
    ("party_created", r#"{"party_id":"cust","name":"Cust","kind":"customer"}"#),
    (
        "purchase_recorded",
        r#"{"purchase_id":"p1","supplier_id":"sup","date":"2026-01-01","terms":"credit",
            "lines":[{"item_id":"i1","qty":10,"unit_cost_minor":100},
                     {"item_id":"i1","qty":5,"unit_cost_minor":120}]}"#,
    ),
];

#[test]
fn a_dataset_is_replayed_command_by_command() {
    let (mut db, mut hlc) = started();
    let rest = [
        (
            "sale_recorded",
            r#"{"sale_id":"s1","customer_id":"cust","date":"2026-01-02","terms":"credit",
                "lines":[{"item_id":"i1","qty":3,"unit_price_minor":200,
                          "lot_picks":[{"lot_id":"p1#lot1","qty":3}]}]}"#,
        ),
        (
            "sale_return_recorded",
            r#"{"return_id":"r1","original_sale_id":"s1","date":"2026-01-03",
                "lines":[{"item_id":"i1","lot_returns":[["p1#lot1",1]]}]}"#,
        ),
        (
            "payment_received",
            r#"{"payment_id":"pay1","customer_id":"cust","amount_minor":400,"date":"2026-01-04",
                "allocations":[{"target_id":"s1","target_type":"sale","amount_minor":400}]}"#,
        ),
        (
            "payment_made",
            r#"{"payment_id":"pay2","supplier_id":"sup","amount_minor":100,"date":"2026-01-04",
                "allocations":[]}"#,
        ),
        (
            "expense_recorded",
            r#"{"expense_id":"e1","account_id":"acct_rent","amount_minor":30,"date":"2026-01-05",
                "terms":"cash","memo":"rent"}"#,
        ),
        (
            "transfer_recorded",
            r#"{"transfer_id":"t1","from_account_id":"acct_bank","to_account_id":"acct_cash",
                "amount_minor":10,"date":"2026-01-06"}"#,
        ),
    ];
    for (cmd, args) in OPENING.iter().chain(&rest) {
        assert!(is_shaped(cmd, &json(args), true), "{cmd}");
        replay(&mut ctx(&mut db, &mut hlc), cmd, &json(args)).unwrap();
    }
    let t = &db.tables;
    let left: Vec<i64> = t.lots.iter().map(|l| l.qty_remaining).collect();
    assert_eq!(left, vec![10, 3]);
    assert_eq!(t.sales[0].outstanding_minor, 0);
    assert_eq!(t.expenses[0].memo.as_deref(), Some("rent"));
    let spent = db.events.last().unwrap().id.clone();
    assert!(all_passed(&run_all_checks(&db.tables).unwrap()));

    let args = json(&format!(r#"{{"target_event_id":"{spent}","reason":"wrong"}}"#));
    let ev = replay(&mut ctx(&mut db, &mut hlc), "transaction_reversed", &args).unwrap();
    assert_eq!(ev.event_type, "TransactionReversed");
}

#[test]
fn an_unknown_command_is_refused_in_a_replay_and_passed_over_in_a_load() {
    let (mut db, mut hlc) = started();
    let before = db.events.len();
    assert_eq!(
        replay(&mut ctx(&mut db, &mut hlc), "dance", &json("{}")).unwrap_err(),
        CommandError::Validation("unknown command: dance".to_string())
    );
    assert!(load(&mut ctx(&mut db, &mut hlc), "dance", &json("{}")).is_none());
    assert!(load(&mut ctx(&mut db, &mut hlc), "transfer_recorded", &json("{}")).is_none());
    assert_eq!(db.events.len(), before);
}

#[test]
fn a_dataset_is_loaded_with_lots_in_records() {
    let (mut db, mut hlc) = started();
    let rest = [
        (
            "sale_recorded",
            r#"{"sale_id":"s1","customer_id":"cust","date":"2026-01-02","terms":"cash",
                "lines":[{"item_id":"i1","qty":3,"unit_price_minor":200,
                          "lot_picks":[{"lot_id":"p1#lot1","qty":3}]}]}"#,
        ),
        (
            "sale_return_recorded",
            r#"{"return_id":"r1","original_sale_id":"s1","date":"2026-01-03",
                "lines":[{"item_id":"i1","lot_returns":[{"lot_id":"p1#lot0","qty_returned":2}]}]}"#,
        ),
    ];
    for (cmd, args) in OPENING.iter().chain(&rest) {
        assert!(is_shaped(cmd, &json(args), false), "{cmd}");
        load(&mut ctx(&mut db, &mut hlc), cmd, &json(args)).unwrap().unwrap();
    }
    // The oldest lot was sold from: picks are not read when loading.
    let left: Vec<i64> = db.tables.lots.iter().map(|l| l.qty_remaining).collect();
    assert_eq!(left, vec![9, 5]);
}

#[test]
fn a_refused_command_of_a_dataset_says_why() {
    let (mut db, mut hlc) = started();
    let args = json(r#"{"party_id":"p","name":"P","kind":"vendor"}"#);
    assert!(matches!(
        load(&mut ctx(&mut db, &mut hlc), "party_created", &args),
        Some(Err(CommandError::Validation(_)))
    ));
}

#[test]
fn commands_without_their_arrays_are_told_apart() {
    for cmd in ["purchase_recorded", "sale_recorded", "sale_return_recorded"] {
        assert!(!is_shaped(cmd, &json("{}"), true));
        assert!(is_shaped(cmd, &json(r#"{"lines":[]}"#), true));
    }
    for cmd in ["payment_received", "payment_made"] {
        assert!(!is_shaped(cmd, &json(r#"{"allocations":7}"#), false));
        assert!(is_shaped(cmd, &json(r#"{"allocations":[]}"#), false));
    }
    let pairs = json(r#"{"lines":[{"lot_returns":[["l1",1]]}]}"#);
    let records = json(r#"{"lines":[{"lot_returns":[{"lot_id":"l1","qty_returned":1}]}]}"#);
    let broken = json(r#"{"lines":[{"lot_returns":[["l1","1"]]}]}"#);
    let missing = json(r#"{"lines":[{}]}"#);
    assert!(is_shaped("sale_return_recorded", &pairs, true));
    assert!(!is_shaped("sale_return_recorded", &records, true));
    assert!(is_shaped("sale_return_recorded", &records, false));
    assert!(!is_shaped("sale_return_recorded", &broken, true));
    assert!(!is_shaped("sale_return_recorded", &missing, false));
    assert!(is_shaped("item_defined", &json("{}"), true));
}
