use accounting_core::commands::commit_event;
use accounting_core::tables::{Invoice, SaleLine};
use accounting_core::wire::parse;
use accounting_core::{
    handle_account_opened, handle_account_updated, handle_item_defined, handle_item_deleted,
    handle_item_updated, handle_party_created, handle_party_deleted, handle_party_updated,
    handle_user_registered, handle_user_updated, open_in_memory_with_schema, CommandContext,
    CommandError, Database, DbError, Hlc, Json, ANON_SUPPLIER_PARTY_ID, WALKIN_PARTY_ID,
};

fn json(text: &str) -> Json {
    parse(text).unwrap()
}

fn fixture() -> (Database, Hlc) {
    (open_in_memory_with_schema().unwrap(), Hlc::new("deviceA"))
}

fn ctx<'a>(conn: &'a mut Database, hlc: &'a mut Hlc) -> CommandContext<'a> {
    CommandContext {
        conn,
        hlc,
        physical_now: 1000,
        device_id: "deviceA".into(),
        user_id: "owner-1".into(),
    }
}

fn events_of(db: &Database, event_type: &str) -> usize {
    db.events.iter().filter(|e| e.event_type == event_type).count()
}

/// SQLite reads the booleans of a document as 0 and 1.
fn active(db: &Database, id: &str) -> Option<i64> {
    let doc = &db.tables.items.iter().find(|i| i.id == id).unwrap().doc;
    match doc.get("active") {
        Some(Json::Bool(b)) => Some(*b as i64),
        Some(v) => v.as_i64(),
        None => None,
    }
}

#[test]
fn commit_event_appends_and_projects_atomically() {
    let (mut conn, mut hlc) = fixture();
    let ev = commit_event(
        &mut ctx(&mut conn, &mut hlc),
        "ItemDefined",
        json(r#"{"itemId": "i1", "sku": "SKU-1", "name": "Widget", "unit": "ea", "active": true}"#),
    )
    .expect("commit");
    assert_eq!(ev.event_type, "ItemDefined");
    assert_eq!(conn.events.len(), 1);
    assert_eq!(
        conn.tables.items.iter().filter(|i| i.id == "i1").count(),
        1,
        "projection must be applied atomically with append"
    );
}

#[test]
fn commit_event_rolls_back_both_on_projection_failure() {
    let (mut conn, mut hlc) = fixture();
    let res = commit_event(&mut ctx(&mut conn, &mut hlc), "TotallyUnknownEventType", json("{}"));
    assert!(res.is_err(), "unknown event must fail in projector");
    assert_eq!(conn.events.len(), 0, "append must roll back when projection fails");
    assert_eq!(
        res.unwrap_err(),
        CommandError::Db(DbError::NoHandler("TotallyUnknownEventType".to_string()))
    );
}

#[test]
fn party_created_then_duplicate_rejected_and_not_written() {
    let (mut conn, mut hlc) = fixture();
    handle_party_created(&mut ctx(&mut conn, &mut hlc), "p1", "Acme", "supplier").expect("first ok");
    let err = handle_party_created(&mut ctx(&mut conn, &mut hlc), "p1", "Acme Dup", "supplier")
        .unwrap_err();
    assert!(matches!(err, CommandError::Validation(_)));
    assert_eq!(
        events_of(&conn, "PartyCreated"),
        1,
        "duplicate must not append a second event"
    );
}

#[test]
fn account_updated_rejects_immutable_type_change() {
    let (mut conn, mut hlc) = fixture();
    handle_account_opened(&mut ctx(&mut conn, &mut hlc), "a1", "Misc", "expense", "debit", None)
        .expect("open");
    handle_account_updated(
        &mut ctx(&mut conn, &mut hlc),
        "a1",
        json(r#"{"name": "Miscellaneous"}"#),
    )
    .expect("rename ok");
    let err =
        handle_account_updated(&mut ctx(&mut conn, &mut hlc), "a1", json(r#"{"type": "asset"}"#))
            .unwrap_err();
    assert!(matches!(err, CommandError::Validation(_)));
}

#[test]
fn item_updated_rejects_unknown_id() {
    let (mut conn, mut hlc) = fixture();
    let err =
        handle_item_updated(&mut ctx(&mut conn, &mut hlc), "nope", json(r#"{"name": "X"}"#))
            .unwrap_err();
    assert!(matches!(err, CommandError::Validation(_)));
}

#[test]
fn party_updated_rejects_invalid_kind_in_changes() {
    let (mut conn, mut hlc) = fixture();
    handle_party_created(&mut ctx(&mut conn, &mut hlc), "p1", "Acme", "supplier").expect("create");
    assert!(handle_party_updated(
        &mut ctx(&mut conn, &mut hlc),
        "p1",
        json(r#"{"name": "Acme Inc"}"#)
    )
    .is_ok());
    let err =
        handle_party_updated(&mut ctx(&mut conn, &mut hlc), "p1", json(r#"{"kind": "vendor"}"#))
            .unwrap_err();
    assert!(matches!(err, CommandError::Validation(_)));
}

fn seed_sold_item(db: &mut Database) {
    db.tables.sales.push(Invoice {
        id: "s1".to_string(),
        event_id: "e1".to_string(),
        party_id: None,
        date: "2026-01-01".to_string(),
        terms: "cash".to_string(),
        total_minor: 100,
        outstanding_minor: 0,
        reversed: false,
    });
    db.tables.sale_lines.push(SaleLine {
        id: "sl1".to_string(),
        sale_id: "s1".to_string(),
        item_id: "i1".to_string(),
        qty: 1,
        unit_price_minor: 100,
        revenue_minor: 100,
        cogs_minor: 50,
        date: "2026-01-01".to_string(),
    });
}

#[test]
fn item_deleted_removes_an_item_nothing_references() {
    let (mut conn, mut hlc) = fixture();
    handle_item_defined(&mut ctx(&mut conn, &mut hlc), "i1", "S1", "Widget", "ea").expect("define");
    handle_item_deleted(&mut ctx(&mut conn, &mut hlc), "i1").expect("delete an unused item");
    assert!(conn.tables.items.is_empty(), "the projection row must be gone");
}

#[test]
fn item_deleted_is_refused_once_the_item_has_been_sold() {
    let (mut conn, mut hlc) = fixture();
    handle_item_defined(&mut ctx(&mut conn, &mut hlc), "i1", "S1", "Widget", "ea").expect("define");
    seed_sold_item(&mut conn);

    let err = handle_item_deleted(&mut ctx(&mut conn, &mut hlc), "i1").unwrap_err();
    assert!(matches!(err, CommandError::Validation(_)));

    assert_eq!(
        events_of(&conn, "ItemDeleted"),
        0,
        "a rejected delete must not append an event"
    );
    assert_eq!(conn.tables.items.len(), 1, "the item must survive");
}

#[test]
fn item_deleted_rejects_an_unknown_id() {
    let (mut conn, mut hlc) = fixture();
    assert!(matches!(
        handle_item_deleted(&mut ctx(&mut conn, &mut hlc), "nope").unwrap_err(),
        CommandError::Validation(_)
    ));
}

#[test]
fn party_deleted_removes_a_party_nothing_references() {
    let (mut conn, mut hlc) = fixture();
    handle_party_created(&mut ctx(&mut conn, &mut hlc), "p1", "Acme", "supplier").expect("create");
    handle_party_deleted(&mut ctx(&mut conn, &mut hlc), "p1").expect("delete an unused party");
    assert!(conn.tables.parties.is_empty());
}

#[test]
fn party_deleted_is_refused_once_the_party_has_traded() {
    let (mut conn, mut hlc) = fixture();
    handle_party_created(&mut ctx(&mut conn, &mut hlc), "p1", "Acme", "customer").expect("create");
    conn.tables.sales.push(Invoice {
        id: "s1".to_string(),
        event_id: "e1".to_string(),
        party_id: Some("p1".to_string()),
        date: "2026-01-01".to_string(),
        terms: "credit".to_string(),
        total_minor: 100,
        outstanding_minor: 0,
        reversed: false,
    });

    let err = handle_party_deleted(&mut ctx(&mut conn, &mut hlc), "p1").unwrap_err();
    assert!(matches!(err, CommandError::Validation(_)));
}

/// Cash sales select the walk-in customer and cash purchases the anonymous supplier on
/// their own: removing or hiding either breaks the default path.
#[test]
fn the_seeded_parties_can_be_neither_deleted_nor_archived() {
    let (mut conn, mut hlc) = fixture();
    for id in [WALKIN_PARTY_ID, ANON_SUPPLIER_PARTY_ID] {
        handle_party_created(&mut ctx(&mut conn, &mut hlc), id, "Seeded", "both").expect("seed");
        assert!(
            matches!(
                handle_party_deleted(&mut ctx(&mut conn, &mut hlc), id).unwrap_err(),
                CommandError::Validation(_)
            ),
            "{id} must not be deletable"
        );
        assert!(
            matches!(
                handle_party_updated(
                    &mut ctx(&mut conn, &mut hlc),
                    id,
                    json(r#"{"active": false}"#)
                )
                .unwrap_err(),
                CommandError::Validation(_)
            ),
            "{id} must not be archivable"
        );
    }
}

#[test]
fn party_updated_still_allows_renaming_a_seeded_party() {
    // Only archiving is blocked, not every edit.
    let (mut conn, mut hlc) = fixture();
    handle_party_created(&mut ctx(&mut conn, &mut hlc), WALKIN_PARTY_ID, "Walk-in", "customer")
        .unwrap();
    assert!(handle_party_updated(
        &mut ctx(&mut conn, &mut hlc),
        WALKIN_PARTY_ID,
        json(r#"{"name": "Passing trade"}"#)
    )
    .is_ok());
}

#[test]
fn item_updated_rejects_a_duplicate_sku() {
    let (mut conn, mut hlc) = fixture();
    handle_item_defined(&mut ctx(&mut conn, &mut hlc), "i1", "S1", "Widget", "ea").unwrap();
    handle_item_defined(&mut ctx(&mut conn, &mut hlc), "i2", "S2", "Gadget", "ea").unwrap();
    let err = handle_item_updated(&mut ctx(&mut conn, &mut hlc), "i2", json(r#"{"sku": "S1"}"#))
        .unwrap_err();
    assert!(matches!(err, CommandError::Validation(_)));
    // Renaming to its own sku is not a collision.
    assert!(handle_item_updated(
        &mut ctx(&mut conn, &mut hlc),
        "i2",
        json(r#"{"sku": "S2", "name": "Gadget II"}"#)
    )
    .is_ok());
}

#[test]
fn item_updated_archives_by_setting_active_false() {
    let (mut conn, mut hlc) = fixture();
    handle_item_defined(&mut ctx(&mut conn, &mut hlc), "i1", "S1", "Widget", "ea").unwrap();
    handle_item_updated(&mut ctx(&mut conn, &mut hlc), "i1", json(r#"{"active": false}"#))
        .expect("archive");
    assert_eq!(active(&conn, "i1"), Some(0), "archive must be visible in the item");

    // ...and it is reversible.
    handle_item_updated(&mut ctx(&mut conn, &mut hlc), "i1", json(r#"{"active": true}"#))
        .expect("restore");
    assert_eq!(active(&conn, "i1"), Some(1));
}

#[test]
fn a_user_is_registered_once_and_can_be_renamed() {
    let (mut conn, mut hlc) = fixture();
    handle_user_registered(&mut ctx(&mut conn, &mut hlc), "u1", "Ann", Some("clerk")).unwrap();
    assert_eq!(
        conn.events[0].payload.get("role").and_then(|v| v.as_str()),
        Some("clerk")
    );
    assert!(handle_user_registered(&mut ctx(&mut conn, &mut hlc), "u1", "Ann", None).is_err());
    handle_user_updated(&mut ctx(&mut conn, &mut hlc), "u1", json(r#"{"name": "Anna"}"#)).unwrap();
    assert_eq!(
        conn.tables.users[0].doc.get("name").and_then(|v| v.as_str()),
        Some("Anna")
    );
    assert!(
        handle_user_updated(&mut ctx(&mut conn, &mut hlc), "u2", json(r#"{"name": "B"}"#)).is_err()
    );
}

#[test]
fn a_refused_command_leaves_clock_and_books_as_they_were() {
    let (mut conn, mut hlc) = fixture();
    handle_party_created(&mut ctx(&mut conn, &mut hlc), "p1", "Acme", "supplier").unwrap();
    let clock = hlc.encode();
    let books = conn.tables.copy();
    assert!(handle_party_created(&mut ctx(&mut conn, &mut hlc), "p2", "X", "vendor").is_err());
    assert_eq!(hlc.encode(), clock);
    assert!(conn.tables == books);
    assert_eq!(conn.events.len(), 1);
}
