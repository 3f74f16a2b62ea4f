use accounting_core::service::{ensure_seeded, open_ledger, OWNER_ID, OWNER_NAME};
use accounting_core::{
    ensure_anon_supplier, ensure_walkin_party, open_in_memory_with_schema, read_events, rebuild,
    run_genesis, Database, Hlc, Json, ANON_SUPPLIER_PARTY_ID, SYSTEM_USER_ID, WALKIN_PARTY_ID,
};

fn text<'a>(j: &'a Json, k: &str) -> Option<&'a str> {
    j.get(k).and_then(|v| v.as_str())
}

/// A flag as the store reads it: 1 or 0, or nothing where it is not stated.
fn flag(j: &Json, k: &str) -> Option<i64> {
    match j.get(k) {
        Some(Json::Bool(b)) => Some(*b as i64),
        Some(v) => v.as_i64(),
        None => None,
    }
}

fn parties_created(db: &Database, id: &str) -> usize {
    db.events
        .iter()
        .filter(|e| e.event_type == "PartyCreated" && text(&e.payload, "partyId") == Some(id))
        .count()
}

fn started() -> (Database, Hlc) {
    let mut db = open_in_memory_with_schema().unwrap();
    let mut hlc = Hlc::new("deviceA");
    run_genesis(&mut db, &mut hlc, 1000, "deviceA", "owner-1", "Jane").unwrap();
    (db, hlc)
}

#[test]
fn genesis_emits_user_then_accounts_all_system_authored() {
    let mut db = open_in_memory_with_schema().unwrap();
    let mut hlc = Hlc::new("deviceA");
    run_genesis(&mut db, &mut hlc, 1000, "deviceA", "owner-1", "Jane Owner").unwrap();

    let events = read_events(&db).unwrap();
    assert_eq!(events[0].event_type, "UserRegistered");
    assert_eq!(text(&events[0].payload, "userId"), Some("owner-1"));
    assert!(events.iter().all(|e| e.user_id == "system"));
    let account_events = events.iter().filter(|e| e.event_type == "AccountOpened").count();
    assert_eq!(account_events, 14);
    let inv = events
        .iter()
        .find(|e| text(&e.payload, "system_role") == Some("inventory"))
        .unwrap();
    assert_eq!(text(&inv.payload, "type"), Some("asset"));
    assert_eq!(text(&inv.payload, "normal"), Some("debit"));
}

#[test]
fn genesis_seeds_unique_system_roles() {
    let (db, _) = started();
    let events = read_events(&db).unwrap();
    let mut roles: Vec<String> = events
        .iter()
        .filter(|e| e.event_type == "AccountOpened")
        .map(|e| text(&e.payload, "system_role").unwrap().to_string())
        .collect();
    let before = roles.len();
    roles.sort();
    roles.dedup();
    assert_eq!(before, roles.len(), "system_roles must be unique");
}

#[test]
fn genesis_rejects_second_run_and_leaves_log_unchanged() {
    let (mut db, mut hlc) = started();
    let count_after_first = db.events.len();

    let second = run_genesis(&mut db, &mut hlc, 2000, "deviceA", "owner-1", "Jane");
    assert!(second.is_err(), "second genesis must be rejected");

    assert_eq!(count_after_first, db.events.len(), "log must be unchanged");
}

#[test]
fn ensure_walkin_seeds_once_and_is_idempotent() {
    let (mut db, mut hlc) = started();

    ensure_walkin_party(&mut db, &mut hlc, 2000, "deviceA").unwrap();
    ensure_walkin_party(&mut db, &mut hlc, 3000, "deviceA").unwrap();

    assert_eq!(
        parties_created(&db, WALKIN_PARTY_ID),
        1,
        "walk-in party must be seeded exactly once"
    );
}

#[test]
fn ensure_anon_supplier_seeds_once_and_is_idempotent() {
    let (mut db, mut hlc) = started();

    ensure_anon_supplier(&mut db, &mut hlc, 2000, "deviceA").unwrap();
    ensure_anon_supplier(&mut db, &mut hlc, 3000, "deviceA").unwrap();

    assert_eq!(
        parties_created(&db, ANON_SUPPLIER_PARTY_ID),
        1,
        "the anonymous supplier must be seeded exactly once"
    );
}

#[test]
fn ensure_anon_supplier_projects_a_supplier_party() {
    let (mut db, mut hlc) = started();
    ensure_anon_supplier(&mut db, &mut hlc, 2000, "deviceA").unwrap();
    rebuild(&mut db).unwrap();
    let p = db.tables.parties.iter().find(|p| p.id == ANON_SUPPLIER_PARTY_ID).unwrap();
    // A purchase asks for a supplier, so the kind must be exactly this.
    assert_eq!(text(&p.doc, "kind"), Some("supplier"));
    assert_eq!(flag(&p.doc, "active"), Some(1), "it must be visible in supplier dropdowns");
}

#[test]
fn the_two_seeded_parties_are_distinct() {
    assert_ne!(WALKIN_PARTY_ID, ANON_SUPPLIER_PARTY_ID);
}

#[test]
fn ensure_walkin_projects_a_customer_party() {
    let (mut db, mut hlc) = started();
    ensure_walkin_party(&mut db, &mut hlc, 2000, "deviceA").unwrap();
    rebuild(&mut db).unwrap();
    let p = db.tables.parties.iter().find(|p| p.id == WALKIN_PARTY_ID).unwrap();
    assert_eq!(text(&p.doc, "kind"), Some("customer"));
    assert_eq!(flag(&p.doc, "active"), Some(1), "it must be visible in customer dropdowns");
}

/// Both seeds must state `active`, so that neither drops out of a list by accident.
#[test]
fn both_seeded_parties_state_active_explicitly() {
    let (mut db, mut hlc) = started();
    ensure_walkin_party(&mut db, &mut hlc, 2000, "deviceA").unwrap();
    ensure_anon_supplier(&mut db, &mut hlc, 2000, "deviceA").unwrap();
    for id in [WALKIN_PARTY_ID, ANON_SUPPLIER_PARTY_ID] {
        let ev = db
            .events
            .iter()
            .find(|e| e.event_type == "PartyCreated" && text(&e.payload, "partyId") == Some(id))
            .unwrap();
        assert_eq!(
            flag(&ev.payload, "active"),
            Some(1),
            "{id} must seed with an explicit active flag"
        );
    }
}

#[test]
fn a_fresh_ledger_opens_seeded_and_reopens_unchanged() {
    let mut db = open_in_memory_with_schema().unwrap();
    let hlc = open_ledger(&mut db, 1000).unwrap();
    let device = db.settings.get("device_id").unwrap().to_string();
    assert!(hlc.encode().ends_with(&format!(":{device}")));
    assert_eq!(db.events.len(), 17);
    assert_eq!(db.tables.accounts.len(), 14);
    assert_eq!(db.tables.users[0].id, OWNER_ID);
    assert_eq!(text(&db.tables.users[0].doc, "name"), Some(OWNER_NAME));
    assert!(db.tables.parties.iter().any(|p| p.id == WALKIN_PARTY_ID));
    assert!(db.tables.parties.iter().any(|p| p.id == ANON_SUPPLIER_PARTY_ID));
    assert!(db.events.iter().all(|e| e.user_id == SYSTEM_USER_ID && e.device_id == device));

    let again = open_ledger(&mut db, 900).unwrap();
    assert_eq!(db.events.len(), 17);
    assert!(again.encode() >= db.events[16].hlc);
}

#[test]
fn seeding_an_open_ledger_again_adds_nothing() {
    let (mut db, mut hlc) = started();
    ensure_seeded(&mut db, &mut hlc, 2000, "deviceA").unwrap();
    let n = db.events.len();
    assert_eq!(n, 17);
    ensure_seeded(&mut db, &mut hlc, 3000, "deviceA").unwrap();
    assert_eq!(db.events.len(), n);
}
