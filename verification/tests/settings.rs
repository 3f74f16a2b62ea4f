use accounting_core::settings::{adopt_device_id, replace_device_id};
use accounting_core::{
    ensure_device_id, get_settings, open_in_memory_with_schema, rebuild, remint_device_id,
    set_setting, DbError, SETTING_KEYS,
};

#[test]
fn remint_replaces_a_restored_foreign_identity() {
    let mut db = open_in_memory_with_schema().unwrap();
    let original = ensure_device_id(&mut db).unwrap();

    let fresh = remint_device_id(&mut db).unwrap();
    assert_ne!(fresh, original, "reminting must produce a different id");
    assert_eq!(
        uuid::Uuid::parse_str(&fresh).unwrap().get_version_num(),
        4,
        "the replacement must be a real UUID v4, like the original"
    );

    // The stored value must be the new one, and it must now be adopted rather than
    // minted again.
    assert_eq!(ensure_device_id(&mut db).unwrap(), fresh);
}

#[test]
fn remint_still_cannot_be_reached_through_set_setting() {
    let mut db = open_in_memory_with_schema().unwrap();
    ensure_device_id(&mut db).unwrap();
    assert!(
        set_setting(&mut db, "device_id", "attacker-supplied").is_err(),
        "device_id must stay unwritable through the generic settings path"
    );
}

#[test]
fn set_then_get_round_trips() {
    let mut db = open_in_memory_with_schema().unwrap();
    set_setting(&mut db, "currency_symbol", "€").unwrap();
    let s = get_settings(&db).unwrap();
    assert_eq!(s.get("currency_symbol"), Some("€"));
}

#[test]
fn set_overwrites_existing_value() {
    let mut db = open_in_memory_with_schema().unwrap();
    set_setting(&mut db, "theme", "light").unwrap();
    set_setting(&mut db, "theme", "midnight").unwrap();
    let s = get_settings(&db).unwrap();
    assert_eq!(s.get("theme"), Some("midnight"));
}

#[test]
fn unknown_key_is_rejected_and_writes_nothing() {
    let mut db = open_in_memory_with_schema().unwrap();
    let err = set_setting(&mut db, "evil_key", "x");
    assert!(err.is_err());
    assert!(get_settings(&db).unwrap().is_empty());
    assert_eq!(err, Err(DbError::Refused("unknown setting key: evil_key".to_string())));
}

#[test]
fn get_on_empty_returns_empty_map() {
    let db = open_in_memory_with_schema().unwrap();
    assert!(get_settings(&db).unwrap().is_empty());
}

#[test]
fn ensure_device_id_mints_and_persists() {
    let mut db = open_in_memory_with_schema().unwrap();
    let id = ensure_device_id(&mut db).unwrap();
    // Parse rather than check the length: a 36-char string is not necessarily
    // a UUID, and a malformed device id silently corrupts event identity.
    let parsed = uuid::Uuid::parse_str(&id).expect("device id must be a valid UUID");
    assert_eq!(parsed.get_version_num(), 4, "device id must be a UUID v4, got {id:?}");
    let stored = get_settings(&db).unwrap();
    assert_eq!(stored.get("device_id"), Some(id.as_str()));
}

#[test]
fn ensure_device_id_is_idempotent() {
    let mut db = open_in_memory_with_schema().unwrap();
    let first = ensure_device_id(&mut db).unwrap();
    let second = ensure_device_id(&mut db).unwrap();
    assert_eq!(first, second, "must not mint a second identity");
}

#[test]
fn device_id_cannot_be_written_through_set_setting() {
    let mut db = open_in_memory_with_schema().unwrap();
    let minted = ensure_device_id(&mut db).unwrap();
    assert!(
        set_setting(&mut db, "device_id", "hijacked").is_err(),
        "device_id must not be writable through the generic settings path"
    );
    assert_eq!(ensure_device_id(&mut db).unwrap(), minted, "identity must be unchanged");
}

#[test]
fn ensure_device_id_reuses_a_preexisting_row() {
    let mut db = open_in_memory_with_schema().unwrap();
    db.settings.put("device_id", "preexisting");
    assert_eq!(
        ensure_device_id(&mut db).unwrap(),
        "preexisting",
        "must adopt the stored id, never mint over it"
    );
}

#[test]
fn distinct_installs_mint_distinct_ids() {
    let mut a = open_in_memory_with_schema().unwrap();
    let mut b = open_in_memory_with_schema().unwrap();
    assert_ne!(
        ensure_device_id(&mut a).unwrap(),
        ensure_device_id(&mut b).unwrap(),
        "two installs must not share an identity, or their event ids collide"
    );
}

#[test]
fn device_id_survives_a_projection_rebuild() {
    let mut db = open_in_memory_with_schema().unwrap();
    let minted = ensure_device_id(&mut db).unwrap();
    rebuild(&mut db).unwrap();
    assert_eq!(
        ensure_device_id(&mut db).unwrap(),
        minted,
        "rebuild must not clear the settings"
    );
}

#[test]
fn every_listed_key_can_be_set_and_the_device_id_is_not_listed() {
    let mut db = open_in_memory_with_schema().unwrap();
    for key in SETTING_KEYS {
        set_setting(&mut db, key, key).unwrap();
        assert_eq!(get_settings(&db).unwrap().get(key), Some(key));
    }
    assert!(!SETTING_KEYS.contains(&"device_id"));
}

#[test]
fn a_stored_identity_is_adopted_and_a_new_one_replaces_it() {
    let mut db = open_in_memory_with_schema().unwrap();
    assert_eq!(adopt_device_id(&mut db, "first"), "first");
    assert_eq!(adopt_device_id(&mut db, "second"), "first");
    replace_device_id(&mut db, "second");
    assert_eq!(adopt_device_id(&mut db, "third"), "second");
}
