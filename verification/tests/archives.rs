use accounting_core::archive::lines::split_lines;
use accounting_core::archive::ARCHIVE_FORMAT;
use accounting_core::service::open_ledger;
use accounting_core::wire::{parse, print};
use accounting_core::{
    append_event, ensure_device_id, export_jsonl, handle_item_defined, import_jsonl,
    open_in_memory_with_schema, parse_event, parse_header, rehydrate_from_log, set_setting,
    ArchiveError, CommandContext, Database, DbError, Hlc, Json, Tables,
};

fn json(text: &str) -> Json {
    parse(text).unwrap()
}

/// The value at a path through a document.
fn at<'a>(j: &'a Json, path: &str) -> &'a Json {
    path.split('/').fold(j, |v, k| match k.parse::<usize>() {
        Ok(i) => &v.as_array().unwrap()[i],
        Err(_) => v.get(k).unwrap(),
    })
}

fn number(j: &Json, path: &str) -> i64 {
    at(j, path).as_i64().unwrap()
}

fn text<'a>(j: &'a Json, path: &str) -> &'a str {
    at(j, path).as_str().unwrap()
}

/// A database with a known identity, one setting, and two events.
fn seeded() -> Database {
    let mut conn = open_in_memory_with_schema().unwrap();
    ensure_device_id(&mut conn).unwrap();
    set_setting(&mut conn, "currency_symbol", "€").unwrap();
    let mut hlc = Hlc::new("devA");
    append_event(&mut conn, &mut hlc, 1000, "devA", "u", "ItemDefined", &json(r#"{"itemId": "i1"}"#))
        .unwrap();
    append_event(&mut conn, &mut hlc, 2000, "devA", "u", "ItemDefined", &json(r#"{"itemId": "i2"}"#))
        .unwrap();
    conn
}

fn export_to_string(conn: &Database) -> String {
    let mut buf = String::new();
    export_jsonl(conn, &mut buf, 555, "0.1.2").unwrap();
    buf
}

#[test]
fn export_writes_header_then_one_line_per_event() {
    let conn = seeded();
    let written = export_to_string(&conn);
    let lines: Vec<&str> = written.lines().collect();
    assert_eq!(lines.len(), 3, "1 header + 2 events");

    let header = json(lines[0]);
    assert_eq!(text(&header, "format"), ARCHIVE_FORMAT);
    assert_eq!(number(&header, "version"), 1);
    assert_eq!(number(&header, "exported_at"), 555);
    assert_eq!(text(&header, "app_version"), "0.1.2");
    assert_eq!(text(&header, "settings/currency_symbol"), "€");
}

#[test]
fn export_emits_payloads_as_real_json_not_strings() {
    let conn = seeded();
    let written = export_to_string(&conn);
    let ev = json(written.lines().nth(1).unwrap());
    let payload = at(&ev, "payload");
    assert!(payload.is_object(), "payload must be an object, got {payload:?}");
    assert_eq!(text(&ev, "payload/itemId"), "i1");
}

#[test]
fn export_preserves_hlc_order() {
    let conn = seeded();
    let written = export_to_string(&conn);
    let first = json(written.lines().nth(1).unwrap());
    let second = json(written.lines().nth(2).unwrap());
    assert!(
        text(&first, "hlc") < text(&second, "hlc"),
        "events must be exported in ascending HLC order"
    );
}

#[test]
fn export_of_empty_log_writes_header_only() {
    let conn = open_in_memory_with_schema().unwrap();
    let mut buf = String::new();
    let n = export_jsonl(&conn, &mut buf, 1, "0.1.2").unwrap();
    assert_eq!(n, 0);
    assert_eq!(buf.lines().count(), 1);
}

#[test]
fn parse_header_accepts_a_valid_header() {
    let line = r#"{"format":"accounting-eventlog","version":1,"settings":{"locale":"fr"}}"#;
    let h = parse_header(line).unwrap();
    assert_eq!(h.version, 1);
    assert_eq!(h.settings.get("locale"), Some("fr"));
}

#[test]
fn parse_header_rejects_a_foreign_format() {
    let err = parse_header(r#"{"format":"something-else","version":1}"#).unwrap_err();
    assert!(matches!(err, ArchiveError::Format(_)), "got {err:?}");
}

#[test]
fn parse_header_rejects_a_future_version() {
    let err = parse_header(r#"{"format":"accounting-eventlog","version":99}"#).unwrap_err();
    let msg = err.message();
    assert!(msg.contains("99"), "error should name the unsupported version: {msg}");
}

#[test]
fn a_version_is_read_in_full() {
    let err = parse_header(r#"{"format":"accounting-eventlog","version":4294967297}"#).unwrap_err();
    assert_eq!(
        err.message(),
        "unrecognised backup file: this file is version 4294967297 but this app understands version 1"
    );
    for line in [
        r#"{"format":"accounting-eventlog","version":-1}"#,
        r#"{"format":"accounting-eventlog","version":"1"}"#,
        r#"{"format":"accounting-eventlog"}"#,
    ] {
        let msg = parse_header(line).unwrap_err().message();
        assert!(msg.contains("this file is version 0 but"), "got {msg}");
    }
}

#[test]
fn parse_header_rejects_non_json() {
    let err = parse_header("this is not json").unwrap_err();
    assert!(matches!(err, ArchiveError::Format(_)), "got {err:?}");
}

#[test]
fn parse_event_reads_all_fields() {
    let line = r#"{"id":"h1","hlc":"h1","device_id":"d","user_id":"u","seq":3,"type":"A","payload":{"x":1},"created_at":9}"#;
    let ev = parse_event(line, 2).unwrap();
    assert_eq!(ev.id, "h1");
    assert_eq!(ev.seq, 3);
    assert_eq!(ev.event_type, "A");
    assert_eq!(number(&ev.payload, "x"), 1);
    assert_eq!(ev.created_at, 9);
}

#[test]
fn parse_event_reports_the_line_number_on_damage() {
    let err = parse_event(r#"{"id":"h1","seq":"not-a-number"}"#, 7).unwrap_err();
    match err {
        ArchiveError::Parse { line, .. } => assert_eq!(line, 7),
        other => panic!("expected Parse, got {other:?}"),
    }
}

/// A second install that has opened its own ledger.
fn other_install() -> Database {
    let mut db = open_in_memory_with_schema().unwrap();
    open_ledger(&mut db, 1000).unwrap();
    db
}

fn events_in(archive: &str) -> Vec<&str> {
    archive.lines().skip(1).collect()
}

/// The master data as text, whose members are in order.
fn documents(db: &Database) -> Vec<String> {
    let t = &db.tables;
    let users = t.users.iter().map(|r| &r.doc);
    let accounts = t.accounts.iter().map(|r| &r.doc);
    let items = t.items.iter().map(|r| &r.doc);
    let parties = t.parties.iter().map(|r| &r.doc);
    users.chain(accounts).chain(items).chain(parties).map(print).collect()
}

#[test]
fn an_archive_restores_its_log_into_an_empty_store() {
    let source = other_install();
    let written = export_to_string(&source);
    let mut db = open_in_memory_with_schema().unwrap();
    let summary = import_jsonl(&mut db, &written).unwrap();
    assert_eq!((summary.inserted, summary.skipped_duplicates), (17, 0));
    assert_eq!(events_in(&export_to_string(&db)), events_in(&written));
    assert_eq!(documents(&db), documents(&source));
}

#[test]
fn importing_twice_changes_nothing_more() {
    let source = other_install();
    let written = export_to_string(&source);
    let mut db = open_in_memory_with_schema().unwrap();
    import_jsonl(&mut db, &written).unwrap();
    let books = db.tables.copy();
    let summary = import_jsonl(&mut db, &written).unwrap();
    assert_eq!((summary.inserted, summary.skipped_duplicates), (0, 17));
    assert!(db.tables == books);
    assert_eq!(db.events.len(), 17);
}

#[test]
fn a_later_archive_brings_only_what_is_new() {
    let mut source = other_install();
    let early = export_to_string(&source);
    let device = source.settings.get("device_id").unwrap().to_string();
    let mut hlc = Hlc::new(&device);
    rehydrate_from_log(&source, &mut hlc, 2000).unwrap();
    let mut c = CommandContext {
        conn: &mut source,
        hlc: &mut hlc,
        physical_now: 2000,
        device_id: device,
        user_id: "owner-1".to_string(),
    };
    handle_item_defined(&mut c, "i1", "S1", "Widget", "ea").unwrap();
    let late = export_to_string(&source);
    let mut db = open_in_memory_with_schema().unwrap();
    import_jsonl(&mut db, &early).unwrap();
    let summary = import_jsonl(&mut db, &late).unwrap();
    assert_eq!((summary.inserted, summary.skipped_duplicates), (1, 17));
    assert_eq!(events_in(&export_to_string(&db)), events_in(&late));
    assert_eq!(documents(&db), documents(&source));
}

#[test]
fn an_import_that_fails_changes_nothing() {
    let source = other_install();
    let mut db = open_in_memory_with_schema().unwrap();
    assert_eq!(
        import_jsonl(&mut db, "").unwrap_err(),
        ArchiveError::Format("the file is empty".to_string())
    );
    assert!(matches!(import_jsonl(&mut db, "no header").unwrap_err(), ArchiveError::Format(_)));

    let damaged = format!("{}not an event\n", export_to_string(&source));
    match import_jsonl(&mut db, &damaged).unwrap_err() {
        ArchiveError::Parse { line, .. } => assert_eq!(line, 19),
        other => panic!("expected Parse, got {other:?}"),
    }

    let header = export_to_string(&db);
    let unknown = r#"{"id":"h1","hlc":"h1","device_id":"d","user_id":"u","seq":1,"type":"A","payload":{},"created_at":9}"#;
    assert_eq!(
        import_jsonl(&mut db, &format!("{header}{unknown}\n")).unwrap_err(),
        ArchiveError::Db(DbError::NoHandler("A".to_string()))
    );
    assert!(db.events.is_empty());
    assert!(db.tables == Tables::new());
}

#[test]
fn an_archive_whose_books_do_not_reconcile_is_refused() {
    let mut source = other_install();
    let mut hlc = Hlc::new("devB");
    rehydrate_from_log(&source, &mut hlc, 2000).unwrap();
    let lopsided = json(
        r#"{"date": "2026-01-01", "lots": [],
            "accountBalances": [{"accountId": "acct_bank", "debitMinor": 500, "creditMinor": 0}]}"#,
    );
    append_event(&mut source, &mut hlc, 2000, "devB", "u", "OpeningBalancesRecorded", &lopsided)
        .unwrap();
    let mut db = open_in_memory_with_schema().unwrap();
    let err = import_jsonl(&mut db, &export_to_string(&source)).unwrap_err();
    assert!(err.message().contains("double_entry"), "got {err:?}");
    assert!(db.events.is_empty());
}

#[test]
fn two_installs_that_share_an_identity_cannot_be_merged() {
    let mut db = open_in_memory_with_schema().unwrap();
    let mut hlc = Hlc::new("devA");
    append_event(&mut db, &mut hlc, 1000, "devA", "u", "ItemDefined", &json("{}")).unwrap();
    let header = export_to_string(&open_in_memory_with_schema().unwrap());
    let taken = r#"{"id":"h1","hlc":"h1","device_id":"devA","user_id":"u","seq":1,"type":"A","payload":{},"created_at":9}"#;
    assert_eq!(
        import_jsonl(&mut db, &format!("{header}{taken}\n")).unwrap_err(),
        ArchiveError::Collision { device_id: "devA".to_string(), seq: 1 }
    );
    assert_eq!(db.events.len(), 1);
}

#[test]
fn line_ends_of_both_kinds_are_read_and_a_blank_line_is_damage() {
    let source = other_install();
    let written = export_to_string(&source);
    let mut db = open_in_memory_with_schema().unwrap();
    match import_jsonl(&mut db, &format!("{written}\n")).unwrap_err() {
        ArchiveError::Parse { line, .. } => assert_eq!(line, 19),
        other => panic!("expected Parse, got {other:?}"),
    }
    let summary = import_jsonl(&mut db, &written.replace('\n', "\r\n")).unwrap();
    assert_eq!(summary.total_events, 17);
}

#[test]
fn text_is_split_into_lines() {
    assert_eq!(split_lines("a\nbc\r\n\nd"), vec!["a", "bc", "", "d"]);
    assert_eq!(split_lines("a\n"), vec!["a"]);
    assert!(split_lines("").is_empty());
}

#[test]
fn an_event_line_names_the_field_that_is_wrong() {
    let whole = r#"{"id":"h1","hlc":"h1","device_id":"d","user_id":"u","seq":3,"type":"A","payload":{"x":1},"created_at":9}"#;
    for field in ["id", "hlc", "device_id", "user_id", "seq", "type", "created_at"] {
        let broken = whole.replace(&format!("\"{field}\":"), "\"other\":");
        let err = parse_event(&broken, 4).unwrap_err();
        assert!(err.message().contains(field), "{field}: {}", err.message());
    }
    let bare = parse_event(&whole.replace("payload", "other"), 4).unwrap();
    assert_eq!(bare.payload, Json::Null);
}
