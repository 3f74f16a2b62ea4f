use accounting_core::backup::{
    backup_folder, judge_candidate, select_surplus, sidecar_names, snapshot_name, Inspection,
    InvalidCandidate, AUTO_PREFIX, KEEP_AUTO, MANUAL_PREFIX, RESCUE_PREFIX,
};
use accounting_core::calendar::timestamp_utc;
use accounting_core::{get_settings, open_in_memory_with_schema, set_setting};

#[test]
fn timestamp_is_utc_and_sortable() {
    // 2026-07-30T12:34:56Z = 1785414896 s
    assert_eq!(timestamp_utc(1_785_414_896_000), "20260730-123456");
    assert_eq!(timestamp_utc(0), "19700101-000000");
    assert!(timestamp_utc(1_000) < timestamp_utc(2_000_000_000_000), "must sort chronologically");
}

#[test]
fn snapshot_names_carry_their_prefix() {
    assert_eq!(snapshot_name(AUTO_PREFIX, 0), "ledger-auto-19700101-000000.db");
    assert_eq!(snapshot_name(MANUAL_PREFIX, 0), "ledger-19700101-000000.db");
}

#[test]
fn the_calendar_knows_leap_days() {
    assert_eq!(timestamp_utc(951_782_400_000), "20000229-000000");
    assert_eq!(timestamp_utc(951_868_799_999), "20000229-235959");
    assert_eq!(timestamp_utc(951_868_800_000), "20000301-000000");
    assert_eq!(timestamp_utc(4_107_542_399_000), "21000228-235959");
    assert_eq!(timestamp_utc(4_107_542_400_000), "21000301-000000");
    assert_eq!(timestamp_utc(1_709_164_800_000), "20240229-000000");
}

#[test]
fn the_calendar_reaches_before_the_epoch_and_beyond_four_digits() {
    assert_eq!(timestamp_utc(-1), "19691231-235959");
    assert_eq!(timestamp_utc(-86_400_000), "19691231-000000");
    assert_eq!(timestamp_utc(253_402_300_799_999), "99991231-235959");
    assert_eq!(timestamp_utc(253_402_300_800_000), "100000101-000000");
    assert_eq!(timestamp_utc(-62_167_219_200_000), "00000101-000000");
    assert_eq!(timestamp_utc(-62_167_219_200_001), "-0011231-235959");
}

fn stamped(prefix: &str) -> Vec<String> {
    ["20260101-000000", "20260102-000000", "20260103-000000", "20260104-000000"]
        .iter()
        .map(|stamp| format!("{prefix}{stamp}.db"))
        .collect()
}

#[test]
fn prune_keeps_the_newest_auto_backups_only() {
    let removed = select_surplus(&stamped(AUTO_PREFIX), AUTO_PREFIX, 3);
    assert_eq!(removed.len(), 1);
    assert!(removed[0].contains("20260101"), "oldest must go first");
}

#[test]
fn prune_never_touches_manual_backups() {
    let removed = select_surplus(&stamped(MANUAL_PREFIX), AUTO_PREFIX, 3);
    assert!(removed.is_empty(), "manual backups must never be pruned, removed {removed:?}");
}

#[test]
fn prune_is_a_no_op_below_the_limit() {
    let names = vec![format!("{AUTO_PREFIX}20260101-000000.db")];
    assert!(select_surplus(&names, AUTO_PREFIX, 3).is_empty());
}

#[test]
fn the_oldest_go_whatever_the_order_they_are_listed_in() {
    let mut names = stamped(AUTO_PREFIX);
    names.reverse();
    let gone = select_surplus(&names, AUTO_PREFIX, KEEP_AUTO);
    assert_eq!(gone, vec!["ledger-auto-20260101-000000.db".to_string()]);
    assert!(select_surplus(&names, AUTO_PREFIX, 4).is_empty());
    assert_eq!(select_surplus(&names, AUTO_PREFIX, 0).len(), 4);
}

#[test]
fn manual_backups_and_foreign_files_are_not_pruned() {
    let names: Vec<String> = vec![
        snapshot_name(MANUAL_PREFIX, 0),
        snapshot_name(MANUAL_PREFIX, 1_000),
        snapshot_name(RESCUE_PREFIX, 0),
        "ledger-auto-20260101-000000.txt".to_string(),
        "ledger-auto-".to_string(),
    ];
    assert!(select_surplus(&names, AUTO_PREFIX, 0).is_empty());
    assert_eq!(select_surplus(&names, RESCUE_PREFIX, 0), vec![snapshot_name(RESCUE_PREFIX, 0)]);
}

fn sound() -> Inspection {
    Inspection {
        exists: true,
        integrity: Ok("ok".to_string()),
        event_tables: Ok(1),
        events: Ok(5),
    }
}

fn flaw(i: &Inspection) -> String {
    judge_candidate(i).unwrap_err().0
}

#[test]
fn a_candidate_is_judged_by_what_was_found() {
    assert!(judge_candidate(&sound()).is_ok());
    assert_eq!(flaw(&Inspection { exists: false, ..sound() }), "the file no longer exists");
    assert_eq!(
        flaw(&Inspection { integrity: Err("no header".to_string()), ..sound() }),
        "this file is not a valid backup (no header)"
    );
    assert_eq!(
        flaw(&Inspection { integrity: Ok("row 3 missing".to_string()), ..sound() }),
        "this backup is damaged (row 3 missing)"
    );
    assert_eq!(
        flaw(&Inspection { event_tables: Err("locked".to_string()), ..sound() }),
        "this file is not a valid backup (locked)"
    );
    assert_eq!(
        flaw(&Inspection { event_tables: Ok(0), ..sound() }),
        "this file is not an accounting backup"
    );
    assert_eq!(
        flaw(&Inspection { events: Err("locked".to_string()), ..sound() }),
        "this backup cannot be read (locked)"
    );
    assert_eq!(
        judge_candidate(&Inspection { events: Ok(0), ..sound() }),
        Err(InvalidCandidate("this backup contains no records".to_string()))
    );
}

#[test]
fn sidecars_stand_beside_the_live_file() {
    let (wal, shm) = sidecar_names("/data/ledger.db");
    assert_eq!(wal, "/data/ledger.db-wal");
    assert_eq!(shm, "/data/ledger.db-shm");
}

#[test]
fn automatic_backups_need_a_chosen_folder() {
    let mut db = open_in_memory_with_schema().unwrap();
    assert_eq!(backup_folder(&get_settings(&db).unwrap()), None);
    set_setting(&mut db, "backup_folder", "").unwrap();
    assert_eq!(backup_folder(&get_settings(&db).unwrap()), None);
    set_setting(&mut db, "backup_folder", "/backups").unwrap();
    assert_eq!(backup_folder(&get_settings(&db).unwrap()), Some("/backups"));
}
