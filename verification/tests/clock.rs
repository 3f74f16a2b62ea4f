use accounting_core::wire::parse;
use accounting_core::{append_event, open_in_memory_with_schema, rehydrate_from_log, Hlc, Json};

fn json(text: &str) -> Json {
    parse(text).unwrap()
}

#[test]
fn tick_is_strictly_increasing_lexically() {
    let mut hlc = Hlc::new("deviceA");
    let a = hlc.tick(1000);
    let b = hlc.tick(1000);
    let c = hlc.tick(1000);
    assert!(a < b, "{a} should sort before {b}");
    assert!(b < c, "{b} should sort before {c}");
}

#[test]
fn tick_resets_counter_when_physical_advances() {
    let mut hlc = Hlc::new("deviceA");
    let _ = hlc.tick(1000);
    let _ = hlc.tick(1000);
    let later = hlc.tick(2000);
    assert!(later.starts_with("000000000002000:000000:"), "got {later}");
}

#[test]
fn observe_pulls_clock_ahead_of_remote() {
    let mut local = Hlc::new("deviceA");
    local.observe("000000000005000:000003:deviceB", 1000);
    let next = local.tick(1000);
    assert!(
        next.as_str() > "000000000005000:000003:deviceB",
        "local tick {next} should sort after observed remote"
    );
}

#[test]
fn rehydrate_from_log_orders_after_last_persisted_stamp() {
    let mut db = open_in_memory_with_schema().unwrap();

    let mut hlc1 = Hlc::new("deviceA");
    let e1 = append_event(&mut db, &mut hlc1, 5000, "deviceA", "u", "A", &json("{}")).unwrap();
    drop(hlc1);

    let mut hlc2 = Hlc::new("deviceA");
    rehydrate_from_log(&db, &mut hlc2, 1000).unwrap();
    let e2 = append_event(&mut db, &mut hlc2, 1000, "deviceA", "u", "B", &json("{}")).unwrap();

    assert!(
        e2.hlc > e1.hlc,
        "post-restart event {} must sort after pre-restart {}",
        e2.hlc, e1.hlc
    );
}

#[test]
fn a_stamp_is_physical_time_counter_and_device() {
    let mut hlc = Hlc::new("deviceA");
    assert_eq!(hlc.tick(1000), "000000000001000:000000:deviceA");
    assert_eq!(hlc.tick(1000), "000000000001000:000001:deviceA");
    assert_eq!(hlc.tick(900), "000000000001000:000002:deviceA");
    assert_eq!(hlc.encode(), "000000000001000:000002:deviceA");
}

#[test]
fn decoding_a_stamp_gives_its_time_and_counter() {
    assert_eq!(Hlc::decode("000000000005000:000003:deviceB"), (5000, 3));
    assert_eq!(Hlc::decode("000000000005000:000003:a:b"), (5000, 3));
    assert_eq!(Hlc::decode("garbage"), (0, 0));
}

#[test]
fn a_full_counter_carries_into_the_time() {
    let mut hlc = Hlc::new("d");
    hlc.observe("000000000005000:999998:x", 0);
    assert_eq!(hlc.encode(), "000000000005000:999999:d");
    let next = hlc.tick(0);
    assert_eq!(next, "000000000005001:000000:d");
    assert!(next.as_str() > "000000000005000:999998:x");
    hlc.observe("000000000007000:999999:x", 0);
    assert_eq!(hlc.encode(), "000000000007001:000000:d");
    hlc.observe("000000000008000:1000007:x", 0);
    assert_eq!(hlc.encode(), "000000000008001:000000:d");
    assert!(hlc.encode().as_str() > "000000000008000:1000007:x");
}

#[test]
fn an_observed_stamp_is_joined_with_the_clock() {
    let mut hlc = Hlc::new("d");
    assert_eq!(hlc.tick(5000), "000000000005000:000000:d");
    hlc.observe("000000000005000:000007:x", 0);
    assert_eq!(hlc.encode(), "000000000005000:000008:d");
    hlc.observe("000000000004000:000100:x", 0);
    assert_eq!(hlc.encode(), "000000000005000:000009:d");
    hlc.observe("000000000004000:000100:x", 6000);
    assert_eq!(hlc.encode(), "000000000006000:000000:d");
    hlc.observe("000000000006000:000003:x", 6000);
    assert_eq!(hlc.encode(), "000000000006000:000004:d");
}

#[test]
fn a_clock_at_the_end_of_time_observes_nothing() {
    let mut hlc = Hlc::new("deviceA");
    assert!(!hlc.try_observe("18446744073709551615:999999:deviceB", 1000));
    assert_eq!(hlc.encode(), "000000000000000:000000:deviceA");
    assert!(hlc.try_observe("18446744073709551615:000000:deviceB", 1000));
    assert_eq!(hlc.encode(), "18446744073709551615:000001:deviceA");
}
