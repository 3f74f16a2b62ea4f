//! The append-only event log.

use crate::db::{Database, Store};
use crate::error::DbError;
use crate::hlc::{can_observe, can_tick, decoded, observed, stamp, ticked, Hlc, LAST_COUNTER};
use crate::json::{opt_txt, pos, Json, JsonV};
use crate::rows::{find, holds, lemma_rows_push, rows, Keyed, Row};
use crate::sort::{before, lemma_sorted, sort, sorted, Ranked, RankedRow};
use crate::text::{lex_le, lex_lt, same, sorts_before};
use vstd::prelude::*;
use vstd::string::*;

verus! {

/// The immutable event envelope.
#[derive(Debug, PartialEq)]
#[verifier::ext_equal]
pub struct LedgerEvent<S = String, J = Json> {
    pub id: S,
    pub hlc: S,
    pub device_id: S,
    pub user_id: S,
    pub seq: i64,
    pub event_type: S,
    pub payload: J,
    pub created_at: i64,
}

/// The mathematical value of an event.
pub type EventV = LedgerEvent<Seq<char>, JsonV>;

impl View for LedgerEvent {
    type V = LedgerEvent<Seq<char>, JsonV>;

    open spec fn view(&self) -> LedgerEvent<Seq<char>, JsonV> {
        LedgerEvent {
            id: self.id@,
            hlc: self.hlc@,
            device_id: self.device_id@,
            user_id: self.user_id@,
            seq: self.seq,
            event_type: self.event_type@,
            payload: self.payload@,
            created_at: self.created_at,
        }
    }
}

impl Keyed for LedgerEvent<Seq<char>, JsonV> {
    open spec fn key(self) -> Seq<char> {
        self.id
    }
}

impl Row for LedgerEvent {
    fn id(&self) -> &str {
        self.id.as_str()
    }

    fn copy(&self) -> Self {
        LedgerEvent {
            id: self.id.clone(),
            hlc: self.hlc.clone(),
            device_id: self.device_id.clone(),
            user_id: self.user_id.clone(),
            seq: self.seq,
            event_type: self.event_type.clone(),
            payload: self.payload.copy(),
            created_at: self.created_at,
        }
    }
}

impl Ranked for LedgerEvent<Seq<char>, JsonV> {
    open spec fn rank(self) -> Seq<char> {
        self.hlc
    }
}

impl RankedRow for LedgerEvent {
    fn rank(&self) -> &str {
        self.hlc.as_str()
    }
}

/// The highest sequence number of a device's events.
pub open spec fn top_seq(log: Seq<EventV>, device: Seq<char>) -> Option<i64>
    decreases log.len(),
{
    if log.len() == 0 {
        None
    } else {
        let r = top_seq(log.drop_last(), device);
        if log.last().device_id == device && (r is None || log.last().seq > r->0) {
            Some(log.last().seq)
        } else {
            r
        }
    }
}

/// The highest sequence number of a device's events, 0 where it has none.
pub open spec fn max_seq(log: Seq<EventV>, device: Seq<char>) -> i64 {
    match top_seq(log, device) {
        Some(s) => s,
        None => 0,
    }
}

/// The highest sequence number is one of the device's and none is above it.
pub proof fn lemma_top_seq(log: Seq<EventV>, device: Seq<char>)
    ensures
        match top_seq(log, device) {
            Some(s) => numbered(log, device, s),
            None => true,
        },
        forall|i: int|
            0 <= i < log.len() && (#[trigger] log[i]).device_id == device ==> top_seq(log, device)
                is Some && log[i].seq <= top_seq(log, device)->0,
    decreases log.len(),
{
    if log.len() > 0 {
        let front = log.drop_last();
        lemma_top_seq(front, device);
        assert forall|i: int| 0 <= i < log.len() && (#[trigger] log[i]).device_id == device implies
            top_seq(log, device) is Some && log[i].seq <= top_seq(log, device)->0 by {
            if i < front.len() {
                assert(front[i] == log[i]);
            }
        }
        if let Some(s) = top_seq(front, device) {
            let i = choose|i: int|
                0 <= i < front.len() && (#[trigger] front[i]).device_id == device && front[i].seq
                    == s;
            assert(log[i] == front[i]);
        }
        assert(log[log.len() - 1] == log.last());
    }
}

/// The log has an event of the device with this sequence number.
pub open spec fn numbered(log: Seq<EventV>, device: Seq<char>, seq: i64) -> bool {
    exists|i: int|
        0 <= i < log.len() && (#[trigger] log[i]).device_id == device && log[i].seq == seq
}

fn find_max_seq(events: &Vec<LedgerEvent>, device: &str) -> (r: i64)
    ensures
        r == max_seq(rows(events@), device@),
{
    let ghost log = rows(events@);
    let mut top: Option<i64> = None;
    let mut i: usize = 0;
    while i < events.len()
        invariant
            i <= events@.len(),
            log == rows(events@),
            top == top_seq(log.take(i as int), device@),
        decreases events@.len() - i,
    {
        assert(log.take(i + 1).drop_last() =~= log.take(i as int));
        assert(log.take(i + 1).last() == events@[i as int]@);
        if same(events[i].device_id.as_str(), device) {
            let s: i64 = events[i].seq;
            let higher: bool = match top {
                Some(t) => s > t,
                None => true,
            };
            if higher {
                top = Some(s);
            }
        }
        i += 1;
    }
    assert(log.take(log.len() as int) =~= log);
    match top {
        Some(s) => s,
        None => 0,
    }
}

fn is_numbered(events: &Vec<LedgerEvent>, device: &str, seq: i64) -> (r: bool)
    ensures
        r == numbered(rows(events@), device@, seq),
{
    let ghost log = rows(events@);
    let mut i: usize = 0;
    while i < events.len()
        invariant
            i <= events@.len(),
            log == rows(events@),
            forall|j: int|
                0 <= j < i ==> !((#[trigger] log[j]).device_id == device@ && log[j].seq == seq),
        decreases events@.len() - i,
    {
        assert(log[i as int] == events@[i as int]@);
        if events[i].seq == seq && same(events[i].device_id.as_str(), device) {
            return true;
        }
        i += 1;
    }
    false
}

/// The event that is appended next.
pub open spec fn next_event(
    log: Seq<EventV>,
    clock: Hlc<Seq<char>>,
    now: u64,
    device: Seq<char>,
    user: Seq<char>,
    event_type: Seq<char>,
    payload: JsonV,
) -> EventV {
    LedgerEvent {
        id: stamp(ticked(clock, now)),
        hlc: stamp(ticked(clock, now)),
        device_id: device,
        user_id: user,
        seq: (max_seq(log, device) + 1) as i64,
        event_type,
        payload,
        created_at: now as i64,
    }
}

/// There is a next sequence number, and the clock can tick.
pub open spec fn has_room(
    log: Seq<EventV>,
    clock: Hlc<Seq<char>>,
    now: u64,
    device: Seq<char>,
) -> bool {
    max_seq(log, device) < i64::MAX && can_tick(clock, now)
}

/// What appending an event gives.
pub open spec fn append_outcome(
    log: Seq<EventV>,
    clock: Hlc<Seq<char>>,
    now: u64,
    device: Seq<char>,
    user: Seq<char>,
    event_type: Seq<char>,
    payload: JsonV,
) -> Result<EventV, DbError<Seq<char>>> {
    if !has_room(log, clock, now, device) {
        Err(DbError::Overflow)
    } else if holds(log, stamp(ticked(clock, now))) {
        Err(DbError::Unique("events.id"@))
    } else {
        Ok(next_event(log, clock, now, device, user, event_type, payload))
    }
}

/// The clock after an append was tried: it ticks unless there was no room.
pub open spec fn append_clock(
    log: Seq<EventV>,
    clock: Hlc<Seq<char>>,
    now: u64,
    device: Seq<char>,
) -> Hlc<Seq<char>> {
    if has_room(log, clock, now, device) {
        ticked(clock, now)
    } else {
        clock
    }
}

/// Append one event to the log.
pub fn append_event(
    db: &mut Database,
    hlc: &mut Hlc,
    physical_now: u64,
    device_id: &str,
    user_id: &str,
    event_type: &str,
    payload: &Json,
) -> (r: Result<LedgerEvent, DbError>)
    ensures
        final(hlc)@ == append_clock(old(db)@.events, old(hlc)@, physical_now, device_id@),
        match r {
            Ok(ev) => append_outcome(
                old(db)@.events,
                old(hlc)@,
                physical_now,
                device_id@,
                user_id@,
                event_type@,
                payload@,
            ) == Ok::<EventV, DbError<Seq<char>>>(ev@) && final(db)@ == (Store {
                events: old(db)@.events.push(ev@),
                ..old(db)@
            }) && final(db).tables == old(db).tables,
            Err(e) => append_outcome(
                old(db)@.events,
                old(hlc)@,
                physical_now,
                device_id@,
                user_id@,
                event_type@,
                payload@,
            ) == Err::<EventV, DbError<Seq<char>>>(e@) && *final(db) == *old(db),
        },
{
    let top: i64 = find_max_seq(&db.events, device_id);
    if top == i64::MAX {
        return Err(DbError::Overflow);
    }
    if physical_now <= hlc.last_physical && hlc.last_physical == u64::MAX && hlc.counter
        >= LAST_COUNTER {
        return Err(DbError::Overflow);
    }
    let stamp = hlc.tick(physical_now);
    if find(&db.events, stamp.as_str()).is_some() {
        return Err(DbError::Unique("events.id".to_owned()));
    }
    let ev = LedgerEvent {
        id: stamp.clone(),
        hlc: stamp,
        device_id: device_id.to_owned(),
        user_id: user_id.to_owned(),
        seq: top + 1,
        event_type: event_type.to_owned(),
        payload: payload.copy(),
        created_at: physical_now as i64,
    };
    let stored = ev.copy();
    proof {
        lemma_rows_push(db.events@, stored);
    }
    db.events.push(stored);
    Ok(ev)
}

/// Why an event cannot join the log as it is, if it cannot.
pub open spec fn raw_conflict(log: Seq<EventV>, ev: EventV) -> Option<DbError<Seq<char>>> {
    if holds(log, ev.id) {
        Some(DbError::Unique("events.id"@))
    } else if numbered(log, ev.device_id, ev.seq) {
        Some(DbError::Unique("events.device_id, events.seq"@))
    } else {
        None
    }
}

/// Adds an event to the log exactly as it is, keeping its id, stamp and sequence
/// number.
pub fn insert_raw_event(db: &mut Database, ev: &LedgerEvent) -> (r: Result<(), DbError>)
    ensures
        match r {
            Ok(_) => raw_conflict(old(db)@.events, ev@) is None && final(db)@ == (Store {
                events: old(db)@.events.push(ev@),
                ..old(db)@
            }),
            Err(e) => raw_conflict(old(db)@.events, ev@) == Some(e@) && *final(db) == *old(db),
        },
{
    if find(&db.events, ev.id.as_str()).is_some() {
        return Err(DbError::Unique("events.id".to_owned()));
    }
    if is_numbered(&db.events, ev.device_id.as_str(), ev.seq) {
        return Err(DbError::Unique("events.device_id, events.seq".to_owned()));
    }
    let stored = ev.copy();
    proof {
        lemma_rows_push(db.events@, stored);
    }
    db.events.push(stored);
    Ok(())
}

/// The events in replay order: by stamp ascending, equal stamps by id.
pub open spec fn replay_order(log: Seq<EventV>) -> Seq<EventV> {
    sorted(log)
}

/// Replay order is ascending by stamp and keeps every event.
pub proof fn law_replay_order_sorts(log: Seq<EventV>)
    ensures
        forall|i: int, j: int|
            0 <= i < j < log.len() ==> lex_le(
                (#[trigger] replay_order(log)[i]).hlc,
                (#[trigger] replay_order(log)[j]).hlc,
            ),
        replay_order(log).to_multiset() == log.to_multiset(),
        replay_order(log).len() == log.len(),
{
    lemma_sorted(log);
    let s = replay_order(log);
    assert forall|i: int, j: int| 0 <= i < j < log.len() implies lex_le(
        (#[trigger] s[i]).hlc,
        (#[trigger] s[j]).hlc,
    ) by {
        assert(!before(s[j], s[i]));
    }
}

/// Read every event in deterministic replay order (by HLC ascending).
pub fn read_events(db: &Database) -> (r: Result<Vec<LedgerEvent>, DbError>)
    ensures
        r matches Ok(v) && rows(v@) == replay_order(db@.events),
{
    Ok(sort(&db.events))
}

/// Return the list of missing `seq` values for a device (gap detection for sync).
pub fn missing_seqs(db: &Database, device_id: &str) -> (r: Result<Vec<i64>, DbError>)
    ensures
        r matches Ok(v) && (forall|s: i64|
            #![trigger v@.contains(s)]
            v@.contains(s) <==> 1 <= s <= max_seq(db@.events, device_id@) && !numbered(
                db@.events,
                device_id@,
                s,
            )) && (forall|i: int, j: int|
            0 <= i < j < v@.len() ==> #[trigger] v@[i] < #[trigger] v@[j]),
{
    let top: i64 = find_max_seq(&db.events, device_id);
    let mut out: Vec<i64> = Vec::new();
    let mut s: i64 = 0;
    while s < top
        invariant
            0 <= s,
            s <= top || (s == 0 && top < 0),
            top == max_seq(db@.events, device_id@),
            forall|x: i64|
                #![trigger out@.contains(x)]
                out@.contains(x) <==> 1 <= x <= s && !numbered(db@.events, device_id@, x),
            forall|i: int| 0 <= i < out@.len() ==> 1 <= #[trigger] out@[i] <= s,
            forall|i: int, j: int|
                0 <= i < j < out@.len() ==> #[trigger] out@[i] < #[trigger] out@[j],
        decreases top - s,
    {
        s += 1;
        if !is_numbered(&db.events, device_id, s) {
            let ghost before = out@;
            out.push(s);
            assert forall|x: i64|
                #![trigger out@.contains(x)]
                out@.contains(x) <==> 1 <= x <= s && !numbered(db@.events, device_id@, x) by {
                if before.contains(x) {
                    let k = choose|k: int| 0 <= k < before.len() && before[k] == x;
                    assert(out@[k] == x);
                }
                if x == s {
                    assert(out@[before.len() as int] == s);
                }
                if out@.contains(x) && x != s {
                    let k = choose|k: int| 0 <= k < out@.len() && out@[k] == x;
                    assert(before[k] == x);
                    assert(before.contains(x));
                }
            }
        }
    }
    Ok(out)
}

/// The greatest stamp in the log.
pub open spec fn latest_stamp(log: Seq<EventV>) -> Option<Seq<char>>
    decreases log.len(),
{
    if log.len() == 0 {
        None
    } else {
        match latest_stamp(log.drop_last()) {
            Some(m) => if lex_lt(m, log.last().hlc) {
                Some(log.last().hlc)
            } else {
                Some(m)
            },
            None => Some(log.last().hlc),
        }
    }
}

/// The greatest stamp is one of the log's and none sorts after it.
pub proof fn lemma_latest_stamp(log: Seq<EventV>)
    ensures
        log.len() > 0 <==> latest_stamp(log) is Some,
        forall|i: int|
            0 <= i < log.len() ==> lex_le((#[trigger] log[i]).hlc, latest_stamp(log)->0),
        log.len() > 0 ==> exists|i: int|
            0 <= i < log.len() && (#[trigger] log[i]).hlc == latest_stamp(log)->0,
    decreases log.len(),
{
    if log.len() > 0 {
        let front = log.drop_last();
        lemma_latest_stamp(front);
        let top = latest_stamp(log)->0;
        if top == log.last().hlc {
            assert(log[log.len() - 1].hlc == top);
        } else {
            let i = choose|i: int|
                0 <= i < front.len() && (#[trigger] front[i]).hlc == latest_stamp(front)->0;
            assert(log[i].hlc == top);
        }
        assert forall|i: int| 0 <= i < log.len() implies lex_le((#[trigger] log[i]).hlc, top) by {
            crate::text::lemma_lex_irreflexive(top);
            if i < front.len() {
                assert(front[i] == log[i]);
                let m = latest_stamp(front)->0;
                if lex_lt(m, log.last().hlc) && lex_lt(top, log[i].hlc) {
                    crate::text::lemma_lex_transitive(m, top, log[i].hlc);
                }
            }
        }
    }
}

fn find_latest_stamp(events: &Vec<LedgerEvent>) -> (r: Option<&str>)
    ensures
        crate::rows::opt_str(r) == latest_stamp(rows(events@)),
{
    let ghost log = rows(events@);
    let mut top: Option<&str> = None;
    let mut i: usize = 0;
    while i < events.len()
        invariant
            i <= events@.len(),
            log == rows(events@),
            crate::rows::opt_str(top) == latest_stamp(log.take(i as int)),
        decreases events@.len() - i,
    {
        assert(log.take(i + 1).drop_last() =~= log.take(i as int));
        assert(log.take(i + 1).last() == events@[i as int]@);
        let later: bool = match top {
            Some(m) => sorts_before(m, events[i].hlc.as_str()),
            None => true,
        };
        if later {
            top = Some(events[i].hlc.as_str());
        }
        i += 1;
    }
    assert(log.take(log.len() as int) =~= log);
    top
}

/// Seed an in-memory clock from the persisted log on open.
pub fn rehydrate_from_log(db: &Database, hlc: &mut Hlc, physical_now: u64) -> (r: Result<
    (),
    DbError,
>)
    ensures
        match latest_stamp(db@.events) {
            None => r is Ok && final(hlc)@ == old(hlc)@,
            Some(top) => if can_observe(old(hlc)@, decoded(top), physical_now) {
                r is Ok && final(hlc)@ == observed(old(hlc)@, decoded(top), physical_now)
            } else {
                r matches Err(e) && e@ == DbError::<Seq<char>>::Overflow && final(hlc)@ == old(
                    hlc,
                )@
            },
        },
{
    match find_latest_stamp(&db.events) {
        None => Ok(()),
        Some(top) => if hlc.try_observe(top, physical_now) {
            Ok(())
        } else {
            Err(DbError::Overflow)
        },
    }
}

/// A clock seeded from a log of well-formed stamps ticks behind every event in it.
pub proof fn law_rehydrated_clock_is_ahead(
    log: Seq<EventV>,
    clock: Hlc<Seq<char>>,
    last: Hlc<Seq<char>>,
    opened_at: u64,
    now: u64,
    i: int,
)
    requires
        0 <= i < log.len(),
        latest_stamp(log) == Some(stamp(last)),
        can_observe(clock, decoded(stamp(last)), opened_at),
        can_tick(observed(clock, decoded(stamp(last)), opened_at), now),
        crate::hlc::in_width(ticked(observed(clock, decoded(stamp(last)), opened_at), now)),
    ensures
        lex_lt(
            log[i].hlc,
            stamp(ticked(observed(clock, decoded(stamp(last)), opened_at), now)),
        ),
{
    crate::hlc::law_decode_inverts_stamp(last);
    crate::hlc::law_observe_pulls_ahead(clock, last, opened_at, now);
    lemma_latest_stamp(log);
    assert(lex_le(log[i].hlc, stamp(last)));
    crate::text::lemma_lex_total(log[i].hlc, stamp(last));
    if lex_lt(log[i].hlc, stamp(last)) {
        crate::text::lemma_lex_transitive(
            log[i].hlc,
            stamp(last),
            stamp(ticked(observed(clock, decoded(stamp(last)), opened_at), now)),
        );
    }
}

/// An appended event carries the next sequence number of its device, which no
/// event of that device had, and its id is its stamp.
pub proof fn law_append_numbers_consecutively(
    log: Seq<EventV>,
    clock: Hlc<Seq<char>>,
    now: u64,
    device: Seq<char>,
    user: Seq<char>,
    event_type: Seq<char>,
    payload: JsonV,
)
    requires
        append_outcome(log, clock, now, device, user, event_type, payload) is Ok,
    ensures
        ({
            let ev = append_outcome(log, clock, now, device, user, event_type, payload)->Ok_0;
            &&& ev.seq == max_seq(log, device) + 1
            &&& !numbered(log, device, ev.seq)
            &&& max_seq(log.push(ev), device) == ev.seq
            &&& ev.id == ev.hlc
            &&& !holds(log, ev.id)
        }),
{
    let ev = append_outcome(log, clock, now, device, user, event_type, payload)->Ok_0;
    lemma_top_seq(log, device);
    assert(log.push(ev).drop_last() =~= log);
}

/// Some event of a type carries a text under a key.
pub open spec fn mentioned(log: Seq<EventV>, event_type: Seq<char>, key: Seq<char>, value: Seq<char>) -> bool {
    exists|i: int|
        0 <= i < log.len() && (#[trigger] log[i]).event_type == event_type && opt_txt(
            log[i].payload,
            key,
        ) == Some(value)
}

/// Whether some event of a type carries a text under a key.
pub fn is_mentioned(log: &Vec<LedgerEvent>, event_type: &str, key: &str, value: &str) -> (r: bool)
    ensures
        r == mentioned(rows(log@), event_type@, key@, value@),
{
    let ghost s = rows(log@);
    let mut i: usize = 0;
    while i < log.len()
        invariant
            i <= log@.len(),
            s == rows(log@),
            forall|j: int|
                0 <= j < i ==> !((#[trigger] s[j]).event_type == event_type@ && opt_txt(
                    s[j].payload,
                    key@,
                ) == Some(value@)),
        decreases log@.len() - i,
    {
        assert(s[i as int] == log@[i as int]@);
        if same(log[i].event_type.as_str(), event_type) {
            if let Some(v) = pos(&log[i].payload, key) {
                if same(v, value) {
                    return true;
                }
            }
        }
        i += 1;
    }
    false
}

} // verus!
