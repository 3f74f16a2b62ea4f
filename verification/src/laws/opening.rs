//! Opening a ledger: what is seeded, how the clock is set, and the calendar.

use crate::calendar::{
    day_number, days_before_month, days_before_year, leap, lemma_date_on, lemma_month_table,
    month_days, utc_text, valid_date,
};
use crate::db::Store;
use crate::events::{latest_stamp, EventV};
use crate::genesis::{
    genesis, party_payload, seed_party, ANON_SUPPLIER_PARTY_ID, SYSTEM_USER_ID, Seeding,
    WALKIN_PARTY_ID,
};
use crate::hlc::{decoded, stamp, Hlc};
use crate::json::{member, opt_txt, txt, JsonV};
use crate::laws::inputs::law_seeded_parties_are_created_as_named;
use crate::laws::logs::{law_appended_events, law_latest_stamp, law_observing_reads_the_latest_time};
use crate::laws::settling::lemma_named_in;
use crate::model::Text;
use crate::service::{clock_overflows, opened_clock, seed_ledger, OWNER_ID, OWNER_NAME};
use crate::settings::{settable, SETTING_KEYS};
use crate::text::{all_digits, lemma_padded_len, lemma_padded_value, padded, pow10, value_of};
use vstd::prelude::*;

verus! {

// ---- the calendar ----

/// The day after a date, by the lengths of the months: February has 29 days in years that
/// are divisible by four, but not in those divisible by a hundred unless by four hundred.
pub open spec fn next_day(y: int, m: int, d: int) -> (int, int, int) {
    let last = if m == 2 {
        if y % 400 == 0 || (y % 4 == 0 && y % 100 != 0) {
            29
        } else {
            28int
        }
    } else if m == 4 || m == 6 || m == 9 || m == 11 {
        30
    } else {
        31
    };
    if d < last {
        (y, m, d + 1)
    } else if m < 12 {
        (y, m + 1, 1)
    } else {
        (y + 1, 1, 1)
    }
}

/// Days are counted from 1970-01-01, which has the number zero, and every day has the
/// number after that of the day before it.
pub proof fn law_days_are_counted_one_by_one(y: int, m: int, d: int)
    requires
        valid_date(y, m, d),
    ensures
        day_number(1970, 1, 1) == 0,
        valid_date(next_day(y, m, d).0, next_day(y, m, d).1, next_day(y, m, d).2),
        day_number(next_day(y, m, d).0, next_day(y, m, d).1, next_day(y, m, d).2) == day_number(
            y,
            m,
            d,
        ) + 1,
{
    assert(days_before_month(1970, 1) == 0);
    let n = next_day(y, m, d);
    if n.1 == m {
    } else if m < 12 {
        assert(days_before_month(y, m + 1) == days_before_month(y, m) + month_days(y, m));
    } else {
        lemma_month_table(y);
        assert(days_before_month(y + 1, 1) == 0);
        lemma_year_length(y);
    }
}

proof fn lemma_year_length(y: int)
    ensures
        days_before_year(y + 1) == days_before_year(y) + (if leap(y) {
            366int
        } else {
            365
        }),
{
    lemma_division(y, 4);
    lemma_division(y, 100);
    lemma_division(y, 400);
    let (a, b, c) = (y % 4 == 0, y % 100 == 0, y % 400 == 0);
    assert(c ==> b) by (nonlinear_arith)
        requires
            b == (y % 100 == 0),
            c == (y % 400 == 0),
    ;
    assert(b ==> a) by (nonlinear_arith)
        requires
            a == (y % 4 == 0),
            b == (y % 100 == 0),
    ;
    let (p, q, r) = ((y - 1) / 4, (y - 1) / 100, (y - 1) / 400);
    let (u, v, w) = (y / 4, y / 100, y / 400);
    assert(y + 1 - 1 == y);
    assert(days_before_year(y + 1) == 365 * y + u - v + w);
    assert(days_before_year(y) == 365 * (y - 1) + p - q + r);
    assert(leap(y) == (a && (!b || c)));
}

proof fn lemma_division(y: int, n: int)
    requires
        n == 4 || n == 100 || n == 400,
    ensures
        y / n == (y - 1) / n + (if y % n == 0 {
            1int
        } else {
            0
        }),
{
    if n == 4 {
        assert(y / 4 == (y - 1) / 4 + (if y % 4 == 0 { 1int } else { 0 }));
    } else if n == 100 {
        assert(y / 100 == (y - 1) / 100 + (if y % 100 == 0 { 1int } else { 0 }));
    } else {
        assert(y / 400 == (y - 1) / 400 + (if y % 400 == 0 { 1int } else { 0 }));
    }
}

// ---- settings ----

/// What may be set is the currency's symbol, code and decimals, the theme, the locale, the
/// size of the font, the folder for backups and when the last was made, and nothing else.
pub proof fn law_settings_that_may_be_set(key: Text)
    ensures
        settable(key) <==> key == "currency_symbol"@ || key == "currency_code"@ || key
            == "currency_decimals"@ || key == "theme"@ || key == "locale"@ || key == "font_size"@
            || key == "backup_folder"@ || key == "last_backup_at"@,
{
    let s = SETTING_KEYS@;
    assert(s.len() == 8);
    assert(s[0]@ == "currency_symbol"@);
    assert(s[1]@ == "currency_code"@);
    assert(s[2]@ == "currency_decimals"@);
    assert(s[3]@ == "theme"@);
    assert(s[4]@ == "locale"@);
    assert(s[5]@ == "font_size"@);
    assert(s[6]@ == "backup_folder"@);
    assert(s[7]@ == "last_backup_at"@);
}

// ---- seeding ----

/// The log names a party among those that were created.
pub open spec fn party_created(log: Seq<EventV>, id: Text) -> bool {
    exists|i: int|
        0 <= i < log.len() && (#[trigger] log[i]).event_type == "PartyCreated"@ && opt_txt(
            log[i].payload,
            "partyId"@,
        ) == Some(id)
}

/// The new event creates the party, active, with a name and a kind.
pub open spec fn creates(ev: EventV, id: Text, name: Text, kind: Text) -> bool {
    &&& ev.event_type == "PartyCreated"@
    &&& ev.user_id == "system"@
    &&& txt(ev.payload, "partyId"@) == id
    &&& txt(ev.payload, "name"@) == name
    &&& txt(ev.payload, "kind"@) == kind
    &&& member(ev.payload, "active"@) == Some(JsonV::Bool(true))
}

/// Seeding a party adds the event that creates it where the log has none, and nothing where
/// it has one; all else stays.
pub proof fn law_seeding_a_party(
    s: Store,
    clock: Hlc<Text>,
    now: u64,
    device: Text,
    id: Text,
    name: Text,
    kind: Text,
)
    requires
        seed_party(s, clock, now, device, id, name, kind).result is Ok,
    ensures
        ({
            let x = seed_party(s, clock, now, device, id, name, kind).store;
            &&& x.settings == s.settings
            &&& x.model == s.model
            &&& party_created(s.events, id) ==> x == s
            &&& !party_created(s.events, id) ==> x.events.len() == s.events.len() + 1
                && x.events.take(s.events.len() as int) == s.events && creates(
                x.events.last(),
                id,
                name,
                kind,
            )
            &&& party_created(x.events, id)
        }),
{
    let n = s.events.len() as int;
    let x = seed_party(s, clock, now, device, id, name, kind).store;
    lemma_named_in(s.events, "PartyCreated"@, "partyId"@, id);
    law_seeded_parties_are_created_as_named(id, name, kind);
    if !party_created(s.events, id) {
        law_appended_events(
            s.events,
            clock,
            now,
            device,
            SYSTEM_USER_ID@,
            "PartyCreated"@,
            party_payload(id, name, kind),
        );
        assert(x.events.take(n) =~= s.events);
        assert(x.events[n] == x.events.last());
        assert(member(x.events[n].payload, "partyId"@) is Some) by {
            lemma_party_named(id, name, kind);
        }
        lemma_party_named(id, name, kind);
        assert(x.events[n].event_type == "PartyCreated"@);
    }
}

proof fn lemma_party_named(id: Text, name: Text, kind: Text)
    ensures
        opt_txt(party_payload(id, name, kind), "partyId"@) == Some(id),
{
    reveal_strlit("partyId");
    reveal_strlit("name");
    reveal_strlit("kind");
    reveal_strlit("active");
    assert("partyId"@.len() == 7);
    assert("name"@.len() == 4);
    assert("kind"@.len() == 4);
    assert("active"@.len() == 6);
}

proof fn lemma_created_stays(log: Seq<EventV>, more: Seq<EventV>, id: Text)
    requires
        log.len() <= more.len(),
        more.take(log.len() as int) == log,
        party_created(log, id),
    ensures
        party_created(more, id),
{
    let i = choose|i: int|
        0 <= i < log.len() && (#[trigger] log[i]).event_type == "PartyCreated"@ && opt_txt(
            log[i].payload,
            "partyId"@,
        ) == Some(id);
    assert(more.take(log.len() as int)[i] == log[i]);
    assert(more[i].event_type == "PartyCreated"@);
}

/// Once a ledger is seeded, its log holds the shared customer and the shared supplier; what
/// a log with events held before stands in front.
pub proof fn law_seeded_ledgers_hold_the_shared_parties(
    s: Store,
    clock: Hlc<Text>,
    now: u64,
    device: Text,
)
    requires
        seed_ledger(s, clock, now, device).result is Ok,
    ensures
        ({
            let x = seed_ledger(s, clock, now, device).store;
            &&& party_created(x.events, "party_walkin"@)
            &&& party_created(x.events, "party_anon_supplier"@)
            &&& s.events.len() > 0 ==> s.events.len() <= x.events.len() && x.events.take(
                s.events.len() as int,
            ) == s.events
            &&& s.events.len() > 0 && party_created(s.events, "party_walkin"@) && party_created(
                s.events,
                "party_anon_supplier"@,
            ) ==> x == s
        }),
{
    let x = if s.events.len() == 0 {
        genesis(s, clock, now, device, OWNER_ID@, OWNER_NAME@)
    } else {
        Seeding { result: Ok(()), store: s, clock }
    };
    let y = seed_party(
        x.store,
        x.clock,
        now,
        device,
        WALKIN_PARTY_ID@,
        "Walk-in Customer"@,
        "customer"@,
    );
    law_seeding_a_party(
        x.store,
        x.clock,
        now,
        device,
        WALKIN_PARTY_ID@,
        "Walk-in Customer"@,
        "customer"@,
    );
    law_seeding_a_party(
        y.store,
        y.clock,
        now,
        device,
        ANON_SUPPLIER_PARTY_ID@,
        "Cash Supplier"@,
        "supplier"@,
    );
    let z = seed_ledger(s, clock, now, device).store;
    let n = x.store.events.len() as int;
    let k = y.store.events.len() as int;
    assert(y.store.events.take(n) =~= x.store.events);
    assert(z.events.take(k) =~= y.store.events);
    lemma_created_stays(y.store.events, z.events, WALKIN_PARTY_ID@);
    if s.events.len() > 0 {
        assert(z.events.take(n) =~= z.events.take(k).take(n));
    }
}

/// A clock that is opened on a log is the device's; on an empty log it is at zero, on
/// another it reads after the latest stamp and no earlier than physical time.
pub proof fn law_opened_clocks(log: Seq<EventV>, device: Text, now: u64)
    requires
        !clock_overflows(log, device, now),
    ensures
        ({
            let c = opened_clock(log, device, now);
            &&& c.device_id == device
            &&& log.len() == 0 ==> c.last_physical == 0 && c.counter == 0
            &&& log.len() > 0 ==> c.last_physical >= now && (latest_stamp(log) matches Some(top)
                && {
                let at = decoded(top);
                c.last_physical > at.0 || (c.last_physical == at.0 && c.counter > at.1)
            })
        }),
{
    law_latest_stamp(log);
    if let Some(top) = latest_stamp(log) {
        law_observing_reads_the_latest_time(
            Hlc { device_id: device, last_physical: 0, counter: 0 },
            decoded(top),
            now,
        );
    }
}

// ---- times and stamps as texts ----

/// Two digits that write a number.
pub open spec fn two_digits(s: Text, at: int, n: int) -> bool {
    0 <= at && at + 2 <= s.len() && all_digits(s.subrange(at, at + 2)) && value_of(
        s.subrange(at, at + 2),
    ) == n
}

/// A time is written as its year, month and day, a hyphen, and its hour, minute and second,
/// whatever the part of the second.
pub proof fn law_times_are_written_out(
    y: int,
    mo: int,
    d: int,
    h: int,
    mi: int,
    sec: int,
    ms: int,
)
    requires
        1970 <= y <= 9999,
        valid_date(y, mo, d),
        0 <= h < 24,
        0 <= mi < 60,
        0 <= sec < 60,
        0 <= ms < 1000,
    ensures
        ({
            let t = utc_text(
                (((day_number(y, mo, d) * 24 + h) * 60 + mi) * 60 + sec) * 1000 + ms,
            );
            &&& t.len() == 15
            &&& all_digits(t.subrange(0, 4)) && value_of(t.subrange(0, 4)) == y
            &&& two_digits(t, 4, mo)
            &&& two_digits(t, 6, d)
            &&& t[8] == '-'
            &&& two_digits(t, 9, h)
            &&& two_digits(t, 11, mi)
            &&& two_digits(t, 13, sec)
        }),
{
    let day = day_number(y, mo, d);
    let clock = (h * 60 + mi) * 60 + sec;
    let whole = day * 86400 + clock;
    let all = (((day * 24 + h) * 60 + mi) * 60 + sec) * 1000 + ms;
    assert(all == whole * 1000 + ms);
    assert(all / 1000 == whole);
    assert(0 <= clock < 86400);
    assert(whole / 86400 == day);
    assert(whole % 86400 == clock);
    assert(clock / 3600 == h);
    assert(clock % 3600 / 60 == mi);
    assert(clock % 60 == sec);
    lemma_date_on((y, mo, d), day);
    let t = utc_text(all);
    lemma_ten_powers();
    lemma_padded_len(y as nat, 4);
    lemma_padded_len(mo as nat, 2);
    lemma_padded_len(d as nat, 2);
    lemma_padded_len(h as nat, 2);
    lemma_padded_len(mi as nat, 2);
    lemma_padded_len(sec as nat, 2);
    lemma_padded_value(y as nat, 4);
    lemma_padded_value(mo as nat, 2);
    lemma_padded_value(d as nat, 2);
    lemma_padded_value(h as nat, 2);
    lemma_padded_value(mi as nat, 2);
    lemma_padded_value(sec as nat, 2);
    reveal_strlit("-");
    assert(t.subrange(0, 4) =~= padded(y as nat, 4));
    assert(t.subrange(4, 6) =~= padded(mo as nat, 2));
    assert(t.subrange(6, 8) =~= padded(d as nat, 2));
    assert(t.subrange(9, 11) =~= padded(h as nat, 2));
    assert(t.subrange(11, 13) =~= padded(mi as nat, 2));
    assert(t.subrange(13, 15) =~= padded(sec as nat, 2));
}

proof fn lemma_ten_powers()
    ensures
        pow10(2) == 100,
        pow10(4) == 10000,
        pow10(6) == 1000000,
        pow10(15) == 1000000000000000,
{
    assert(pow10(0) == 1);
    assert(pow10(1) == 10);
    assert(pow10(2) == 100);
    assert(pow10(3) == 1000);
    assert(pow10(4) == 10000);
    assert(pow10(5) == 100000);
    assert(pow10(6) == 1000000);
    assert(pow10(7) == 10000000);
    assert(pow10(8) == 100000000);
    assert(pow10(9) == 1000000000);
    assert(pow10(10) == 10000000000);
    assert(pow10(11) == 100000000000);
    assert(pow10(12) == 1000000000000);
    assert(pow10(13) == 10000000000000);
    assert(pow10(14) == 100000000000000);
}

/// A stamp is written as fifteen digits of time, six of the counter and the device, with
/// colons between.
pub proof fn law_stamps_are_written_out(c: Hlc<Text>)
    requires
        c.last_physical < 1000000000000000,
        c.counter < 1000000,
    ensures
        ({
            let t = stamp(c);
            &&& t.len() == 23 + c.device_id.len()
            &&& all_digits(t.subrange(0, 15)) && value_of(t.subrange(0, 15)) == c.last_physical
            &&& t[15] == ':'
            &&& all_digits(t.subrange(16, 22)) && value_of(t.subrange(16, 22)) == c.counter
            &&& t[22] == ':'
            &&& t.skip(23) == c.device_id
        }),
{
    let t = stamp(c);
    lemma_ten_powers();
    lemma_padded_len(c.last_physical as nat, 15);
    lemma_padded_len(c.counter as nat, 6);
    lemma_padded_value(c.last_physical as nat, 15);
    lemma_padded_value(c.counter as nat, 6);
    reveal_strlit(":");
    assert(t.subrange(0, 15) =~= padded(c.last_physical as nat, 15));
    assert(t.subrange(16, 22) =~= padded(c.counter as nat, 6));
    assert(t.skip(23) =~= c.device_id);
}

} // verus!
