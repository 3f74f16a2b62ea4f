//! Writing an archive.

use crate::archive::{ARCHIVE_FORMAT, ARCHIVE_VERSION, ArchiveError};
use crate::archive::lines::{joined, lemma_joined_push, one_line};
use crate::assoc::{pairs, record_of};
use crate::db::{Database, Store};
use crate::events::{replay_order, EventV, LedgerEvent};
use crate::json::{elements_of, Fields, Json, JsonV};
use crate::model::Text;
use crate::rows::rows;
use crate::settings::{DEVICE_ID, Settings};
use crate::sort::{lemma_sorted, sort};
use crate::wire::{json_text, print, readable, reads_as};
use vstd::prelude::*;
use vstd::string::*;

verus! {

/// Settings as a record of texts.
pub open spec fn settings_json(s: Map<Text, Text>) -> JsonV {
    JsonV::Object(Map::new(|k: Text| s.contains_key(k), |k: Text| JsonV::Str(s[k])))
}

fn write_settings(s: &Settings) -> (r: Json)
    ensures
        r@ == settings_json(s@),
{
    let ghost all = pairs(s.entries@);
    let mut out = Fields::new();
    let mut i: usize = 0;
    assert(out@ =~= settings_json(record_of(all.take(0)))->Object_0);
    while i < s.entries.len()
        invariant
            i <= s.entries@.len(),
            all == pairs(s.entries@),
            JsonV::Object(out@) == settings_json(record_of(all.take(i as int))),
        decreases s.entries@.len() - i,
    {
        let ghost had = record_of(all.take(i as int));
        assert(all.take(i + 1).drop_last() =~= all.take(i as int));
        assert(all.take(i + 1).last() == all[i as int]);
        let ghost before = out@;
        out = out.text(s.entries[i].0.as_str(), s.entries[i].1.as_str());
        proof {
            let k = all[i as int].0;
            let v = all[i as int].1;
            assert(before.insert(k, JsonV::Str(v)) =~= settings_json(had.insert(k, v))->Object_0);
        }
        i += 1;
    }
    assert(all.take(all.len() as int) =~= all);
    out.done()
}

/// The identity that is stored, or an empty text.
pub open spec fn identity(s: Map<Text, Text>) -> Text {
    if s.contains_key(DEVICE_ID@) {
        s[DEVICE_ID@]
    } else {
        Seq::empty()
    }
}

/// The header of an archive.
pub open spec fn header_json(
    settings: Map<Text, Text>,
    exported_at: i64,
    app_version: Text,
) -> JsonV {
    JsonV::Object(
        Map::empty().insert("format"@, JsonV::Str(ARCHIVE_FORMAT@)).insert(
            "version"@,
            JsonV::Int(ARCHIVE_VERSION as int),
        ).insert("exported_at"@, JsonV::Int(exported_at as int)).insert(
            "app_version"@,
            JsonV::Str(app_version),
        ).insert("device_id"@, JsonV::Str(identity(settings))).insert(
            "settings"@,
            settings_json(settings),
        ),
    )
}

fn write_header(settings: &Settings, exported_at: i64, app_version: &str) -> (r: Json)
    ensures
        r@ == header_json(settings@, exported_at, app_version@),
{
    proof {
        reveal_strlit("");
        assert(""@ =~= Seq::<char>::empty());
    }
    let device_id = match settings.get(DEVICE_ID) {
        Some(d) => d,
        None => "",
    };
    Fields::new().text("format", ARCHIVE_FORMAT).number(
        "version",
        ARCHIVE_VERSION as i64,
    ).number("exported_at", exported_at).text("app_version", app_version).text(
        "device_id",
        device_id,
    ).json("settings", write_settings(settings)).done()
}

/// An event as a line of an archive.
pub open spec fn event_json(ev: EventV) -> JsonV {
    JsonV::Object(
        Map::empty().insert("id"@, JsonV::Str(ev.id)).insert("hlc"@, JsonV::Str(ev.hlc)).insert(
            "device_id"@,
            JsonV::Str(ev.device_id),
        ).insert("user_id"@, JsonV::Str(ev.user_id)).insert("seq"@, JsonV::Int(ev.seq as int)).insert(
            "type"@,
            JsonV::Str(ev.event_type),
        ).insert("payload"@, ev.payload).insert("created_at"@, JsonV::Int(ev.created_at as int)),
    )
}

fn write_event(ev: &LedgerEvent) -> (r: Json)
    ensures
        r@ == event_json(ev@),
{
    Fields::new().text("id", ev.id.as_str()).text("hlc", ev.hlc.as_str()).text(
        "device_id",
        ev.device_id.as_str(),
    ).text("user_id", ev.user_id.as_str()).number("seq", ev.seq).text(
        "type",
        ev.event_type.as_str(),
    ).json("payload", ev.payload.copy()).number("created_at", ev.created_at).done()
}

/// The values of an archive, line by line.
pub open spec fn archive_values(s: Store, exported_at: i64, app_version: Text) -> Seq<JsonV> {
    let log = replay_order(s.events);
    Seq::new(
        log.len() + 1,
        |i: int|
            if i == 0 {
                header_json(s.settings, exported_at, app_version)
            } else {
                event_json(log[i - 1])
            },
    )
}

/// The lines of an archive.
pub open spec fn archive_texts(s: Store, exported_at: i64, app_version: Text) -> Seq<Text> {
    archive_values(s, exported_at, app_version).map(|i: int, v: JsonV| json_text(v))
}

/// The value is written on one line and, as far as the reader follows, reads back.
pub open spec fn reads_back(v: JsonV) -> bool {
    one_line(json_text(v)) && (readable(v, 127) ==> reads_as(json_text(v), v))
}

/// The values of an archive, line by line.
pub fn archive_lines(db: &Database, exported_at: i64, app_version: &str) -> (r: Vec<Json>)
    ensures
        elements_of(r@) == archive_values(db@, exported_at, app_version@),
{
    let events = sort(&db.events);
    let ghost log = rows(events@);
    let ghost all = archive_values(db@, exported_at, app_version@);
    let mut out: Vec<Json> = Vec::new();
    out.push(write_header(&db.settings, exported_at, app_version));
    let mut i: usize = 0;
    while i < events.len()
        invariant
            i <= events@.len(),
            log == rows(events@),
            log == replay_order(db@.events),
            all == archive_values(db@, exported_at, app_version@),
            out@.len() == i + 1,
            forall|k: int| 0 <= k <= i ==> (#[trigger] out@[k])@ == all[k],
        decreases events@.len() - i,
    {
        assert(log[i as int] == events@[i as int]@);
        out.push(write_event(&events[i]));
        i += 1;
    }
    assert(elements_of(out@) =~= all);
    out
}

/// Writes the whole event log behind a header to the end of `out`. Returns the number of
/// events written.
pub fn export_jsonl(db: &Database, out: &mut String, exported_at: i64, app_version: &str) -> (r:
    Result<usize, ArchiveError>)
    ensures
        r matches Ok(n) && n == db@.events.len(),
        final(out)@ == old(out)@ + joined(archive_texts(db@, exported_at, app_version@)),
        forall|i: int|
            0 <= i <= db@.events.len() ==> reads_back(
                #[trigger] archive_values(db@, exported_at, app_version@)[i],
            ),
{
    let values = archive_lines(db, exported_at, app_version);
    let ghost all = elements_of(values@);
    let ghost texts = archive_texts(db@, exported_at, app_version@);
    let mut i: usize = 0;
    assert(out@ + joined(texts.take(0)) =~= out@);
    while i < values.len()
        invariant
            i <= values@.len(),
            all == elements_of(values@),
            all == archive_values(db@, exported_at, app_version@),
            texts == archive_texts(db@, exported_at, app_version@),
            out@ == old(out)@ + joined(texts.take(i as int)),
            forall|k: int| 0 <= k < i ==> reads_back(#[trigger] all[k]),
        decreases values@.len() - i,
    {
        let line = print(&values[i]);
        assert(all[i as int] == values@[i as int]@);
        out.append(line.as_str());
        out.append("\n");
        proof {
            reveal_strlit("\n");
            assert("\n"@ =~= seq!['\n']);
            assert(texts.take(i + 1) =~= texts.take(i as int).push(line@));
            lemma_joined_push(texts.take(i as int), line@);
            assert(out@ =~= old(out)@ + joined(texts.take(i + 1)));
        }
        i += 1;
    }
    proof {
        assert(texts.take(texts.len() as int) =~= texts);
        lemma_sorted(db@.events);
    }
    Ok(db.events.len())
}

} // verus!
