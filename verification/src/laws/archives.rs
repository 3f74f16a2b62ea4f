//! What an archive gives back.

use crate::archive::{ARCHIVE_VERSION, ArchiveFault};
use crate::archive::import::{archived_events, events_from, merged_from};
use crate::archive::lines::{
    break_from, joined, law_lines_read_back, lines_from, one_line, text_lines, trimmed,
};
use crate::archive::read::{event_in, header_in, parsed_event, parsed_header, texts_in, HeaderV};
use crate::archive::write::{
    archive_texts, archive_values, event_json, header_json, identity, reads_back, settings_json,
};
use crate::db::Store;
use crate::events::{replay_order, EventV};
use crate::json::JsonV;
use crate::model::Text;
use crate::rows::{holds, Keyed};
use crate::sort::lemma_sorted;
use crate::wire::{readable, reads_as};
use vstd::prelude::*;

verus! {

/// The names of the fields of an event are different names.
proof fn lemma_event_fields()
    ensures
        "id"@.len() == 2,
        "hlc"@.len() == 3,
        "device_id"@.len() == 9,
        "user_id"@.len() == 7,
        "seq"@.len() == 3,
        "type"@.len() == 4,
        "payload"@.len() == 7,
        "created_at"@.len() == 10,
        "hlc"@ != "seq"@,
        "user_id"@ != "payload"@,
{
    reveal_strlit("id");
    reveal_strlit("hlc");
    reveal_strlit("device_id");
    reveal_strlit("user_id");
    reveal_strlit("seq");
    reveal_strlit("type");
    reveal_strlit("payload");
    reveal_strlit("created_at");
    assert("hlc"@[0] != "seq"@[0]);
    assert("user_id"@[0] != "payload"@[0]);
}

/// An event that was written to a line is read from it as it was.
pub proof fn law_events_read_back(ev: EventV, line: usize)
    ensures
        event_in(event_json(ev), line) == Ok::<EventV, ArchiveFault>(ev),
{
    lemma_event_fields();
}

/// A header that was written is accepted, and says what was written into it.
pub proof fn law_headers_read_back(settings: Map<Text, Text>, exported_at: i64, app_version: Text)
    ensures
        header_in(header_json(settings, exported_at, app_version)) == Ok::<HeaderV, ArchiveFault>(
            HeaderV {
                version: ARCHIVE_VERSION,
                exported_at,
                device_id: identity(settings),
                settings,
            },
        ),
{
    reveal_strlit("format");
    reveal_strlit("version");
    reveal_strlit("exported_at");
    reveal_strlit("app_version");
    reveal_strlit("device_id");
    reveal_strlit("settings");
    assert("format"@.len() == 6);
    assert("version"@.len() == 7);
    assert("exported_at"@.len() == 11);
    assert("app_version"@.len() == 11);
    assert("device_id"@.len() == 9);
    assert("settings"@.len() == 8);
    assert("exported_at"@[0] != "app_version"@[0]);
    assert(texts_in(settings_json(settings)) =~= settings);
    assert((1u64) as u32 == 1u32);
}

proof fn lemma_events_read_back(
    lines: Seq<Text>,
    values: Seq<JsonV>,
    log: Seq<EventV>,
    i: int,
    done: Seq<EventV>,
)
    requires
        1 <= i <= lines.len(),
        lines.len() == log.len() + 1,
        values.len() == lines.len(),
        done == log.take(i - 1),
        forall|k: int| 1 <= k < lines.len() ==> reads_as(#[trigger] lines[k], values[k]),
        forall|k: int| 1 <= k < lines.len() ==> #[trigger] values[k] == event_json(log[k - 1]),
    ensures
        events_from(lines, i, done) == Ok::<Seq<EventV>, ArchiveFault>(log),
    decreases lines.len() - i,
{
    if i < lines.len() {
        assert(reads_as(lines[i], values[i]));
        assert(values[i] == event_json(log[i - 1]));
        law_events_read_back(log[i - 1], (i + 1) as usize);
        assert(done.push(log[i - 1]) =~= log.take(i));
        lemma_events_read_back(lines, values, log, i + 1, done.push(log[i - 1]));
    } else {
        assert(log.take(i - 1) =~= log);
    }
}

/// An archive whose lines the reader follows gives back every event of the log it was
/// written from, in replay order.
pub proof fn law_archives_read_back(s: Store, exported_at: i64, app_version: Text)
    requires
        forall|i: int|
            0 <= i <= s.events.len() ==> reads_back(
                #[trigger] archive_values(s, exported_at, app_version)[i],
            ) && readable(archive_values(s, exported_at, app_version)[i], 127),
    ensures
        archived_events(text_lines(joined(archive_texts(s, exported_at, app_version)))) == Ok::<
            Seq<EventV>,
            ArchiveFault,
        >(replay_order(s.events)),
{
    let values = archive_values(s, exported_at, app_version);
    let texts = archive_texts(s, exported_at, app_version);
    let log = replay_order(s.events);
    lemma_sorted(s.events);
    assert forall|i: int| 0 <= i < texts.len() implies one_line(#[trigger] texts[i]) by {
        assert(reads_back(values[i]));
    }
    law_lines_read_back(texts);
    assert(reads_back(values[0]));
    assert(reads_as(texts[0], values[0]));
    law_headers_read_back(s.settings, exported_at, app_version);
    assert forall|k: int| 1 <= k < texts.len() implies reads_as(#[trigger] texts[k], values[k]) by {
        assert(reads_back(values[k]));
    }
    assert(log.take(0) =~= Seq::empty());
    lemma_events_read_back(texts, values, log, 1, Seq::empty());
}

/// A later archive of an append-only log holds every event of an earlier one.
pub proof fn law_later_archives_hold_earlier_ones(log: Seq<EventV>, more: Seq<EventV>, ev: EventV)
    requires
        replay_order(log).contains(ev),
    ensures
        replay_order(log + more).contains(ev),
{
    broadcast use vstd::seq_lib::group_to_multiset_ensures;

    let all = log + more;
    lemma_sorted(log);
    lemma_sorted(all);
    assert(replay_order(log).to_multiset().count(ev) > 0);
    assert(log.contains(ev));
    let i = choose|i: int| 0 <= i < log.len() && log[i] == ev;
    assert(all[i] == ev);
    assert(all.contains(ev));
    assert(all.to_multiset().count(ev) > 0);
}

/// What merging leaves: the log as it was in front, and every merged event in it.
proof fn lemma_merged(log: Seq<EventV>, evs: Seq<EventV>, i: int)
    requires
        0 <= i,
    ensures
        merged_from(log, evs, i) matches Ok(r) ==> {
            &&& log.len() <= r.len()
            &&& r.take(log.len() as int) == log
            &&& forall|k: int| i <= k < evs.len() ==> holds(r, (#[trigger] evs[k]).id)
        },
    decreases evs.len() - i,
{
    if i < evs.len() && merged_from(log, evs, i) is Ok {
        let r = merged_from(log, evs, i)->Ok_0;
        let next = if holds(log, evs[i].id) {
            log
        } else {
            log.push(evs[i])
        };
        lemma_merged(next, evs, i + 1);
        assert(holds(next, evs[i].id)) by {
            if !holds(log, evs[i].id) {
                assert(next[log.len() as int].key() == evs[i].id);
            }
        }
        let n = choose|n: int| 0 <= n < next.len() && (#[trigger] next[n]).key() == evs[i].id;
        assert(r.take(next.len() as int)[n] == next[n]);
        assert(r[n].key() == evs[i].id);
        assert(r.take(log.len() as int) =~= r.take(next.len() as int).take(log.len() as int));
        assert(next.take(log.len() as int) =~= log);
    } else {
        assert(log.take(log.len() as int) =~= log);
    }
}

/// Events that a log holds already merge into it as it is.
proof fn lemma_nothing_new(log: Seq<EventV>, evs: Seq<EventV>, i: int)
    requires
        0 <= i,
        forall|k: int| i <= k < evs.len() ==> holds(log, (#[trigger] evs[k]).id),
    ensures
        merged_from(log, evs, i) == Ok::<Seq<EventV>, ArchiveFault>(log),
    decreases evs.len() - i,
{
    if i < evs.len() {
        assert(holds(log, evs[i].id));
        lemma_nothing_new(log, evs, i + 1);
    }
}

/// A merge loses nothing that the log held, and merging the same events again changes
/// nothing.
pub proof fn law_merging_is_idempotent(log: Seq<EventV>, evs: Seq<EventV>)
    requires
        merged_from(log, evs, 0) is Ok,
    ensures
        log.len() <= merged_from(log, evs, 0)->Ok_0.len(),
        merged_from(log, evs, 0)->Ok_0.take(log.len() as int) == log,
        merged_from(merged_from(log, evs, 0)->Ok_0, evs, 0) == merged_from(log, evs, 0),
{
    lemma_merged(log, evs, 0);
    lemma_nothing_new(merged_from(log, evs, 0)->Ok_0, evs, 0);
}

/// Merging a log's own archive changes nothing.
pub proof fn law_own_archive_brings_nothing_new(log: Seq<EventV>)
    ensures
        merged_from(log, replay_order(log), 0) == Ok::<Seq<EventV>, ArchiveFault>(log),
{
    broadcast use vstd::seq_lib::group_to_multiset_ensures;

    let evs = replay_order(log);
    lemma_sorted(log);
    assert forall|k: int| 0 <= k < evs.len() implies holds(log, (#[trigger] evs[k]).id) by {
        assert(evs.contains(evs[k]));
        assert(evs.to_multiset().count(evs[k]) > 0);
        assert(log.contains(evs[k]));
        let n = choose|n: int| 0 <= n < log.len() && log[n] == evs[k];
        assert(log[n].key() == evs[k].id);
    }
    lemma_nothing_new(log, evs, 0);
}

// ---- lines ----

/// Texts, each ended by a line break, or by a carriage return and one.
pub open spec fn ended(v: Seq<Text>, with_return: bool) -> Text
    decreases v.len(),
{
    if v.len() == 0 {
        Seq::empty()
    } else if with_return {
        v[0] + seq!['\r', '\n'] + ended(v.skip(1), with_return)
    } else {
        v[0] + seq!['\n'] + ended(v.skip(1), with_return)
    }
}

proof fn lemma_break_at(s: Text, i: int, b: int)
    requires
        0 <= i <= b <= s.len(),
        forall|k: int| i <= k < b ==> #[trigger] s[k] != '\n',
        b < s.len() ==> s[b] == '\n',
    ensures
        break_from(s, i) == b,
    decreases b - i,
{
    if i < b {
        assert(s[i] != '\n');
        lemma_break_at(s, i + 1, b);
    }
}

proof fn lemma_ended(front: Text, v: Seq<Text>, with_return: bool, last: Text)
    requires
        forall|i: int| 0 <= i < v.len() ==> one_line(#[trigger] v[i]),
        one_line(last),
    ensures
        lines_from(front + ended(v, with_return) + last, front.len() as int) == if last.len() == 0 {
            v
        } else {
            v.push(last)
        },
    decreases v.len(),
{
    let s = front + ended(v, with_return) + last;
    let at = front.len() as int;
    if v.len() > 0 {
        let line = v[0];
        let rest = v.skip(1);
        let stop = if with_return {
            seq!['\r', '\n']
        } else {
            seq!['\n']
        };
        let next = front + line + stop;
        let b = next.len() - 1;
        assert forall|i: int| 0 <= i < rest.len() implies one_line(#[trigger] rest[i]) by {
            assert(rest[i] == v[i + 1]);
        }
        assert(s =~= next + ended(rest, with_return) + last);
        assert forall|k: int| at <= k < b implies #[trigger] s[k] != '\n' by {
            if k < at + line.len() {
                assert(s[k] == line[k - at]);
                assert(line.contains(s[k]));
            }
        }
        assert(s[b] == '\n');
        lemma_break_at(s, at, b);
        let read = s.subrange(at, b);
        if with_return {
            assert(read =~= line.push('\r'));
            assert(read.drop_last() =~= line);
        } else {
            assert(read =~= line);
            if line.len() > 0 && line.last() == '\r' {
                assert(line.contains(line[line.len() - 1]));
            }
        }
        assert(trimmed(read) == line);
        lemma_ended(next, rest, with_return, last);
        assert(v =~= seq![line] + rest);
        assert(v.push(last) =~= seq![line] + rest.push(last));
    } else {
        assert(s =~= front + last);
        if last.len() > 0 {
            assert forall|k: int| at <= k < s.len() implies #[trigger] s[k] != '\n' by {
                assert(s[k] == last[k - at]);
                assert(last.contains(s[k]));
            }
            lemma_break_at(s, at, s.len() as int);
            assert(s.subrange(at, s.len() as int) =~= last);
            if last.last() == '\r' {
                assert(last.contains(last[last.len() - 1]));
            }
            assert(v.push(last) =~= seq![last]);
        } else {
            assert(v =~= Seq::empty());
        }
    }
}

/// The lines of a text are what stands before its line breaks, without the carriage returns
/// before these, and what follows the last one where that is not empty.
pub proof fn law_lines_end_at_breaks(v: Seq<Text>, with_return: bool, last: Text)
    requires
        forall|i: int| 0 <= i < v.len() ==> one_line(#[trigger] v[i]),
        one_line(last),
    ensures
        text_lines(ended(v, with_return) + last) == if last.len() == 0 {
            v
        } else {
            v.push(last)
        },
{
    assert(Seq::<char>::empty() + ended(v, with_return) + last =~= ended(v, with_return) + last);
    lemma_ended(Seq::empty(), v, with_return, last);
}

proof fn lemma_events_read(lines: Seq<Text>, i: int, done: Seq<EventV>)
    requires
        0 <= i <= lines.len(),
    ensures
        match events_from(lines, i, done) {
            Ok(r) => {
                &&& r.len() == done.len() + lines.len() - i
                &&& r.take(done.len() as int) == done
                &&& forall|k: int|
                    i <= k < lines.len() ==> parsed_event(#[trigger] lines[k], (k + 1) as usize)
                        == Ok::<EventV, ArchiveFault>(r[done.len() + k - i])
            },
            Err(e) => exists|k: int|
                i <= k < lines.len() && parsed_event(#[trigger] lines[k], (k + 1) as usize) == Err::<
                    EventV,
                    ArchiveFault,
                >(e) && forall|j: int|
                    i <= j < k ==> parsed_event(#[trigger] lines[j], (j + 1) as usize) is Ok,
        },
    decreases lines.len() - i,
{
    if i < lines.len() {
        match parsed_event(lines[i], (i + 1) as usize) {
            Err(e) => {
                assert(parsed_event(lines[i], (i + 1) as usize) == Err::<EventV, ArchiveFault>(e));
            },
            Ok(ev) => {
                let next = done.push(ev);
                lemma_events_read(lines, i + 1, next);
                if let Ok(r) = events_from(lines, i, done) {
                    assert(r.take(next.len() as int)[done.len() as int] == next[done.len() as int]);
                    assert(r.take(done.len() as int) =~= done) by {
                        assert forall|x: int| 0 <= x < done.len() implies r[x] == done[x] by {
                            assert(r.take(next.len() as int)[x] == next[x]);
                        }
                    }
                }
            },
        }
    } else {
        assert(done.take(done.len() as int) =~= done);
    }
}

/// An archive is a header and behind it nothing but events, in the order of the lines; it is
/// none where it is empty, where its header is none, or for the first line that is no event.
pub proof fn law_archives_are_read_line_by_line(lines: Seq<Text>)
    ensures
        lines.len() == 0 ==> archived_events(lines) is Err,
        lines.len() > 0 ==> match archived_events(lines) {
            Ok(r) => {
                &&& parsed_header(lines[0]) is Ok
                &&& r.len() == lines.len() - 1
                &&& forall|k: int|
                    1 <= k < lines.len() ==> parsed_event(#[trigger] lines[k], (k + 1) as usize)
                        == Ok::<EventV, ArchiveFault>(r[k - 1])
            },
            Err(e) => match parsed_header(lines[0]) {
                Err(f) => e == f,
                Ok(_) => exists|k: int|
                    1 <= k < lines.len() && parsed_event(#[trigger] lines[k], (k + 1) as usize)
                        == Err::<EventV, ArchiveFault>(e) && forall|j: int|
                        1 <= j < k ==> parsed_event(#[trigger] lines[j], (j + 1) as usize) is Ok,
            },
        },
{
    if lines.len() > 0 {
        lemma_events_read(lines, 1, Seq::empty());
    }
}

} // verus!
