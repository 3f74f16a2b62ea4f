//! Merging an archive into a store.

use crate::archive::{ArchiveError, ArchiveFault};
use crate::archive::lines::{split_lines, text_lines};
use crate::archive::read::{parse_event, parse_header, parsed_event, parsed_header};
use crate::db::{Database, Store};
use crate::error::DbError;
use crate::events::{insert_raw_event, numbered, EventV, LedgerEvent};
use crate::model::{Fault, Text};
use crate::projectors::{rebuild, rebuilt};
use crate::reconciliation::{findings, run_all_checks, CHECK_NAMES, CheckOutcome, Finding};
use crate::rows::{copy_rows, find, holds, lemma_rows_push, opt_view, rows};
use crate::tables::{ReadModel, Tables};
use vstd::prelude::*;
use vstd::string::*;

verus! {

/// What an import did.
#[derive(Debug, Clone, Copy, PartialEq, Eq, Structural)]
pub struct ImportSummary {
    /// Events that were new to the store.
    pub inserted: usize,
    /// Events that the store held already, told by their ids.
    pub skipped_duplicates: usize,
    /// All events read from the archive.
    pub total_events: usize,
}

/// A log with the events from event `i` on merged into it: those that it holds already
/// are skipped, and one whose device and number are taken by another cannot be merged.
pub open spec fn merged_from(log: Seq<EventV>, evs: Seq<EventV>, i: int) -> Result<
    Seq<EventV>,
    ArchiveFault,
>
    decreases evs.len() - i,
{
    if i < 0 || i >= evs.len() {
        Ok(log)
    } else if holds(log, evs[i].id) {
        merged_from(log, evs, i + 1)
    } else if numbered(log, evs[i].device_id, evs[i].seq) {
        Err(ArchiveError::Collision { device_id: evs[i].device_id, seq: evs[i].seq })
    } else {
        merged_from(log.push(evs[i]), evs, i + 1)
    }
}

/// The first check that could not be run, from check `i` on.
pub open spec fn first_error(f: Seq<Result<Finding, Fault>>, i: int) -> Option<Fault>
    decreases f.len() - i,
{
    if i < 0 || i >= f.len() {
        None
    } else {
        match f[i] {
            Err(e) => Some(e),
            Ok(_) => first_error(f, i + 1),
        }
    }
}

/// The first check that failed and what it found, from check `i` on.
pub open spec fn first_failure(f: Seq<Result<Finding, Fault>>, i: int) -> Option<Text>
    decreases f.len() - i,
{
    if i < 0 || i >= f.len() {
        None
    } else {
        match f[i] {
            Ok(CheckOutcome::Fail(m)) => Some(CHECK_NAMES@[i]@ + ": "@ + m),
            _ => first_failure(f, i + 1),
        }
    }
}

/// Why a read model does not reconcile, where it does not.
pub open spec fn imbalance(m: ReadModel) -> Option<ArchiveFault> {
    match first_error(findings(m), 0) {
        Some(e) => Some(ArchiveError::Db(e)),
        None => match first_failure(findings(m), 0) {
            Some(t) => Some(ArchiveError::Reconciliation(t)),
            None => None,
        },
    }
}

/// Runs every check and finds the first that failed.
pub fn find_imbalance(t: &Tables) -> (r: Result<Option<String>, DbError>)
    ensures
        match r {
            Ok(o) => first_error(findings(t@), 0) is None && opt_view(o) == first_failure(
                findings(t@),
                0,
            ),
            Err(e) => first_error(findings(t@), 0) == Some(e@),
        },
{
    let ghost f = findings(t@);
    let checks = match run_all_checks(t) {
        Err(e) => {
            proof {
                let n = choose|i: int|
                    0 <= i < 8 && #[trigger] f[i] == Err::<Finding, Fault>(e@) && forall|j: int|
                        0 <= j < i ==> #[trigger] f[j] is Ok;
                lemma_first_error(f, n, 0);
            }
            return Err(e);
        },
        Ok(v) => v,
    };
    proof {
        assert forall|i: int| 0 <= i < f.len() implies #[trigger] f[i] is Ok by {
            assert(checks@[i].name == CHECK_NAMES@[i]);
        }
        lemma_no_error(f, 0);
    }
    let mut i: usize = 0;
    while i < checks.len()
        invariant
            i <= checks@.len(),
            checks@.len() == 8,
            f == findings(t@),
            first_error(f, 0) is None,
            forall|k: int|
                0 <= k < 8 ==> (#[trigger] checks@[k]).name == CHECK_NAMES@[k] && f[k] == Ok::<
                    Finding,
                    Fault,
                >(checks@[k].outcome@),
            first_failure(f, i as int) == first_failure(f, 0),
        decreases checks@.len() - i,
    {
        assert(checks@[i as int].name == CHECK_NAMES@[i as int]);
        if let CheckOutcome::Fail(m) = &checks[i].outcome {
            return Ok(Some(checks[i].name.to_owned().concat(": ").concat(m.as_str())));
        }
        i += 1;
    }
    Ok(None)
}

fn reconcile(t: &Tables) -> (r: Result<(), ArchiveError>)
    ensures
        match r {
            Ok(_) => imbalance(t@) is None,
            Err(e) => imbalance(t@) == Some(e@),
        },
{
    match find_imbalance(t) {
        Err(e) => Err(ArchiveError::Db(e)),
        Ok(Some(m)) => Err(ArchiveError::Reconciliation(m)),
        Ok(None) => Ok(()),
    }
}

proof fn lemma_first_error(f: Seq<Result<Finding, Fault>>, n: int, i: int)
    requires
        0 <= i <= n < f.len(),
        f[n] is Err,
        forall|j: int| 0 <= j < n ==> #[trigger] f[j] is Ok,
    ensures
        first_error(f, i) == Some(f[n]->Err_0),
    decreases n - i,
{
    if i < n {
        assert(f[i] is Ok);
        lemma_first_error(f, n, i + 1);
    }
}

proof fn lemma_no_error(f: Seq<Result<Finding, Fault>>, i: int)
    requires
        0 <= i <= f.len(),
        forall|j: int| 0 <= j < f.len() ==> #[trigger] f[j] is Ok,
    ensures
        first_error(f, i) is None,
    decreases f.len() - i,
{
    if i < f.len() {
        assert(f[i] is Ok);
        lemma_no_error(f, i + 1);
    }
}

/// The store once events are merged into its log and its read model is rebuilt and
/// found to reconcile, or why it stays as it is.
pub open spec fn merge_outcome(s: Store, evs: Seq<EventV>) -> Result<Store, ArchiveFault> {
    match merged_from(s.events, evs, 0) {
        Err(e) => Err(e),
        Ok(log) => match rebuilt(Store { events: log, ..s }) {
            Err(e) => Err(ArchiveError::Db(e)),
            Ok(n) => match imbalance(n.model) {
                Some(e) => Err(e),
                None => Ok(n),
            },
        },
    }
}

/// Merges events into the log, rebuilds the read model and checks it. A failure leaves
/// the store as it was.
pub fn merge_events(db: &mut Database, events: &Vec<LedgerEvent>) -> (r: Result<
    ImportSummary,
    ArchiveError,
>)
    ensures
        match r {
            Ok(sum) => {
                &&& merge_outcome(old(db)@, rows(events@)) == Ok::<Store, ArchiveFault>(final(db)@)
                &&& sum.total_events == events@.len()
                &&& sum.inserted == final(db)@.events.len() - old(db)@.events.len()
                &&& sum.inserted + sum.skipped_duplicates == sum.total_events
            },
            Err(e) => merge_outcome(old(db)@, rows(events@)) == Err::<Store, ArchiveFault>(e@)
                && *final(db) == *old(db),
        },
{
    let mut next = Database {
        events: copy_rows(&db.events),
        settings: db.settings.copy(),
        tables: Tables::new(),
        cursor: None,
    };
    let ghost evs = rows(events@);
    let ghost start = db@.events;
    let mut inserted: usize = 0;
    let mut i: usize = 0;
    while i < events.len()
        invariant
            i <= events@.len(),
            evs == rows(events@),
            start == db@.events,
            *db == *old(db),
            next@.settings == db@.settings,
            inserted <= i,
            next@.events.len() == start.len() + inserted,
            merged_from(next@.events, evs, i as int) == merged_from(start, evs, 0),
        decreases events@.len() - i,
    {
        let ev = &events[i];
        assert(evs[i as int] == ev@);
        if find(&next.events, ev.id.as_str()).is_none() {
            match insert_raw_event(&mut next, ev) {
                Ok(_) => {
                    inserted += 1;
                },
                Err(_) => {
                    return Err(
                        ArchiveError::Collision { device_id: ev.device_id.clone(), seq: ev.seq },
                    );
                },
            }
        }
        i += 1;
    }
    let ghost merged = next@;
    match rebuild(&mut next) {
        Err(e) => {
            proof {
                lemma_rebuild_forgets(merged, Store { events: merged.events, ..db@ });
            }
            return Err(ArchiveError::Db(e));
        },
        Ok(_) => {},
    }
    proof {
        lemma_rebuild_forgets(merged, Store { events: merged.events, ..db@ });
    }
    reconcile(&next.tables)?;
    *db = next;
    Ok(
        ImportSummary {
            inserted,
            skipped_duplicates: events.len() - inserted,
            total_events: events.len(),
        },
    )
}

/// A rebuild depends on the log and the settings alone.
proof fn lemma_rebuild_forgets(a: Store, b: Store)
    requires
        a.events == b.events,
        a.settings == b.settings,
    ensures
        rebuilt(a) == rebuilt(b),
{
}

/// The events of the lines from line `i` on, after `done`.
pub open spec fn events_from(lines: Seq<Text>, i: int, done: Seq<EventV>) -> Result<
    Seq<EventV>,
    ArchiveFault,
>
    decreases lines.len() - i,
{
    if i < 0 || i >= lines.len() {
        Ok(done)
    } else {
        match parsed_event(lines[i], (i + 1) as usize) {
            Err(e) => Err(e),
            Ok(ev) => events_from(lines, i + 1, done.push(ev)),
        }
    }
}

/// The events of an archive, or why it is none.
pub open spec fn archived_events(lines: Seq<Text>) -> Result<Seq<EventV>, ArchiveFault> {
    if lines.len() == 0 {
        Err(ArchiveError::Format("the file is empty"@))
    } else {
        match parsed_header(lines[0]) {
            Err(e) => Err(e),
            Ok(_) => events_from(lines, 1, Seq::empty()),
        }
    }
}

/// Parses the lines of an archive.
pub fn parse_archive(lines: &Vec<String>) -> (r: Result<Vec<LedgerEvent>, ArchiveError>)
    ensures
        match r {
            Ok(v) => archived_events(rows(lines@)) == Ok::<Seq<EventV>, ArchiveFault>(rows(v@)),
            Err(e) => archived_events(rows(lines@)) == Err::<Seq<EventV>, ArchiveFault>(e@),
        },
{
    broadcast use lemma_rows_push;

    let ghost s = rows(lines@);
    if lines.len() == 0 {
        return Err(ArchiveError::Format("the file is empty".to_owned()));
    }
    assert(s[0] == lines@[0]@);
    let _ = parse_header(lines[0].as_str())?;
    let mut out: Vec<LedgerEvent> = Vec::new();
    let mut i: usize = 1;
    assert(rows(out@) =~= Seq::empty());
    while i < lines.len()
        invariant
            1 <= i <= lines@.len(),
            s == rows(lines@),
            events_from(s, i as int, rows(out@)) == archived_events(s),
        decreases lines@.len() - i,
    {
        broadcast use lemma_rows_push;

        assert(s[i as int] == lines@[i as int]@);
        let ev = parse_event(lines[i].as_str(), i + 1)?;
        out.push(ev);
        i += 1;
    }
    Ok(out)
}

/// Reads an archive and merges its events into the store. Settings in the archive are
/// never applied. A failure leaves the store as it was.
pub fn import_jsonl(db: &mut Database, text: &str) -> (r: Result<ImportSummary, ArchiveError>)
    ensures
        match archived_events(text_lines(text@)) {
            Err(e) => r matches Err(x) && x@ == e && *final(db) == *old(db),
            Ok(evs) => match r {
                Ok(sum) => {
                    &&& merge_outcome(old(db)@, evs) == Ok::<Store, ArchiveFault>(final(db)@)
                    &&& sum.total_events == evs.len()
                    &&& sum.inserted == final(db)@.events.len() - old(db)@.events.len()
                    &&& sum.inserted + sum.skipped_duplicates == sum.total_events
                },
                Err(e) => {
                    &&& merge_outcome(old(db)@, evs) == Err::<Store, ArchiveFault>(e@)
                    &&& *final(db) == *old(db)
                },
            },
        },
{
    let lines = split_lines(text);
    let events = parse_archive(&lines)?;
    merge_events(db, &events)
}

} // verus!
