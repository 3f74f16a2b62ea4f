//! Names, retention and validation of snapshots.

use crate::calendar::{date_on, timestamp_utc, utc_text, year_text};
use crate::model::Text;
use crate::rows::{lemma_rows_push, rows, Keyed, Row};
use crate::settings::Settings;
use crate::sort::{before, lemma_sorted, sort, sorted, Ranked, RankedRow};
use crate::text::{chars_of, is_digit, lemma_padded_value, lex_le, same};
use vstd::prelude::*;
use vstd::string::*;

verus! {

/// Prefix for backups the user asked for. Never pruned.
pub const MANUAL_PREFIX: &'static str = "ledger-";

/// Prefix for backups written automatically on close. Pruned to `KEEP_AUTO`.
pub const AUTO_PREFIX: &'static str = "ledger-auto-";

/// Prefix for the safety copy taken before a restore or import.
pub const RESCUE_PREFIX: &'static str = "pre-restore-";

/// How many automatic backups and rescue copies to keep.
///
/// The event log is append-only, so each snapshot is a superset of the one before it:
/// more copies buy very little.
pub const KEEP_AUTO: usize = 3;

/// The file name of a snapshot.
pub open spec fn snapshot_text(prefix: Text, unix_ms: int) -> Text {
    prefix + utc_text(unix_ms) + ".db"@
}

/// Builds the file name of a snapshot of the given kind.
pub fn snapshot_name(prefix: &str, unix_ms: i64) -> (r: String)
    ensures
        r@ == snapshot_text(prefix@, unix_ms as int),
{
    prefix.to_owned().concat(timestamp_utc(unix_ms).as_str()).concat(".db")
}

/// The text begins with the prefix.
pub open spec fn begins(s: Text, prefix: Text) -> bool {
    prefix.len() <= s.len() && s.take(prefix.len() as int) == prefix
}

/// The text ends with the suffix.
pub open spec fn ends(s: Text, suffix: Text) -> bool {
    suffix.len() <= s.len() && s.skip(s.len() - suffix.len()) == suffix
}

fn has_part(s: &Vec<char>, from: usize, part: &Vec<char>) -> (r: bool)
    requires
        from + part@.len() <= s@.len(),
    ensures
        r == (s@.subrange(from as int, from + part@.len()) == part@),
{
    let ghost w = s@.subrange(from as int, from + part@.len());
    let n: usize = s.len();
    let mut i: usize = 0;
    while i < part.len()
        invariant
            i <= part@.len(),
            n == s@.len(),
            from + part@.len() <= n,
            w == s@.subrange(from as int, from + part@.len()),
            forall|j: int| 0 <= j < i ==> w[j] == part@[j],
        decreases part@.len() - i,
    {
        if s[from + i] != part[i] {
            assert(w[i as int] != part@[i as int]);
            return false;
        }
        i += 1;
    }
    assert(w =~= part@);
    true
}

/// Whether a file name is that of a snapshot of the given kind.
pub open spec fn is_snapshot(name: Text, prefix: Text) -> bool {
    begins(name, prefix) && ends(name, ".db"@)
}

fn names_snapshot(name: &str, prefix: &str) -> (r: bool)
    ensures
        r == is_snapshot(name@, prefix@),
{
    let n = chars_of(name);
    let p = chars_of(prefix);
    let d = chars_of(".db");
    if n.len() < p.len() || n.len() < d.len() {
        return false;
    }
    proof {
        assert(n@.subrange(0, p@.len() as int) =~= name@.take(prefix@.len() as int));
        assert(n@.subrange(n@.len() - d@.len(), n@.len() as int) =~= name@.skip(
            name@.len() - ".db"@.len(),
        ));
    }
    has_part(&n, 0, &p) && has_part(&n, n.len() - d.len(), &d)
}

impl Keyed for Seq<char> {
    open spec fn key(self) -> Seq<char> {
        self
    }
}

impl Row for String {
    fn id(&self) -> &str {
        self.as_str()
    }

    fn copy(&self) -> Self {
        self.clone()
    }
}

impl Ranked for Seq<char> {
    open spec fn rank(self) -> Seq<char> {
        self
    }
}

impl RankedRow for String {
    fn rank(&self) -> &str {
        self.as_str()
    }
}

/// The snapshots of a kind among file names, in order.
pub open spec fn snapshots(names: Seq<Text>, prefix: Text) -> Seq<Text> {
    sorted(names.filter(|n: Text| is_snapshot(n, prefix)))
}

/// The snapshots of a kind that are one too many: all but the last `keep`.
pub open spec fn surplus(names: Seq<Text>, prefix: Text, keep: int) -> Seq<Text> {
    let s = snapshots(names, prefix);
    if s.len() > keep {
        s.take(s.len() - keep)
    } else {
        Seq::empty()
    }
}

/// Picks the snapshots of a kind to remove so that only the newest `keep` stay.
///
/// Names embed a sortable UTC timestamp, so the order of names is that of time.
pub fn select_surplus(names: &Vec<String>, prefix: &str, keep: usize) -> (r: Vec<String>)
    ensures
        rows(r@) == surplus(rows(names@), prefix@, keep as int),
{
    let ghost s = rows(names@);
    let ghost f = |n: Text| is_snapshot(n, prefix@);
    let mut found: Vec<String> = Vec::new();
    let mut i: usize = 0;
    proof {
        reveal(Seq::filter);
        assert(rows(found@) =~= s.take(0).filter(f));
    }
    while i < names.len()
        invariant
            i <= names@.len(),
            s == rows(names@),
            f == (|n: Text| is_snapshot(n, prefix@)),
            rows(found@) == s.take(i as int).filter(f),
        decreases names@.len() - i,
    {
        broadcast use lemma_rows_push;

        assert(s.take(i + 1).drop_last() =~= s.take(i as int));
        assert(s.take(i + 1).last() == names@[i as int]@);
        proof {
            reveal(Seq::filter);
        }
        if names_snapshot(names[i].as_str(), prefix) {
            found.push(names[i].clone());
        }
        i += 1;
    }
    assert(s.take(s.len() as int) =~= s);
    let mut out = sort(&found);
    let ghost all = rows(out@);
    if out.len() <= keep {
        return Vec::new();
    }
    let n: usize = out.len() - keep;
    out.truncate(n);
    assert(rows(out@) =~= all.take(n as int));
    out
}

/// Why a candidate file cannot be restored.
#[derive(Debug, PartialEq, Eq)]
pub struct InvalidCandidate(pub String);

/// What was found out about a file: whether it is there, and what reading it as a
/// database gave, or why it could not be read.
#[derive(Debug)]
pub struct Inspection {
    pub exists: bool,
    /// The answer to an integrity check.
    pub integrity: Result<String, String>,
    /// How many tables are called `events`.
    pub event_tables: Result<i64, String>,
    /// How many events there are.
    pub events: Result<i64, String>,
}

/// Why the inspected file cannot be restored, where it cannot.
pub open spec fn flaw(i: Inspection) -> Option<Text> {
    if !i.exists {
        Some("the file no longer exists"@)
    } else {
        match i.integrity {
            Err(e) => Some("this file is not a valid backup ("@ + e@ + ")"@),
            Ok(a) => if a@ != "ok"@ {
                Some("this backup is damaged ("@ + a@ + ")"@)
            } else {
                match i.event_tables {
                    Err(e) => Some("this file is not a valid backup ("@ + e@ + ")"@),
                    Ok(n) => if n == 0 {
                        Some("this file is not an accounting backup"@)
                    } else {
                        match i.events {
                            Err(e) => Some("this backup cannot be read ("@ + e@ + ")"@),
                            Ok(k) => if k == 0 {
                                Some("this backup contains no records"@)
                            } else {
                                None
                            },
                        }
                    },
                }
            },
        }
    }
}

/// Checks what was found out about a candidate backup: it must be there, open as a
/// database, pass the integrity check, have a table of events and hold at least one.
pub fn judge_candidate(i: &Inspection) -> (r: Result<(), InvalidCandidate>)
    ensures
        match r {
            Ok(_) => flaw(*i) is None,
            Err(e) => flaw(*i) == Some(e.0@),
        },
{
    if !i.exists {
        return Err(InvalidCandidate("the file no longer exists".to_owned()));
    }
    match &i.integrity {
        Err(e) => {
            return Err(
                InvalidCandidate(
                    "this file is not a valid backup (".to_owned().concat(e.as_str()).concat(")"),
                ),
            );
        },
        Ok(a) => {
            if !same(a.as_str(), "ok") {
                return Err(
                    InvalidCandidate(
                        "this backup is damaged (".to_owned().concat(a.as_str()).concat(")"),
                    ),
                );
            }
        },
    }
    match &i.event_tables {
        Err(e) => {
            return Err(
                InvalidCandidate(
                    "this file is not a valid backup (".to_owned().concat(e.as_str()).concat(")"),
                ),
            );
        },
        Ok(n) => {
            if *n == 0 {
                return Err(InvalidCandidate("this file is not an accounting backup".to_owned()));
            }
        },
    }
    match &i.events {
        Err(e) => Err(
            InvalidCandidate(
                "this backup cannot be read (".to_owned().concat(e.as_str()).concat(")"),
            ),
        ),
        Ok(k) => if *k == 0 {
            Err(InvalidCandidate("this backup contains no records".to_owned()))
        } else {
            Ok(())
        },
    }
}

/// The files that SQLite keeps beside a database file.
pub fn sidecar_names(live: &str) -> (r: (String, String))
    ensures
        r.0@ == live@ + "-wal"@,
        r.1@ == live@ + "-shm"@,
{
    (live.to_owned().concat("-wal"), live.to_owned().concat("-shm"))
}

/// The folder for automatic backups, where one was chosen.
pub fn backup_folder(s: &Settings) -> (r: Option<&str>)
    ensures
        match r {
            Some(f) => s@.contains_key("backup_folder"@) && s@["backup_folder"@] == f@ && f@.len()
                > 0,
            None => !s@.contains_key("backup_folder"@) || s@["backup_folder"@].len() == 0,
        },
{
    match s.get("backup_folder") {
        Some(f) => if f.unicode_len() > 0 {
            Some(f)
        } else {
            None
        },
        None => None,
    }
}

/// No automatic pruning picks a snapshot that the user asked for.
pub proof fn law_manual_backups_are_kept(unix_ms: int)
    ensures
        !is_snapshot(snapshot_text(MANUAL_PREFIX@, unix_ms), AUTO_PREFIX@),
        !is_snapshot(snapshot_text(MANUAL_PREFIX@, unix_ms), RESCUE_PREFIX@),
{
    reveal_strlit("ledger-");
    reveal_strlit("ledger-auto-");
    reveal_strlit("pre-restore-");
    reveal_strlit("-");
    let name = snapshot_text(MANUAL_PREFIX@, unix_ms);
    let y = date_on(unix_ms / 1000 / 86400).0;
    let n: nat = if y < 0 {
        (-y) as nat
    } else {
        y as nat
    };
    lemma_padded_value(n, 3);
    lemma_padded_value(n, 4);
    let t = utc_text(unix_ms);
    assert(t[0] == year_text(y)[0]);
    assert(name[7] == t[0]);
    assert(is_digit(t[0]) || t[0] == '-');
    if begins(name, AUTO_PREFIX@) {
        assert(name.take(AUTO_PREFIX@.len() as int)[7] == name[7]);
    }
    if begins(name, RESCUE_PREFIX@) {
        assert(name.take(RESCUE_PREFIX@.len() as int)[0] == name[0]);
    }
}

/// A snapshot is recognised as one of its kind.
pub proof fn law_snapshots_are_recognised(prefix: Text, unix_ms: int)
    ensures
        is_snapshot(snapshot_text(prefix, unix_ms), prefix),
{
    let name = snapshot_text(prefix, unix_ms);
    assert(name.take(prefix.len() as int) =~= prefix);
    assert(name.skip(name.len() - ".db"@.len()) =~= ".db"@);
}

/// Pruning keeps the newest: what goes sorts before what stays, and `keep` snapshots
/// stay where there are that many.
pub proof fn law_pruning_keeps_the_newest(names: Seq<Text>, prefix: Text, keep: int)
    requires
        0 <= keep,
    ensures
        ({
            let s = snapshots(names, prefix);
            let gone = surplus(names, prefix, keep);
            &&& gone == s.take(gone.len() as int)
            &&& s.len() - gone.len() == if s.len() > keep {
                keep
            } else {
                s.len() as int
            }
            &&& forall|i: int, j: int|
                0 <= i < gone.len() && gone.len() <= j < s.len() ==> lex_le(
                    #[trigger] gone[i],
                    #[trigger] s[j],
                )
        }),
{
    let s = snapshots(names, prefix);
    let gone = surplus(names, prefix, keep);
    lemma_sorted(names.filter(|n: Text| is_snapshot(n, prefix)));
    assert(gone =~= s.take(gone.len() as int));
    assert forall|i: int, j: int| 0 <= i < gone.len() && gone.len() <= j < s.len() implies lex_le(
        #[trigger] gone[i],
        #[trigger] s[j],
    ) by {
        assert(gone[i] == s[i]);
        assert(!before(s[j], s[i]));
    }
}

} // verus!
