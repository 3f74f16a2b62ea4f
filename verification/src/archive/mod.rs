//! Portable archive of the event log: one JSON value per line.
//!
//! The first line is a header with a format marker, a version and where the log comes
//! from; every following line is one event, in replay order. Marker and version make
//! sure that a changed layout is refused rather than misread.
//!
//! The archive is the whole history. The log is append-only, so a later archive holds
//! every event of an earlier one.

use crate::error::{db_message, DbError};
use crate::model::Text;
use crate::text::{dec, decimal, decimal_u64};
use vstd::prelude::*;
use vstd::string::*;

pub mod import;
pub mod lines;
pub mod read;
pub mod write;

pub use import::{import_jsonl, ImportSummary};
pub use read::{parse_event, parse_header, ArchiveHeader};
pub use write::export_jsonl;

verus! {

/// Format marker written to, and required of, every archive header.
pub const ARCHIVE_FORMAT: &'static str = "accounting-eventlog";

/// Current archive version.
pub const ARCHIVE_VERSION: u32 = 1;

/// Why an archive was not read or written.
#[derive(Debug, PartialEq)]
#[verifier::ext_equal]
pub enum ArchiveError<S = String> {
    /// The file is no archive, or its version is not supported.
    Format(S),
    /// A line is no event.
    Parse { line: usize, message: S },
    /// The device and number of an incoming event are taken by another event.
    Collision { device_id: S, seq: i64 },
    /// The merged ledger failed reconciliation, and nothing was imported.
    Reconciliation(S),
    Db(DbError<S>),
    Io(S),
}

/// The mathematical value of an archive error.
pub type ArchiveFault = ArchiveError<Seq<char>>;

impl View for ArchiveError {
    type V = ArchiveError<Seq<char>>;

    open spec fn view(&self) -> ArchiveError<Seq<char>> {
        match self {
            ArchiveError::Format(m) => ArchiveError::Format(m@),
            ArchiveError::Parse { line, message } => ArchiveError::Parse {
                line: *line,
                message: message@,
            },
            ArchiveError::Collision { device_id, seq } => ArchiveError::Collision {
                device_id: device_id@,
                seq: *seq,
            },
            ArchiveError::Reconciliation(m) => ArchiveError::Reconciliation(m@),
            ArchiveError::Db(e) => ArchiveError::Db(e@),
            ArchiveError::Io(m) => ArchiveError::Io(m@),
        }
    }
}

/// The text of an archive error.
pub open spec fn archive_message(e: ArchiveFault) -> Text {
    match e {
        ArchiveError::Format(m) => "unrecognised backup file: "@ + m,
        ArchiveError::Parse { line, message } => "backup file is damaged at line "@ + dec(
            line as int,
        ) + ": "@ + message,
        ArchiveError::Collision { device_id, seq } =>
            "cannot merge: this backup was made by an older installation that shares an identity with yours (device "@
            + device_id + ", entry "@ + dec(seq as int)
            + "). Restore a full database backup instead."@,
        ArchiveError::Reconciliation(m) =>
            "import was cancelled because the combined ledger did not balance: "@ + m,
        ArchiveError::Db(e) => "database error: "@ + db_message(e),
        ArchiveError::Io(m) => "could not read or write the file: "@ + m,
    }
}

impl ArchiveError {
    /// The text of the error.
    pub fn message(&self) -> (r: String)
        ensures
            r@ == archive_message(self@),
    {
        match self {
            ArchiveError::Format(m) => "unrecognised backup file: ".to_owned().concat(m.as_str()),
            ArchiveError::Parse { line, message } => "backup file is damaged at line ".to_owned().concat(
                decimal_u64(*line as u64).as_str(),
            ).concat(": ").concat(message.as_str()),
            ArchiveError::Collision { device_id, seq } =>
                "cannot merge: this backup was made by an older installation that shares an identity with yours (device ".to_owned().concat(
                device_id.as_str(),
            ).concat(", entry ").concat(decimal(*seq).as_str()).concat(
                "). Restore a full database backup instead.",
            ),
            ArchiveError::Reconciliation(m) =>
                "import was cancelled because the combined ledger did not balance: ".to_owned().concat(
                m.as_str(),
            ),
            ArchiveError::Db(e) => "database error: ".to_owned().concat(e.message().as_str()),
            ArchiveError::Io(m) => "could not read or write the file: ".to_owned().concat(
                m.as_str(),
            ),
        }
    }
}

} // verus!
