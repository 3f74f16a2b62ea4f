//! Reading an archive.

use crate::archive::{ARCHIVE_FORMAT, ARCHIVE_VERSION, ArchiveError, ArchiveFault};
use crate::assoc::record_of;
use crate::events::{EventV, LedgerEvent};
use crate::json::{member, members, num, number_in, opt_txt, pi, pos, ps, txt, Json, JsonV};
use crate::model::Text;
use crate::settings::Settings;
use crate::text::{dec, decimal_u64, same};
use crate::wire::{parse, parsed};
use vstd::prelude::*;
use vstd::string::*;

verus! {

/// The first line of an archive.
#[derive(Debug)]
pub struct ArchiveHeader {
    pub version: u32,
    pub exported_at: i64,
    pub device_id: String,
    /// The settings of the install that wrote the archive. An import never applies them.
    pub settings: Settings,
}

/// The mathematical value of a header.
#[verifier::ext_equal]
pub struct HeaderV {
    pub version: u32,
    pub exported_at: i64,
    pub device_id: Seq<char>,
    pub settings: Map<Seq<char>, Seq<char>>,
}

impl View for ArchiveHeader {
    type V = HeaderV;

    open spec fn view(&self) -> HeaderV {
        HeaderV {
            version: self.version,
            exported_at: self.exported_at,
            device_id: self.device_id@,
            settings: self.settings@,
        }
    }
}

/// The members of a record that are texts.
pub open spec fn texts_in(v: JsonV) -> Map<Text, Text> {
    Map::new(
        |k: Text| member(v, k) matches Some(JsonV::Str(_)),
        |k: Text| member(v, k)->Some_0->Str_0,
    )
}

/// The value under a name, or null where there is none.
pub open spec fn member_or_null(v: JsonV, k: Text) -> JsonV {
    match member(v, k) {
        Some(x) => x,
        None => JsonV::Null,
    }
}

/// The version a header names, or zero.
pub open spec fn version_in(v: JsonV) -> u64 {
    match member(v, "version"@) {
        Some(JsonV::Int(i)) => if 0 <= i <= u64::MAX {
            i as u64
        } else {
            0
        },
        _ => 0,
    }
}

/// What a header says, or why it is none.
pub open spec fn header_in(v: JsonV) -> Result<HeaderV, ArchiveFault> {
    match opt_txt(v, "format"@) {
        None => Err(ArchiveError::Format("no format marker on the first line"@)),
        Some(f) => if f != ARCHIVE_FORMAT@ {
            Err(
                ArchiveError::Format(
                    "expected an "@ + ARCHIVE_FORMAT@ + " file but found '"@ + f + "'"@,
                ),
            )
        } else if version_in(v) != ARCHIVE_VERSION as u64 {
            Err(
                ArchiveError::Format(
                    "this file is version "@ + dec(version_in(v) as int)
                        + " but this app understands version "@ + dec(ARCHIVE_VERSION as int),
                ),
            )
        } else {
            Ok(
                HeaderV {
                    version: ARCHIVE_VERSION,
                    exported_at: num(v, "exported_at"@),
                    device_id: txt(v, "device_id"@),
                    settings: texts_in(member_or_null(v, "settings"@)),
                },
            )
        },
    }
}

fn read_texts(v: Option<&Json>) -> (r: Settings)
    ensures
        r@ == texts_in(
            match v {
                Some(j) => j@,
                None => JsonV::Null,
            },
        ),
{
    let mut out = Settings::new();
    if let Some(j) = v {
        if let Json::Object(ms) = j {
            let ghost all = members(ms@);
            let mut i: usize = 0;
            while i < ms.len()
                invariant
                    i <= ms@.len(),
                    *j == Json::Object(*ms),
                    all == members(ms@),
                    forall|k: Text| #[trigger]
                        out@.contains_key(k) <==> texts_in(j@).contains_key(k) && exists|n: int|
                            0 <= n < i && (#[trigger] all[n]).0 == k,
                    forall|k: Text| #[trigger]
                        out@.contains_key(k) ==> out@[k] == texts_in(j@)[k],
                decreases ms@.len() - i,
            {
                let name = ms[i].0.as_str();
                assert(all[i as int].0 == name@);
                let ghost had = out@;
                if let Some(Json::Str(t)) = j.get(name) {
                    out.put(name, t.as_str());
                }
                proof {
                    assert forall|k: Text| #[trigger]
                        out@.contains_key(k) <==> texts_in(j@).contains_key(k) && exists|n: int|
                            0 <= n < i + 1 && (#[trigger] all[n]).0 == k by {
                        if k != name@ {
                            assert(out@.contains_key(k) == had.contains_key(k));
                            if exists|n: int| 0 <= n < i + 1 && (#[trigger] all[n]).0 == k {
                                let n = choose|n: int| 0 <= n < i + 1 && (#[trigger] all[n]).0 == k;
                                assert(n < i);
                            }
                        } else if !texts_in(j@).contains_key(k) {
                            assert(!had.contains_key(k));
                        }
                    }
                }
                i += 1;
            }
            proof {
                lemma_names(all);
                assert(out@ =~= texts_in(j@));
            }
        } else {
            assert(out@ =~= texts_in(j@));
        }
    } else {
        assert(out@ =~= texts_in(JsonV::Null));
    }
    out
}

/// A name in a record occurs in the pairs that spell it out.
proof fn lemma_names<V>(s: Seq<(Text, V)>)
    ensures
        forall|k: Text| #[trigger]
            record_of(s).contains_key(k) ==> exists|n: int|
                0 <= n < s.len() && (#[trigger] s[n]).0 == k,
    decreases s.len(),
{
    if s.len() > 0 {
        lemma_names(s.drop_last());
        assert forall|k: Text| #[trigger] record_of(s).contains_key(k) implies exists|n: int|
            0 <= n < s.len() && (#[trigger] s[n]).0 == k by {
            if s.last().0 == k {
                assert(s[s.len() - 1].0 == k);
            } else {
                let f = s.drop_last();
                assert(record_of(f).contains_key(k));
                let n = choose|n: int| 0 <= n < f.len() && (#[trigger] f[n]).0 == k;
                assert(s[n].0 == k);
            }
        }
    }
}

/// A header or an error, by value.
pub open spec fn header_result(r: Result<ArchiveHeader, ArchiveError>) -> Result<
    HeaderV,
    ArchiveFault,
> {
    match r {
        Ok(h) => Ok(h@),
        Err(e) => Err(e@),
    }
}

/// Reads and validates a header.
pub fn read_header(v: &Json) -> (r: Result<ArchiveHeader, ArchiveError>)
    ensures
        header_result(r) == header_in(v@),
{
    match pos(v, "format") {
        None => {
            return Err(ArchiveError::Format("no format marker on the first line".to_owned()));
        },
        Some(f) => {
            if !same(f, ARCHIVE_FORMAT) {
                return Err(
                    ArchiveError::Format(
                        "expected an ".to_owned().concat(ARCHIVE_FORMAT).concat(
                            " file but found '",
                        ).concat(f).concat("'"),
                    ),
                );
            }
        },
    }
    let named: Option<u64> = match v.get("version") {
        Some(x) => x.as_u64(),
        None => None,
    };
    let version: u64 = match named {
        Some(n) => n,
        None => 0,
    };
    if version != ARCHIVE_VERSION as u64 {
        return Err(
            ArchiveError::Format(
                "this file is version ".to_owned().concat(
                    decimal_u64(version).as_str(),
                ).concat(" but this app understands version ").concat(
                    decimal_u64(ARCHIVE_VERSION as u64).as_str(),
                ),
            ),
        );
    }
    Ok(
        ArchiveHeader {
            version: ARCHIVE_VERSION,
            exported_at: pi(v, "exported_at"),
            device_id: ps(v, "device_id").to_owned(),
            settings: read_texts(v.get("settings")),
        },
    )
}

/// What the first line of an archive says, or why it is none.
pub open spec fn parsed_header(line: Text) -> Result<HeaderV, ArchiveFault> {
    match parsed(line) {
        Err(e) => Err(ArchiveError::Format("the first line is not valid JSON ("@ + e + ")"@)),
        Ok(v) => header_in(v),
    }
}

/// Parses and validates the header line.
///
/// Rejects anything without the format marker, and any version that is not understood.
pub fn parse_header(line: &str) -> (r: Result<ArchiveHeader, ArchiveError>)
    ensures
        header_result(r) == parsed_header(line@),
{
    match parse(line) {
        Err(e) => Err(
            ArchiveError::Format(
                "the first line is not valid JSON (".to_owned().concat(e.as_str()).concat(")"),
            ),
        ),
        Ok(v) => read_header(&v),
    }
}

/// A text field of a line.
pub open spec fn text_field(v: JsonV, k: Text, line: usize) -> Result<Text, ArchiveFault> {
    match opt_txt(v, k) {
        Some(t) => Ok(t),
        None => Err(ArchiveError::Parse { line, message: "missing text field '"@ + k + "'"@ }),
    }
}

/// A numeric field of a line.
pub open spec fn number_field(v: JsonV, k: Text, line: usize) -> Result<i64, ArchiveFault> {
    match member(v, k) {
        Some(x) if number_in(x) is Some => Ok(number_in(x)->0),
        _ => Err(ArchiveError::Parse { line, message: "missing numeric field '"@ + k + "'"@ }),
    }
}

fn text_of<'a>(v: &'a Json, k: &str, line: usize) -> (r: Result<&'a str, ArchiveError>)
    ensures
        match r {
            Ok(t) => text_field(v@, k@, line) == Ok::<Text, ArchiveFault>(t@),
            Err(e) => text_field(v@, k@, line) == Err::<Text, ArchiveFault>(e@),
        },
{
    match pos(v, k) {
        Some(t) => Ok(t),
        None => Err(
            ArchiveError::Parse {
                line,
                message: "missing text field '".to_owned().concat(k).concat("'"),
            },
        ),
    }
}

fn number_of(v: &Json, k: &str, line: usize) -> (r: Result<i64, ArchiveError>)
    ensures
        match r {
            Ok(n) => number_field(v@, k@, line) == Ok::<i64, ArchiveFault>(n),
            Err(e) => number_field(v@, k@, line) == Err::<i64, ArchiveFault>(e@),
        },
{
    let found: Option<i64> = match v.get(k) {
        Some(x) => x.as_i64(),
        None => None,
    };
    match found {
        Some(n) => Ok(n),
        None => Err(
            ArchiveError::Parse {
                line,
                message: "missing numeric field '".to_owned().concat(k).concat("'"),
            },
        ),
    }
}

/// The event of a line, or the first field that is missing.
pub open spec fn event_in(v: JsonV, line: usize) -> Result<EventV, ArchiveFault> {
    match text_field(v, "id"@, line) {
        Err(e) => Err(e),
        Ok(id) => match text_field(v, "hlc"@, line) {
            Err(e) => Err(e),
            Ok(hlc) => match text_field(v, "device_id"@, line) {
                Err(e) => Err(e),
                Ok(device_id) => match text_field(v, "user_id"@, line) {
                    Err(e) => Err(e),
                    Ok(user_id) => match number_field(v, "seq"@, line) {
                        Err(e) => Err(e),
                        Ok(seq) => match text_field(v, "type"@, line) {
                            Err(e) => Err(e),
                            Ok(event_type) => match number_field(v, "created_at"@, line) {
                                Err(e) => Err(e),
                                Ok(created_at) => Ok(
                                    LedgerEvent {
                                        id,
                                        hlc,
                                        device_id,
                                        user_id,
                                        seq,
                                        event_type,
                                        payload: member_or_null(v, "payload"@),
                                        created_at,
                                    },
                                ),
                            },
                        },
                    },
                },
            },
        },
    }
}

/// An event or an error, by value.
pub open spec fn event_result(r: Result<LedgerEvent, ArchiveError>) -> Result<
    EventV,
    ArchiveFault,
> {
    match r {
        Ok(ev) => Ok(ev@),
        Err(e) => Err(e@),
    }
}

/// Reads an event from a line. `line` is only used to report an error.
pub fn read_event(v: &Json, line: usize) -> (r: Result<LedgerEvent, ArchiveError>)
    ensures
        event_result(r) == event_in(v@, line),
{
    let id = text_of(v, "id", line)?;
    let hlc = text_of(v, "hlc", line)?;
    let device_id = text_of(v, "device_id", line)?;
    let user_id = text_of(v, "user_id", line)?;
    let seq: i64 = number_of(v, "seq", line)?;
    let event_type = text_of(v, "type", line)?;
    let payload = match v.get("payload") {
        Some(p) => p.copy(),
        None => Json::Null,
    };
    let created_at: i64 = number_of(v, "created_at", line)?;
    Ok(
        LedgerEvent {
            id: id.to_owned(),
            hlc: hlc.to_owned(),
            device_id: device_id.to_owned(),
            user_id: user_id.to_owned(),
            seq,
            event_type: event_type.to_owned(),
            payload,
            created_at,
        },
    )
}

/// The event of a line of text, or why it is none.
pub open spec fn parsed_event(line: Text, line_no: usize) -> Result<EventV, ArchiveFault> {
    match parsed(line) {
        Err(e) => Err(ArchiveError::Parse { line: line_no, message: e }),
        Ok(v) => event_in(v, line_no),
    }
}

/// Parses one event line. `line_no` counts from one and is only used to report an error.
pub fn parse_event(line: &str, line_no: usize) -> (r: Result<LedgerEvent, ArchiveError>)
    ensures
        event_result(r) == parsed_event(line@, line_no),
{
    match parse(line) {
        Err(e) => Err(ArchiveError::Parse { line: line_no, message: e }),
        Ok(v) => read_event(&v, line_no),
    }
}

} // verus!
