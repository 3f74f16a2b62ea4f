//! Settings of one install.

use crate::assoc::{fetch, pairs, put, record_of};
use crate::db::{Database, Store};
use crate::error::DbError;
use crate::text::same;
use vstd::prelude::*;
use vstd::string::*;

verus! {

/// Allowed settings keys. `set_setting` rejects anything not listed here.
///
/// `device_id` is deliberately absent: it is written once by `ensure_device_id`
/// and must never be writable through this generic path.
pub const SETTING_KEYS: [&'static str; 8] = [
    "currency_symbol",
    "currency_code",
    "currency_decimals",
    "theme",
    "locale",
    "font_size",
    "backup_folder",
    "last_backup_at",
];

/// The key under which an install keeps its identity.
pub const DEVICE_ID: &'static str = "device_id";

/// Stored settings, by key.
#[derive(Debug)]
pub struct Settings {
    pub entries: Vec<(String, String)>,
}

impl View for Settings {
    type V = Map<Seq<char>, Seq<char>>;

    open spec fn view(&self) -> Map<Seq<char>, Seq<char>> {
        record_of(pairs(self.entries@))
    }
}

impl Settings {
    /// No settings.
    pub fn new() -> (r: Settings)
        ensures
            r@ == Map::<Seq<char>, Seq<char>>::empty(),
    {
        Settings { entries: Vec::new() }
    }

    /// The value under `key`.
    pub fn get(&self, key: &str) -> (r: Option<&str>)
        ensures
            match r {
                Some(v) => self@.contains_key(key@) && self@[key@] == v@,
                None => !self@.contains_key(key@),
            },
    {
        match fetch(&self.entries, key) {
            Some(v) => Some(v.as_str()),
            None => None,
        }
    }

    /// Writes `value` under `key`.
    pub fn put(&mut self, key: &str, value: &str)
        ensures
            final(self)@ == old(self)@.insert(key@, value@),
    {
        put(&mut self.entries, key, value.to_owned());
    }

    /// Whether nothing is stored.
    pub fn is_empty(&self) -> (r: bool)
        ensures
            r == (self@ == Map::<Seq<char>, Seq<char>>::empty()),
    {
        proof {
            let s = pairs(self.entries@);
            if s.len() > 0 {
                assert(self@.contains_key(s.last().0));
            }
        }
        self.entries.len() == 0
    }

    /// The same settings again.
    pub fn copy(&self) -> (r: Settings)
        ensures
            r@ == self@,
    {
        let mut out: Vec<(String, String)> = Vec::new();
        let mut i: usize = 0;
        while i < self.entries.len()
            invariant
                i <= self.entries@.len(),
                out@.len() == i,
                forall|j: int|
                    0 <= j < i ==> (#[trigger] out@[j]).0@ == self.entries@[j].0@ && out@[j].1@
                        == self.entries@[j].1@,
            decreases self.entries@.len() - i,
        {
            out.push((self.entries[i].0.clone(), self.entries[i].1.clone()));
            i += 1;
        }
        assert(pairs(out@) =~= pairs(self.entries@));
        Settings { entries: out }
    }
}

/// `key` may be written through `set_setting`.
pub open spec fn settable(key: Seq<char>) -> bool {
    exists|i: int| 0 <= i < SETTING_KEYS@.len() && (#[trigger] SETTING_KEYS@[i])@ == key
}

fn is_settable(key: &str) -> (r: bool)
    ensures
        r == settable(key@),
{
    let keys = SETTING_KEYS;
    let mut i: usize = 0;
    while i < keys.len()
        invariant
            i <= keys@.len(),
            keys@ == SETTING_KEYS@,
            forall|j: int| 0 <= j < i ==> (#[trigger] SETTING_KEYS@[j])@ != key@,
        decreases keys@.len() - i,
    {
        if same(keys[i], key) {
            return true;
        }
        i += 1;
    }
    false
}

/// Read every stored setting. Absent keys are simply not present; callers apply
/// their own defaults.
pub fn get_settings(db: &Database) -> (r: Result<Settings, DbError>)
    ensures
        r matches Ok(s) && s@ == db@.settings,
{
    Ok(db.settings.copy())
}

/// Upsert one setting. Returns an error if `key` is not in `SETTING_KEYS`.
pub fn set_setting(db: &mut Database, key: &str, value: &str) -> (r: Result<(), DbError>)
    ensures
        match r {
            Ok(_) => settable(key@) && final(db)@ == (Store {
                settings: old(db)@.settings.insert(key@, value@),
                ..old(db)@
            }),
            Err(e) => !settable(key@) && *final(db) == *old(db) && e@ == DbError::Refused(
                "unknown setting key: "@ + key@,
            ),
        },
{
    if !is_settable(key) {
        return Err(DbError::Refused("unknown setting key: ".to_owned().concat(key)));
    }
    db.settings.put(key, value);
    Ok(())
}

/// A lower-case hexadecimal digit.
pub open spec fn is_hex(c: char) -> bool {
    48 <= c as int <= 57 || 97 <= c as int <= 102
}

/// A random UUID as text: hexadecimal digits in five groups with hyphens between, of
/// version 4 and of the standard variant.
pub open spec fn uuid_form(s: Seq<char>) -> bool {
    &&& s.len() == 36
    &&& forall|i: int|
        0 <= i < 36 ==> if i == 8 || i == 13 || i == 18 || i == 23 {
            #[trigger] s[i] == '-'
        } else {
            is_hex(s[i])
        }
    &&& s[14] == '4'
    &&& s[19] == '8' || s[19] == '9' || s[19] == 'a' || s[19] == 'b'
}

/// Mints an identity.
///
/// Trusted: `uuid::Uuid::new_v4` followed by the display of the value, which is the
/// hyphenated form in lower case. Which digits come out is left to chance. It does not
/// return where the system has no random bytes to give.
#[verifier::external_body]
fn fresh_id() -> (r: String)
    ensures
        uuid_form(r@),
{
    uuid::Uuid::new_v4().to_string()
}

/// The settings once an identity is sure to be stored: a stored one stays, and only
/// where there is none `fresh` is adopted.
pub open spec fn adopted(
    s: Map<Seq<char>, Seq<char>>,
    fresh: Seq<char>,
) -> Map<Seq<char>, Seq<char>> {
    if s.contains_key(DEVICE_ID@) {
        s
    } else {
        s.insert(DEVICE_ID@, fresh)
    }
}

/// Adopts the stored identity, or `fresh` where none is stored.
pub fn adopt_device_id(db: &mut Database, fresh: &str) -> (r: String)
    ensures
        final(db)@ == (Store { settings: adopted(old(db)@.settings, fresh@), ..old(db)@ }),
        r@ == adopted(old(db)@.settings, fresh@)[DEVICE_ID@],
{
    if let Some(id) = db.settings.get(DEVICE_ID) {
        return id.to_owned();
    }
    db.settings.put(DEVICE_ID, fresh);
    fresh.to_owned()
}

/// Return this install's stable device id, minting and persisting one on first
/// call.
///
/// Write-once by construction: this can only ever adopt a stored id, never replace
/// one.
pub fn ensure_device_id(db: &mut Database) -> (r: Result<String, DbError>)
    ensures
        r matches Ok(id) && final(db)@ == (Store {
            settings: adopted(old(db)@.settings, id@),
            ..old(db)@
        }) && final(db)@.settings[DEVICE_ID@] == id@ && (!old(db)@.settings.contains_key(DEVICE_ID@)
            ==> uuid_form(id@)),
{
    let fresh = fresh_id();
    Ok(adopt_device_id(db, fresh.as_str()))
}

/// Replaces the identity of this install by `fresh`.
pub fn replace_device_id(db: &mut Database, fresh: &str)
    ensures
        final(db)@ == (Store {
            settings: old(db)@.settings.insert(DEVICE_ID@, fresh@),
            ..old(db)@
        }),
{
    db.settings.put(DEVICE_ID, fresh);
}

/// Replace this install's `device_id` with a freshly minted one.
///
/// The single legitimate exception to the write-once rule, for a database restored
/// from a snapshot that a different install made.
pub fn remint_device_id(db: &mut Database) -> (r: Result<String, DbError>)
    ensures
        r matches Ok(id) && final(db)@ == (Store {
            settings: old(db)@.settings.insert(DEVICE_ID@, id@),
            ..old(db)@
        }) && uuid_form(id@),
{
    let fresh = fresh_id();
    replace_device_id(db, fresh.as_str());
    Ok(fresh)
}

/// The identity of an install cannot be written through `set_setting`.
pub proof fn law_device_id_is_not_settable()
    ensures
        !settable(DEVICE_ID@),
{
    reveal_strlit("device_id");
    reveal_strlit("currency_symbol");
    reveal_strlit("currency_code");
    reveal_strlit("currency_decimals");
    reveal_strlit("theme");
    reveal_strlit("locale");
    reveal_strlit("font_size");
    reveal_strlit("backup_folder");
    reveal_strlit("last_backup_at");
    assert forall|i: int| 0 <= i < SETTING_KEYS@.len() implies (#[trigger] SETTING_KEYS@[i])@
        != DEVICE_ID@ by {
        if i == 3 {
            assert("theme"@.len() != DEVICE_ID@.len());
        } else if i == 5 {
            assert("font_size"@[0] != DEVICE_ID@[0]);
        }
    }
}

/// Once an identity is stored, adopting another leaves it as it is.
pub proof fn law_device_id_is_write_once(
    s: Map<Seq<char>, Seq<char>>,
    first: Seq<char>,
    second: Seq<char>,
)
    ensures
        adopted(adopted(s, first), second) == adopted(s, first),
        adopted(s, first).contains_key(DEVICE_ID@),
        s.contains_key(DEVICE_ID@) ==> adopted(s, first)[DEVICE_ID@] == s[DEVICE_ID@],
{
}

} // verus!
