//! Commands on master data: users, accounts, items and parties.

use crate::commands::{
    carried_out, commit_event, judged, overflow, refusal, reject, scene, CommandContext,
    CommandError, Refusal,
};
use crate::commands::guards::{is_seeded, is_seeded_party, Verdict};
use crate::error::DbError;
use crate::events::LedgerEvent;
use crate::json::{member, text_in, Fields, Json, JsonV};
use crate::model::Text;
use crate::refs::{count_references, referring, ITEM_REFS, PARTY_REFS, Reference};
use crate::rows::{find, holds, opt_str};
use crate::tables::{ReadModel, Tables};
use crate::text::{dec, decimal, same};
use crate::wire::{json_text, print};
use vstd::prelude::*;
use vstd::string::*;

verus! {

pub open spec fn absent(taken: bool, table: Text, id: Text) -> Verdict {
    if taken {
        Err(refusal(table + " id already exists: "@ + id))
    } else {
        Ok(())
    }
}

fn ensure_absent(taken: bool, table: &str, id: &str) -> (r: Result<(), CommandError>)
    ensures
        judged(r) == absent(taken, table@, id@),
{
    if taken {
        Err(reject(table.to_owned().concat(" id already exists: ").concat(id)))
    } else {
        Ok(())
    }
}

pub open spec fn present(known: bool, table: Text, id: Text) -> Verdict {
    if known {
        Ok(())
    } else {
        Err(refusal(table + " id not found: "@ + id))
    }
}

fn ensure_present(known: bool, table: &str, id: &str) -> (r: Result<(), CommandError>)
    ensures
        judged(r) == present(known, table@, id@),
{
    if known {
        Ok(())
    } else {
        Err(reject(table.to_owned().concat(" id not found: ").concat(id)))
    }
}

pub open spec fn not_seeded_party(party: Text) -> Verdict {
    if is_seeded(party) {
        Err(
            refusal(
                party
                    + " is a built-in party used for cash trade and cannot be archived or deleted"@,
            ),
        )
    } else {
        Ok(())
    }
}

/// The seeded parties may be neither archived nor deleted.
fn ensure_not_seeded_party(party_id: &str) -> (r: Result<(), CommandError>)
    ensures
        judged(r) == not_seeded_party(party_id@),
{
    if is_seeded_party(party_id) {
        return Err(
            reject(
                party_id.to_owned().concat(
                    " is a built-in party used for cash trade and cannot be archived or deleted",
                ),
            ),
        );
    }
    Ok(())
}

pub open spec fn unreferenced(m: ReadModel, refs: Seq<Reference>, id: Text, noun: Text) -> Verdict {
    let n = referring(m, refs, id);
    if n > i64::MAX {
        Err(overflow())
    } else if n > 0 {
        Err(
            refusal(
                noun + " "@ + id + " is used by "@ + dec(n as int)
                    + " existing record(s); archive it instead of deleting it"@,
            ),
        )
    } else {
        Ok(())
    }
}

/// Refuse a hard delete once anything in the read model points at the row.
fn ensure_unreferenced(t: &Tables, refs: &[Reference], id: &str, noun: &str) -> (r: Result<
    (),
    CommandError,
>)
    ensures
        judged(r) == unreferenced(t@, refs@, id@, noun@),
{
    match count_references(t, refs, id) {
        Err(_) => Err(CommandError::Db(DbError::Overflow)),
        Ok(n) => if n > 0 {
            Err(
                reject(
                    noun.to_owned().concat(" ").concat(id).concat(" is used by ").concat(
                        decimal(n).as_str(),
                    ).concat(" existing record(s); archive it instead of deleting it"),
                ),
            )
        } else {
            Ok(())
        },
    }
}

/// A record with one more text member, where there is a text.
pub open spec fn with_opt(m: Map<Text, JsonV>, k: Text, v: Option<Text>) -> Map<Text, JsonV> {
    match v {
        Some(s) => m.insert(k, JsonV::Str(s)),
        None => m,
    }
}

/// Adds a text member where there is a text.
pub fn opt_text(f: Fields, k: &str, v: Option<&str>) -> (r: Fields)
    ensures
        r@ == with_opt(f@, k@, opt_str(v)),
{
    match v {
        Some(s) => f.text(k, s),
        None => f,
    }
}

// ---- create ----

pub open spec fn user_request(m: ReadModel, id: Text, name: Text, role: Option<Text>) -> Result<
    JsonV,
    Refusal,
> {
    match absent(holds(m.users, id), "users"@, id) {
        Err(e) => Err(e),
        Ok(_) => Ok(
            JsonV::Object(
                with_opt(
                    Map::empty().insert("userId"@, JsonV::Str(id)).insert(
                        "name"@,
                        JsonV::Str(name),
                    ),
                    "role"@,
                    role,
                ),
            ),
        ),
    }
}

/// Registers a user under a new id.
pub fn handle_user_registered(
    ctx: &mut CommandContext,
    user_id: &str,
    name: &str,
    role: Option<&str>,
) -> (r: Result<LedgerEvent, CommandError>)
    ensures
        carried_out(
            scene(old(ctx)),
            scene(final(ctx)),
            r,
            "UserRegistered"@,
            user_request(old(ctx).conn@.model, user_id@, name@, opt_str(role)),
        ),
        *final(final(ctx).conn) == *final(old(ctx).conn),
        *final(final(ctx).hlc) == *final(old(ctx).hlc),
{
    ensure_absent(find(&ctx.conn.tables.users, user_id).is_some(), "users", user_id)?;
    let f = Fields::new().text("userId", user_id).text("name", name);
    let p = opt_text(f, "role", role).done();
    commit_event(ctx, "UserRegistered", p)
}

pub open spec fn account_type_valid(ty: Text) -> Verdict {
    if ty == "asset"@ || ty == "liability"@ || ty == "equity"@ || ty == "income"@ || ty
        == "expense"@ {
        Ok(())
    } else {
        Err(refusal("invalid account type: "@ + ty))
    }
}

fn check_account_type(ty: &str) -> (r: Result<(), CommandError>)
    ensures
        judged(r) == account_type_valid(ty@),
{
    if same(ty, "asset") || same(ty, "liability") || same(ty, "equity") || same(ty, "income")
        || same(ty, "expense") {
        Ok(())
    } else {
        Err(reject("invalid account type: ".to_owned().concat(ty)))
    }
}

pub open spec fn normal_side_valid(side: Text) -> Verdict {
    if side == "debit"@ || side == "credit"@ {
        Ok(())
    } else {
        Err(refusal("invalid normal side: "@ + side))
    }
}

fn check_normal_side(side: &str) -> (r: Result<(), CommandError>)
    ensures
        judged(r) == normal_side_valid(side@),
{
    if same(side, "debit") || same(side, "credit") {
        Ok(())
    } else {
        Err(reject("invalid normal side: ".to_owned().concat(side)))
    }
}

pub open spec fn account_request(
    m: ReadModel,
    id: Text,
    name: Text,
    ty: Text,
    side: Text,
    role: Option<Text>,
) -> Result<JsonV, Refusal> {
    match absent(holds(m.accounts, id), "accounts"@, id) {
        Err(e) => Err(e),
        Ok(_) => match account_type_valid(ty) {
            Err(e) => Err(e),
            Ok(_) => match normal_side_valid(side) {
                Err(e) => Err(e),
                Ok(_) => Ok(
                    JsonV::Object(
                        with_opt(
                            Map::empty().insert("accountId"@, JsonV::Str(id)).insert(
                                "name"@,
                                JsonV::Str(name),
                            ).insert("type"@, JsonV::Str(ty)).insert("normal"@, JsonV::Str(side)),
                            "system_role"@,
                            role,
                        ),
                    ),
                ),
            },
        },
    }
}

/// Opens an account under a new id.
pub fn handle_account_opened(
    ctx: &mut CommandContext,
    account_id: &str,
    name: &str,
    acct_type: &str,
    normal_side: &str,
    system_role: Option<&str>,
) -> (r: Result<LedgerEvent, CommandError>)
    ensures
        carried_out(
            scene(old(ctx)),
            scene(final(ctx)),
            r,
            "AccountOpened"@,
            account_request(
                old(ctx).conn@.model,
                account_id@,
                name@,
                acct_type@,
                normal_side@,
                opt_str(system_role),
            ),
        ),
        *final(final(ctx).conn) == *final(old(ctx).conn),
        *final(final(ctx).hlc) == *final(old(ctx).hlc),
{
    ensure_absent(find(&ctx.conn.tables.accounts, account_id).is_some(), "accounts", account_id)?;
    check_account_type(acct_type)?;
    check_normal_side(normal_side)?;
    let f = Fields::new().text("accountId", account_id).text("name", name).text(
        "type",
        acct_type,
    ).text("normal", normal_side);
    let p = opt_text(f, "system_role", system_role).done();
    commit_event(ctx, "AccountOpened", p)
}

pub open spec fn item_request(m: ReadModel, id: Text, sku: Text, name: Text, unit: Text) -> Result<
    JsonV,
    Refusal,
> {
    match absent(holds(m.items, id), "items"@, id) {
        Err(e) => Err(e),
        Ok(_) => Ok(
            JsonV::Object(
                Map::empty().insert("itemId"@, JsonV::Str(id)).insert(
                    "sku"@,
                    JsonV::Str(sku),
                ).insert("name"@, JsonV::Str(name)).insert("unit"@, JsonV::Str(unit)).insert(
                    "active"@,
                    JsonV::Bool(true),
                ),
            ),
        ),
    }
}

/// Defines an item under a new id.
pub fn handle_item_defined(
    ctx: &mut CommandContext,
    item_id: &str,
    sku: &str,
    name: &str,
    unit: &str,
) -> (r: Result<LedgerEvent, CommandError>)
    ensures
        carried_out(
            scene(old(ctx)),
            scene(final(ctx)),
            r,
            "ItemDefined"@,
            item_request(old(ctx).conn@.model, item_id@, sku@, name@, unit@),
        ),
        *final(final(ctx).conn) == *final(old(ctx).conn),
        *final(final(ctx).hlc) == *final(old(ctx).hlc),
{
    ensure_absent(find(&ctx.conn.tables.items, item_id).is_some(), "items", item_id)?;
    let p = Fields::new().text("itemId", item_id).text("sku", sku).text("name", name).text(
        "unit",
        unit,
    ).json("active", Json::Bool(true)).done();
    commit_event(ctx, "ItemDefined", p)
}

/// The kinds that a party can be of.
pub open spec fn is_party_kind(kind: Text) -> bool {
    kind == "supplier"@ || kind == "customer"@ || kind == "both"@
}

fn names_party_kind(kind: &str) -> (r: bool)
    ensures
        r == is_party_kind(kind@),
{
    same(kind, "supplier") || same(kind, "customer") || same(kind, "both")
}

pub open spec fn party_request(m: ReadModel, id: Text, name: Text, kind: Text) -> Result<
    JsonV,
    Refusal,
> {
    match absent(holds(m.parties, id), "parties"@, id) {
        Err(e) => Err(e),
        Ok(_) => if is_party_kind(kind) {
            Ok(
                JsonV::Object(
                    Map::empty().insert("partyId"@, JsonV::Str(id)).insert(
                        "name"@,
                        JsonV::Str(name),
                    ).insert("kind"@, JsonV::Str(kind)),
                ),
            )
        } else {
            Err(refusal("invalid party kind: "@ + kind))
        },
    }
}

/// Creates a party under a new id.
pub fn handle_party_created(ctx: &mut CommandContext, party_id: &str, name: &str, kind: &str) -> (r:
    Result<LedgerEvent, CommandError>)
    ensures
        carried_out(
            scene(old(ctx)),
            scene(final(ctx)),
            r,
            "PartyCreated"@,
            party_request(old(ctx).conn@.model, party_id@, name@, kind@),
        ),
        *final(final(ctx).conn) == *final(old(ctx).conn),
        *final(final(ctx).hlc) == *final(old(ctx).hlc),
{
    ensure_absent(find(&ctx.conn.tables.parties, party_id).is_some(), "parties", party_id)?;
    if !names_party_kind(kind) {
        return Err(reject("invalid party kind: ".to_owned().concat(kind)));
    }
    let p = Fields::new().text("partyId", party_id).text("name", name).text("kind", kind).done();
    commit_event(ctx, "PartyCreated", p)
}

// ---- update ----

/// The payload of an update: which row, and what changes.
pub open spec fn update_payload(key: Text, id: Text, changes: JsonV) -> JsonV {
    JsonV::Object(Map::empty().insert(key, JsonV::Str(id)).insert("changes"@, changes))
}

fn update_json(key: &str, id: &str, changes: Json) -> (r: Json)
    ensures
        r@ == update_payload(key@, id@, changes@),
{
    Fields::new().text(key, id).json("changes", changes).done()
}

pub open spec fn user_update(m: ReadModel, id: Text, changes: JsonV) -> Result<JsonV, Refusal> {
    match present(holds(m.users, id), "users"@, id) {
        Err(e) => Err(e),
        Ok(_) => Ok(update_payload("userId"@, id, changes)),
    }
}

/// Changes fields of a user.
pub fn handle_user_updated(ctx: &mut CommandContext, user_id: &str, changes: Json) -> (r: Result<
    LedgerEvent,
    CommandError,
>)
    ensures
        carried_out(
            scene(old(ctx)),
            scene(final(ctx)),
            r,
            "UserUpdated"@,
            user_update(old(ctx).conn@.model, user_id@, changes@),
        ),
        *final(final(ctx).conn) == *final(old(ctx).conn),
        *final(final(ctx).hlc) == *final(old(ctx).hlc),
{
    ensure_present(find(&ctx.conn.tables.users, user_id).is_some(), "users", user_id)?;
    commit_event(ctx, "UserUpdated", update_json("userId", user_id, changes))
}

pub open spec fn fixed_field(changes: JsonV, field: Text) -> Verdict {
    if member(changes, field) is Some {
        Err(refusal("account field '"@ + field + "' is immutable"@))
    } else {
        Ok(())
    }
}

fn ensure_unchanged(changes: &Json, field: &str) -> (r: Result<(), CommandError>)
    ensures
        judged(r) == fixed_field(changes@, field@),
{
    if changes.get(field).is_some() {
        Err(reject("account field '".to_owned().concat(field).concat("' is immutable")))
    } else {
        Ok(())
    }
}

pub open spec fn account_update(m: ReadModel, id: Text, changes: JsonV) -> Result<JsonV, Refusal> {
    match present(holds(m.accounts, id), "accounts"@, id) {
        Err(e) => Err(e),
        Ok(_) => match fixed_field(changes, "type"@) {
            Err(e) => Err(e),
            Ok(_) => match fixed_field(changes, "normal"@) {
                Err(e) => Err(e),
                Ok(_) => match fixed_field(changes, "normalSide"@) {
                    Err(e) => Err(e),
                    Ok(_) => match fixed_field(changes, "system_role"@) {
                        Err(e) => Err(e),
                        Ok(_) => Ok(update_payload("accountId"@, id, changes)),
                    },
                },
            },
        },
    }
}

/// Changes fields of an account; its type, normal side and role are fixed.
pub fn handle_account_updated(ctx: &mut CommandContext, account_id: &str, changes: Json) -> (r:
    Result<LedgerEvent, CommandError>)
    ensures
        carried_out(
            scene(old(ctx)),
            scene(final(ctx)),
            r,
            "AccountUpdated"@,
            account_update(old(ctx).conn@.model, account_id@, changes@),
        ),
        *final(final(ctx).conn) == *final(old(ctx).conn),
        *final(final(ctx).hlc) == *final(old(ctx).hlc),
{
    ensure_present(find(&ctx.conn.tables.accounts, account_id).is_some(), "accounts", account_id)?;
    ensure_unchanged(&changes, "type")?;
    ensure_unchanged(&changes, "normal")?;
    ensure_unchanged(&changes, "normalSide")?;
    ensure_unchanged(&changes, "system_role")?;
    commit_event(ctx, "AccountUpdated", update_json("accountId", account_id, changes))
}

pub open spec fn active_valid(changes: JsonV, noun: Text) -> Verdict {
    match member(changes, "active"@) {
        Some(JsonV::Bool(_)) => Ok(()),
        Some(_) => Err(refusal(noun + " 'active' must be a boolean"@)),
        None => Ok(()),
    }
}

fn check_active(changes: &Json, noun: &str) -> (r: Result<(), CommandError>)
    ensures
        judged(r) == active_valid(changes@, noun@),
{
    if let Some(a) = changes.get("active") {
        if a.as_bool().is_none() {
            return Err(reject(noun.to_owned().concat(" 'active' must be a boolean")));
        }
    }
    Ok(())
}

/// Whether the new stock keeping unit of an item is a text that no other item has.
pub open spec fn sku_valid(m: ReadModel, id: Text, changes: JsonV) -> Verdict {
    match member(changes, "sku"@) {
        None => Ok(()),
        Some(v) => match text_in(v) {
            None => Err(refusal("item 'sku' must be a string"@)),
            Some(sku) => if crate::model::sku_taken(m.items, id, Some(sku)) {
                Err(refusal("another item already uses SKU '"@ + sku + "'"@))
            } else {
                Ok(())
            },
        },
    }
}

fn check_sku(t: &Tables, item_id: &str, changes: &Json) -> (r: Result<(), CommandError>)
    ensures
        judged(r) == sku_valid(t@, item_id@, changes@),
{
    match changes.get("sku") {
        None => Ok(()),
        Some(v) => match v.as_str() {
            None => Err(reject("item 'sku' must be a string".to_owned())),
            Some(sku) => if crate::projectors::sku_taken(&t.items, item_id, Some(sku)) {
                Err(
                    reject(
                        "another item already uses SKU '".to_owned().concat(sku).concat("'"),
                    ),
                )
            } else {
                Ok(())
            },
        },
    }
}

pub open spec fn item_update(m: ReadModel, id: Text, changes: JsonV) -> Result<JsonV, Refusal> {
    match present(holds(m.items, id), "items"@, id) {
        Err(e) => Err(e),
        Ok(_) => match active_valid(changes, "item"@) {
            Err(e) => Err(e),
            Ok(_) => match sku_valid(m, id, changes) {
                Err(e) => Err(e),
                Ok(_) => Ok(update_payload("itemId"@, id, changes)),
            },
        },
    }
}

/// Changes fields of an item.
pub fn handle_item_updated(ctx: &mut CommandContext, item_id: &str, changes: Json) -> (r: Result<
    LedgerEvent,
    CommandError,
>)
    ensures
        carried_out(
            scene(old(ctx)),
            scene(final(ctx)),
            r,
            "ItemUpdated"@,
            item_update(old(ctx).conn@.model, item_id@, changes@),
        ),
        *final(final(ctx).conn) == *final(old(ctx).conn),
        *final(final(ctx).hlc) == *final(old(ctx).hlc),
{
    ensure_present(find(&ctx.conn.tables.items, item_id).is_some(), "items", item_id)?;
    check_active(&changes, "item")?;
    check_sku(&ctx.conn.tables, item_id, &changes)?;
    commit_event(ctx, "ItemUpdated", update_json("itemId", item_id, changes))
}

/// Whether the new kind of a party is one.
pub open spec fn kind_valid(changes: JsonV) -> Verdict {
    match member(changes, "kind"@) {
        None => Ok(()),
        Some(k) => if text_in(k) matches Some(s) && is_party_kind(s) {
            Ok(())
        } else {
            Err(refusal("invalid party kind in changes: "@ + json_text(k)))
        },
    }
}

fn check_kind(changes: &Json) -> (r: Result<(), CommandError>)
    ensures
        judged(r) == kind_valid(changes@),
{
    match changes.get("kind") {
        None => Ok(()),
        Some(k) => {
            let ok = match k.as_str() {
                Some(s) => names_party_kind(s),
                None => false,
            };
            if ok {
                Ok(())
            } else {
                Err(
                    reject(
                        "invalid party kind in changes: ".to_owned().concat(print(k).as_str()),
                    ),
                )
            }
        },
    }
}

/// Renaming a seeded party is fine; hiding it is not.
pub open spec fn archive_valid(id: Text, changes: JsonV) -> Verdict {
    match active_valid(changes, "party"@) {
        Err(e) => Err(e),
        Ok(_) => if member(changes, "active"@) == Some(JsonV::Bool(false)) {
            not_seeded_party(id)
        } else {
            Ok(())
        },
    }
}

fn check_archive(party_id: &str, changes: &Json) -> (r: Result<(), CommandError>)
    ensures
        judged(r) == archive_valid(party_id@, changes@),
{
    check_active(changes, "party")?;
    if let Some(a) = changes.get("active") {
        if let Some(b) = a.as_bool() {
            if !b {
                return ensure_not_seeded_party(party_id);
            }
        }
    }
    Ok(())
}

pub open spec fn party_update(m: ReadModel, id: Text, changes: JsonV) -> Result<JsonV, Refusal> {
    match present(holds(m.parties, id), "parties"@, id) {
        Err(e) => Err(e),
        Ok(_) => match kind_valid(changes) {
            Err(e) => Err(e),
            Ok(_) => match archive_valid(id, changes) {
                Err(e) => Err(e),
                Ok(_) => Ok(update_payload("partyId"@, id, changes)),
            },
        },
    }
}

/// Changes fields of a party.
pub fn handle_party_updated(ctx: &mut CommandContext, party_id: &str, changes: Json) -> (r: Result<
    LedgerEvent,
    CommandError,
>)
    ensures
        carried_out(
            scene(old(ctx)),
            scene(final(ctx)),
            r,
            "PartyUpdated"@,
            party_update(old(ctx).conn@.model, party_id@, changes@),
        ),
        *final(final(ctx).conn) == *final(old(ctx).conn),
        *final(final(ctx).hlc) == *final(old(ctx).hlc),
{
    ensure_present(find(&ctx.conn.tables.parties, party_id).is_some(), "parties", party_id)?;
    check_kind(&changes)?;
    check_archive(party_id, &changes)?;
    commit_event(ctx, "PartyUpdated", update_json("partyId", party_id, changes))
}

// ---- delete ----

pub open spec fn item_deletion(m: ReadModel, id: Text) -> Result<JsonV, Refusal> {
    match present(holds(m.items, id), "items"@, id) {
        Err(e) => Err(e),
        Ok(_) => match unreferenced(m, ITEM_REFS@, id, "item"@) {
            Err(e) => Err(e),
            Ok(_) => Ok(JsonV::Object(Map::empty().insert("itemId"@, JsonV::Str(id)))),
        },
    }
}

/// Deletes an item that nothing points at.
pub fn handle_item_deleted(ctx: &mut CommandContext, item_id: &str) -> (r: Result<
    LedgerEvent,
    CommandError,
>)
    ensures
        carried_out(
            scene(old(ctx)),
            scene(final(ctx)),
            r,
            "ItemDeleted"@,
            item_deletion(old(ctx).conn@.model, item_id@),
        ),
        *final(final(ctx).conn) == *final(old(ctx).conn),
        *final(final(ctx).hlc) == *final(old(ctx).hlc),
{
    ensure_present(find(&ctx.conn.tables.items, item_id).is_some(), "items", item_id)?;
    ensure_unreferenced(&ctx.conn.tables, &ITEM_REFS, item_id, "item")?;
    commit_event(ctx, "ItemDeleted", Fields::new().text("itemId", item_id).done())
}

pub open spec fn party_deletion(m: ReadModel, id: Text) -> Result<JsonV, Refusal> {
    match present(holds(m.parties, id), "parties"@, id) {
        Err(e) => Err(e),
        Ok(_) => match not_seeded_party(id) {
            Err(e) => Err(e),
            Ok(_) => match unreferenced(m, PARTY_REFS@, id, "party"@) {
                Err(e) => Err(e),
                Ok(_) => Ok(JsonV::Object(Map::empty().insert("partyId"@, JsonV::Str(id)))),
            },
        },
    }
}

/// Deletes a party that is not seeded and that nothing points at.
pub fn handle_party_deleted(ctx: &mut CommandContext, party_id: &str) -> (r: Result<
    LedgerEvent,
    CommandError,
>)
    ensures
        carried_out(
            scene(old(ctx)),
            scene(final(ctx)),
            r,
            "PartyDeleted"@,
            party_deletion(old(ctx).conn@.model, party_id@),
        ),
        *final(final(ctx).conn) == *final(old(ctx).conn),
        *final(final(ctx).hlc) == *final(old(ctx).hlc),
{
    ensure_present(find(&ctx.conn.tables.parties, party_id).is_some(), "parties", party_id)?;
    ensure_not_seeded_party(party_id)?;
    ensure_unreferenced(&ctx.conn.tables, &PARTY_REFS, party_id, "party")?;
    commit_event(ctx, "PartyDeleted", Fields::new().text("partyId", party_id).done())
}

} // verus!
