//! The first events of a business.

use crate::db::{Database, Store};
use crate::error::DbError;
use crate::events::{append_clock, append_event, append_outcome, is_mentioned, mentioned};
use crate::hlc::Hlc;
use crate::json::{Fields, Json, JsonV};
use vstd::prelude::*;
use vstd::string::*;

verus! {

/// The reserved system-user id used to author genesis events.
pub const SYSTEM_USER_ID: &'static str = "system";

/// The shared, always-present customer used to record cash sales to unknown
/// walk-in buyers.
pub const WALKIN_PARTY_ID: &'static str = "party_walkin";

/// The shared, always-present supplier used to record cash purchases from an
/// unrecorded seller — the buy-side counterpart of [`WALKIN_PARTY_ID`].
pub const ANON_SUPPLIER_PARTY_ID: &'static str = "party_anon_supplier";

/// Seeded chart of accounts: (system_role, display name, type, normal side).
pub const SEEDED_ACCOUNTS: [(&'static str, &'static str, &'static str, &'static str); 14] = [
    ("cash", "Cash", "asset", "debit"),
    ("bank", "Bank", "asset", "debit"),
    ("inventory", "Inventory", "asset", "debit"),
    ("accounts_receivable", "Accounts Receivable", "asset", "debit"),
    ("accounts_payable", "Accounts Payable", "liability", "credit"),
    ("tax_payable", "Tax Payable", "liability", "credit"),
    ("owner_capital", "Owner Capital", "equity", "credit"),
    ("retained_earnings", "Retained Earnings", "equity", "credit"),
    ("sales", "Sales", "income", "credit"),
    ("cogs", "Cost of Goods Sold", "expense", "debit"),
    ("shrinkage", "Inventory Shrinkage", "expense", "debit"),
    ("inventory_gain", "Inventory Gain (overage)", "income", "credit"),
    ("rent", "Rent", "expense", "debit"),
    ("wages", "Wages", "expense", "debit"),
];

/// The two seeded parties are not one and the same.
pub proof fn law_seeded_parties_are_distinct()
    ensures
        WALKIN_PARTY_ID@ != ANON_SUPPLIER_PARTY_ID@,
{
    reveal_strlit("party_walkin");
    reveal_strlit("party_anon_supplier");
    assert(WALKIN_PARTY_ID@.len() != ANON_SUPPLIER_PARTY_ID@.len());
}

/// A store and a clock after an append was tried, and what came of it.
#[verifier::ext_equal]
pub struct Seeding {
    pub result: Result<(), DbError<Seq<char>>>,
    pub store: Store,
    pub clock: Hlc<Seq<char>>,
}

/// Tries to append an event that the system authors.
pub open spec fn seed(
    s: Store,
    clock: Hlc<Seq<char>>,
    now: u64,
    device: Seq<char>,
    event_type: Seq<char>,
    payload: JsonV,
) -> Seeding {
    let next = append_clock(s.events, clock, now, device);
    match append_outcome(s.events, clock, now, device, SYSTEM_USER_ID@, event_type, payload) {
        Ok(ev) => Seeding {
            result: Ok(()),
            store: Store { events: s.events.push(ev), ..s },
            clock: next,
        },
        Err(e) => Seeding { result: Err(e), store: s, clock: next },
    }
}

fn seed_event(
    db: &mut Database,
    hlc: &mut Hlc,
    physical_now: u64,
    device_id: &str,
    event_type: &str,
    payload: &Json,
) -> (r: Result<(), DbError>)
    ensures
        seeded(r, final(db)@, final(hlc)@) == seed(
            old(db)@,
            old(hlc)@,
            physical_now,
            device_id@,
            event_type@,
            payload@,
        ),
{
    match append_event(
        db,
        hlc,
        physical_now,
        device_id,
        SYSTEM_USER_ID,
        event_type,
        payload,
    ) {
        Ok(_) => Ok(()),
        Err(e) => Err(e),
    }
}

/// The seeding that a result, a store and a clock stand for.
pub open spec fn seeded(r: Result<(), DbError>, s: Store, clock: Hlc<Seq<char>>) -> Seeding {
    Seeding {
        result: match r {
            Ok(_) => Ok(()),
            Err(e) => Err(e@),
        },
        store: s,
        clock,
    }
}

/// The payload that opens a seeded account.
pub open spec fn account_payload(
    a: (&'static str, &'static str, &'static str, &'static str),
) -> JsonV {
    JsonV::Object(
        Map::empty().insert("accountId"@, JsonV::Str("acct_"@ + a.0@)).insert(
            "name"@,
            JsonV::Str(a.1@),
        ).insert("type"@, JsonV::Str(a.2@)).insert("normal"@, JsonV::Str(a.3@)).insert(
            "system_role"@,
            JsonV::Str(a.0@),
        ),
    )
}

/// Opens the seeded accounts from account `i` on, up to the first failure.
pub open spec fn seed_accounts_from(
    s: Store,
    clock: Hlc<Seq<char>>,
    now: u64,
    device: Seq<char>,
    i: int,
) -> Seeding
    decreases SEEDED_ACCOUNTS@.len() - i,
{
    if i >= SEEDED_ACCOUNTS@.len() {
        Seeding { result: Ok(()), store: s, clock }
    } else {
        let x = seed(
            s,
            clock,
            now,
            device,
            "AccountOpened"@,
            account_payload(SEEDED_ACCOUNTS@[i]),
        );
        if x.result is Ok {
            seed_accounts_from(x.store, x.clock, now, device, i + 1)
        } else {
            x
        }
    }
}

/// The payload that registers the owner.
pub open spec fn owner_payload(id: Seq<char>, name: Seq<char>) -> JsonV {
    JsonV::Object(
        Map::empty().insert("userId"@, JsonV::Str(id)).insert("name"@, JsonV::Str(name)),
    )
}

/// What the first run writes: the owner and then the chart of accounts, on an empty
/// log only.
pub open spec fn genesis(
    s: Store,
    clock: Hlc<Seq<char>>,
    now: u64,
    device: Seq<char>,
    owner_id: Seq<char>,
    owner_name: Seq<char>,
) -> Seeding {
    if s.events.len() > 0 {
        Seeding {
            result: Err(DbError::Refused("run_genesis called on a non-empty event log"@)),
            store: s,
            clock,
        }
    } else {
        let x = seed(
            s,
            clock,
            now,
            device,
            "UserRegistered"@,
            owner_payload(owner_id, owner_name),
        );
        if x.result is Ok {
            seed_accounts_from(x.store, x.clock, now, device, 0)
        } else {
            x
        }
    }
}

/// Emit the first-run genesis event sequence.
pub fn run_genesis(
    db: &mut Database,
    hlc: &mut Hlc,
    physical_now: u64,
    device_id: &str,
    owner_user_id: &str,
    owner_name: &str,
) -> (r: Result<(), DbError>)
    ensures
        seeded(r, final(db)@, final(hlc)@) == genesis(
            old(db)@,
            old(hlc)@,
            physical_now,
            device_id@,
            owner_user_id@,
            owner_name@,
        ),
{
    if db.events.len() > 0 {
        assert(db@.events.len() > 0);
        return Err(
            DbError::Refused("run_genesis called on a non-empty event log".to_owned()),
        );
    }
    let owner = Fields::new().text("userId", owner_user_id).text("name", owner_name).done();
    seed_event(db, hlc, physical_now, device_id, "UserRegistered", &owner)?;
    let accounts = SEEDED_ACCOUNTS;
    let ghost goal = genesis(
        old(db)@,
        old(hlc)@,
        physical_now,
        device_id@,
        owner_user_id@,
        owner_name@,
    );
    let mut i: usize = 0;
    while i < accounts.len()
        invariant
            i <= accounts@.len(),
            accounts@ == SEEDED_ACCOUNTS@,
            goal == genesis(
                old(db)@,
                old(hlc)@,
                physical_now,
                device_id@,
                owner_user_id@,
                owner_name@,
            ),
            seed_accounts_from(db@, hlc@, physical_now, device_id@, i as int) == goal,
        decreases accounts@.len() - i,
    {
        let (role, name, kind, normal) = accounts[i];
        assert(accounts@[i as int] == (role, name, kind, normal));
        let account_id = "acct_".to_owned().concat(role);
        let payload = Fields::new().text("accountId", account_id.as_str()).text(
            "name",
            name,
        ).text("type", kind).text("normal", normal).text("system_role", role).done();
        seed_event(db, hlc, physical_now, device_id, "AccountOpened", &payload)?;
        i += 1;
    }
    Ok(())
}

/// The payload that creates a seeded party; it states `active` explicitly.
pub open spec fn party_payload(id: Seq<char>, name: Seq<char>, kind: Seq<char>) -> JsonV {
    JsonV::Object(
        Map::empty().insert("partyId"@, JsonV::Str(id)).insert("name"@, JsonV::Str(name)).insert(
            "kind"@,
            JsonV::Str(kind),
        ).insert("active"@, JsonV::Bool(true)),
    )
}

/// Creates a party unless the log created it before.
pub open spec fn seed_party(
    s: Store,
    clock: Hlc<Seq<char>>,
    now: u64,
    device: Seq<char>,
    id: Seq<char>,
    name: Seq<char>,
    kind: Seq<char>,
) -> Seeding {
    if mentioned(s.events, "PartyCreated"@, "partyId"@, id) {
        Seeding { result: Ok(()), store: s, clock }
    } else {
        seed(s, clock, now, device, "PartyCreated"@, party_payload(id, name, kind))
    }
}

fn ensure_party(
    db: &mut Database,
    hlc: &mut Hlc,
    physical_now: u64,
    device_id: &str,
    id: &str,
    name: &str,
    kind: &str,
) -> (r: Result<(), DbError>)
    ensures
        seeded(r, final(db)@, final(hlc)@) == seed_party(
            old(db)@,
            old(hlc)@,
            physical_now,
            device_id@,
            id@,
            name@,
            kind@,
        ),
{
    if is_mentioned(&db.events, "PartyCreated", "partyId", id) {
        return Ok(());
    }
    let payload = Fields::new().text("partyId", id).text("name", name).text("kind", kind).json(
        "active",
        Json::Bool(true),
    ).done();
    seed_event(db, hlc, physical_now, device_id, "PartyCreated", &payload)
}

/// Idempotently ensure the walk-in customer party exists.
///
/// Safe to call on every startup: it checks the immutable event log (not the
/// `parties` projection, which is empty until `rebuild()` runs) and only
/// appends a `PartyCreated` event when none exists yet.
pub fn ensure_walkin_party(
    db: &mut Database,
    hlc: &mut Hlc,
    physical_now: u64,
    device_id: &str,
) -> (r: Result<(), DbError>)
    ensures
        seeded(r, final(db)@, final(hlc)@) == seed_party(
            old(db)@,
            old(hlc)@,
            physical_now,
            device_id@,
            WALKIN_PARTY_ID@,
            "Walk-in Customer"@,
            "customer"@,
        ),
{
    ensure_party(
        db,
        hlc,
        physical_now,
        device_id,
        WALKIN_PARTY_ID,
        "Walk-in Customer",
        "customer",
    )
}

/// Idempotently ensure the anonymous cash supplier exists.
///
/// The mirror of [`ensure_walkin_party`], and safe on every startup for the
/// same reason.
pub fn ensure_anon_supplier(
    db: &mut Database,
    hlc: &mut Hlc,
    physical_now: u64,
    device_id: &str,
) -> (r: Result<(), DbError>)
    ensures
        seeded(r, final(db)@, final(hlc)@) == seed_party(
            old(db)@,
            old(hlc)@,
            physical_now,
            device_id@,
            ANON_SUPPLIER_PARTY_ID@,
            "Cash Supplier"@,
            "supplier"@,
        ),
{
    ensure_party(
        db,
        hlc,
        physical_now,
        device_id,
        ANON_SUPPLIER_PARTY_ID,
        "Cash Supplier",
        "supplier",
    )
}

/// Once a seeded party was created, seeding it again changes nothing.
pub proof fn law_seeding_is_idempotent(
    s: Store,
    clock: Hlc<Seq<char>>,
    now: u64,
    device: Seq<char>,
    id: Seq<char>,
    name: Seq<char>,
    kind: Seq<char>,
    later: u64,
    other_device: Seq<char>,
)
    requires
        seed_party(s, clock, now, device, id, name, kind).result is Ok,
    ensures
        ({
            let x = seed_party(s, clock, now, device, id, name, kind);
            seed_party(x.store, x.clock, later, other_device, id, name, kind) == x
        }),
{
    let x = seed_party(s, clock, now, device, id, name, kind);
    if !mentioned(s.events, "PartyCreated"@, "partyId"@, id) {
        let ev = x.store.events[s.events.len() as int];
        lemma_party_payload_names(id, name, kind);
        assert(ev.event_type == "PartyCreated"@);
        assert(crate::json::opt_txt(ev.payload, "partyId"@) == Some(id));
    }
}

proof fn lemma_party_payload_names(id: Seq<char>, name: Seq<char>, kind: Seq<char>)
    ensures
        crate::json::opt_txt(party_payload(id, name, kind), "partyId"@) == Some(id),
{
    reveal_strlit("partyId");
    reveal_strlit("name");
    reveal_strlit("kind");
    reveal_strlit("active");
    assert("partyId"@.len() == 7);
    assert("name"@.len() == 4);
    assert("kind"@.len() == 4);
    assert("active"@.len() == 6);
}

/// A first run that succeeds leaves the owner's registration and then one opening per
/// seeded account, all authored by the system; a second run is refused and changes
/// nothing.
pub proof fn law_genesis_seeds_an_empty_log_once(
    s: Store,
    clock: Hlc<Seq<char>>,
    now: u64,
    device: Seq<char>,
    owner_id: Seq<char>,
    owner_name: Seq<char>,
    later: u64,
)
    requires
        genesis(s, clock, now, device, owner_id, owner_name).result is Ok,
    ensures
        ({
            let x = genesis(s, clock, now, device, owner_id, owner_name);
            &&& s.events.len() == 0
            &&& x.store.events.len() == 1 + SEEDED_ACCOUNTS@.len()
            &&& x.store.events[0].event_type == "UserRegistered"@
            &&& x.store.events[0].payload == owner_payload(owner_id, owner_name)
            &&& forall|i: int|
                0 <= i < x.store.events.len() ==> (#[trigger] x.store.events[i]).user_id
                    == SYSTEM_USER_ID@
            &&& forall|i: int|
                0 <= i < SEEDED_ACCOUNTS@.len() ==> (#[trigger] x.store.events[i + 1]).event_type
                    == "AccountOpened"@ && x.store.events[i + 1].payload == account_payload(
                    SEEDED_ACCOUNTS@[i],
                )
            &&& genesis(x.store, x.clock, later, device, owner_id, owner_name).result is Err
            &&& genesis(x.store, x.clock, later, device, owner_id, owner_name).store == x.store
        }),
{
    let first = seed(s, clock, now, device, "UserRegistered"@, owner_payload(owner_id, owner_name));
    lemma_seed_accounts(first.store, first.clock, now, device, 0);
    let x = genesis(s, clock, now, device, owner_id, owner_name);
    assert forall|i: int| 0 <= i < SEEDED_ACCOUNTS@.len() implies (#[trigger] x.store.events[i
        + 1]).event_type == "AccountOpened"@ && x.store.events[i + 1].payload == account_payload(
        SEEDED_ACCOUNTS@[i],
    ) by {
        assert(x.store.events[first.store.events.len() + (i - 0)].event_type == "AccountOpened"@);
    }
}

/// What opening the accounts from account `i` on adds to the log.
proof fn lemma_seed_accounts(s: Store, clock: Hlc<Seq<char>>, now: u64, device: Seq<char>, i: int)
    requires
        0 <= i <= SEEDED_ACCOUNTS@.len(),
        seed_accounts_from(s, clock, now, device, i).result is Ok,
    ensures
        ({
            let x = seed_accounts_from(s, clock, now, device, i);
            &&& x.store.events.len() == s.events.len() + SEEDED_ACCOUNTS@.len() - i
            &&& forall|k: int|
                0 <= k < s.events.len() ==> #[trigger] x.store.events[k] == s.events[k]
            &&& forall|k: int|
                s.events.len() <= k < x.store.events.len() ==> (#[trigger] x.store.events[k]).user_id
                    == SYSTEM_USER_ID@ && x.store.events[k].event_type == "AccountOpened"@
                    && x.store.events[k].payload == account_payload(
                    SEEDED_ACCOUNTS@[k - s.events.len() + i],
                )
        }),
    decreases SEEDED_ACCOUNTS@.len() - i,
{
    if i < SEEDED_ACCOUNTS@.len() {
        let y = seed(
            s,
            clock,
            now,
            device,
            "AccountOpened"@,
            account_payload(SEEDED_ACCOUNTS@[i]),
        );
        lemma_seed_accounts(y.store, y.clock, now, device, i + 1);
        let x = seed_accounts_from(s, clock, now, device, i);
        assert forall|k: int| 0 <= k < s.events.len() implies #[trigger] x.store.events[k]
            == s.events[k] by {
            assert(x.store.events[k] == y.store.events[k]);
        }
        assert forall|k: int| s.events.len() <= k < x.store.events.len() implies (
        #[trigger] x.store.events[k]).user_id == SYSTEM_USER_ID@ && x.store.events[k].event_type
            == "AccountOpened"@ && x.store.events[k].payload == account_payload(
            SEEDED_ACCOUNTS@[k - s.events.len() + i],
        ) by {
            if k == s.events.len() {
                assert(x.store.events[k] == y.store.events[k]);
            }
        }
    }
}

} // verus!
