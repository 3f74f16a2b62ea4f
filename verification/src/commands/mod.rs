//! Commands: requests that are validated and then committed as one event.

use crate::db::{Database, Store};
use crate::error::{db_message, DbError};
use crate::events::{append_clock, append_event, append_outcome, EventV, LedgerEvent};
use crate::hlc::Hlc;
use crate::json::{Json, JsonV};
use crate::projectors::{applied, apply_event};
use crate::rows::rows;
use vstd::prelude::*;
use vstd::string::*;

pub mod categories;
pub mod guards;
pub mod setup;
pub mod purchase;
pub mod sale;
pub mod payment;
pub mod movement;
pub mod reversal;

verus! {

/// What a command works on.
pub struct CommandContext<'a> {
    pub conn: &'a mut Database,
    pub hlc: &'a mut Hlc,
    pub physical_now: u64,
    pub device_id: String,
    pub user_id: String,
}

/// Why a command was refused.
#[derive(Debug, PartialEq)]
#[verifier::ext_equal]
pub enum CommandError<S = String> {
    Validation(S),
    Db(DbError<S>),
}

/// The mathematical value of a refusal.
pub type Refusal = CommandError<Seq<char>>;

impl View for CommandError {
    type V = CommandError<Seq<char>>;

    open spec fn view(&self) -> CommandError<Seq<char>> {
        match self {
            CommandError::Validation(m) => CommandError::Validation(m@),
            CommandError::Db(e) => CommandError::Db(e@),
        }
    }
}

impl CommandError {
    /// The text of the refusal.
    pub fn message(&self) -> (r: String)
        ensures
            r@ == match self@ {
                CommandError::Validation(m) => "validation error: "@ + m,
                CommandError::Db(e) => "db error: "@ + db_message(e),
            },
    {
        match self {
            CommandError::Validation(m) => "validation error: ".to_owned().concat(m.as_str()),
            CommandError::Db(e) => "db error: ".to_owned().concat(e.message().as_str()),
        }
    }
}

/// A refusal on the grounds given.
pub open spec fn refusal(msg: Seq<char>) -> Refusal {
    CommandError::Validation(msg)
}

/// Refuses with a message.
pub fn reject(msg: String) -> (r: CommandError)
    ensures
        r@ == refusal(msg@),
{
    CommandError::Validation(msg)
}

/// A number that left its range.
pub open spec fn overflow() -> Refusal {
    CommandError::Db(DbError::Overflow)
}

/// A result by its value.
pub open spec fn judged(r: Result<(), CommandError>) -> Result<(), Refusal> {
    match r {
        Ok(_) => Ok(()),
        Err(e) => Err(e@),
    }
}

/// The payload of a request, or why it is refused, by its value.
pub open spec fn payload_of(r: Result<Json, CommandError>) -> Result<JsonV, Refusal> {
    match r {
        Ok(j) => Ok(j@),
        Err(e) => Err(e@),
    }
}

/// The mathematical value of a context.
#[verifier::ext_equal]
pub struct Scene {
    pub store: Store,
    pub clock: Hlc<Seq<char>>,
    pub now: u64,
    pub device: Seq<char>,
    pub user: Seq<char>,
}

/// The mathematical value of a context.
pub open spec fn scene(c: &CommandContext) -> Scene {
    Scene {
        store: c.conn@,
        clock: c.hlc@,
        now: c.physical_now,
        device: c.device_id@,
        user: c.user_id@,
    }
}

/// What committing an event gives: the event and the store that holds it with its
/// effects, or why neither the log nor the read model took it.
pub open spec fn commit_outcome(s: Scene, event_type: Seq<char>, payload: JsonV) -> Result<
    (EventV, Store),
    Refusal,
> {
    match append_outcome(s.store.events, s.clock, s.now, s.device, s.user, event_type, payload) {
        Err(e) => Err(CommandError::Db(e)),
        Ok(ev) => match applied(Store { events: s.store.events.push(ev), ..s.store }, ev) {
            Err(e) => Err(CommandError::Db(e)),
            Ok(store) => Ok((ev, store)),
        },
    }
}

/// What holds after a request was carried out: one that is refused changes nothing;
/// one that is granted is committed as an event of the given type, or fails and
/// changes nothing but the clock.
pub open spec fn carried_out(
    old: Scene,
    new: Scene,
    r: Result<LedgerEvent, CommandError>,
    event_type: Seq<char>,
    request: Result<JsonV, Refusal>,
) -> bool {
    match request {
        Err(e) => r matches Err(x) && x@ == e && new == old,
        Ok(payload) => {
            &&& new.clock == append_clock(old.store.events, old.clock, old.now, old.device)
            &&& match commit_outcome(old, event_type, payload) {
                Ok((ev, store)) => r matches Ok(x) && x@ == ev && new.store == store,
                Err(e) => r matches Err(x) && x@ == e && new.store == old.store,
            }
            &&& new.now == old.now
            &&& new.device == old.device
            &&& new.user == old.user
        },
    }
}

/// Appends an event and projects it, both or neither.
pub fn commit_event(ctx: &mut CommandContext, event_type: &str, payload: Json) -> (r: Result<
    LedgerEvent,
    CommandError,
>)
    ensures
        carried_out(
            scene(old(ctx)),
            scene(final(ctx)),
            r,
            event_type@,
            Ok::<JsonV, Refusal>(payload@),
        ),
        *final(final(ctx).conn) == *final(old(ctx).conn),
        *final(final(ctx).hlc) == *final(old(ctx).hlc),
{
    let ev = match append_event(
        ctx.conn,
        ctx.hlc,
        ctx.physical_now,
        ctx.device_id.as_str(),
        ctx.user_id.as_str(),
        event_type,
        &payload,
    ) {
        Ok(ev) => ev,
        Err(e) => {
            return Err(CommandError::Db(e));
        },
    };
    match apply_event(ctx.conn, &ev) {
        Ok(_) => Ok(ev),
        Err(e) => {
            let ghost grown = ctx.conn.events@;
            let _ = ctx.conn.events.pop();
            assert(rows(ctx.conn.events@) =~= rows(grown).drop_last());
            assert(ctx.conn@.events =~= old(ctx).conn@.events);
            Err(CommandError::Db(e))
        },
    }
}

} // verus!
