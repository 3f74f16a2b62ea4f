//! What a front end asks for.

use crate::archive::{archive_message, ArchiveError};
use crate::archive::import::{find_imbalance, first_error, first_failure};
use crate::commands::{carried_out, scene, CommandContext, CommandError, Refusal};
use crate::commands::payment::{handle_payment_received, payment_request, AllocInput};
use crate::commands::purchase::{handle_purchase_recorded, purchase_request, PurchaseLineInput};
use crate::commands::sale::{handle_sale_recorded, sale_request, SaleLineInput};
use crate::commands::setup::{
    handle_item_defined, handle_party_created, item_request, party_request,
};
use crate::dates::{find_half_year_before, half_year_before, steady};
use crate::db::{Database, Store};
use crate::error::{db_message, DbError};
use crate::events::{latest_stamp, rehydrate_from_log, EventV, LedgerEvent};
use crate::genesis::{
    ensure_anon_supplier, ensure_walkin_party, genesis, run_genesis, seed_party, seeded,
    ANON_SUPPLIER_PARTY_ID, Seeding, WALKIN_PARTY_ID,
};
use crate::groups::grouped;
use crate::hlc::{can_observe, decoded, observed, Hlc};
use crate::model::{Fault, Text};
use crate::projectors::{rebuild, rebuilt};
use crate::queries::profit::{
    gross_profit_outcome, gross_profit_since, net_profit_outcome, net_profit_since,
};
use crate::queries::stock::{held_key, stock_on_hand, stocked_items, units_on_hand};
use crate::reconciliation::{findings, stock_value, value_of_stock};
use crate::rows::{lend, opt_str, rows};
use crate::settings::{adopted, ensure_device_id, DEVICE_ID};
use crate::sort::{sort, sorted};
use crate::sums::{accrue, total};
use crate::tables::{Balance, ReadModel, Tables};
use vstd::prelude::*;
use vstd::string::*;

verus! {

/// A refusal as it is shown.
#[derive(Debug, PartialEq, Eq)]
pub struct AppError {
    pub message: String,
}

/// The text that a refused command is shown with.
pub open spec fn command_message(e: Refusal) -> Text {
    match e {
        CommandError::Validation(m) => "validation error: "@ + m,
        CommandError::Db(e) => "db error: "@ + db_message(e),
    }
}

impl AppError {
    /// Shows a refused command.
    pub fn of_command(e: &CommandError) -> (r: AppError)
        ensures
            r.message@ == command_message(e@),
    {
        AppError { message: e.message() }
    }

    /// Shows a failure of the store.
    pub fn of_store(e: &DbError) -> (r: AppError)
        ensures
            r.message@ == "database error: "@ + db_message(e@),
    {
        AppError { message: "database error: ".to_owned().concat(e.message().as_str()) }
    }

    /// Shows an archive that was not read or written.
    pub fn of_archive(e: &ArchiveError) -> (r: AppError)
        ensures
            r.message@ == archive_message(e@),
    {
        AppError { message: e.message() }
    }
}

/// The reply to a command: nothing, or why it was refused.
pub open spec fn replied(r: Result<(), AppError>, x: Result<LedgerEvent, CommandError>) -> bool {
    match x {
        Ok(_) => r is Ok,
        Err(e) => r matches Err(a) && a.message@ == command_message(e@),
    }
}

fn reply(x: Result<LedgerEvent, CommandError>) -> (r: Result<(), AppError>)
    ensures
        replied(r, x),
{
    match x {
        Ok(_) => Ok(()),
        Err(e) => Err(AppError::of_command(&e)),
    }
}

// ---- commands ----

/// An item to define.
#[derive(Debug)]
pub struct ItemInput {
    pub id: String,
    pub sku: String,
    pub name: String,
    pub unit: String,
}

/// Defines an item.
pub fn create_item(ctx: &mut CommandContext, input: &ItemInput) -> (r: Result<(), AppError>)
    ensures
        exists|x: Result<LedgerEvent, CommandError>|
            replied(r, x) && #[trigger] carried_out(
                scene(old(ctx)),
                scene(final(ctx)),
                x,
                "ItemDefined"@,
                item_request(
                    old(ctx).conn@.model,
                    input.id@,
                    input.sku@,
                    input.name@,
                    input.unit@,
                ),
            ),
        *final(final(ctx).conn) == *final(old(ctx).conn),
        *final(final(ctx).hlc) == *final(old(ctx).hlc),
{
    reply(
        handle_item_defined(
            ctx,
            input.id.as_str(),
            input.sku.as_str(),
            input.name.as_str(),
            input.unit.as_str(),
        ),
    )
}

/// A party to create.
#[derive(Debug)]
pub struct PartyInput {
    pub id: String,
    pub name: String,
    pub kind: String,
}

/// Creates a party.
pub fn create_party(ctx: &mut CommandContext, input: &PartyInput) -> (r: Result<(), AppError>)
    ensures
        exists|x: Result<LedgerEvent, CommandError>|
            replied(r, x) && #[trigger] carried_out(
                scene(old(ctx)),
                scene(final(ctx)),
                x,
                "PartyCreated"@,
                party_request(old(ctx).conn@.model, input.id@, input.name@, input.kind@),
            ),
        *final(final(ctx).conn) == *final(old(ctx).conn),
        *final(final(ctx).hlc) == *final(old(ctx).hlc),
{
    reply(
        handle_party_created(ctx, input.id.as_str(), input.name.as_str(), input.kind.as_str()),
    )
}

/// A line of a purchase to record.
#[derive(Debug)]
pub struct PurchaseLineDto {
    pub item_id: String,
    pub qty: i64,
    pub unit_cost_minor: i64,
}

/// A purchase to record.
#[derive(Debug)]
pub struct PurchaseInput {
    pub id: String,
    pub supplier_id: String,
    pub date: String,
    pub terms: String,
    pub lines: Vec<PurchaseLineDto>,
}

/// The lines of a purchase.
pub open spec fn bought(v: Seq<PurchaseLineDto>) -> Seq<PurchaseLineInput<Text>> {
    Seq::new(
        v.len(),
        |i: int|
            PurchaseLineInput {
                item_id: v[i].item_id@,
                qty: v[i].qty,
                unit_cost_minor: v[i].unit_cost_minor,
            },
    )
}

/// Records a purchase.
pub fn record_purchase(ctx: &mut CommandContext, input: &PurchaseInput) -> (r: Result<(), AppError>)
    ensures
        exists|x: Result<LedgerEvent, CommandError>|
            replied(r, x) && #[trigger] carried_out(
                scene(old(ctx)),
                scene(final(ctx)),
                x,
                "PurchaseRecorded"@,
                purchase_request(
                    old(ctx).conn@.model,
                    input.id@,
                    input.supplier_id@,
                    input.date@,
                    input.terms@,
                    bought(input.lines@),
                ),
            ),
        *final(final(ctx).conn) == *final(old(ctx).conn),
        *final(final(ctx).hlc) == *final(old(ctx).hlc),
{
    let mut lines: Vec<PurchaseLineInput> = Vec::new();
    let mut i: usize = 0;
    while i < input.lines.len()
        invariant
            i <= input.lines@.len(),
            lines@.len() == i,
            forall|k: int| 0 <= k < i ==> (#[trigger] lines@[k])@ == bought(input.lines@)[k],
        decreases input.lines@.len() - i,
    {
        let l = &input.lines[i];
        lines.push(
            PurchaseLineInput {
                item_id: l.item_id.clone(),
                qty: l.qty,
                unit_cost_minor: l.unit_cost_minor,
            },
        );
        i += 1;
    }
    assert(rows(lines@) =~= bought(input.lines@));
    reply(
        handle_purchase_recorded(
            ctx,
            input.id.as_str(),
            input.supplier_id.as_str(),
            input.date.as_str(),
            input.terms.as_str(),
            lines,
        ),
    )
}

/// A line of a sale to record.
#[derive(Debug)]
pub struct SaleLineDto {
    pub item_id: String,
    pub qty: i64,
    pub unit_price_minor: i64,
}

/// A sale to record.
#[derive(Debug)]
pub struct SaleInput {
    pub id: String,
    pub customer_id: String,
    pub date: String,
    pub terms: String,
    pub lines: Vec<SaleLineDto>,
}

/// The lines of a sale; the lots are left to be picked.
pub open spec fn sold(v: Seq<SaleLineDto>) -> Seq<SaleLineInput<Text, Seq<(Text, i64)>>> {
    Seq::new(
        v.len(),
        |i: int|
            SaleLineInput {
                item_id: v[i].item_id@,
                qty: v[i].qty,
                unit_price_minor: v[i].unit_price_minor,
                lot_picks: None,
            },
    )
}

/// Records a sale from the oldest stock.
pub fn record_sale(ctx: &mut CommandContext, input: &SaleInput) -> (r: Result<(), AppError>)
    ensures
        exists|x: Result<LedgerEvent, CommandError>|
            replied(r, x) && #[trigger] carried_out(
                scene(old(ctx)),
                scene(final(ctx)),
                x,
                "SaleRecorded"@,
                sale_request(
                    old(ctx).conn@.model,
                    input.id@,
                    input.customer_id@,
                    input.date@,
                    input.terms@,
                    sold(input.lines@),
                ),
            ),
        *final(final(ctx).conn) == *final(old(ctx).conn),
        *final(final(ctx).hlc) == *final(old(ctx).hlc),
{
    let mut lines: Vec<SaleLineInput> = Vec::new();
    let mut i: usize = 0;
    while i < input.lines.len()
        invariant
            i <= input.lines@.len(),
            lines@.len() == i,
            forall|k: int| 0 <= k < i ==> (#[trigger] lines@[k])@ == sold(input.lines@)[k],
        decreases input.lines@.len() - i,
    {
        let l = &input.lines[i];
        lines.push(
            SaleLineInput {
                item_id: l.item_id.clone(),
                qty: l.qty,
                unit_price_minor: l.unit_price_minor,
                lot_picks: None,
            },
        );
        i += 1;
    }
    assert(rows(lines@) =~= sold(input.lines@));
    reply(
        handle_sale_recorded(
            ctx,
            input.id.as_str(),
            input.customer_id.as_str(),
            input.date.as_str(),
            input.terms.as_str(),
            lines,
        ),
    )
}

/// What part of a payment settles which document.
#[derive(Debug)]
pub struct AllocationDto {
    pub target_id: String,
    pub target_type: String,
    pub amount_minor: i64,
}

/// A payment received, to record.
#[derive(Debug)]
pub struct PaymentInput {
    pub id: String,
    pub customer_id: String,
    pub amount_minor: i64,
    pub date: String,
    pub allocations: Vec<AllocationDto>,
}

/// The allocations of a payment.
pub open spec fn settling(v: Seq<AllocationDto>) -> Seq<AllocInput<Text>> {
    Seq::new(
        v.len(),
        |i: int|
            AllocInput {
                target_id: v[i].target_id@,
                target_type: v[i].target_type@,
                amount_minor: v[i].amount_minor,
            },
    )
}

/// Records a payment received.
pub fn record_payment(ctx: &mut CommandContext, input: &PaymentInput) -> (r: Result<(), AppError>)
    ensures
        exists|x: Result<LedgerEvent, CommandError>|
            replied(r, x) && #[trigger] carried_out(
                scene(old(ctx)),
                scene(final(ctx)),
                x,
                "PaymentReceived"@,
                payment_request(
                    old(ctx).conn@.model,
                    true,
                    input.id@,
                    input.customer_id@,
                    input.amount_minor,
                    input.date@,
                    settling(input.allocations@),
                ),
            ),
        *final(final(ctx).conn) == *final(old(ctx).conn),
        *final(final(ctx).hlc) == *final(old(ctx).hlc),
{
    let mut allocations: Vec<AllocInput> = Vec::new();
    let mut i: usize = 0;
    while i < input.allocations.len()
        invariant
            i <= input.allocations@.len(),
            allocations@.len() == i,
            forall|k: int|
                0 <= k < i ==> (#[trigger] allocations@[k])@ == settling(input.allocations@)[k],
        decreases input.allocations@.len() - i,
    {
        let a = &input.allocations[i];
        allocations.push(
            AllocInput {
                target_id: a.target_id.clone(),
                target_type: a.target_type.clone(),
                amount_minor: a.amount_minor,
            },
        );
        i += 1;
    }
    assert(rows(allocations@) =~= settling(input.allocations@));
    reply(
        handle_payment_received(
            ctx,
            input.id.as_str(),
            input.customer_id.as_str(),
            input.amount_minor,
            input.date.as_str(),
            allocations,
        ),
    )
}

// ---- questions ----

/// The state of the business at a glance.
#[derive(Debug, Clone, Copy, PartialEq, Eq, Structural)]
pub struct DashboardData {
    pub inventory_value: i64,
    pub total_receivable: i64,
    pub total_payable: i64,
    pub checks_passing: bool,
}

/// What all parties owe.
pub open spec fn all_receivable(m: ReadModel) -> Option<i64> {
    total(sorted(m.balances), |b: Balance<Text>| b.receivable_minor as int)
}

/// What all parties are owed.
pub open spec fn all_payable(m: ReadModel) -> Option<i64> {
    total(sorted(m.balances), |b: Balance<Text>| b.payable_minor as int)
}

/// The state of the business at a glance, or what went wrong first.
pub open spec fn dashboard(m: ReadModel) -> Result<DashboardData, Fault> {
    match (stock_value(m), all_receivable(m), all_payable(m)) {
        (Some(v), Some(r), Some(p)) => match first_error(findings(m), 0) {
            Some(e) => Err(e),
            None => Ok(
                DashboardData {
                    inventory_value: v,
                    total_receivable: r,
                    total_payable: p,
                    checks_passing: first_failure(findings(m), 0) is None,
                },
            ),
        },
        _ => Err(DbError::Overflow),
    }
}

/// The state of the business at a glance.
pub fn get_dashboard(t: &Tables) -> (r: Result<DashboardData, AppError>)
    ensures
        match dashboard(t@) {
            Ok(d) => r == Ok::<DashboardData, AppError>(d),
            Err(e) => r matches Err(a) && a.message@ == "database error: "@ + db_message(e),
        },
{
    let inventory_value: i64 = match value_of_stock(t) {
        Some(v) => v,
        None => {
            return Err(AppError::of_store(&DbError::Overflow));
        },
    };
    let balances = sort(&t.balances);
    let ghost s = rows(balances@);
    let ghost f = |b: Balance<Text>| b.receivable_minor as int;
    let ghost g = |b: Balance<Text>| b.payable_minor as int;
    let mut owed: Option<i64> = Some(0);
    let mut due: Option<i64> = Some(0);
    let mut i: usize = 0;
    while i < balances.len()
        invariant
            i <= balances@.len(),
            s == rows(balances@),
            f == (|b: Balance<Text>| b.receivable_minor as int),
            g == (|b: Balance<Text>| b.payable_minor as int),
            owed == total(s.take(i as int), f),
            due == total(s.take(i as int), g),
        decreases balances@.len() - i,
    {
        assert(s.take(i + 1).drop_last() =~= s.take(i as int));
        assert(s.take(i + 1).last() == balances@[i as int]@);
        owed = accrue(owed, balances[i].receivable_minor as i128);
        due = accrue(due, balances[i].payable_minor as i128);
        i += 1;
    }
    assert(s.take(s.len() as int) =~= s);
    match (owed, due) {
        (Some(total_receivable), Some(total_payable)) => match find_imbalance(t) {
            Err(e) => Err(AppError::of_store(&e)),
            Ok(failure) => Ok(
                DashboardData {
                    inventory_value,
                    total_receivable,
                    total_payable,
                    checks_passing: failure.is_none(),
                },
            ),
        },
        _ => Err(AppError::of_store(&DbError::Overflow)),
    }
}

/// Units of an item on hand.
#[derive(Debug, PartialEq, Eq)]
pub struct StockRow {
    pub item_id: String,
    pub qty: i64,
}

/// The items of a report.
pub open spec fn row_items(v: Seq<StockRow>) -> Seq<Text> {
    Seq::new(v.len(), |i: int| v[i].item_id@)
}

/// Units on hand of every item that has some, by item.
pub fn get_stock(t: &Tables) -> (r: Result<Vec<StockRow>, AppError>)
    ensures
        match r {
            Ok(v) => grouped(row_items(v@), t@.lots, held_key()) && forall|i: int|
                0 <= i < v@.len() ==> units_on_hand(t@, (#[trigger] v@[i]).item_id@) == Some(
                    v@[i].qty,
                ),
            Err(e) => e.message@ == "database error: "@ + db_message(DbError::Overflow) && exists|
                x: Text,
            | #[trigger] units_on_hand(t@, x) is None,
        },
{
    let stock = match stock_on_hand(t) {
        Ok(v) => v,
        Err(e) => {
            return Err(AppError::of_store(&e));
        },
    };
    let mut out: Vec<StockRow> = Vec::new();
    let mut i: usize = 0;
    while i < stock.len()
        invariant
            i <= stock@.len(),
            out@.len() == i,
            forall|k: int|
                0 <= k < i ==> (#[trigger] out@[k]).item_id@ == stock@[k].item_id@ && out@[k].qty
                    == stock@[k].qty,
        decreases stock@.len() - i,
    {
        out.push(StockRow { item_id: stock[i].item_id.clone(), qty: stock[i].qty });
        i += 1;
    }
    assert(row_items(out@) =~= stocked_items(stock@));
    assert forall|i: int| 0 <= i < out@.len() implies units_on_hand(
        t@,
        (#[trigger] out@[i]).item_id@,
    ) == Some(out@[i].qty) by {
        assert(units_on_hand(t@, stock@[i].item_id@) == Some(stock@[i].qty));
    }
    Ok(out)
}

/// Profit over six months.
#[derive(Debug, Clone, Copy, PartialEq, Eq, Structural)]
pub struct ProfitData {
    pub revenue_minor: i64,
    pub cogs_minor: i64,
    pub gross_profit_minor: i64,
    pub net_profit_minor: i64,
}

/// Profit from a limit on.
pub open spec fn profit_outcome(m: ReadModel, limit: Option<Text>) -> Result<ProfitData, Fault> {
    match gross_profit_outcome(m, limit) {
        Err(e) => Err(e),
        Ok(g) => match net_profit_outcome(m, limit) {
            Err(e) => Err(e),
            Ok(n) => Ok(
                ProfitData {
                    revenue_minor: g.revenue_minor,
                    cogs_minor: g.cogs_minor,
                    gross_profit_minor: g.gross_profit_minor,
                    net_profit_minor: n,
                },
            ),
        },
    }
}

/// Profit from a limit on.
pub fn profit_since(t: &Tables, limit: Option<&str>) -> (r: Result<ProfitData, DbError>)
    ensures
        match r {
            Ok(p) => profit_outcome(t@, opt_str(limit)) == Ok::<ProfitData, Fault>(p),
            Err(e) => profit_outcome(t@, opt_str(limit)) == Err::<ProfitData, Fault>(e@),
        },
{
    let g = gross_profit_since(t, limit)?;
    let net_profit_minor: i64 = net_profit_since(t, limit)?;
    Ok(
        ProfitData {
            revenue_minor: g.revenue_minor,
            cogs_minor: g.cogs_minor,
            gross_profit_minor: g.gross_profit_minor,
            net_profit_minor,
        },
    )
}

/// Profit over the six months up to a date.
pub fn get_profit(t: &Tables, anchor: &str) -> (r: Result<ProfitData, AppError>)
    ensures
        (r matches Err(a) && exists|m: Text| a.message@ == "database error: "@ + m) || exists|
            c: Option<Text>,
        |
            (steady(anchor@) ==> c == half_year_before(anchor@)) && match #[trigger] profit_outcome(
                t@,
                c,
            ) {
                Ok(p) => r == Ok::<ProfitData, AppError>(p),
                Err(e) => r matches Err(a) && a.message@ == "database error: "@ + db_message(e),
            },
{
    let limit = match find_half_year_before(anchor) {
        Ok(c) => c,
        Err(e) => {
            return Err(AppError::of_store(&e));
        },
    };
    match profit_since(t, lend(&limit)) {
        Ok(p) => Ok(p),
        Err(e) => Err(AppError::of_store(&e)),
    }
}

// ---- startup ----

/// The owner that a new ledger is opened for.
pub const OWNER_ID: &'static str = "owner-1";

/// What the owner is called.
pub const OWNER_NAME: &'static str = "Owner";

/// A log once the first run and the shared parties are sure to be in it.
pub open spec fn seed_ledger(
    s: Store,
    clock: Hlc<Text>,
    now: u64,
    device: Text,
) -> Seeding {
    let x = if s.events.len() == 0 {
        genesis(s, clock, now, device, OWNER_ID@, OWNER_NAME@)
    } else {
        Seeding { result: Ok(()), store: s, clock }
    };
    if x.result is Err {
        x
    } else {
        let y = seed_party(
            x.store,
            x.clock,
            now,
            device,
            WALKIN_PARTY_ID@,
            "Walk-in Customer"@,
            "customer"@,
        );
        if y.result is Err {
            y
        } else {
            seed_party(
                y.store,
                y.clock,
                now,
                device,
                ANON_SUPPLIER_PARTY_ID@,
                "Cash Supplier"@,
                "supplier"@,
            )
        }
    }
}

/// Makes sure that the first run and the shared parties are in the log.
pub fn ensure_seeded(db: &mut Database, hlc: &mut Hlc, physical_now: u64, device_id: &str) -> (r:
    Result<(), DbError>)
    ensures
        seeded(r, final(db)@, final(hlc)@) == seed_ledger(
            old(db)@,
            old(hlc)@,
            physical_now,
            device_id@,
        ),
{
    if db.events.len() == 0 {
        assert(db@.events.len() == 0);
        run_genesis(db, hlc, physical_now, device_id, OWNER_ID, OWNER_NAME)?;
    }
    ensure_walkin_party(db, hlc, physical_now, device_id)?;
    ensure_anon_supplier(db, hlc, physical_now, device_id)
}

/// The clock of a device seeded from a log.
pub open spec fn opened_clock(log: Seq<EventV>, device: Text, now: u64) -> Hlc<Text> {
    let fresh = Hlc { device_id: device, last_physical: 0, counter: 0 };
    match latest_stamp(log) {
        None => fresh,
        Some(top) => observed(fresh, decoded(top), now),
    }
}

/// A store with the identity of its install in it.
pub open spec fn identified(s: Store, id: Text) -> Store {
    Store { settings: adopted(s.settings, id), ..s }
}

/// What opening a ledger under an identity puts into its log.
pub open spec fn opening(s: Store, id: Text, now: u64) -> Seeding {
    seed_ledger(identified(s, id), opened_clock(s.events, id, now), now, id)
}

/// The clock has no room to be seeded from a log.
pub open spec fn clock_overflows(log: Seq<EventV>, device: Text, now: u64) -> bool {
    latest_stamp(log) matches Some(top) && !can_observe(
        Hlc { device_id: device, last_physical: 0, counter: 0 },
        decoded(top),
        now,
    )
}

/// Opens a ledger: the identity of the install is read or minted, the clock is seeded
/// from the log, the first run and the shared parties are made sure of, and the read
/// model is rebuilt. Returns the clock.
pub fn open_ledger(db: &mut Database, physical_now: u64) -> (r: Result<Hlc, DbError>)
    ensures
        exists|id: Text|
            ({
                let x = #[trigger] opening(old(db)@, id, physical_now);
                &&& identified(old(db)@, id).settings[DEVICE_ID@] == id
                &&& match r {
                    Ok(hlc) => !clock_overflows(old(db)@.events, id, physical_now) && x.result is Ok
                        && hlc@ == x.clock && rebuilt(x.store) == Ok::<Store, Fault>(final(db)@),
                    Err(e) => if clock_overflows(old(db)@.events, id, physical_now) {
                        e@ == DbError::<Text>::Overflow && final(db)@ == identified(old(db)@, id)
                    } else {
                        final(db)@ == x.store && (x.result == Err::<(), Fault>(e@) || (
                        x.result is Ok && rebuilt(x.store) == Err::<Store, Fault>(e@)))
                    },
                }
            }),
{
    let device_id = ensure_device_id(db)?;
    let mut hlc = Hlc::new(device_id.as_str());
    let ghost x = opening(old(db)@, device_id@, physical_now);
    rehydrate_from_log(db, &mut hlc, physical_now)?;
    ensure_seeded(db, &mut hlc, physical_now, device_id.as_str())?;
    rebuild(db)?;
    Ok(hlc)
}

} // verus!
