//! Commands that move money between accounts or correct stock.

use crate::commands::{
    carried_out, commit_event, judged, overflow, payload_of, refusal, reject, scene, CommandContext,
    CommandError, Refusal,
};
use crate::commands::guards::{
    amount_non_negative, amount_positive, at_least_one, check_amount_non_negative,
    check_amount_positive, check_at_least_one_line, check_expense_account_type,
    check_lot_item_match, check_qty_positive, check_seeded_party_cash_only, check_self_transfer,
    check_terms, expense_account_type, find_party_kind, lot_item_match, party_kind, qty_positive,
    seeded_party_cash_only, self_transfer, taken, terms_valid, LotDemand, Verdict,
};
use crate::commands::purchase::{ensure_item, item_known, lot_name, name_lot};
use crate::commands::setup::{opt_text, with_opt};
use crate::error::DbError;
use crate::events::LedgerEvent;
use crate::json::{elements_of, Fields, Json, JsonV};
use crate::model::Text;
use crate::rows::{find, holds, opt_str, rows};
use crate::tables::{ReadModel, Tables};
use crate::text::{dec, decimal, same};
use vstd::prelude::*;
use vstd::string::*;

verus! {

/// One lot that stock is written off from.
#[derive(Debug)]
#[verifier::ext_equal]
pub struct AdjustLineInput<S = String> {
    pub item_id: S,
    pub lot_id: S,
    pub qty_delta: i64,
    pub reason_code: S,
    pub expense_account_id: S,
}

impl View for AdjustLineInput {
    type V = AdjustLineInput<Seq<char>>;

    open spec fn view(&self) -> AdjustLineInput<Seq<char>> {
        AdjustLineInput {
            item_id: self.item_id@,
            lot_id: self.lot_id@,
            qty_delta: self.qty_delta,
            reason_code: self.reason_code@,
            expense_account_id: self.expense_account_id@,
        }
    }
}

/// Stock of one item that was found.
#[derive(Debug)]
#[verifier::ext_equal]
pub struct FoundLineInput<S = String> {
    pub item_id: S,
    pub qty: i64,
    pub unit_cost_minor: i64,
    pub acquired_at: S,
    pub income_account_id: S,
}

impl View for FoundLineInput {
    type V = FoundLineInput<Seq<char>>;

    open spec fn view(&self) -> FoundLineInput<Seq<char>> {
        FoundLineInput {
            item_id: self.item_id@,
            qty: self.qty,
            unit_cost_minor: self.unit_cost_minor,
            acquired_at: self.acquired_at@,
            income_account_id: self.income_account_id@,
        }
    }
}

pub open spec fn account_known(m: ReadModel, account: Text) -> Verdict {
    if holds(m.accounts, account) {
        Ok(())
    } else {
        Err(refusal("unknown account: "@ + account))
    }
}

fn ensure_account(t: &Tables, account_id: &str) -> (r: Result<(), CommandError>)
    ensures
        judged(r) == account_known(t@, account_id@),
{
    if find(&t.accounts, account_id).is_some() {
        Ok(())
    } else {
        Err(reject("unknown account: ".to_owned().concat(account_id)))
    }
}

/// A credit expense is owed to a supplier, and to none of the seeded parties; a cash
/// expense to nobody.
pub open spec fn expense_supplier_valid(
    m: ReadModel,
    terms: Text,
    supplier: Option<Text>,
) -> Verdict {
    if terms == "credit"@ {
        match supplier {
            None => Err(refusal("credit expense requires a supplierId"@)),
            Some(s) => match party_kind(m, s) {
                Err(e) => Err(e),
                Ok(None) => Err(refusal("unknown supplier: "@ + s)),
                Ok(Some(k)) => if k == "supplier"@ || k == "both"@ {
                    seeded_party_cash_only(s, terms)
                } else {
                    Err(refusal("party "@ + s + " is not a supplier"@))
                },
            },
        }
    } else if supplier is Some {
        Err(refusal("cash expense must not carry a supplierId"@))
    } else {
        Ok(())
    }
}

fn check_expense_supplier(t: &Tables, terms: &str, supplier_id: Option<&str>) -> (r: Result<
    (),
    CommandError,
>)
    ensures
        judged(r) == expense_supplier_valid(t@, terms@, opt_str(supplier_id)),
{
    if same(terms, "credit") {
        match supplier_id {
            None => Err(reject("credit expense requires a supplierId".to_owned())),
            Some(s) => match find_party_kind(t, s)? {
                None => Err(reject("unknown supplier: ".to_owned().concat(s))),
                Some(k) => if same(k, "supplier") || same(k, "both") {
                    check_seeded_party_cash_only(s, terms)
                } else {
                    Err(reject("party ".to_owned().concat(s).concat(" is not a supplier")))
                },
            },
        }
    } else if supplier_id.is_some() {
        Err(reject("cash expense must not carry a supplierId".to_owned()))
    } else {
        Ok(())
    }
}

/// The payload of an expense, or why it is refused.
pub open spec fn expense_request(
    m: ReadModel,
    id: Text,
    account: Text,
    amount: i64,
    date: Text,
    terms: Text,
    supplier: Option<Text>,
    memo: Option<Text>,
) -> Result<JsonV, Refusal> {
    match amount_positive(amount) {
        Err(e) => Err(e),
        Ok(_) => match terms_valid(terms) {
            Err(e) => Err(e),
            Ok(_) => match expense_account_type(m, account) {
                Err(e) => Err(e),
                Ok(_) => match expense_supplier_valid(m, terms, supplier) {
                    Err(e) => Err(e),
                    Ok(_) => Ok(
                        JsonV::Object(
                            with_opt(
                                with_opt(
                                    Map::empty().insert("expenseId"@, JsonV::Str(id)).insert(
                                        "accountId"@,
                                        JsonV::Str(account),
                                    ).insert("amountMinor"@, JsonV::Int(amount as int)).insert(
                                        "date"@,
                                        JsonV::Str(date),
                                    ).insert("terms"@, JsonV::Str(terms)),
                                    "supplierId"@,
                                    supplier,
                                ),
                                "memo"@,
                                memo,
                            ),
                        ),
                    ),
                },
            },
        },
    }
}

/// Records an expense.
pub fn handle_expense_recorded(
    ctx: &mut CommandContext,
    expense_id: &str,
    account_id: &str,
    amount_minor: i64,
    date: &str,
    terms: &str,
    supplier_id: Option<&str>,
    memo: Option<&str>,
) -> (r: Result<LedgerEvent, CommandError>)
    ensures
        carried_out(
            scene(old(ctx)),
            scene(final(ctx)),
            r,
            "ExpenseRecorded"@,
            expense_request(
                old(ctx).conn@.model,
                expense_id@,
                account_id@,
                amount_minor,
                date@,
                terms@,
                opt_str(supplier_id),
                opt_str(memo),
            ),
        ),
        *final(final(ctx).conn) == *final(old(ctx).conn),
        *final(final(ctx).hlc) == *final(old(ctx).hlc),
{
    check_amount_positive(amount_minor)?;
    check_terms(terms)?;
    check_expense_account_type(&ctx.conn.tables, account_id)?;
    check_expense_supplier(&ctx.conn.tables, terms, supplier_id)?;
    let f = Fields::new().text("expenseId", expense_id).text("accountId", account_id).number(
        "amountMinor",
        amount_minor,
    ).text("date", date).text("terms", terms);
    let p = opt_text(opt_text(f, "supplierId", supplier_id), "memo", memo).done();
    commit_event(ctx, "ExpenseRecorded", p)
}

/// The payload of a transfer, or why it is refused.
pub open spec fn transfer_request(
    m: ReadModel,
    id: Text,
    from: Text,
    to: Text,
    amount: i64,
    date: Text,
    memo: Option<Text>,
) -> Result<JsonV, Refusal> {
    match amount_positive(amount) {
        Err(e) => Err(e),
        Ok(_) => match self_transfer(from, to) {
            Err(e) => Err(e),
            Ok(_) => match account_known(m, from) {
                Err(e) => Err(e),
                Ok(_) => match account_known(m, to) {
                    Err(e) => Err(e),
                    Ok(_) => Ok(
                        JsonV::Object(
                            with_opt(
                                Map::empty().insert("transferId"@, JsonV::Str(id)).insert(
                                    "fromAccountId"@,
                                    JsonV::Str(from),
                                ).insert("toAccountId"@, JsonV::Str(to)).insert(
                                    "amountMinor"@,
                                    JsonV::Int(amount as int),
                                ).insert("date"@, JsonV::Str(date)),
                                "memo"@,
                                memo,
                            ),
                        ),
                    ),
                },
            },
        },
    }
}

/// Records a transfer between accounts.
pub fn handle_transfer_recorded(
    ctx: &mut CommandContext,
    transfer_id: &str,
    from_account_id: &str,
    to_account_id: &str,
    amount_minor: i64,
    date: &str,
    memo: Option<&str>,
) -> (r: Result<LedgerEvent, CommandError>)
    ensures
        carried_out(
            scene(old(ctx)),
            scene(final(ctx)),
            r,
            "TransferRecorded"@,
            transfer_request(
                old(ctx).conn@.model,
                transfer_id@,
                from_account_id@,
                to_account_id@,
                amount_minor,
                date@,
                opt_str(memo),
            ),
        ),
        *final(final(ctx).conn) == *final(old(ctx).conn),
        *final(final(ctx).hlc) == *final(old(ctx).hlc),
{
    check_amount_positive(amount_minor)?;
    check_self_transfer(from_account_id, to_account_id)?;
    ensure_account(&ctx.conn.tables, from_account_id)?;
    ensure_account(&ctx.conn.tables, to_account_id)?;
    let f = Fields::new().text("transferId", transfer_id).text(
        "fromAccountId",
        from_account_id,
    ).text("toAccountId", to_account_id).number("amountMinor", amount_minor).text("date", date);
    let p = opt_text(f, "memo", memo).done();
    commit_event(ctx, "TransferRecorded", p)
}

/// Every write-off from line `i` on takes units that its lot still holds, beside what
/// the lines before claimed.
pub open spec fn adjust_lines_valid(
    m: ReadModel,
    lines: Seq<AdjustLineInput<Text>>,
    d: Map<Text, i64>,
    i: int,
) -> Verdict
    decreases lines.len() - i,
{
    if i >= lines.len() {
        Ok(())
    } else {
        let l = lines[i];
        if l.qty_delta >= 0 {
            Err(
                refusal(
                    "InventoryAdjusted qtyDelta must be < 0, got "@ + dec(l.qty_delta as int),
                ),
            )
        } else {
            match expense_account_type(m, l.expense_account_id) {
                Err(e) => Err(e),
                Ok(_) => match lot_item_match(m, l.lot_id, l.item_id) {
                    Err(e) => Err(e),
                    Ok(_) => if l.qty_delta == i64::MIN {
                        Err(overflow())
                    } else {
                        match taken(m, d, l.lot_id, (-l.qty_delta) as i64) {
                            Err(e) => Err(e),
                            Ok(d) => adjust_lines_valid(m, lines, d, i + 1),
                        }
                    },
                },
            }
        }
    }
}

pub open spec fn adjust_line_json(l: AdjustLineInput<Text>) -> JsonV {
    JsonV::Object(
        Map::empty().insert("itemId"@, JsonV::Str(l.item_id)).insert(
            "lotId"@,
            JsonV::Str(l.lot_id),
        ).insert("qtyDelta"@, JsonV::Int(l.qty_delta as int)).insert(
            "reasonCode"@,
            JsonV::Str(l.reason_code),
        ).insert("expenseAccountId"@, JsonV::Str(l.expense_account_id)),
    )
}

pub open spec fn adjust_payload(id: Text, date: Text, lines: Seq<AdjustLineInput<Text>>) -> JsonV {
    JsonV::Object(
        Map::empty().insert("adjustmentId"@, JsonV::Str(id)).insert(
            "date"@,
            JsonV::Str(date),
        ).insert(
            "lines"@,
            JsonV::Array(Seq::new(lines.len(), |i: int| adjust_line_json(lines[i]))),
        ),
    )
}

/// The payload of a stock write-off, or why it is refused.
pub open spec fn adjust_request(
    m: ReadModel,
    id: Text,
    date: Text,
    lines: Seq<AdjustLineInput<Text>>,
) -> Result<JsonV, Refusal> {
    match at_least_one(lines.len()) {
        Err(e) => Err(e),
        Ok(_) => match adjust_lines_valid(m, lines, Map::empty(), 0) {
            Err(e) => Err(e),
            Ok(_) => Ok(adjust_payload(id, date, lines)),
        },
    }
}

fn validate_adjustment(
    t: &Tables,
    adjustment_id: &str,
    date: &str,
    lines: &Vec<AdjustLineInput>,
) -> (r: Result<Json, CommandError>)
    ensures
        payload_of(r) == adjust_request(t@, adjustment_id@, date@, rows(lines@)),
{
    let ghost ls = rows(lines@);
    check_at_least_one_line(lines.as_slice())?;
    let mut demand = LotDemand::new();
    let mut out: Vec<Json> = Vec::new();
    let mut i: usize = 0;
    while i < lines.len()
        invariant
            i <= lines@.len(),
            lines@.len() > 0,
            ls == rows(lines@),
            adjust_lines_valid(t@, ls, demand@, i as int) == adjust_lines_valid(
                t@,
                ls,
                Map::empty(),
                0,
            ),
            out@.len() == i,
            forall|k: int| 0 <= k < i ==> (#[trigger] out@[k])@ == adjust_line_json(ls[k]),
        decreases lines@.len() - i,
    {
        let l = &lines[i];
        assert(ls[i as int] == l@);
        if l.qty_delta >= 0 {
            return Err(
                reject(
                    "InventoryAdjusted qtyDelta must be < 0, got ".to_owned().concat(
                        decimal(l.qty_delta).as_str(),
                    ),
                ),
            );
        }
        check_expense_account_type(t, l.expense_account_id.as_str())?;
        check_lot_item_match(t, l.lot_id.as_str(), l.item_id.as_str())?;
        if l.qty_delta == i64::MIN {
            return Err(CommandError::Db(DbError::Overflow));
        }
        demand.take(t, l.lot_id.as_str(), -l.qty_delta)?;
        let j = Fields::new().text("itemId", l.item_id.as_str()).text(
            "lotId",
            l.lot_id.as_str(),
        ).number("qtyDelta", l.qty_delta).text("reasonCode", l.reason_code.as_str()).text(
            "expenseAccountId",
            l.expense_account_id.as_str(),
        ).done();
        out.push(j);
        i += 1;
    }
    assert(elements_of(out@) =~= Seq::new(ls.len(), |k: int| adjust_line_json(ls[k])));
    Ok(
        Fields::new().text("adjustmentId", adjustment_id).text("date", date).array(
            "lines",
            out,
        ).done(),
    )
}

/// Writes stock off.
pub fn handle_inventory_adjusted(
    ctx: &mut CommandContext,
    adjustment_id: &str,
    date: &str,
    lines: Vec<AdjustLineInput>,
) -> (r: Result<LedgerEvent, CommandError>)
    ensures
        carried_out(
            scene(old(ctx)),
            scene(final(ctx)),
            r,
            "InventoryAdjusted"@,
            adjust_request(old(ctx).conn@.model, adjustment_id@, date@, rows(lines@)),
        ),
        *final(final(ctx).conn) == *final(old(ctx).conn),
        *final(final(ctx).hlc) == *final(old(ctx).hlc),
{
    let payload = validate_adjustment(&ctx.conn.tables, adjustment_id, date, &lines)?;
    commit_event(ctx, "InventoryAdjusted", payload)
}

/// Every found line from line `i` on has a positive quantity, a cost that is not
/// negative, a known account and a known item.
pub open spec fn found_lines_valid(
    m: ReadModel,
    lines: Seq<FoundLineInput<Text>>,
    i: int,
) -> Verdict
    decreases lines.len() - i,
{
    if i >= lines.len() {
        Ok(())
    } else {
        let l = lines[i];
        match qty_positive(l.qty) {
            Err(e) => Err(e),
            Ok(_) => match amount_non_negative(l.unit_cost_minor) {
                Err(e) => Err(e),
                Ok(_) => match account_known(m, l.income_account_id) {
                    Err(e) => Err(e),
                    Ok(_) => match item_known(m, l.item_id) {
                        Err(e) => Err(e),
                        Ok(_) => found_lines_valid(m, lines, i + 1),
                    },
                },
            },
        }
    }
}

pub open spec fn found_line_json(id: Text, l: FoundLineInput<Text>, i: nat) -> JsonV {
    JsonV::Object(
        Map::empty().insert("itemId"@, JsonV::Str(l.item_id)).insert(
            "lotId"@,
            JsonV::Str(lot_name(id, i)),
        ).insert("qty"@, JsonV::Int(l.qty as int)).insert(
            "unitCostMinor"@,
            JsonV::Int(l.unit_cost_minor as int),
        ).insert("acquiredAt"@, JsonV::Str(l.acquired_at)).insert(
            "incomeAccountId"@,
            JsonV::Str(l.income_account_id),
        ),
    )
}

pub open spec fn found_payload(id: Text, date: Text, lines: Seq<FoundLineInput<Text>>) -> JsonV {
    JsonV::Object(
        Map::empty().insert("foundId"@, JsonV::Str(id)).insert("date"@, JsonV::Str(date)).insert(
            "lines"@,
            JsonV::Array(
                Seq::new(lines.len(), |i: int| found_line_json(id, lines[i], i as nat)),
            ),
        ),
    )
}

/// The payload of found stock, or why it is refused.
pub open spec fn found_request(
    m: ReadModel,
    id: Text,
    date: Text,
    lines: Seq<FoundLineInput<Text>>,
) -> Result<JsonV, Refusal> {
    match at_least_one(lines.len()) {
        Err(e) => Err(e),
        Ok(_) => match found_lines_valid(m, lines, 0) {
            Err(e) => Err(e),
            Ok(_) => Ok(found_payload(id, date, lines)),
        },
    }
}

fn validate_found(t: &Tables, found_id: &str, date: &str, lines: &Vec<FoundLineInput>) -> (r:
    Result<Json, CommandError>)
    ensures
        payload_of(r) == found_request(t@, found_id@, date@, rows(lines@)),
{
    let ghost ls = rows(lines@);
    check_at_least_one_line(lines.as_slice())?;
    let mut out: Vec<Json> = Vec::new();
    let mut i: usize = 0;
    while i < lines.len()
        invariant
            i <= lines@.len(),
            lines@.len() > 0,
            ls == rows(lines@),
            found_lines_valid(t@, ls, i as int) == found_lines_valid(t@, ls, 0),
            out@.len() == i,
            forall|k: int|
                0 <= k < i ==> (#[trigger] out@[k])@ == found_line_json(
                    found_id@,
                    ls[k],
                    k as nat,
                ),
        decreases lines@.len() - i,
    {
        let l = &lines[i];
        assert(ls[i as int] == l@);
        check_qty_positive(l.qty)?;
        check_amount_non_negative(l.unit_cost_minor)?;
        ensure_account(t, l.income_account_id.as_str())?;
        ensure_item(t, l.item_id.as_str())?;
        let lot = name_lot(found_id, i);
        let j = Fields::new().text("itemId", l.item_id.as_str()).text(
            "lotId",
            lot.as_str(),
        ).number("qty", l.qty).number("unitCostMinor", l.unit_cost_minor).text(
            "acquiredAt",
            l.acquired_at.as_str(),
        ).text("incomeAccountId", l.income_account_id.as_str()).done();
        out.push(j);
        i += 1;
    }
    assert(elements_of(out@) =~= Seq::new(
        ls.len(),
        |k: int| found_line_json(found_id@, ls[k], k as nat),
    ));
    Ok(Fields::new().text("foundId", found_id).text("date", date).array("lines", out).done())
}

/// Takes found stock in.
pub fn handle_inventory_found(
    ctx: &mut CommandContext,
    found_id: &str,
    date: &str,
    lines: Vec<FoundLineInput>,
) -> (r: Result<LedgerEvent, CommandError>)
    ensures
        carried_out(
            scene(old(ctx)),
            scene(final(ctx)),
            r,
            "InventoryFound"@,
            found_request(old(ctx).conn@.model, found_id@, date@, rows(lines@)),
        ),
        *final(final(ctx).conn) == *final(old(ctx).conn),
        *final(final(ctx).hlc) == *final(old(ctx).hlc),
{
    let payload = validate_found(&ctx.conn.tables, found_id, date, &lines)?;
    commit_event(ctx, "InventoryFound", payload)
}

} // verus!
