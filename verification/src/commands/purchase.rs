//! Commands on purchases.

use crate::commands::{
    carried_out, commit_event, judged, overflow, payload_of, refusal, reject, scene, CommandContext,
    CommandError, Refusal,
};
use crate::commands::guards::{
    amount_non_negative, at_least_one, check_amount_non_negative, check_at_least_one_line,
    check_invoice_not_reversed, check_lot_item_match, check_qty_positive,
    check_seeded_party_cash_only, check_terms, find_party_kind, invoice_not_reversed,
    lot_item_match, party_kind, qty_positive, seeded_party_cash_only, taken, terms_valid, LotDemand,
    Verdict,
};
use crate::error::DbError;
use crate::events::LedgerEvent;
use crate::json::{elements_of, Fields, Json, JsonV};
use crate::model::{plus, product, Text};
use crate::rows::{find, holds, rows};
use crate::tables::{ReadModel, Tables};
use crate::text::{decimal_u64, digits, same};
use vstd::prelude::*;
use vstd::string::*;

verus! {

/// One line of a purchase.
#[derive(Debug)]
#[verifier::ext_equal]
pub struct PurchaseLineInput<S = String> {
    pub item_id: S,
    pub qty: i64,
    pub unit_cost_minor: i64,
}

impl View for PurchaseLineInput {
    type V = PurchaseLineInput<Seq<char>>;

    open spec fn view(&self) -> PurchaseLineInput<Seq<char>> {
        PurchaseLineInput {
            item_id: self.item_id@,
            qty: self.qty,
            unit_cost_minor: self.unit_cost_minor,
        }
    }
}

pub open spec fn supplier_valid(m: ReadModel, party: Text) -> Verdict {
    match party_kind(m, party) {
        Err(e) => Err(e),
        Ok(None) => Err(refusal("unknown party: "@ + party)),
        Ok(Some(k)) => if k == "both"@ || k == "supplier"@ {
            Ok(())
        } else {
            Err(refusal("party "@ + party + " kind '"@ + k + "' not in [\"supplier\"]"@))
        },
    }
}

/// A purchase is from a supplier.
fn ensure_supplier(t: &Tables, party_id: &str) -> (r: Result<(), CommandError>)
    ensures
        judged(r) == supplier_valid(t@, party_id@),
{
    match find_party_kind(t, party_id)? {
        None => Err(reject("unknown party: ".to_owned().concat(party_id))),
        Some(k) => if same(k, "both") || same(k, "supplier") {
            Ok(())
        } else {
            Err(
                reject(
                    "party ".to_owned().concat(party_id).concat(" kind '").concat(k).concat(
                        "' not in [\"supplier\"]",
                    ),
                ),
            )
        },
    }
}

pub open spec fn item_known(m: ReadModel, item: Text) -> Verdict {
    if holds(m.items, item) {
        Ok(())
    } else {
        Err(refusal("unknown item: "@ + item))
    }
}

/// A line names an item that is defined.
pub fn ensure_item(t: &Tables, item_id: &str) -> (r: Result<(), CommandError>)
    ensures
        judged(r) == item_known(t@, item_id@),
{
    if find(&t.items, item_id).is_some() {
        Ok(())
    } else {
        Err(reject("unknown item: ".to_owned().concat(item_id)))
    }
}

/// Every line from line `i` on has a positive quantity, a cost that is not negative
/// and a known item.
pub open spec fn purchase_lines_valid(
    m: ReadModel,
    lines: Seq<PurchaseLineInput<Text>>,
    i: int,
) -> Verdict
    decreases lines.len() - i,
{
    if i >= lines.len() {
        Ok(())
    } else {
        match qty_positive(lines[i].qty) {
            Err(e) => Err(e),
            Ok(_) => match amount_non_negative(lines[i].unit_cost_minor) {
                Err(e) => Err(e),
                Ok(_) => match item_known(m, lines[i].item_id) {
                    Err(e) => Err(e),
                    Ok(_) => purchase_lines_valid(m, lines, i + 1),
                },
            },
        }
    }
}

/// What the lines of a purchase cost.
pub open spec fn purchase_total(lines: Seq<PurchaseLineInput<Text>>) -> Option<i64>
    decreases lines.len(),
{
    if lines.len() == 0 {
        Some(0)
    } else {
        plus(
            purchase_total(lines.drop_last()),
            product(lines.last().qty, lines.last().unit_cost_minor),
        )
    }
}

/// The id of the lot that line `i` of a document creates.
pub open spec fn lot_name(document: Text, i: nat) -> Text {
    document + "#lot"@ + digits(i)
}

/// The id of the lot that line `i` of a document creates.
pub fn name_lot(document: &str, i: usize) -> (r: String)
    ensures
        r@ == lot_name(document@, i as nat),
{
    document.to_owned().concat("#lot").concat(decimal_u64(i as u64).as_str())
}

pub open spec fn purchase_line_json(id: Text, l: PurchaseLineInput<Text>, i: nat) -> JsonV {
    JsonV::Object(
        Map::empty().insert("itemId"@, JsonV::Str(l.item_id)).insert(
            "qty"@,
            JsonV::Int(l.qty as int),
        ).insert("unitCostMinor"@, JsonV::Int(l.unit_cost_minor as int)).insert(
            "lotId"@,
            JsonV::Str(lot_name(id, i)),
        ),
    )
}

/// The payload of a purchase, or why it is refused.
pub open spec fn purchase_request(
    m: ReadModel,
    id: Text,
    supplier: Text,
    date: Text,
    terms: Text,
    lines: Seq<PurchaseLineInput<Text>>,
) -> Result<JsonV, Refusal> {
    match at_least_one(lines.len()) {
        Err(e) => Err(e),
        Ok(_) => match terms_valid(terms) {
            Err(e) => Err(e),
            Ok(_) => match seeded_party_cash_only(supplier, terms) {
                Err(e) => Err(e),
                Ok(_) => match supplier_valid(m, supplier) {
                    Err(e) => Err(e),
                    Ok(_) => match purchase_lines_valid(m, lines, 0) {
                        Err(e) => Err(e),
                        Ok(_) => match purchase_total(lines) {
                            None => Err(overflow()),
                            Some(total) => Ok(
                                purchase_payload(id, supplier, date, terms, total, lines),
                            ),
                        },
                    },
                },
            },
        },
    }
}

pub open spec fn purchase_payload(
    id: Text,
    supplier: Text,
    date: Text,
    terms: Text,
    total: i64,
    lines: Seq<PurchaseLineInput<Text>>,
) -> JsonV {
    JsonV::Object(
        Map::empty().insert("purchaseId"@, JsonV::Str(id)).insert(
            "supplierId"@,
            JsonV::Str(supplier),
        ).insert("date"@, JsonV::Str(date)).insert("terms"@, JsonV::Str(terms)).insert(
            "totalMinor"@,
            JsonV::Int(total as int),
        ).insert(
            "lines"@,
            JsonV::Array(
                Seq::new(lines.len(), |i: int| purchase_line_json(id, lines[i], i as nat)),
            ),
        ),
    )
}

fn total_cost(lines: &Vec<PurchaseLineInput>) -> (r: Option<i64>)
    ensures
        r == purchase_total(rows(lines@)),
{
    let ghost ls = rows(lines@);
    let mut total: Option<i64> = Some(0);
    let mut i: usize = 0;
    while i < lines.len()
        invariant
            i <= lines@.len(),
            ls == rows(lines@),
            total == purchase_total(ls.take(i as int)),
        decreases lines@.len() - i,
    {
        assert(ls.take(i + 1).drop_last() =~= ls.take(i as int));
        assert(ls.take(i + 1).last() == lines@[i as int]@);
        total = match (total, lines[i].qty.checked_mul(lines[i].unit_cost_minor)) {
            (Some(a), Some(b)) => a.checked_add(b),
            _ => None,
        };
        i += 1;
    }
    assert(ls.take(ls.len() as int) =~= ls);
    total
}

fn validate_purchase(
    t: &Tables,
    purchase_id: &str,
    supplier_id: &str,
    date: &str,
    terms: &str,
    lines: &Vec<PurchaseLineInput>,
) -> (r: Result<Json, CommandError>)
    ensures
        payload_of(r) == purchase_request(
            t@,
            purchase_id@,
            supplier_id@,
            date@,
            terms@,
            rows(lines@),
        ),
{
    let ghost ls = rows(lines@);
    check_at_least_one_line(lines.as_slice())?;
    check_terms(terms)?;
    check_seeded_party_cash_only(supplier_id, terms)?;
    ensure_supplier(t, supplier_id)?;
    let mut out: Vec<Json> = Vec::new();
    let ghost goal = purchase_request(t@, purchase_id@, supplier_id@, date@, terms@, ls);
    let mut i: usize = 0;
    while i < lines.len()
        invariant
            i <= lines@.len(),
            ls == rows(lines@),
            goal == purchase_request(t@, purchase_id@, supplier_id@, date@, terms@, ls),
            goal == (match purchase_lines_valid(t@, ls, i as int) {
                Err(e) => Err(e),
                Ok(_) => match purchase_total(ls) {
                    None => Err(overflow()),
                    Some(total) => Ok(
                        purchase_payload(purchase_id@, supplier_id@, date@, terms@, total, ls),
                    ),
                },
            }),
            out@.len() == i,
            forall|k: int|
                0 <= k < i ==> (#[trigger] out@[k])@ == purchase_line_json(
                    purchase_id@,
                    ls[k],
                    k as nat,
                ),
        decreases lines@.len() - i,
    {
        let l = &lines[i];
        assert(ls[i as int] == l@);
        check_qty_positive(l.qty)?;
        check_amount_non_negative(l.unit_cost_minor)?;
        ensure_item(t, l.item_id.as_str())?;
        let lot = name_lot(purchase_id, i);
        let j = Fields::new().text("itemId", l.item_id.as_str()).number("qty", l.qty).number(
            "unitCostMinor",
            l.unit_cost_minor,
        ).text("lotId", lot.as_str()).done();
        out.push(j);
        i += 1;
    }
    let total: i64 = match total_cost(lines) {
        Some(v) => v,
        None => {
            return Err(CommandError::Db(DbError::Overflow));
        },
    };
    assert(elements_of(out@) =~= Seq::new(
        ls.len(),
        |k: int| purchase_line_json(purchase_id@, ls[k], k as nat),
    ));
    Ok(
        Fields::new().text("purchaseId", purchase_id).text("supplierId", supplier_id).text(
            "date",
            date,
        ).text("terms", terms).number("totalMinor", total).array("lines", out).done(),
    )
}

/// Records a purchase from a supplier; every line creates a lot.
pub fn handle_purchase_recorded(
    ctx: &mut CommandContext,
    purchase_id: &str,
    supplier_id: &str,
    date: &str,
    terms: &str,
    lines: Vec<PurchaseLineInput>,
) -> (r: Result<LedgerEvent, CommandError>)
    ensures
        carried_out(
            scene(old(ctx)),
            scene(final(ctx)),
            r,
            "PurchaseRecorded"@,
            purchase_request(
                old(ctx).conn@.model,
                purchase_id@,
                supplier_id@,
                date@,
                terms@,
                rows(lines@),
            ),
        ),
        *final(final(ctx).conn) == *final(old(ctx).conn),
        *final(final(ctx).hlc) == *final(old(ctx).hlc),
{
    let payload = validate_purchase(
        &ctx.conn.tables,
        purchase_id,
        supplier_id,
        date,
        terms,
        &lines,
    )?;
    commit_event(ctx, "PurchaseRecorded", payload)
}

/// One line of a purchase return.
#[derive(Debug)]
#[verifier::ext_equal]
pub struct PurchaseReturnLineInput<S = String> {
    pub item_id: S,
    pub lot_id: S,
    pub qty: i64,
    pub unit_cost_minor: i64,
}

impl View for PurchaseReturnLineInput {
    type V = PurchaseReturnLineInput<Seq<char>>;

    open spec fn view(&self) -> PurchaseReturnLineInput<Seq<char>> {
        PurchaseReturnLineInput {
            item_id: self.item_id@,
            lot_id: self.lot_id@,
            qty: self.qty,
            unit_cost_minor: self.unit_cost_minor,
        }
    }
}

/// Every return line from line `i` on takes units that its lot still holds, beside
/// what the lines before claimed.
pub open spec fn return_lines_valid(
    m: ReadModel,
    lines: Seq<PurchaseReturnLineInput<Text>>,
    d: Map<Text, i64>,
    i: int,
) -> Verdict
    decreases lines.len() - i,
{
    if i >= lines.len() {
        Ok(())
    } else {
        let l = lines[i];
        match qty_positive(l.qty) {
            Err(e) => Err(e),
            Ok(_) => match amount_non_negative(l.unit_cost_minor) {
                Err(e) => Err(e),
                Ok(_) => match lot_item_match(m, l.lot_id, l.item_id) {
                    Err(e) => Err(e),
                    Ok(_) => match taken(m, d, l.lot_id, l.qty) {
                        Err(e) => Err(e),
                        Ok(d) => return_lines_valid(m, lines, d, i + 1),
                    },
                },
            },
        }
    }
}

pub open spec fn purchase_return_line_json(l: PurchaseReturnLineInput<Text>) -> JsonV {
    JsonV::Object(
        Map::empty().insert("itemId"@, JsonV::Str(l.item_id)).insert(
            "lotId"@,
            JsonV::Str(l.lot_id),
        ).insert("qty"@, JsonV::Int(l.qty as int)).insert(
            "unitCostMinor"@,
            JsonV::Int(l.unit_cost_minor as int),
        ),
    )
}

pub open spec fn purchase_return_payload(
    id: Text,
    original: Text,
    date: Text,
    lines: Seq<PurchaseReturnLineInput<Text>>,
) -> JsonV {
    JsonV::Object(
        Map::empty().insert("returnId"@, JsonV::Str(id)).insert(
            "originalPurchaseId"@,
            JsonV::Str(original),
        ).insert("date"@, JsonV::Str(date)).insert(
            "lines"@,
            JsonV::Array(Seq::new(lines.len(), |i: int| purchase_return_line_json(lines[i]))),
        ),
    )
}

/// The payload of a purchase return, or why it is refused.
pub open spec fn purchase_return_request(
    m: ReadModel,
    id: Text,
    original: Text,
    date: Text,
    lines: Seq<PurchaseReturnLineInput<Text>>,
) -> Result<JsonV, Refusal> {
    match at_least_one(lines.len()) {
        Err(e) => Err(e),
        Ok(_) => if !holds(m.purchases, original) {
            Err(refusal("unknown purchase: "@ + original))
        } else {
            match invoice_not_reversed(m, "purchases"@, original) {
                Err(e) => Err(e),
                Ok(_) => match return_lines_valid(m, lines, Map::empty(), 0) {
                    Err(e) => Err(e),
                    Ok(_) => Ok(purchase_return_payload(id, original, date, lines)),
                },
            }
        },
    }
}

fn validate_purchase_return(
    t: &Tables,
    return_id: &str,
    original_purchase_id: &str,
    date: &str,
    lines: &Vec<PurchaseReturnLineInput>,
) -> (r: Result<Json, CommandError>)
    ensures
        payload_of(r) == purchase_return_request(
            t@,
            return_id@,
            original_purchase_id@,
            date@,
            rows(lines@),
        ),
{
    let ghost ls = rows(lines@);
    check_at_least_one_line(lines.as_slice())?;
    if find(&t.purchases, original_purchase_id).is_none() {
        return Err(reject("unknown purchase: ".to_owned().concat(original_purchase_id)));
    }
    check_invoice_not_reversed(t, "purchases", original_purchase_id)?;
    let mut demand = LotDemand::new();
    let mut out: Vec<Json> = Vec::new();
    let ghost goal = purchase_return_request(t@, return_id@, original_purchase_id@, date@, ls);
    let mut i: usize = 0;
    while i < lines.len()
        invariant
            i <= lines@.len(),
            ls == rows(lines@),
            goal == purchase_return_request(t@, return_id@, original_purchase_id@, date@, ls),
            goal == (match return_lines_valid(t@, ls, demand@, i as int) {
                Err(e) => Err(e),
                Ok(_) => Ok(
                    purchase_return_payload(return_id@, original_purchase_id@, date@, ls),
                ),
            }),
            out@.len() == i,
            forall|k: int|
                0 <= k < i ==> (#[trigger] out@[k])@ == purchase_return_line_json(ls[k]),
        decreases lines@.len() - i,
    {
        let l = &lines[i];
        assert(ls[i as int] == l@);
        check_qty_positive(l.qty)?;
        check_amount_non_negative(l.unit_cost_minor)?;
        check_lot_item_match(t, l.lot_id.as_str(), l.item_id.as_str())?;
        demand.take(t, l.lot_id.as_str(), l.qty)?;
        let j = Fields::new().text("itemId", l.item_id.as_str()).text(
            "lotId",
            l.lot_id.as_str(),
        ).number("qty", l.qty).number("unitCostMinor", l.unit_cost_minor).done();
        out.push(j);
        i += 1;
    }
    assert(elements_of(out@) =~= Seq::new(
        ls.len(),
        |k: int| purchase_return_line_json(ls[k]),
    ));
    Ok(
        Fields::new().text("returnId", return_id).text(
            "originalPurchaseId",
            original_purchase_id,
        ).text("date", date).array("lines", out).done(),
    )
}

/// Records goods given back to a supplier.
pub fn handle_purchase_return_recorded(
    ctx: &mut CommandContext,
    return_id: &str,
    original_purchase_id: &str,
    date: &str,
    lines: Vec<PurchaseReturnLineInput>,
) -> (r: Result<LedgerEvent, CommandError>)
    ensures
        carried_out(
            scene(old(ctx)),
            scene(final(ctx)),
            r,
            "PurchaseReturnRecorded"@,
            purchase_return_request(
                old(ctx).conn@.model,
                return_id@,
                original_purchase_id@,
                date@,
                rows(lines@),
            ),
        ),
        *final(final(ctx).conn) == *final(old(ctx).conn),
        *final(final(ctx).hlc) == *final(old(ctx).hlc),
{
    let payload = validate_purchase_return(
        &ctx.conn.tables,
        return_id,
        original_purchase_id,
        date,
        &lines,
    )?;
    commit_event(ctx, "PurchaseReturnRecorded", payload)
}

} // verus!
